//! The task of one connection, poll by poll.
use servers::connection::{Action, Notice};
use servers::handler::{belongs, Command, Handler, Link};
use servers::http::response;
use servers::scheduler::{Scheduler, Turn, Waker};
use servers::server::Server;

type Outcome<'a> = servers::connection::Outcome<'a, &'static str>;
type Progress = servers::handler::Progress<&'static str>;

const TASKS: [Server; 2] = [Server::Functional, Server::Asynchronous];
const REQUEST: &[u8] = b"GET / HTTP/1.1\r\n\r\n";
const PENDING: Progress = Progress::Give { out: None, unregister: false };
const DONE: Progress = Progress::Give { out: Some(()), unregister: true };
const GONE: Progress = Progress::Give { out: Some(()), unregister: false };

/// A waker for the task.
fn waker(task: char) -> Waker<char> {
    let mut scheduler = Scheduler::default();
    scheduler.spawn(task);
    match scheduler.run() {
        Turn::Poll { waker, .. } => waker,
        Turn::Wait => panic!("a task was spawned"),
    }
}

/// The task that the waker wakes.
fn woken(waker: &Waker<char>) -> char {
    let mut scheduler = Scheduler::default();
    waker.wake(&mut scheduler);
    match scheduler.run() {
        Turn::Poll { task, .. } => *task,
        Turn::Wait => panic!("a task was woken"),
    }
}

/// What a poll of the handler performs first, past the registration.
fn poll(handler: &Handler<char>) -> Action {
    match handler.poll(waker('x')) {
        Command::Perform(action) => action,
        Command::Register { .. } => panic!("the descriptor is registered already"),
    }
}

/// A handler that has been polled up to where it waits for its request.
fn waiting(server: Server) -> Handler<char> {
    let mut handler = Handler::new(server, 'a', 5);
    match handler.poll(waker('w')) {
        Command::Register { fd, waker } => {
            assert_eq!(fd, 5);
            assert_eq!(woken(&waker), 'w');
        }
        Command::Perform(_) => panic!("the descriptor is registered first"),
    }
    let (progress, notice) = handler.step(Outcome::Registered);
    assert_eq!(progress, Progress::Perform(Action::Read { room: 1024 }));
    assert_eq!(notice, None);
    assert_eq!(handler.step(Outcome::WouldBlock("not yet")), (PENDING, None));
    handler
}

/// A handler that has written its response out.
fn flushing(server: Server) -> Handler<char> {
    let mut handler = waiting(server);
    handler.step(Outcome::Received(REQUEST));
    let (progress, _) = handler.step(Outcome::Sent(69));
    assert_eq!(progress, Progress::Perform(Action::Flush));
    handler
}

#[test]
fn a_whole_request_in_one_poll() {
    for server in TASKS {
        let mut handler = Handler::new(server, 'a', 5);
        assert_eq!(*handler.connection(), 'a');
        assert_eq!(handler.descriptor(), 5);
        let mut printed = Vec::new();
        let mut sent = Vec::new();
        let reads: [&[u8]; 2] = [b"GET / HTTP/1.1\r\n", b"\r\n"];
        let mut reads = reads.iter();
        let mut writes = 0;
        let mut outcome = Outcome::Registered;
        let out = loop {
            assert!(handler.admits(&outcome));
            let (progress, notice) = handler.step(outcome);
            printed.extend(notice.map(|notice| notice.text()));
            outcome = match progress {
                Progress::Perform(Action::Read { .. }) => match reads.next() {
                    Some(chunk) => Outcome::Received(chunk),
                    None => Outcome::WouldBlock("not yet"),
                },
                Progress::Perform(Action::Write { from }) => {
                    writes += 1;
                    sent.extend_from_slice(&response()[from..]);
                    Outcome::Sent(response().len() - from)
                }
                Progress::Perform(_) => Outcome::Flushed,
                Progress::Give { out, unregister } => {
                    assert!(unregister);
                    break out;
                }
                Progress::Fail(_) => panic!("nothing fails"),
            };
        };
        assert_eq!(out, Some(()));
        assert_eq!(printed, ["GET / HTTP/1.1\r\n\r\n"]);
        assert_eq!(sent, response());
        assert_eq!(writes, 1);
        assert_eq!(poll(&handler), Action::Flush);
    }
}

#[test]
fn only_the_first_waker_is_registered() {
    for server in TASKS {
        let mut handler = waiting(server);
        assert_eq!(poll(&handler), Action::Read { room: 1024 });
        assert!(!handler.admits(&Outcome::Registered));
        handler.step(Outcome::Received(REQUEST));
        assert_eq!(handler.step(Outcome::WouldBlock("not yet")), (PENDING, None));
        assert_eq!(poll(&handler), Action::Write { from: 0 });
        handler.step(Outcome::Sent(69));
        assert_eq!(poll(&handler), Action::Flush);
    }
}

#[test]
fn the_last_operation_decides_the_poll() {
    for server in TASKS {
        let broken = Progress::Fail("broken");
        assert_eq!(waiting(server).step(Outcome::WouldBlock("not yet")), (PENDING, None));
        assert_eq!(waiting(server).step(Outcome::Failed("broken")), (broken, None));
        assert_eq!(flushing(server).step(Outcome::Flushed), (DONE, None));
        assert_eq!(flushing(server).step(Outcome::WouldBlock("not yet")), (PENDING, None));
    }
}

#[test]
fn peers_that_leave_end_the_poll() {
    let gone = || Some(Notice::Disconnected { unexpectedly: true });
    let mut handler = waiting(Server::Asynchronous);
    assert_eq!(handler.step(Outcome::Received(&[])), (GONE, gone()));
    let mut handler = waiting(Server::Asynchronous);
    handler.step(Outcome::Received(REQUEST));
    let (progress, _) = handler.step(Outcome::Sent(60));
    assert_eq!(progress, Progress::Perform(Action::Write { from: 60 }));
    assert_eq!(handler.step(Outcome::Sent(0)), (GONE, gone()));

    // The chained task goes on to its next link.
    let mut handler = waiting(Server::Functional);
    let write = Progress::Perform(Action::Write { from: 0 });
    assert_eq!(handler.step(Outcome::Received(&[])), (write, gone()));
    assert_eq!(handler.step(Outcome::Sent(0)), (Progress::Perform(Action::Flush), gone()));
    assert_eq!(handler.step(Outcome::Flushed), (DONE, None));
}

#[test]
fn polls_go_on_from_where_they_stopped() {
    for server in TASKS {
        let mut handler = waiting(server);
        handler.step(Outcome::Received(b"GET /"));
        handler.step(Outcome::WouldBlock("not yet"));
        assert_eq!(poll(&handler), Action::Read { room: 1019 });
        handler.step(Outcome::Received(b" HTTP/1.1\r\n\r\n"));
        handler.step(Outcome::Sent(7));
        handler.step(Outcome::WouldBlock("not yet"));
        assert_eq!(poll(&handler), Action::Write { from: 7 });
        assert!(!handler.admits(&Outcome::Received(b"x")));
        handler.step(Outcome::Sent(62));
        handler.step(Outcome::WouldBlock("not yet"));
        assert_eq!(poll(&handler), Action::Flush);
        assert!(!handler.admits(&Outcome::Sent(1)));
    }
}

#[test]
fn a_flushed_handler_stays_flushed() {
    for server in TASKS {
        let mut handler = flushing(server);
        for _ in 0..3 {
            assert_eq!(poll(&handler), Action::Flush);
            assert_eq!(handler.step(Outcome::Flushed), (DONE, None));
        }
    }
}

#[test]
fn each_action_belongs_to_one_link() {
    let actions = [
        (Link::Register, Action::Register),
        (Link::Read, Action::Read { room: 7 }),
        (Link::Write, Action::Write { from: 7 }),
        (Link::Flush, Action::Flush),
    ];
    for (link, _) in actions {
        for (own, action) in actions {
            assert_eq!(belongs(link, action), link == own);
        }
    }
}
