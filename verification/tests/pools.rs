//! All connections of a server: the list and the table.
use servers::acceptor::decide;
use servers::acceptor::{Main, MainAction, MainOutcome, MainReply};
use servers::connection::{Action, Followup};
use servers::event::{descriptor, read_interest, read_write_interest, Event, Registration};
use servers::list::{ConnectionList, Next as Turn};
use servers::scheduler::{Scheduler, Turn as Slot, Waker};
use servers::server::Server;
use servers::table::{ConnectionTable, Next, Ready};

type Outcome<'a> = servers::connection::Outcome<'a, &'static str>;
type Attempt<C> = servers::acceptor::Attempt<C, &'static str>;

const REQUEST: &[u8] = b"GET / HTTP/1.1\r\n\r\n";

/// The name of the connection that the list drives.
fn driven(list: &ConnectionList<char>) -> Option<char> {
    match list.next() {
        Turn::Accept => None,
        Turn::Drive { connection, .. } => Some(*connection),
    }
}

/// A list that has taken up the connections and is about to accept another.
fn open(names: &str) -> ConnectionList<char> {
    let mut list = ConnectionList::new();
    for name in names.chars() {
        assert_eq!(list.attempt(Attempt::Accepted(name)), Ok(()));
        pass(&mut list, "");
    }
    list
}

/// Ends the pass: the named peers leave, and the others are not ready.
fn pass(list: &mut ConnectionList<char>, leaving: &str) -> String {
    let mut seen = String::new();
    while let Some(name) = driven(list) {
        seen.push(name);
        let gone = leaving.contains(name);
        let outcome = if gone { Outcome::Received(&[]) } else { Outcome::WouldBlock("not yet") };
        assert!(list.admits(&outcome));
        list.step(outcome);
    }
    seen
}

#[test]
fn accepting_connections() {
    for server in [
        Server::Simple,
        Server::NonBlocking,
        Server::Multiplexed,
        Server::Functional,
        Server::Asynchronous,
    ] {
        assert_eq!(decide(server, Attempt::Accepted('a')), Ok(Some('a')));
        assert_eq!(decide(server, Attempt::<char>::Failed("broken")), Err("broken"));
        let later = if server == Server::Simple { Err("not yet") } else { Ok(None) };
        assert_eq!(decide(server, Attempt::<char>::WouldBlock("not yet")), later);
    }
}

/// A waker for the task.
fn waker(task: char) -> Waker<char> {
    let mut scheduler = Scheduler::default();
    scheduler.spawn(task);
    match scheduler.run() {
        Slot::Poll { waker, .. } => waker,
        Slot::Wait => panic!("a task was spawned"),
    }
}

/// The task that the waker wakes.
fn woken(waker: &Waker<char>) -> char {
    let mut scheduler = Scheduler::default();
    waker.wake(&mut scheduler);
    match scheduler.run() {
        Slot::Poll { task, .. } => *task,
        Slot::Wait => panic!("a task was woken"),
    }
}

#[test]
fn the_accepting_task_listens_once() {
    for server in [Server::Functional, Server::Asynchronous] {
        let mut main = Main::Start;
        assert_eq!(main.listener(), None);
        assert!(matches!(main.poll(waker('m')), MainAction::Bind));
        let bound = MainOutcome::Bound { listener: "socket", fd: 4 };
        match step(&mut main, server, 'm', bound) {
            MainReply::Perform(MainAction::Register { fd: 4, waker }) => {
                assert_eq!(woken(&waker), 'm')
            }
            _ => panic!("the listener is registered for the waker of the poll"),
        }
        let reply = step(&mut main, server, 'm', MainOutcome::Registered);
        assert!(matches!(reply, MainReply::Perform(MainAction::Accept)));
        assert_eq!(main.listener(), Some(&"socket"));
        for attempt in [
            Attempt::Accepted('a'),
            Attempt::WouldBlock("not yet"),
            Attempt::Failed("broken"),
        ] {
            assert!(matches!(main.poll(waker('n')), MainAction::Accept));
            step(&mut main, server, 'n', MainOutcome::Tried(attempt));
        }
        assert_eq!(main.listener(), Some(&"socket"));
    }
}

/// Hands the outcome to the accepting task, in a poll with a waker for `task`.
fn step<L>(
    main: &mut Main<L>,
    server: Server,
    task: char,
    outcome: MainOutcome<L, char, &'static str>,
) -> MainReply<char, char, &'static str> {
    main.step(server, waker(task), outcome)
}

#[test]
fn the_accepting_task_never_completes() {
    for server in [Server::Functional, Server::Asynchronous] {
        let mut main = Main::Accept { listener: 4 };
        let reply = step(&mut main, server, 'm', MainOutcome::Tried(Attempt::Accepted('a')));
        assert!(matches!(reply, MainReply::Give { out: None, spawn: Some('a') }));
        let later = Attempt::WouldBlock("not yet");
        let reply = step(&mut main, server, 'm', MainOutcome::Tried(later));
        assert!(matches!(reply, MainReply::Give { out: None, spawn: None }));
        let reply = step(&mut main, server, 'm', MainOutcome::Tried(Attempt::Failed("broken")));
        assert!(matches!(reply, MainReply::Fail("broken")));
        assert!(matches!(main.poll(waker('m')), MainAction::Accept));
    }
}

#[test]
fn an_empty_list_goes_on_accepting() {
    let mut list: ConnectionList<char> = ConnectionList::new();
    assert!(matches!(list.next(), Turn::Accept));
    assert!(!list.admits(&Outcome::WouldBlock("not yet")));
    assert_eq!(list.attempt(Attempt::WouldBlock("not yet")), Ok(()));
    assert!(matches!(list.next(), Turn::Accept));
    assert_eq!(list.attempt(Attempt::Failed("broken")), Err("broken"));
}

#[test]
fn a_pass_tries_each_connection_in_turn() {
    let mut list = open("abcde");
    assert_eq!(list.attempt(Attempt::WouldBlock("not yet")), Ok(()));
    assert_eq!(pass(&mut list, ""), "abcde");
    list.attempt(Attempt::Accepted('f'));
    assert_eq!(pass(&mut list, ""), "abcdef");
}

#[test]
fn completed_connections_are_removed_after_the_pass() {
    let mut list = open("abcdef");
    list.attempt(Attempt::WouldBlock("not yet"));
    assert_eq!(pass(&mut list, "acf"), "abcdef");
    list.attempt(Attempt::WouldBlock("not yet"));
    assert_eq!(pass(&mut list, "bde"), "bde");
    list.attempt(Attempt::WouldBlock("not yet"));
    assert!(matches!(list.next(), Turn::Accept));
}

#[test]
fn connections_go_on_from_where_they_stand() {
    let mut list = open("ab");
    list.attempt(Attempt::WouldBlock("not yet"));
    list.step(Outcome::Received(&REQUEST[..7]));
    assert_eq!(driven(&list), Some('a'));
    list.step(Outcome::WouldBlock("not yet"));
    assert_eq!(driven(&list), Some('b'));
    let reply = list.step(Outcome::Received(REQUEST));
    assert_eq!(reply.followup, Followup::Perform(Action::Write { from: 0 }));
    list.step(Outcome::Sent(60));
    list.step(Outcome::WouldBlock("not yet"));

    list.attempt(Attempt::WouldBlock("not yet"));
    match list.next() {
        Turn::Drive { connection: 'a', action } => {
            assert_eq!(action, Action::Read { room: 1017 })
        }
        _ => panic!("the first connection comes first"),
    }
    let reply = list.step(Outcome::Received(&REQUEST[7..]));
    assert_eq!(reply.notice.unwrap().text(), "GET / HTTP/1.1\r\n\r\n");
    list.step(Outcome::Sent(69));
    assert_eq!(
        list.step(Outcome::Flushed).followup,
        Followup::Complete { unregister: false }
    );
    match list.next() {
        Turn::Drive { connection: 'b', action } => {
            assert_eq!(action, Action::Write { from: 60 })
        }
        _ => panic!("the second connection comes second"),
    }
    list.step(Outcome::Sent(9));
    list.step(Outcome::Flushed);
    assert!(matches!(list.next(), Turn::Accept));
}

#[test]
fn events_lead_back_to_their_descriptors() {
    for fd in [0, 1, 7, i32::MAX, -1, i32::MIN] {
        assert_eq!(descriptor(&read_interest(fd)), fd);
        assert_eq!(descriptor(&read_write_interest(fd)), fd);
    }
    assert_eq!(read_interest(7), Event { events: 1, data: 7 });
    assert_eq!(read_write_interest(7), Event { events: 5, data: 7 });
    assert_eq!(read_write_interest(-1), Event { events: 5, data: u64::MAX });
}

#[test]
fn interests_are_those_of_epoll() {
    let both = epoll::Events::EPOLLIN | epoll::Events::EPOLLOUT;
    assert_eq!(read_write_interest(3).events, both.bits());
    assert_eq!(read_interest(3).events, epoll::Events::EPOLLIN.bits());
}

fn event(fd: i32) -> Event {
    Event { events: 1, data: fd as u64 }
}

/// A table with a listener and two connections, between batches.
fn table() -> ConnectionTable<char> {
    let mut table = ConnectionTable::new(3, 4);
    table.report(&[event(4), event(4)], 2);
    for (fd, name) in [(5, 'a'), (6, 'b')] {
        assert!(matches!(table.next(), Next::Accept));
        let event = Event { events: 5, data: fd as u64 };
        assert_eq!(table.registration(fd), Registration { epoll: 3, fd, event });
        assert!(matches!(table.next(), Next::Accept));
        assert_eq!(table.attempt(Attempt::Accepted((fd, name))), Ok(()));
    }
    assert!(matches!(table.next(), Next::Wait));
    assert!(table.end_batch());
    table
}

#[test]
fn the_listener_is_registered_for_reading() {
    let table: ConnectionTable<char> = ConnectionTable::new(3, 4);
    let event = Event { events: 1, data: 4 };
    assert_eq!(table.listen(), Registration { epoll: 3, fd: 4, event });
    assert_eq!(table.ready(&event), Ready::Listener);
    assert_eq!(table.ready(&read_interest(5)), Ready::Connection { fd: 5 });
    assert!(matches!(table.next(), Next::Wait));
}

#[test]
fn only_reported_connections_are_driven() {
    let mut table = table();
    // The third event is left over from an earlier wait.
    table.report(&[event(6), event(4), event(5)], 2);
    assert!(matches!(
        table.next(),
        Next::Drive { connection: 'b', action: Action::Read { room: 1024 } }
    ));
    assert!(table.admits(&Outcome::Received(REQUEST)));
    let reply = table.step(Outcome::Received(REQUEST));
    assert_eq!(reply.followup, Followup::Perform(Action::Write { from: 0 }));
    table.step(Outcome::Sent(5));
    table.step(Outcome::WouldBlock("not yet"));
    assert!(matches!(table.next(), Next::Accept));
    assert!(!table.admits(&Outcome::WouldBlock("not yet")));
    assert_eq!(table.attempt(Attempt::WouldBlock("not yet")), Ok(()));
    assert!(matches!(table.next(), Next::Wait));

    table.report(&[event(5), event(6)], 2);
    assert!(matches!(
        table.next(),
        Next::Drive { connection: 'a', action: Action::Read { room: 1024 } }
    ));
    table.step(Outcome::WouldBlock("not yet"));
    assert!(matches!(
        table.next(),
        Next::Drive { connection: 'b', action: Action::Write { from: 5 } }
    ));
}

#[test]
fn completed_connections_are_removed_after_the_batch() {
    let mut table = table();
    table.report(&[event(5), event(6)], 2);
    assert_eq!(
        table.step(Outcome::Received(&[])).followup,
        Followup::Complete { unregister: false }
    );
    table.step(Outcome::WouldBlock("not yet"));
    assert!(matches!(table.next(), Next::EndBatch));
    assert!(table.end_batch());
    assert!(matches!(table.next(), Next::Wait));
    table.report(&[event(6), event(5)], 2);
    assert!(matches!(table.next(), Next::Drive { connection: 'b', .. }));
    table.step(Outcome::WouldBlock("not yet"));
    assert!(matches!(table.next(), Next::Unknown { fd: 5 }));
    assert!(!table.admits(&Outcome::WouldBlock("not yet")));
}

#[test]
fn completing_twice_is_noticed() {
    let mut table = table();
    table.report(&[event(5), event(6), event(5)], 3);
    for _ in 0..3 {
        table.step(Outcome::Received(&[]));
    }
    assert!(matches!(table.next(), Next::EndBatch));
    assert!(!table.end_batch());
    assert!(matches!(table.next(), Next::Wait));
}

#[test]
fn a_failing_listener_fails_the_table() {
    let mut table = table();
    table.report(&[event(4)], 1);
    assert_eq!(table.attempt(Attempt::Failed("broken")), Err("broken"));
    assert!(matches!(table.next(), Next::Accept));
}
