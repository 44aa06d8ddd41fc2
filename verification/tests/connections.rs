//! One connection, in each of the servers.
use servers::connection::{Action, ConnectionState, Followup, Notice};
use servers::http::{end_of_request, response, CAPACITY};
use servers::server::Server;

const ALL: [Server; 5] = [
    Server::Simple,
    Server::NonBlocking,
    Server::Multiplexed,
    Server::Functional,
    Server::Asynchronous,
];

type Outcome<'a> = servers::connection::Outcome<'a, &'static str>;

const REQUEST: &[u8] = b"GET / HTTP/1.1\r\nHost: localhost:3000\r\n\r\n";

/// A connection that is ready to read its request.
fn reading(server: Server) -> ConnectionState {
    let mut state = ConnectionState::new(server);
    if state.resume() == Action::Register {
        state.step(server, Outcome::Registered);
    }
    state
}

/// A connection that has its request.
fn writing(server: Server) -> ConnectionState {
    let mut state = reading(server);
    state.step(server, Outcome::Received(REQUEST));
    state
}

#[test]
fn the_response_is_hello_world() {
    assert_eq!(
        response(),
        b"HTTP/1.1 200 OK\r\nContent-Length: 12\nConnection: close\r\n\r\nHello world!"
    );
    assert_eq!(response().len(), 69);
    assert_eq!(&response()[53..57], b"\r\n\r\n");
    assert_eq!(response()[57..].len(), 12);
}

#[test]
fn a_request_ends_with_a_blank_line() {
    let mut request = [0u8; CAPACITY];
    request[..REQUEST.len()].copy_from_slice(REQUEST);
    assert!(end_of_request(&request, REQUEST.len()));
    assert!(!end_of_request(&request, REQUEST.len() - 1));
    assert!(!end_of_request(&request, 3));
    assert!(!end_of_request(&request, 0));
    assert!(!end_of_request(&request, CAPACITY));
    assert!(!end_of_request(&request, CAPACITY + 1));
    request[CAPACITY - 4..].copy_from_slice(b"\r\n\r\n");
    assert!(end_of_request(&request, CAPACITY));
}

#[test]
fn tasks_register_first() {
    for server in ALL {
        let mut state = ConnectionState::new(server);
        if server.runs_tasks() {
            assert_eq!(state.resume(), Action::Register);
            let reply = state.step(server, Outcome::Registered);
            assert_eq!(reply.followup, Followup::Perform(Action::Read { room: 1024 }));
            assert_eq!(reply.notice, None);
        }
        assert_eq!(state.resume(), Action::Read { room: 1024 });
    }
}

#[test]
fn one_piece_is_answered_by_every_server() {
    for server in ALL {
        let mut state = reading(server);
        let reply = state.step(server, Outcome::Received(REQUEST));
        assert_eq!(reply.followup, Followup::Perform(Action::Write { from: 0 }));
        assert_eq!(reply.notice, Some(Notice::Request(REQUEST.to_vec())));

        let reply = state.step(server, Outcome::Sent(69));
        assert_eq!(reply.followup, Followup::Perform(Action::Flush));
        let reply = state.step(server, Outcome::Flushed);
        assert_eq!(reply.followup, Followup::Complete { unregister: server.runs_tasks() });
        assert_eq!(reply.notice, None);
    }
}

#[test]
fn pieces_are_put_together() {
    for server in ALL {
        let mut state = reading(server);
        let (last, others) = REQUEST.split_last().unwrap();
        let mut room = CAPACITY;
        for byte in others {
            assert!(state.admits(&Outcome::Received(&[*byte])));
            let reply = state.step(server, Outcome::Received(&[*byte]));
            room -= 1;
            assert_eq!(reply.followup, Followup::Perform(Action::Read { room }));
            assert_eq!(reply.notice, None);
        }
        let reply = state.step(server, Outcome::Received(&[*last]));
        assert_eq!(reply.followup, Followup::Perform(Action::Write { from: 0 }));
        assert_eq!(reply.notice, Some(Notice::Request(REQUEST.to_vec())));
    }
}

#[test]
fn a_request_in_two_pieces() {
    for server in ALL {
        let mut state = reading(server);
        let reply = state.step(server, Outcome::Received(b"GET / HTTP/1.1\r\n"));
        assert_eq!(reply.followup, Followup::Perform(Action::Read { room: 1008 }));
        assert_eq!(reply.notice, None);
        match state {
            ConnectionState::Read { request, read } => {
                assert_eq!(read, 16);
                assert_eq!(&request[..18], b"GET / HTTP/1.1\r\n\0\0");
            }
            _ => panic!("the request is not complete"),
        }
        let reply = state.step(server, Outcome::Received(b"\r\n"));
        assert_eq!(reply.followup, Followup::Perform(Action::Write { from: 0 }));
        assert_eq!(reply.notice.unwrap().text(), "GET / HTTP/1.1\r\n\r\n");
        let reply = state.step(server, Outcome::Sent(69));
        assert_eq!(reply.followup, Followup::Perform(Action::Flush));
        let reply = state.step(server, Outcome::Flushed);
        assert_eq!(reply.followup, Followup::Complete { unregister: server.runs_tasks() });
        assert!(matches!(state, ConnectionState::Flush));
    }
}

#[test]
fn a_blank_line_across_two_pieces() {
    for server in ALL {
        let mut state = reading(server);
        state.step(server, Outcome::Received(b"GET / HTTP/1.1\r\n\r"));
        let reply = state.step(server, Outcome::Received(b"\n"));
        assert_eq!(reply.followup, Followup::Perform(Action::Write { from: 0 }));
        assert_eq!(reply.notice.unwrap().text(), "GET / HTTP/1.1\r\n\r\n");
    }
}

#[test]
fn reads_that_fit_are_admitted() {
    for server in ALL {
        let mut state = reading(server);
        for room in [768, 512, 256, 0] {
            assert!(state.admits(&Outcome::Received(&[b'x'; 256])));
            assert!(!state.admits(&Outcome::Received(&vec![b'x'; room + 257])));
            let reply = state.step(server, Outcome::Received(&[b'x'; 256]));
            assert_eq!(reply.followup, Followup::Perform(Action::Read { room }));
        }
    }
}

#[test]
fn an_oversized_request_is_dropped() {
    for server in ALL {
        let mut state = reading(server);
        let reply = state.step(server, Outcome::Received(&[b'x'; CAPACITY]));
        assert_eq!(reply.followup, Followup::Perform(Action::Read { room: 0 }));
        assert!(!state.admits(&Outcome::Received(b"x")));
        let reply = state.step(server, Outcome::Received(&[]));
        let unexpectedly = !matches!(server, Server::Simple | Server::NonBlocking);
        assert_eq!(reply.notice, Some(Notice::Disconnected { unexpectedly }));
        if server == Server::Functional {
            assert_eq!(reply.followup, Followup::Perform(Action::Write { from: 0 }));
        } else {
            assert_eq!(reply.followup, Followup::Complete { unregister: false });
        }
    }
}

#[test]
fn the_response_goes_out_in_order() {
    for server in ALL {
        let mut state = writing(server);
        let mut sent = Vec::new();
        loop {
            match state.resume() {
                Action::Write { from } => {
                    let n = std::cmp::min(7, response().len() - from);
                    sent.extend_from_slice(&response()[from..from + n]);
                    assert!(state.admits(&Outcome::Sent(n)));
                    assert!(!state.admits(&Outcome::Sent(70 - from)));
                    state.step(server, Outcome::Sent(n));
                }
                action => {
                    assert_eq!(action, Action::Flush);
                    break;
                }
            }
        }
        assert_eq!(sent, response());
    }
}

#[test]
fn blocked_connections_keep_their_state() {
    for server in ALL {
        let suspended =
            || if server.blocks() { Followup::Fail("not yet") } else { Followup::Suspend };
        let mut state = reading(server);
        state.step(server, Outcome::Received(b"GET /"));
        let before = state.resume();
        assert_eq!(state.step(server, Outcome::WouldBlock("not yet")).followup, suspended());
        assert_eq!(state.resume(), before);

        let mut state = writing(server);
        state.step(server, Outcome::Sent(5));
        assert_eq!(state.step(server, Outcome::WouldBlock("not yet")).followup, suspended());
        assert_eq!(state.resume(), Action::Write { from: 5 });
        state.step(server, Outcome::Sent(64));
        assert_eq!(state.step(server, Outcome::WouldBlock("not yet")).followup, suspended());
        assert_eq!(state.resume(), Action::Flush);
    }
}

#[test]
fn failures_are_reported() {
    for server in ALL {
        let mut state = reading(server);
        let reply = state.step(server, Outcome::Failed("broken"));
        assert_eq!(reply.followup, Followup::Fail("broken"));
        assert_eq!(reply.notice, None);
        assert_eq!(state.resume(), Action::Read { room: 1024 });
    }
}

#[test]
fn peers_that_leave_during_the_request() {
    for server in ALL {
        let mut state = reading(server);
        let reply = state.step(server, Outcome::Received(&[]));
        let unexpectedly = !matches!(server, Server::Simple | Server::NonBlocking);
        assert_eq!(reply.notice, Some(Notice::Disconnected { unexpectedly }));
        if server == Server::Functional {
            assert_eq!(reply.followup, Followup::Perform(Action::Write { from: 0 }));
        } else {
            assert_eq!(reply.followup, Followup::Complete { unregister: false });
            assert_eq!(state.resume(), Action::Read { room: 1024 });
        }
    }
}

#[test]
fn peers_that_leave_during_the_response() {
    for server in ALL {
        let mut state = writing(server);
        state.step(server, Outcome::Sent(3));
        let reply = state.step(server, Outcome::Sent(0));
        let notice = match server {
            Server::Simple | Server::NonBlocking => {
                Some(Notice::Disconnected { unexpectedly: false })
            }
            Server::Multiplexed => None,
            _ => Some(Notice::Disconnected { unexpectedly: true }),
        };
        assert_eq!(reply.notice, notice);
        if server == Server::Functional {
            assert_eq!(reply.followup, Followup::Perform(Action::Flush));
        } else {
            assert_eq!(reply.followup, Followup::Complete { unregister: false });
            assert_eq!(state.resume(), Action::Write { from: 3 });
        }
    }
}

#[test]
fn outcomes_that_do_not_fit() {
    for server in ALL {
        let state = reading(server);
        assert!(!state.admits(&Outcome::Registered));
        assert!(!state.admits(&Outcome::Sent(1)));
        assert!(!state.admits(&Outcome::Flushed));
        assert!(state.admits(&Outcome::WouldBlock("not yet")));
        assert!(state.admits(&Outcome::Failed("broken")));
        assert!(!state.admits(&Outcome::Received(&[0u8; CAPACITY + 1])));
        assert!(!ConnectionState::Start.admits(&Outcome::WouldBlock("not yet")));
        assert!(ConnectionState::Start.admits(&Outcome::Registered));
        assert!(ConnectionState::Flush.admits(&Outcome::Flushed));
    }
}

#[test]
fn notices_as_text() {
    let text = Notice::Request(REQUEST.to_vec()).text();
    assert_eq!(text, "GET / HTTP/1.1\r\nHost: localhost:3000\r\n\r\n");
    let text = Notice::Request(vec![b'a', 0xff, b'b', 0xc3, 0xa9]).text();
    assert_eq!(text, "a\u{fffd}b\u{e9}");
    let text = Notice::Disconnected { unexpectedly: false }.text();
    assert_eq!(text, "client disconnected");
    let text = Notice::Disconnected { unexpectedly: true }.text();
    assert_eq!(text, "client disconnected unexpectedly");
}

/// Serves a whole connection with these outcomes, as the blocking server does.
fn call(outcomes: &[Outcome]) -> (Result<(), &'static str>, usize) {
    let mut state = ConnectionState::new(Server::Simple);
    for (i, outcome) in outcomes.iter().enumerate() {
        assert!(state.admits(outcome));
        let outcome = match outcome {
            Outcome::Received(chunk) => Outcome::Received(chunk),
            Outcome::Sent(n) => Outcome::Sent(*n),
            Outcome::WouldBlock(e) => Outcome::WouldBlock(e),
            Outcome::Failed(e) => Outcome::Failed(e),
            _ => Outcome::Flushed,
        };
        if let Some(result) = state.step(Server::Simple, outcome).followup.result() {
            return (result, i + 1);
        }
    }
    panic!("the connection is not done with")
}

#[test]
fn the_blocking_server_hands_back_the_error() {
    assert_eq!(call(&[Outcome::Failed("read")]), (Err("read"), 1));
    assert_eq!(call(&[Outcome::WouldBlock("timeout")]), (Err("timeout"), 1));
    let outcomes = [Outcome::Received(REQUEST), Outcome::Sent(5), Outcome::Failed("write")];
    assert_eq!(call(&outcomes), (Err("write"), 3));
    let outcomes = [Outcome::Received(REQUEST), Outcome::Sent(69), Outcome::Failed("flush")];
    assert_eq!(call(&outcomes), (Err("flush"), 3));
    let outcomes = [Outcome::Received(REQUEST), Outcome::Sent(69), Outcome::Flushed];
    assert_eq!(call(&outcomes), (Ok(()), 3));
    assert_eq!(call(&[Outcome::Received(&[])]), (Ok(()), 1));
    assert_eq!(call(&[Outcome::Received(REQUEST), Outcome::Sent(0)]), (Ok(()), 2));
}

#[test]
fn the_chained_task_makes_the_same_steps() {
    let outcomes = || {
        [
            Outcome::Registered,
            Outcome::Received(&REQUEST[..9]),
            Outcome::WouldBlock("not yet"),
            Outcome::Received(&REQUEST[9..]),
            Outcome::Sent(40),
            Outcome::WouldBlock("not yet"),
            Outcome::Sent(29),
            Outcome::Flushed,
        ]
    };
    let mut chained = ConnectionState::new(Server::Functional);
    let mut written_out = ConnectionState::new(Server::Asynchronous);
    for (first, second) in outcomes().into_iter().zip(outcomes()) {
        assert_eq!(
            chained.step(Server::Functional, first),
            written_out.step(Server::Asynchronous, second)
        );
        assert_eq!(chained.resume(), written_out.resume());
    }
}

#[test]
fn the_header_says_how_long_the_body_is() {
    assert!(response().is_ascii());
    assert_eq!(&response()[17..35], b"Content-Length: 12");
    assert_eq!(&response()[57..], b"Hello world!");
}
