//! What each outcome does to a connection, in every phase and for every server.
use crate::connection::{overlay, returned, Action, ConnectionState, Followup, Happening};
use crate::connection::{message, Message, Notice, Outcome, Phase};
use crate::http::{blank_line, response_bytes, response_is_whole, CAPACITY};
use crate::server::Server;
use crate::trace::{delivered, possible, response_is_delivered_in_order, run};
use vstd::prelude::*;

verus! {

/// A task begins by being registered. Every other connection begins with an
/// empty buffer that is to be filled from its start.
pub proof fn connections_begin(server: Server)
    ensures
        server is Functional || server is Asynchronous ==> Phase::initial(server) == Phase::Start,
        server is Simple || server is NonBlocking || server is Multiplexed ==> {
            &&& Phase::initial(server) is Read
            &&& Phase::initial(server)->read == 0
            &&& Phase::initial(server)->request.len() == CAPACITY
            &&& forall|i: int|
                0 <= i < CAPACITY ==> #[trigger] Phase::initial(server)->request[i] == 0
        },
{
}

/// The phases that a connection can be in. What has been read and the room for
/// more make up the buffer, and what has been written and what is left to write
/// make up the response, of which there is always some left.
pub proof fn phases_are_proper(phase: Phase)
    ensures
        phase.wf() <==> match phase {
            Phase::Read { request, read } => request.len() == CAPACITY && read <= CAPACITY,
            Phase::Write { response, written } => response == response_bytes() && written
                < response_bytes().len(),
            _ => true,
        },
{
}

/// What a connection waits on. A read may fill the buffer up, and no more. A write
/// offers the response from the first byte on that is not written yet.
pub proof fn awaited_operation(phase: Phase)
    requires
        phase.wf(),
    ensures
        phase.awaits() is Register <==> phase is Start,
        phase.awaits() is Read <==> phase is Read,
        phase.awaits() is Write <==> phase is Write,
        phase.awaits() is Flush <==> phase is Flush,
        phase.awaits() matches Action::Read { room } ==> phase->read + room == CAPACITY,
        phase.awaits() matches Action::Write { from } ==> from == phase->written && from
            < response_bytes().len(),
{
    response_is_whole();
}

/// What can come of the awaited operation, and what cannot: bytes that fit into the
/// room for them, no more bytes taken than offered, and at any time but when
/// registering that the operation is not ready, or fails.
pub proof fn possible_outcomes<E>(phase: Phase, outcome: Happening<E>)
    requires
        phase.wf(),
    ensures
        phase.admits(outcome) <==> match outcome {
            Happening::Registered => phase is Start,
            Happening::Received(chunk) => phase is Read && phase->read + chunk.len() <= CAPACITY,
            Happening::Sent(n) => phase is Write && phase->written + n <= response_bytes().len(),
            Happening::Flushed => phase is Flush,
            Happening::WouldBlock(_) => !(phase is Start),
            Happening::Failed(_) => !(phase is Start),
        },
{
}

/// Once it is registered, a task reads into an empty buffer.
pub proof fn registering_leads_to_reading<E>(server: Server, phase: Phase)
    requires
        phase.admits(Happening::<E>::Registered),
    ensures
        ({
            let after = phase.step(server, Happening::<E>::Registered);
            &&& after.phase is Read
            &&& after.phase->read == 0
            &&& after.phase->request.len() == CAPACITY
            &&& forall|i: int| 0 <= i < CAPACITY ==> #[trigger] after.phase->request[i] == 0
            &&& after.followup == Followup::<E>::Perform(Action::Read { room: CAPACITY })
            &&& after.notice is None
        }),
{
}

/// Bytes that come in are added to those that are there, in whatever server.
/// If all of them end with a blank line, they are the request: it is printed and the
/// whole response is to be written. If not, the rest is to be read, into the room
/// that is left.
pub proof fn bytes_are_added<E>(server: Server, phase: Phase, chunk: Seq<u8>)
    requires
        phase.wf(),
        phase.admits(Happening::<E>::Received(chunk)),
        chunk.len() > 0,
    ensures
        ({
            let after = phase.step(server, Happening::<E>::Received(chunk));
            let all = phase->request.take(phase->read as int) + chunk;
            if blank_line().is_suffix_of(all) {
                &&& after.phase is Write
                &&& after.phase->response == response_bytes()
                &&& after.phase->written == 0
                &&& after.followup == Followup::<E>::Perform(Action::Write { from: 0 })
                &&& after.notice == Some(Message::Request(all))
            } else {
                &&& after.phase is Read
                &&& after.phase->read == all.len()
                &&& after.phase->request.len() == CAPACITY
                &&& after.phase->request.take(all.len() as int) == all
                &&& after.phase->request.skip(all.len() as int) == phase->request.skip(
                    all.len() as int,
                )
                &&& after.followup == Followup::<E>::Perform(
                    Action::Read { room: (CAPACITY - all.len()) as usize },
                )
                &&& after.notice is None
            }
        }),
{
    let all = phase->request.take(phase->read as int) + chunk;
    let filled = overlay(phase->request, phase->read as int, chunk);
    assert(filled.take(all.len() as int) =~= all);
    assert(filled.skip(all.len() as int) =~= phase->request.skip(all.len() as int));
    if all.len() >= 4 {
        assert(filled.subrange(all.len() - 4, all.len() as int) =~= all.subrange(
            all.len() - 4,
            all.len() as int,
        ));
    }
}

/// Bytes that go out are behind those that went out before, in whatever server.
/// With the last of them the response is to be flushed, and until then the
/// response is to be written on from the first byte that is left.
pub proof fn bytes_go_out<E>(server: Server, phase: Phase, n: nat)
    requires
        phase.wf(),
        phase.admits(Happening::<E>::Sent(n)),
        n > 0,
    ensures
        ({
            let after = phase.step(server, Happening::<E>::Sent(n));
            let written = phase->written + n;
            &&& after.notice is None
            &&& written <= response_bytes().len()
            &&& if written == response_bytes().len() {
                &&& after.phase == Phase::Flush
                &&& after.followup == Followup::<E>::Perform(Action::Flush)
            } else {
                &&& after.phase is Write
                &&& after.phase->response == response_bytes()
                &&& after.phase->written == written
                &&& after.followup == Followup::<E>::Perform(
                    Action::Write { from: written as usize },
                )
            }
        }),
{
    response_is_whole();
}

/// A peer that is gone ends the connection, in the state it is in and without
/// its descriptor being taken out of a reactor. The chained task alone goes on,
/// from the request to the response and from the response to the flush.
pub proof fn gone_peers_end_the_connection<E>(server: Server, phase: Phase, outcome: Happening<E>)
    requires
        phase.wf(),
        phase.admits(outcome),
        outcome matches Happening::Received(chunk) && chunk.len() == 0 || outcome
            == Happening::<E>::Sent(0),
    ensures
        !(server is Functional) ==> {
            &&& phase.step(server, outcome).phase == phase
            &&& phase.step(server, outcome).followup == (Followup::<E>::Complete {
                unregister: false,
            })
        },
        server is Functional && phase is Read ==> {
            &&& phase.step(server, outcome).phase == (Phase::Write {
                response: response_bytes(),
                written: 0,
            })
            &&& phase.step(server, outcome).followup == Followup::<E>::Perform(
                Action::Write { from: 0 },
            )
        },
        server is Functional && phase is Write ==> {
            &&& phase.step(server, outcome).phase == Phase::Flush
            &&& phase.step(server, outcome).followup == Followup::<E>::Perform(Action::Flush)
        },
        phase is Read || phase is Write,
{
}

/// What is said of a peer that is gone: that it disconnected, in the servers that
/// have a task for each connection, or multiplex them, unexpectedly; and nothing if
/// it leaves the multiplexed server during the response.
pub proof fn gone_peers_are_noted<E>(server: Server, phase: Phase, outcome: Happening<E>)
    requires
        phase.wf(),
        phase.admits(outcome),
        outcome matches Happening::Received(chunk) && chunk.len() == 0 || outcome
            == Happening::<E>::Sent(0),
    ensures
        phase.step(server, outcome).notice is None <==> server is Multiplexed && outcome is Sent,
        phase.step(server, outcome).notice matches Some(message) ==> message
            == (Message::Disconnected {
            unexpectedly: !(server is Simple || server is NonBlocking),
        }),
{
}

/// A flush that goes through completes the connection, and its descriptor is
/// taken out of the reactor exactly if it is that of a task.
pub proof fn flush_completes<E>(server: Server, phase: Phase)
    requires
        phase.admits(Happening::<E>::Flushed),
    ensures
        ({
            let after = phase.step(server, Happening::<E>::Flushed);
            &&& after.phase == phase
            &&& after.followup == (Followup::<E>::Complete {
                unregister: server is Functional || server is Asynchronous,
            })
            &&& after.notice is None
        }),
{
}

/// An operation that is not ready suspends the connection where it is, except on
/// a blocking socket, where like every failure it ends with its own error.
pub proof fn errors_leave_the_phase<E>(server: Server, phase: Phase, error: E)
    ensures
        ({
            let blocked = phase.step(server, Happening::WouldBlock(error));
            let failed = phase.step(server, Happening::Failed(error));
            &&& blocked.phase == phase && failed.phase == phase
            &&& blocked.notice is None && failed.notice is None
            &&& failed.followup == Followup::Fail(error)
            &&& server is Simple ==> blocked.followup == Followup::Fail(error)
            &&& !(server is Simple) ==> blocked.followup == Followup::<E>::Suspend
        }),
{
}

/// Whenever there is an operation to perform next, it is the one that the
/// connection awaits by then; and there is one exactly after being registered,
/// after bytes came in or went out, and, in the chained task, after the peer is
/// gone.
pub proof fn next_operation_is_awaited<E>(server: Server, phase: Phase, outcome: Happening<E>)
    requires
        phase.wf(),
        phase.admits(outcome),
    ensures
        ({
            let after = phase.step(server, outcome);
            &&& after.followup matches Followup::Perform(action) ==> action
                == after.phase.awaits()
            &&& after.followup is Perform <==> match outcome {
                Happening::Registered => true,
                Happening::Received(chunk) => chunk.len() > 0 || server is Functional,
                Happening::Sent(n) => n > 0 || server is Functional,
                _ => false,
            }
        }),
{
}

/// A call that serves a whole connection returns exactly when there is nothing
/// left to perform: an error with the operation that failed, success after the flush
/// or when the peer is gone, and otherwise not yet.
pub proof fn call_goes_on_until_done<E>(phase: Phase, outcome: Happening<E>, error: E)
    requires
        phase.wf(),
        phase.admits(outcome),
    ensures
        ({
            let result = returned(phase.step(Server::Simple, outcome).followup);
            &&& result is None <==> phase.step(Server::Simple, outcome).followup is Perform
            &&& result == Some(Err::<(), E>(error)) <==> outcome == Happening::Failed(error)
                || outcome == Happening::WouldBlock(error)
            &&& result == Some(Ok::<(), E>(())) <==> {
                ||| outcome is Flushed
                ||| outcome matches Happening::Received(chunk) && chunk.len() == 0
                ||| outcome == Happening::<E>::Sent(0)
            }
        }),
{
}

/// What a call returns, for whatever follow-up: nothing while there is an action to
/// perform or to come back to, and success or the error once there is not.
pub proof fn call_returns_when_done<E>(followup: Followup<E>, action: Action, error: E)
    ensures
        returned(Followup::<E>::Perform(action)) is None,
        returned(Followup::<E>::Suspend) is None,
        returned(followup) == Some(Ok::<(), E>(())) <==> followup is Complete,
        returned(followup) == Some(Err::<(), E>(error)) <==> followup == Followup::Fail(error),
{
}

/// How many bytes of the response all writes of the run took together.
pub open spec fn bytes_sent<E>(outcomes: Seq<Happening<E>>) -> nat
    decreases outcomes.len(),
{
    if outcomes.len() == 0 {
        0
    } else {
        bytes_sent(outcomes.drop_last()) + match outcomes.last() {
            Happening::Sent(n) => n,
            _ => 0,
        }
    }
}

/// Each write goes on where the last one stopped: it offers the response from the
/// byte on whose place is the number of bytes that all writes before it took.
pub proof fn writes_go_on_where_they_stopped<E>(server: Server, outcomes: Seq<Happening<E>>)
    requires
        possible(server, Phase::initial(server), outcomes),
    ensures
        ({
            let phase = run(server, Phase::initial(server), outcomes);
            &&& phase.awaits() matches Action::Write { from } ==> from == bytes_sent(outcomes)
            &&& delivered(server, Phase::initial(server), outcomes) == response_bytes().take(
                bytes_sent(outcomes) as int,
            )
            &&& phase is Start || phase is Read ==> bytes_sent(outcomes) == 0
        }),
    decreases outcomes.len(),
{
    let start = Phase::initial(server);
    response_is_whole();
    response_is_delivered_in_order(server, outcomes);
    if outcomes.len() > 0 {
        let before = outcomes.drop_last();
        writes_go_on_where_they_stopped(server, before);
        response_is_delivered_in_order(server, before);
        crate::trace::run_keeps_wf(server, before);
        match (run(server, start, before), outcomes.last()) {
            (Phase::Write { response, written }, Happening::Sent(n)) => {
                assert(delivered(server, start, outcomes) =~= response_bytes().take(
                    bytes_sent(outcomes) as int,
                ));
            },
            _ => {
                assert(delivered(server, start, outcomes) =~= delivered(server, start, before));
            },
        }
    } else {
        assert(delivered(server, start, outcomes) =~= response_bytes().take(0));
    }
}

/// Laying a chunk over the buffer changes the bytes that it comes to lie on, to its
/// own, and no others.
pub proof fn overlay_changes_just_its_place(buffer: Seq<u8>, at: int, chunk: Seq<u8>, i: int)
    requires
        0 <= at,
        at + chunk.len() <= buffer.len(),
        0 <= i < buffer.len(),
    ensures
        overlay(buffer, at, chunk).len() == buffer.len(),
        at <= i < at + chunk.len() ==> overlay(buffer, at, chunk)[i] == chunk[i - at],
        !(at <= i < at + chunk.len()) ==> overlay(buffer, at, chunk)[i] == buffer[i],
{
}

/// What a state stands for holds all there is in it.
pub proof fn states_are_told_apart(state: ConnectionState)
    ensures
        state is Start <==> state@ is Start,
        state is Flush <==> state@ is Flush,
        state matches ConnectionState::Read { request, read } ==> state@ == (Phase::Read {
            request: request@,
            read: read as nat,
        }),
        state matches ConnectionState::Write { response, written } ==> state@ == (Phase::Write {
            response: response@,
            written: written as nat,
        }),
{
}

/// What an outcome stands for holds all there is in it.
pub proof fn outcomes_are_told_apart<E>(outcome: Outcome<E>, error: E)
    ensures
        outcome is Registered <==> outcome@ is Registered,
        outcome is Flushed <==> outcome@ is Flushed,
        outcome matches Outcome::Received(chunk) ==> outcome@ == Happening::<E>::Received(chunk@),
        outcome matches Outcome::Sent(n) ==> outcome@ == Happening::<E>::Sent(n as nat),
        outcome == Outcome::WouldBlock(error) <==> outcome@ == Happening::WouldBlock(error),
        outcome == Outcome::Failed(error) <==> outcome@ == Happening::Failed(error),
{
}

/// What a notice stands for holds all there is in it, and a reply says it as it is.
pub proof fn notices_are_told_apart(notice: Notice)
    ensures
        message(None) is None,
        message(Some(notice)) == Some(notice@),
        notice matches Notice::Request(bytes) ==> notice@ == Message::Request(bytes@),
        notice matches Notice::Disconnected { unexpectedly } ==> notice@ == (
        Message::Disconnected { unexpectedly }),
{
}

} // verus!
