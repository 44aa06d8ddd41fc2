//! What holds of a connection over any run of outcomes.
use crate::connection::{overlay, returned, Action, Followup, Happening, Message, Phase};
use crate::http::{blank_line, ends_request, response_bytes, response_is_whole, CAPACITY};
use crate::server::Server;
use vstd::prelude::*;

verus! {

/// The phase that a run of outcomes leads to.
pub open spec fn run<E>(server: Server, phase: Phase, outcomes: Seq<Happening<E>>) -> Phase
    decreases outcomes.len(),
{
    if outcomes.len() == 0 {
        phase
    } else {
        run(server, phase, outcomes.drop_last()).step(server, outcomes.last()).phase
    }
}

/// Each outcome of the run is one that the action awaited at its place can have.
pub open spec fn possible<E>(server: Server, phase: Phase, outcomes: Seq<Happening<E>>) -> bool
    decreases outcomes.len(),
{
    outcomes.len() > 0 ==> {
        &&& possible(server, phase, outcomes.drop_last())
        &&& run(server, phase, outcomes.drop_last()).admits(outcomes.last())
    }
}

/// All bytes that the run brought in, in order.
pub open spec fn received<E>(outcomes: Seq<Happening<E>>) -> Seq<u8>
    decreases outcomes.len(),
{
    if outcomes.len() == 0 {
        seq![]
    } else {
        received(outcomes.drop_last()) + match outcomes.last() {
            Happening::Received(chunk) => chunk,
            _ => seq![],
        }
    }
}

/// All bytes that the peer took during the run, in order: of each write that
/// part of what was offered that it took.
pub open spec fn delivered<E>(server: Server, phase: Phase, outcomes: Seq<Happening<E>>) -> Seq<u8>
    decreases outcomes.len(),
{
    if outcomes.len() == 0 {
        seq![]
    } else {
        delivered(server, phase, outcomes.drop_last()) + match (
            run(server, phase, outcomes.drop_last()),
            outcomes.last(),
        ) {
            (Phase::Write { response, written }, Happening::Sent(n)) => response.skip(
                written as int,
            ).take(n as int),
            _ => seq![],
        }
    }
}

/// The run without the outcomes that would have blocked.
pub open spec fn unblocked<E>(outcomes: Seq<Happening<E>>) -> Seq<Happening<E>>
    decreases outcomes.len(),
{
    if outcomes.len() == 0 {
        seq![]
    } else if outcomes.last() is WouldBlock {
        unblocked(outcomes.drop_last())
    } else {
        unblocked(outcomes.drop_last()).push(outcomes.last())
    }
}

/// No outcome of the run blocks, fails or completes the connection.
pub open spec fn keeps_going<E>(server: Server, phase: Phase, outcomes: Seq<Happening<E>>) -> bool
    decreases outcomes.len(),
{
    outcomes.len() > 0 ==> {
        &&& keeps_going(server, phase, outcomes.drop_last())
        &&& !(outcomes.last() is WouldBlock)
        &&& !(outcomes.last() is Failed)
        &&& !(run(server, phase, outcomes.drop_last()).step(
            server,
            outcomes.last(),
        ).followup is Complete)
    }
}

/// How the connection goes on after outcome `i` of the run.
pub open spec fn followup_at<E>(
    server: Server,
    phase: Phase,
    outcomes: Seq<Happening<E>>,
    i: int,
) -> Followup<E> {
    run(server, phase, outcomes.take(i)).step(server, outcomes[i]).followup
}

/// The connection is driven in one go: one action after the other is performed,
/// up to the first outcome after which there is none to perform.
pub open spec fn in_one_go<E>(server: Server, phase: Phase, outcomes: Seq<Happening<E>>) -> bool {
    &&& outcomes.len() > 0
    &&& possible(server, phase, outcomes)
    &&& forall|i: int|
        0 <= i < outcomes.len() - 1 ==> #[trigger] followup_at(server, phase, outcomes, i)
            is Perform
    &&& !(followup_at(server, phase, outcomes, outcomes.len() - 1) is Perform)
}

/// How far along a phase is.
pub open spec fn rank(phase: Phase) -> nat {
    match phase {
        Phase::Start => 0,
        Phase::Read { .. } => 1,
        Phase::Write { .. } => 2,
        Phase::Flush => 3,
    }
}

/// An upper bound on the steps that a phase can still take before the
/// connection completes.
pub open spec fn distance(phase: Phase) -> int {
    match phase {
        Phase::Start => CAPACITY + response_bytes().len() + 3,
        Phase::Read { request, read } => CAPACITY - read + response_bytes().len() + 2,
        Phase::Write { response, written } => response.len() - written + 1,
        Phase::Flush => 0,
    }
}

/// A well-formed phase stays well-formed under every outcome that can come.
pub proof fn step_keeps_wf<E>(server: Server, phase: Phase, outcome: Happening<E>)
    requires
        phase.wf(),
        phase.admits(outcome),
    ensures
        phase.step(server, outcome).phase.wf(),
{
    response_is_whole();
}

/// Every phase that a connection of the server gets into is well-formed.
pub proof fn run_keeps_wf<E>(server: Server, outcomes: Seq<Happening<E>>)
    requires
        possible(server, Phase::initial(server), outcomes),
    ensures
        run(server, Phase::initial(server), outcomes).wf(),
    decreases outcomes.len(),
{
    if outcomes.len() > 0 {
        run_keeps_wf(server, outcomes.drop_last());
        step_keeps_wf(
            server,
            run(server, Phase::initial(server), outcomes.drop_last()),
            outcomes.last(),
        );
    }
}

/// An operation that would have blocked, or that fails, leaves the
/// connection in its state. It remembers that state and goes on from there.
pub proof fn blocked_keeps_phase<E>(server: Server, phase: Phase, outcome: Happening<E>)
    requires
        outcome is WouldBlock || outcome is Failed,
    ensures
        phase.step(server, outcome).phase == phase,
        phase.step(server, outcome).notice is None,
        match outcome {
            Happening::WouldBlock(error) => phase.step(server, outcome).followup == (
            if server is Simple {
                Followup::Fail(error)
            } else {
                Followup::Suspend
            }),
            Happening::Failed(error) => phase.step(server, outcome).followup == Followup::Fail(
                error,
            ),
            _ => true,
        },
{
}

/// How often and where a connection is suspended makes no difference. With
/// the outcomes that would have blocked left out, the run is still possible and
/// leads to the same phase, with the same bytes taken by the peer.
pub proof fn suspension_is_transparent<E>(server: Server, phase: Phase, outcomes: Seq<Happening<E>>)
    requires
        possible(server, phase, outcomes),
    ensures
        possible(server, phase, unblocked(outcomes)),
        run(server, phase, unblocked(outcomes)) == run(server, phase, outcomes),
        delivered(server, phase, unblocked(outcomes)) == delivered(server, phase, outcomes),
        received(unblocked(outcomes)) == received(outcomes),
    decreases outcomes.len(),
{
    if outcomes.len() > 0 {
        let before = outcomes.drop_last();
        suspension_is_transparent(server, phase, before);
        if outcomes.last() is WouldBlock {
            assert(delivered(server, phase, outcomes) =~= delivered(server, phase, before));
            assert(received(outcomes) =~= received(before));
        } else {
            assert(unblocked(outcomes).drop_last() =~= unblocked(before));
        }
    }
}

/// A connection only ever moves forward: start, read, write, flush.
pub proof fn phases_only_advance<E>(
    server: Server,
    phase: Phase,
    outcomes: Seq<Happening<E>>,
    n: nat,
)
    requires
        possible(server, phase, outcomes),
        n <= outcomes.len(),
    ensures
        rank(run(server, phase, outcomes.take(n as int))) <= rank(run(server, phase, outcomes)),
    decreases outcomes.len(),
{
    if n == outcomes.len() {
        assert(outcomes.take(n as int) =~= outcomes);
    } else {
        let before = outcomes.drop_last();
        assert(before.take(n as int) =~= outcomes.take(n as int));
        phases_only_advance(server, phase, before, n);
    }
}

/// Before a task is registered nothing has come to pass.
proof fn start_is_empty<E>(server: Server, outcomes: Seq<Happening<E>>)
    requires
        possible(server, Phase::initial(server), outcomes),
        run(server, Phase::initial(server), outcomes) is Start,
    ensures
        outcomes.len() == 0,
{
    if outcomes.len() > 0 {
        let earlier = run(server, Phase::initial(server), outcomes.drop_last());
        assert(earlier.admits(outcomes.last()));
    }
}

/// The buffer holds just what has been received, in whatever pieces it came.
pub proof fn request_is_reassembled<E>(server: Server, outcomes: Seq<Happening<E>>)
    requires
        possible(server, Phase::initial(server), outcomes),
        run(server, Phase::initial(server), outcomes) is Read,
    ensures
        ({
            let phase = run(server, Phase::initial(server), outcomes);
            &&& phase->read == received(outcomes).len()
            &&& phase->request.take(phase->read as int) == received(outcomes)
        }),
    decreases outcomes.len(),
{
    let phase = run(server, Phase::initial(server), outcomes);
    if outcomes.len() == 0 {
        assert(phase->request.take(0) =~= received(outcomes));
    } else {
        let before = outcomes.drop_last();
        let earlier = run(server, Phase::initial(server), before);
        run_keeps_wf(server, before);
        if earlier is Start {
            start_is_empty(server, before);
            assert(received(before) =~= seq![]);
            assert(phase->request.take(0) =~= received(outcomes));
        } else {
            request_is_reassembled(server, before);
            match outcomes.last() {
                Happening::Received(chunk) => {
                    let filled = overlay(earlier->request, earlier->read as int, chunk);
                    assert(filled.take((earlier->read + chunk.len()) as int) =~= received(before)
                        + chunk);
                    if chunk.len() == 0 {
                        assert(received(outcomes) =~= received(before));
                    }
                },
                _ => {
                    assert(received(outcomes) =~= received(before));
                },
            }
        }
    }
}

/// The request is taken to be complete exactly when all that has been received
/// ends with a blank line, and what is printed is all that has been received.
pub proof fn request_ends_at_blank_line<E>(
    server: Server,
    outcomes: Seq<Happening<E>>,
    chunk: Seq<u8>,
)
    requires
        possible(
            server,
            Phase::initial(server),
            outcomes.push(Happening::<E>::Received(chunk)),
        ),
        chunk.len() > 0,
    ensures
        ({
            let all = received(outcomes) + chunk;
            let after = run(server, Phase::initial(server), outcomes).step(
                server,
                Happening::<E>::Received(chunk),
            );
            if blank_line().is_suffix_of(all) {
                &&& after.phase == Phase::writing()
                &&& after.notice == Some(Message::Request(all))
            } else {
                &&& after.phase is Read
                &&& after.notice is None
            }
        }),
{
    let longer = outcomes.push(Happening::<E>::Received(chunk));
    assert(longer.drop_last() =~= outcomes);
    let phase = run(server, Phase::initial(server), outcomes);
    run_keeps_wf(server, outcomes);
    request_is_reassembled(server, outcomes);
    let all = received(outcomes) + chunk;
    let filled = overlay(phase->request, phase->read as int, chunk);
    assert(filled.take(all.len() as int) =~= all);
    if all.len() >= 4 {
        assert(filled.subrange(all.len() - 4, all.len() as int) =~= all.subrange(
            all.len() - 4,
            all.len() as int,
        ));
    }
}

/// Nothing is written before a whole request has been received: at some point
/// of the run all that had been received until then ended with a blank line.
/// Only the chained task goes on to its response when a read brings nothing.
pub proof fn answers_whole_requests_only<E>(server: Server, outcomes: Seq<Happening<E>>) -> (n: nat)
    requires
        possible(server, Phase::initial(server), outcomes),
        ({
            let phase = run(server, Phase::initial(server), outcomes);
            phase is Write || phase is Flush
        }),
        !(server is Functional && outcomes.contains(Happening::<E>::Received(seq![]))),
    ensures
        n <= outcomes.len(),
        blank_line().is_suffix_of(received(outcomes.take(n as int))),
    decreases outcomes.len(),
{
    let before = outcomes.drop_last();
    let earlier = run(server, Phase::initial(server), before);
    run_keeps_wf(server, before);
    if earlier is Read {
        assert(outcomes =~= before.push(outcomes.last()));
        assert(outcomes.take(outcomes.len() as int) =~= outcomes);
        let chunk = outcomes.last()->Received_0;
        if chunk.len() == 0 {
            assert(chunk =~= seq![]);
            assert(outcomes[outcomes.len() - 1] == Happening::<E>::Received(seq![]));
        }
        request_ends_at_blank_line(server, before, chunk);
        outcomes.len()
    } else {
        let n = answers_whole_requests_only(server, before);
        assert(before.take(n as int) =~= outcomes.take(n as int));
        n
    }
}

/// A whole request that arrives in one piece is printed and answered, by
/// every server.
pub proof fn request_in_one_piece<E>(server: Server, request: Seq<u8>)
    requires
        request.len() <= CAPACITY,
        ends_request(request, request.len()),
    ensures
        Phase::reading().admits(Happening::<E>::Received(request)),
        Phase::reading().step(server, Happening::<E>::Received(request))
            == Phase::writing().proceed::<E>(Some(Message::Request(request))),
{
    let filled = overlay(Phase::reading()->request, 0, request);
    assert(filled.take(request.len() as int) =~= request);
    assert(filled.subrange(request.len() - 4, request.len() as int) =~= request.subrange(
        request.len() - 4,
        request.len() as int,
    ));
}

/// A request that fills the buffer without ending leaves no room to read
/// into, so that all the next read can bring is nothing. The connection is then
/// closed without a response, but for the chained task, which goes on to
/// its response as it does whenever the peer is gone.
pub proof fn oversized_request_is_dropped<E>(server: Server, phase: Phase, chunk: Seq<u8>)
    requires
        phase.wf(),
        phase is Read,
        phase->read == CAPACITY,
        phase.admits(Happening::<E>::Received(chunk)),
    ensures
        phase.awaits() == (Action::Read { room: 0 }),
        phase.step(server, Happening::<E>::Received(chunk)) == phase.disconnect::<E>(server),
        !(server is Functional) ==> phase.disconnect::<E>(server).followup == (
        Followup::<E>::Complete { unregister: false }),
        server is Functional ==> phase.disconnect::<E>(server) == Phase::writing().proceed::<E>(
            Some(Message::Disconnected { unexpectedly: true }),
        ),
{
}

/// Whatever the awaited action brings is admitted: a read that stays within the
/// room it was given, a write that takes no more than it was offered, and
/// every way for the operation to be put off or to fail.
pub proof fn awaited_is_admitted<E>(phase: Phase, chunk: Seq<u8>, n: nat, error: E)
    requires
        phase.wf(),
    ensures
        phase.awaits() matches Action::Read { room } ==> (phase.admits(
            Happening::<E>::Received(chunk),
        ) <==> chunk.len() <= room),
        phase.awaits() matches Action::Write { from } ==> from < response_bytes().len() && (
        phase.admits(Happening::<E>::Sent(n)) <==> from + n <= response_bytes().len()),
        phase.awaits() is Flush ==> phase.admits(Happening::<E>::Flushed),
        phase.awaits() is Register ==> phase.admits(Happening::<E>::Registered),
        !(phase.awaits() is Register) ==> phase.admits(Happening::WouldBlock(error))
            && phase.admits(Happening::Failed(error)),
{
    response_is_whole();
}

/// As long as the bytes read come to no more than the buffer holds, over however
/// many polls or passes, every read is admitted.
pub proof fn reads_that_fit_are_admitted<E>(
    server: Server,
    outcomes: Seq<Happening<E>>,
    chunk: Seq<u8>,
)
    requires
        possible(server, Phase::initial(server), outcomes),
        run(server, Phase::initial(server), outcomes) is Read,
    ensures
        run(server, Phase::initial(server), outcomes).admits(Happening::<E>::Received(chunk))
            <==> received(outcomes).len() + chunk.len() <= CAPACITY,
        run(server, Phase::initial(server), outcomes).awaits() == (Action::Read {
            room: (CAPACITY - received(outcomes).len()) as usize,
        }),
{
    request_is_reassembled(server, outcomes);
}

/// Two runs one after the other are one run.
pub proof fn runs_add_up<E>(
    server: Server,
    phase: Phase,
    first: Seq<Happening<E>>,
    second: Seq<Happening<E>>,
)
    ensures
        run(server, phase, first + second) == run(server, run(server, phase, first), second),
        possible(server, phase, first + second) <==> possible(server, phase, first) && possible(
            server,
            run(server, phase, first),
            second,
        ),
        received(first + second) == received(first) + received(second),
        delivered(server, phase, first + second) == delivered(server, phase, first) + delivered(
            server,
            run(server, phase, first),
            second,
        ),
    decreases second.len(),
{
    let both = first + second;
    if second.len() == 0 {
        assert(both =~= first);
        assert(received(both) =~= received(first) + received(second));
        assert(delivered(server, phase, both) =~= delivered(server, phase, first) + delivered(
            server,
            run(server, phase, first),
            second,
        ));
    } else {
        runs_add_up(server, phase, first, second.drop_last());
        assert(both.drop_last() =~= first + second.drop_last());
        assert(both.last() == second.last());
        assert(received(both) =~= received(first) + received(second));
        assert(delivered(server, phase, both) =~= delivered(server, phase, first) + delivered(
            server,
            run(server, phase, first),
            second,
        ));
    }
}

/// The peer takes the response from its start on, each byte once and in
/// order, whatever each write takes of it. At the flush it has taken all of it,
/// unless the peer left and the chained task went on regardless.
pub proof fn response_is_delivered_in_order<E>(server: Server, outcomes: Seq<Happening<E>>)
    requires
        possible(server, Phase::initial(server), outcomes),
    ensures
        ({
            let phase = run(server, Phase::initial(server), outcomes);
            let taken = delivered(server, Phase::initial(server), outcomes);
            &&& taken.is_prefix_of(response_bytes())
            &&& phase is Start || phase is Read ==> taken.len() == 0
            &&& phase is Write ==> {
                &&& phase->response == response_bytes()
                &&& phase->written == taken.len()
                &&& taken.len() < response_bytes().len()
            }
            &&& phase is Flush && !(server is Functional && outcomes.contains(
                Happening::<E>::Sent(0),
            )) ==> taken == response_bytes()
        }),
    decreases outcomes.len(),
{
    let phase = run(server, Phase::initial(server), outcomes);
    let taken = delivered(server, Phase::initial(server), outcomes);
    if outcomes.len() > 0 {
        let before = outcomes.drop_last();
        let earlier = run(server, Phase::initial(server), before);
        let earlier_taken = delivered(server, Phase::initial(server), before);
        response_is_delivered_in_order(server, before);
        run_keeps_wf(server, before);
        run_keeps_wf(server, outcomes);
        assert(outcomes =~= before.push(outcomes.last()));
        if before.contains(Happening::<E>::Sent(0)) {
            let i = choose|i: int| 0 <= i < before.len() && before[i] == Happening::<E>::Sent(0);
            assert(outcomes[i] == Happening::<E>::Sent(0));
        }
        if outcomes.last() == Happening::<E>::Sent(0) {
            assert(outcomes[outcomes.len() - 1] == Happening::<E>::Sent(0));
        }
        match (earlier, outcomes.last()) {
            (Phase::Write { response, written }, Happening::Sent(n)) => {
                assert(taken =~= response_bytes().take((written + n) as int));
            },
            _ => {
                assert(taken =~= earlier_taken);
            },
        }
        if phase is Flush {
            assert(taken.len() == response_bytes().len() ==> taken =~= response_bytes());
        }
    }
}

/// A connection is done with exactly when the response is flushed or the
/// peer is gone; the chained task does not stop for the latter. Only the flush
/// of a task takes its descriptor out of the reactor.
pub proof fn completes_on_flush_or_disconnect<E>(
    server: Server,
    phase: Phase,
    outcome: Happening<E>,
)
    requires
        phase.admits(outcome),
    ensures
        phase.step(server, outcome).followup is Complete <==> {
            ||| outcome is Flushed
            ||| !(server is Functional) && (outcome == Happening::<E>::Received(seq![]) || outcome
                == Happening::<E>::Sent(0))
        },
        phase.step(server, outcome).followup == (Followup::<E>::Complete { unregister: true })
            <==> outcome is Flushed && server.runs_tasks(),
{
    if let Happening::Received(chunk) = outcome {
        if chunk.len() == 0 {
            assert(chunk =~= seq![]);
        }
    }
}

/// The descriptor of a task is registered once, before anything else.
pub proof fn registers_first_and_once<E>(server: Server, outcomes: Seq<Happening<E>>)
    requires
        possible(server, Phase::initial(server), outcomes),
    ensures
        run(server, Phase::initial(server), outcomes).awaits() is Register
            <==> server.runs_tasks() && outcomes.len() == 0,
    decreases outcomes.len(),
{
    if outcomes.len() > 0 {
        registers_first_and_once(server, outcomes.drop_last());
    }
}

/// Every step of a connection takes it nearer to completion.
pub proof fn step_comes_nearer<E>(server: Server, phase: Phase, outcome: Happening<E>)
    requires
        phase.wf(),
        phase.admits(outcome),
        !(outcome is WouldBlock),
        !(outcome is Failed),
        !(phase.step(server, outcome).followup is Complete),
    ensures
        0 <= distance(phase.step(server, outcome).phase) < distance(phase),
{
}

/// A connection that never blocks nor fails completes within a bounded number of steps.
pub proof fn connection_completes<E>(server: Server, outcomes: Seq<Happening<E>>)
    requires
        possible(server, Phase::initial(server), outcomes),
        keeps_going(server, Phase::initial(server), outcomes),
    ensures
        distance(run(server, Phase::initial(server), outcomes)) + outcomes.len() <= distance(
            Phase::initial(server),
        ),
        outcomes.len() <= CAPACITY + response_bytes().len() + 3,
    decreases outcomes.len(),
{
    if outcomes.len() > 0 {
        let before = outcomes.drop_last();
        connection_completes(server, before);
        run_keeps_wf(server, before);
        step_comes_nearer(
            server,
            run(server, Phase::initial(server), before),
            outcomes.last(),
        );
    }
}

/// What can come to pass can come to pass up to any point, and the run goes on
/// from there.
pub proof fn run_up_to<E>(server: Server, phase: Phase, outcomes: Seq<Happening<E>>, n: nat)
    requires
        possible(server, phase, outcomes),
        n <= outcomes.len(),
    ensures
        possible(server, phase, outcomes.take(n as int)),
        n < outcomes.len() ==> {
            let before = run(server, phase, outcomes.take(n as int));
            &&& before.admits(outcomes[n as int])
            &&& run(server, phase, outcomes.take(n as int + 1)) == before.step(
                server,
                outcomes[n as int],
            ).phase
        },
    decreases outcomes.len(),
{
    if n == outcomes.len() {
        assert(outcomes.take(n as int) =~= outcomes);
    } else {
        let before = outcomes.drop_last();
        run_up_to(server, phase, before, n);
        assert(before.take(n as int) =~= outcomes.take(n as int));
        assert(outcomes.take(n as int + 1).drop_last() =~= outcomes.take(n as int));
        if n + 1 == outcomes.len() {
            assert(outcomes.take(n as int) =~= before);
        } else {
            assert(before[n as int] == outcomes[n as int]);
        }
    }
}

/// A call that serves a whole connection with blocking I/O fails exactly if its
/// last operation did, and with the very error of that operation. Otherwise it
/// succeeds: the response is flushed, or the peer is gone. It performs nothing
/// after a failed operation.
pub proof fn call_returns_its_last_error<E>(outcomes: Seq<Happening<E>>, error: E)
    requires
        in_one_go(Server::Simple, Phase::initial(Server::Simple), outcomes),
    ensures
        ({
            let last = outcomes.last();
            let result = returned(
                followup_at(
                    Server::Simple,
                    Phase::initial(Server::Simple),
                    outcomes,
                    outcomes.len() - 1,
                ),
            );
            &&& result == Some(Err::<(), E>(error)) <==> last == Happening::Failed(error) || last
                == Happening::WouldBlock(error)
            &&& result == Some(Ok::<(), E>(())) <==> {
                ||| last is Flushed
                ||| last == Happening::<E>::Received(seq![])
                ||| last == Happening::<E>::Sent(0)
            }
            &&& result is Some
        }),
        forall|i: int|
            0 <= i < outcomes.len() - 1 ==> !((#[trigger] outcomes[i]) is Failed) && !(
            outcomes[i] is WouldBlock),
{
    let start = Phase::initial(Server::Simple);
    let n = (outcomes.len() - 1) as nat;
    run_up_to(Server::Simple, start, outcomes, n);
    let before = run(Server::Simple, start, outcomes.take(n as int));
    completes_on_flush_or_disconnect(Server::Simple, before, outcomes.last());
    assert forall|i: int| 0 <= i < outcomes.len() - 1 implies !((#[trigger] outcomes[i]) is Failed)
        && !(outcomes[i] is WouldBlock) by {
        assert(followup_at(Server::Simple, start, outcomes, i) is Perform);
    }
}

/// When an operation of such a call fails, this is what the peer has taken by
/// then: nothing if it was a read, less than the whole response, and unflushed, if
/// it was a write, and the whole response if it was the flush.
pub proof fn failed_call_has_sent<E>(outcomes: Seq<Happening<E>>)
    requires
        in_one_go(Server::Simple, Phase::initial(Server::Simple), outcomes),
        outcomes.last() is Failed || outcomes.last() is WouldBlock,
    ensures
        ({
            let start = Phase::initial(Server::Simple);
            let phase = run(Server::Simple, start, outcomes.drop_last());
            let sent = delivered(Server::Simple, start, outcomes);
            &&& sent.is_prefix_of(response_bytes())
            &&& phase.awaits() is Read ==> sent.len() == 0
            &&& phase.awaits() is Write ==> sent.len() < response_bytes().len()
            &&& phase.awaits() is Flush ==> sent == response_bytes()
            &&& !(phase.awaits() is Register)
        }),
        forall|i: int| 0 <= i < outcomes.len() ==> !((#[trigger] outcomes[i]) is Flushed),
{
    let start = Phase::initial(Server::Simple);
    let before = outcomes.drop_last();
    response_is_delivered_in_order(Server::Simple, before);
    registers_first_and_once(Server::Simple, before);
    assert(delivered(Server::Simple, start, outcomes) =~= delivered(
        Server::Simple,
        start,
        before,
    ));
    assert forall|i: int| 0 <= i < outcomes.len() implies !((
    #[trigger] outcomes[i]) is Flushed) by {
        if i < outcomes.len() - 1 {
            assert(followup_at(Server::Simple, start, outcomes, i) is Perform);
        }
    }
}

/// The chained task makes the same steps as the one that is written out: as long as
/// the peer stays, the same outcomes are possible and lead to the same phase,
/// with the same follow-up and the same notice at each.
pub proof fn chained_task_makes_the_same_steps<E>(outcomes: Seq<Happening<E>>)
    requires
        !outcomes.contains(Happening::<E>::Received(seq![])),
        !outcomes.contains(Happening::<E>::Sent(0)),
    ensures
        run(Server::Functional, Phase::Start, outcomes) == run(
            Server::Asynchronous,
            Phase::Start,
            outcomes,
        ),
        possible(Server::Functional, Phase::Start, outcomes) <==> possible(
            Server::Asynchronous,
            Phase::Start,
            outcomes,
        ),
        outcomes.len() > 0 ==> run(
            Server::Functional,
            Phase::Start,
            outcomes.drop_last(),
        ).step(Server::Functional, outcomes.last()) == run(
            Server::Asynchronous,
            Phase::Start,
            outcomes.drop_last(),
        ).step(Server::Asynchronous, outcomes.last()),
    decreases outcomes.len(),
{
    if outcomes.len() > 0 {
        let before = outcomes.drop_last();
        assert forall|outcome: Happening<E>| before.contains(outcome) implies outcomes.contains(
            outcome,
        ) by {
            let i = choose|i: int| 0 <= i < before.len() && before[i] == outcome;
            assert(outcomes[i] == outcome);
        }
        chained_task_makes_the_same_steps(before);
        assert(outcomes[outcomes.len() - 1] == outcomes.last());
        if let Happening::Received(chunk) = outcomes.last() {
            if chunk.len() == 0 {
                assert(chunk =~= seq![]);
            }
        }
    }
}

} // verus!
