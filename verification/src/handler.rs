//! The task that handles one connection.
//!
//! A [`Handler`] is the task, poll by poll, both where it is written out as a state
//! machine and where it is put together from the links of a chain.
use crate::connection::{message, Action, ConnectionState, Followup, Happening, Notice};
use crate::connection::{Outcome, Phase};
use crate::http::{response_bytes, response_is_whole, CAPACITY};
use crate::scheduler::Waker;
use crate::server::Server;
use crate::steps::{bytes_sent, next_operation_is_awaited, writes_go_on_where_they_stopped};
use crate::trace::{completes_on_flush_or_disconnect, delivered, phases_only_advance, possible};
use crate::trace::{followup_at, in_one_go, rank, run, run_keeps_wf, run_up_to};
use crate::trace::response_is_delivered_in_order;
use vstd::prelude::*;

verus! {

/// Manages the connection itself along with its current state.
pub struct Handler<C> {
    server: Server,
    connection: C,
    /// The descriptor of the connection.
    fd: i32,
    state: ConnectionState,
}

/// What a [`Handler`] stands for.
#[verifier::ext_equal]
pub ghost struct Task<C> {
    pub server: Server,
    pub connection: C,
    pub fd: i32,
    pub phase: Phase,
}

/// What a poll of the handler begins with.
pub enum Command<T> {
    /// Register the descriptor of the connection with the reactor, for this waker.
    Register { fd: i32, waker: Waker<T> },
    /// Perform this action on the connection.
    Perform(Action),
}

/// How a poll of the handler goes on.
#[derive(Debug, PartialEq, Eq)]
pub enum Progress<E> {
    /// Perform this action in the same poll.
    Perform(Action),
    /// The poll is over and gives `out`. `unregister` tells whether the descriptor
    /// of the connection is to be taken out of the reactor first.
    Give { out: Option<()>, unregister: bool },
    /// Give up on the error that the operation ended with.
    Fail(E),
}

/// A link of the chained task: what it does before the next link takes over.
#[derive(Clone, Copy, Debug, PartialEq, Eq, Structural)]
pub enum Link {
    /// Register the connection.
    Register,
    /// Read the request.
    Read,
    /// Write the response.
    Write,
    /// Flush the response.
    Flush,
}

/// What a poll with this waker performs in the phase. Only the start calls for the
/// waker.
pub open spec fn command<T>(phase: Phase, fd: i32, waker: Waker<T>) -> Command<T> {
    if phase is Start {
        Command::Register { fd, waker }
    } else {
        Command::Perform(phase.awaits())
    }
}

/// How the poll goes on with a follow-up: being suspended, it gives nothing, and
/// being done with the connection, it is ready.
pub open spec fn progress<E>(followup: Followup<E>) -> Progress<E> {
    match followup {
        Followup::Perform(action) => Progress::Perform(action),
        Followup::Suspend => Progress::Give { out: None, unregister: false },
        Followup::Complete { unregister } => Progress::Give { out: Some(()), unregister },
        Followup::Fail(error) => Progress::Fail(error),
    }
}

/// Tells whether the action is one of the link. The link hands on to the next one
/// as soon as the action to perform is not.
pub fn belongs(link: Link, action: Action) -> (yes: bool)
    ensures
        yes == (action.link() == link),
        yes <==> match link {
            Link::Register => action is Register,
            Link::Read => action is Read,
            Link::Write => action is Write,
            Link::Flush => action is Flush,
        },
{
    match (link, action) {
        (Link::Register, Action::Register) => true,
        (Link::Read, Action::Read { .. }) => true,
        (Link::Write, Action::Write { .. }) => true,
        (Link::Flush, Action::Flush) => true,
        (_, _) => false,
    }
}

impl Action {
    /// The link that performs the action.
    pub open spec fn link(self) -> Link {
        match self {
            Action::Register => Link::Register,
            Action::Read { .. } => Link::Read,
            Action::Write { .. } => Link::Write,
            Action::Flush => Link::Flush,
        }
    }
}

impl Link {
    /// The link that comes behind this one, if there is one.
    pub open spec fn following(self) -> Option<Link> {
        match self {
            Link::Register => Some(Link::Read),
            Link::Read => Some(Link::Write),
            Link::Write => Some(Link::Flush),
            Link::Flush => None,
        }
    }
}

impl<C> Task<C> {
    /// The invariant: the server is one that runs tasks, and the phase is a proper
    /// one.
    pub open spec fn wf(self) -> bool {
        self.server.runs_tasks() && self.phase.wf()
    }
}

impl<C> View for Handler<C> {
    type V = Task<C>;

    closed spec fn view(&self) -> Task<C> {
        Task {
            server: self.server,
            connection: self.connection,
            fd: self.fd,
            phase: self.state@,
        }
    }
}

impl<C> Handler<C> {
    /// A handler for a connection that has just been accepted, and its descriptor.
    pub fn new(server: Server, connection: C, fd: i32) -> (handler: Handler<C>)
        requires
            server.runs_tasks(),
        ensures
            handler@ == (Task { server, connection, fd, phase: Phase::Start }),
            handler@.wf(),
    {
        Handler { server, connection, fd, state: ConnectionState::new(server) }
    }

    /// The connection.
    pub fn connection(&self) -> (connection: &C)
        ensures
            *connection == self@.connection,
    {
        &self.connection
    }

    /// The descriptor of the connection.
    pub fn descriptor(&self) -> (fd: i32)
        ensures
            fd == self@.fd,
    {
        self.fd
    }

    /// A poll of the handler with this waker: what to perform first. Everything that
    /// is performed is followed by a [`Handler::step`], until the poll is over.
    pub fn poll<T>(&self, waker: Waker<T>) -> (command: Command<T>)
        requires
            self@.wf(),
        ensures
            command == self::command(self@.phase, self@.fd, waker),
            command matches Command::Register { fd, waker: w } ==> fd == self@.fd && w == waker,
            command matches Command::Perform(Action::Write { from }) ==> from
                < response_bytes().len(),
    {
        match self.state.resume() {
            Action::Register => Command::Register { fd: self.fd, waker },
            action => Command::Perform(action),
        }
    }

    /// Tells whether the outcome is one that the awaited action can have.
    pub fn admits<E>(&self, outcome: &Outcome<E>) -> (fits: bool)
        ensures
            fits == self@.phase.admits(outcome@),
    {
        self.state.admits(outcome)
    }

    /// Takes the outcome of the awaited action, and says how the poll goes on and
    /// what to print. It never goes on to register.
    pub fn step<E>(&mut self, outcome: Outcome<E>) -> (reply: (Progress<E>, Option<Notice>))
        requires
            old(self)@.wf(),
            old(self)@.phase.admits(outcome@),
        ensures
            final(self)@.wf(),
            ({
                let after = old(self)@.phase.step(old(self)@.server, outcome@);
                &&& final(self)@ == (Task { phase: after.phase, ..old(self)@ })
                &&& reply.0 == progress(after.followup)
                &&& message(reply.1) == after.notice
            }),
            reply.0 != Progress::<E>::Perform(Action::Register),
            reply.0 matches Progress::Perform(action) ==> action == final(self)@.phase.awaits(),
            reply.0 matches Progress::Perform(Action::Write { from }) ==> from
                < response_bytes().len(),
    {
        let reply = self.state.step(self.server, outcome);
        let progress = match reply.followup {
            Followup::Perform(action) => Progress::Perform(action),
            Followup::Suspend => Progress::Give { out: None, unregister: false },
            Followup::Complete { unregister } => Progress::Give { out: Some(()), unregister },
            Followup::Fail(error) => Progress::Fail(error),
        };
        (progress, reply.notice)
    }
}

/// What the poll comes to.
pub open spec fn result<E>(
    server: Server,
    phase: Phase,
    outcomes: Seq<Happening<E>>,
) -> Progress<E> {
    progress(followup_at(server, phase, outcomes, outcomes.len() - 1))
}

/// The phase that a row of polls leads to, each with its waker and its outcomes.
pub open spec fn after_polls<T, E>(
    server: Server,
    phase: Phase,
    polls: Seq<(Waker<T>, Seq<Happening<E>>)>,
) -> Phase
    decreases polls.len(),
{
    if polls.len() == 0 {
        phase
    } else {
        run(server, after_polls(server, phase, polls.drop_last()), polls.last().1)
    }
}

/// The row is one of polls, each of which drives the connection in one go.
pub open spec fn are_polls<T, E>(
    server: Server,
    phase: Phase,
    polls: Seq<(Waker<T>, Seq<Happening<E>>)>,
) -> bool
    decreases polls.len(),
{
    polls.len() > 0 ==> {
        &&& are_polls(server, phase, polls.drop_last())
        &&& in_one_go(server, after_polls(server, phase, polls.drop_last()), polls.last().1)
    }
}

/// What a poll with this waker registers: the descriptors, each with its waker.
pub open spec fn poll_registers<T, E>(
    server: Server,
    phase: Phase,
    fd: i32,
    waker: Waker<T>,
    outcomes: Seq<Happening<E>>,
) -> Seq<(i32, Waker<T>)>
    decreases outcomes.len(),
{
    if outcomes.len() == 0 {
        seq![]
    } else {
        poll_registers(server, phase, fd, waker, outcomes.drop_last()) + match command(
            run(server, phase, outcomes.drop_last()),
            fd,
            waker,
        ) {
            Command::Register { fd: f, waker: w } => seq![(f, w)],
            Command::Perform(_) => seq![],
        }
    }
}

/// What a row of polls registers.
pub open spec fn polls_register<T, E>(
    server: Server,
    phase: Phase,
    fd: i32,
    polls: Seq<(Waker<T>, Seq<Happening<E>>)>,
) -> Seq<(i32, Waker<T>)>
    decreases polls.len(),
{
    if polls.len() == 0 {
        seq![]
    } else {
        polls_register(server, phase, fd, polls.drop_last()) + poll_registers(
            server,
            after_polls(server, phase, polls.drop_last()),
            fd,
            polls.last().0,
            polls.last().1,
        )
    }
}

/// A poll gives nothing exactly if its last operation would have blocked. It is
/// ready exactly if that was the flush, or a read or a write that found the peer
/// gone; the chained task goes on after the latter. It fails with the error
/// of the operation.
pub proof fn last_operation_decides<E>(
    server: Server,
    phase: Phase,
    outcomes: Seq<Happening<E>>,
    error: E,
)
    requires
        server.runs_tasks(),
        in_one_go(server, phase, outcomes),
    ensures
        ({
            let last = outcomes.last();
            let result = result(server, phase, outcomes);
            &&& result == (Progress::<E>::Give { out: None, unregister: false }) <==> last
                is WouldBlock
            &&& (result is Give && result->out == Some(())) <==> {
                ||| last is Flushed
                ||| !(server is Functional) && (last == Happening::<E>::Received(seq![]) || last
                    == Happening::<E>::Sent(0))
            }
            &&& result == (Progress::<E>::Give { out: Some(()), unregister: true }) <==> last
                is Flushed
            &&& result == Progress::Fail(error) <==> last == Happening::Failed(error)
        }),
{
    let n = (outcomes.len() - 1) as nat;
    run_up_to(server, phase, outcomes, n);
    let before = run(server, phase, outcomes.take(n as int));
    completes_on_flush_or_disconnect(server, before, outcomes.last());
}

/// No operation of a poll but the last would have blocked, failed, flushed or,
/// apart from the chained task, found the peer gone.
pub proof fn polls_go_on_until_decided<E>(
    server: Server,
    phase: Phase,
    outcomes: Seq<Happening<E>>,
    i: int,
)
    requires
        server.runs_tasks(),
        in_one_go(server, phase, outcomes),
        0 <= i < outcomes.len() - 1,
    ensures
        !(outcomes[i] is WouldBlock),
        !(outcomes[i] is Failed),
        !(outcomes[i] is Flushed),
        !(server is Functional) ==> outcomes[i] != Happening::<E>::Received(seq![])
            && outcomes[i] != Happening::<E>::Sent(0),
{
    assert(followup_at(server, phase, outcomes, i) is Perform);
}

/// A poll that begins in the start state registers the descriptor, exactly once
/// and before any other operation; one that begins in another state does not.
/// No poll leaves the handler in the start state.
pub proof fn registers_in_the_first_poll<E>(
    server: Server,
    phase: Phase,
    outcomes: Seq<Happening<E>>,
)
    requires
        server.runs_tasks(),
        in_one_go(server, phase, outcomes),
    ensures
        forall|i: int|
            0 <= i < outcomes.len() ==> ((#[trigger] outcomes[i]) is Registered <==> i == 0 && phase
                is Start),
        !(run(server, phase, outcomes) is Start),
{
    never_back_to_start(server, phase, outcomes);
}

/// After its first outcome a handler is never in the start state.
proof fn never_back_to_start<E>(server: Server, phase: Phase, outcomes: Seq<Happening<E>>)
    requires
        possible(server, phase, outcomes),
    ensures
        outcomes.len() > 0 ==> !(run(server, phase, outcomes) is Start),
        forall|i: int|
            0 <= i < outcomes.len() ==> ((#[trigger] outcomes[i]) is Registered <==> i == 0 && phase
                is Start),
    decreases outcomes.len(),
{
    if outcomes.len() > 0 {
        let before = outcomes.drop_last();
        never_back_to_start(server, phase, before);
        assert forall|i: int| 0 <= i < outcomes.len() implies ((#[trigger] outcomes[i])
            is Registered <==> i == 0 && phase is Start) by {
            if i < before.len() {
                assert(before[i] == outcomes[i]);
            }
        }
    }
}

/// A poll that begins in the start state registers the descriptor for its own
/// waker, and one that begins in another state registers nothing.
pub proof fn poll_registers_its_own_waker<T, E>(
    server: Server,
    phase: Phase,
    fd: i32,
    waker: Waker<T>,
    outcomes: Seq<Happening<E>>,
)
    requires
        possible(server, phase, outcomes),
        outcomes.len() > 0,
    ensures
        poll_registers(server, phase, fd, waker, outcomes) == (if phase is Start {
            seq![(fd, waker)]
        } else {
            seq![]
        }),
    decreases outcomes.len(),
{
    let before = outcomes.drop_last();
    never_back_to_start(server, phase, before);
    if before.len() > 0 {
        poll_registers_its_own_waker(server, phase, fd, waker, before);
        assert(poll_registers(server, phase, fd, waker, outcomes) =~= poll_registers(
            server,
            phase,
            fd,
            waker,
            before,
        ));
    } else {
        assert(poll_registers(server, phase, fd, waker, before) =~= seq![]);
        assert(poll_registers(server, phase, fd, waker, outcomes) =~= if phase is Start {
            seq![(fd, waker)]
        } else {
            seq![]
        });
    }
}

/// Over however many polls, the descriptor of the connection is registered exactly
/// once, by the first poll and for the waker of that poll. The wakers of the later
/// polls are not registered.
pub proof fn first_waker_is_registered<T, E>(
    server: Server,
    fd: i32,
    polls: Seq<(Waker<T>, Seq<Happening<E>>)>,
)
    requires
        server.runs_tasks(),
        are_polls(server, Phase::Start, polls),
    ensures
        polls_register(server, Phase::Start, fd, polls) == (if polls.len() > 0 {
            seq![(fd, polls[0].0)]
        } else {
            seq![]
        }),
        polls.len() > 0 ==> !(after_polls(server, Phase::Start, polls) is Start),
    decreases polls.len(),
{
    if polls.len() > 0 {
        let earlier = polls.drop_last();
        let (waker, outcomes) = polls.last();
        let phase = after_polls(server, Phase::Start, earlier);
        first_waker_is_registered(server, fd, earlier);
        never_back_to_start(server, phase, outcomes);
        poll_registers_its_own_waker(server, phase, fd, waker, outcomes);
        assert(polls_register(server, Phase::Start, fd, polls) =~= seq![(fd, polls[0].0)]);
    }
}

/// A poll never goes back: it ends past the start state and no earlier than it
/// began. Once the response is being written nothing more is read, and once
/// it is written out nothing more is written.
pub proof fn polls_never_go_back<E>(server: Server, phase: Phase, outcomes: Seq<Happening<E>>)
    requires
        server.runs_tasks(),
        in_one_go(server, phase, outcomes),
    ensures
        rank(run(server, phase, outcomes)) >= 1,
        rank(run(server, phase, outcomes)) >= rank(phase),
        phase is Write || phase is Flush ==> forall|i: int|
            0 <= i < outcomes.len() ==> !((#[trigger] outcomes[i]) is Received),
        phase is Flush ==> forall|i: int|
            0 <= i < outcomes.len() ==> !((#[trigger] outcomes[i]) is Sent),
{
    registers_in_the_first_poll(server, phase, outcomes);
    phases_only_advance(server, phase, outcomes, 0);
    assert(outcomes.take(0) =~= seq![]);
    assert forall|i: int| 0 <= i < outcomes.len() implies {
        &&& phase is Write || phase is Flush ==> !((#[trigger] outcomes[i]) is Received)
        &&& phase is Flush ==> !(outcomes[i] is Sent)
    } by {
        run_up_to(server, phase, outcomes, i as nat);
        let earlier = outcomes.take(i);
        phases_only_advance(server, phase, earlier, 0);
        assert(earlier.take(0) =~= seq![]);
    }
}

/// A poll of a handler whose response is written out flushes and does nothing
/// else. As long as the flush goes through, the handler is ready, has its
/// descriptor taken out of the reactor, and stays as it is, so that to poll it
/// once more comes to the same.
pub proof fn flushed_handler_stays_flushed<E>(server: Server, outcomes: Seq<Happening<E>>)
    requires
        server.runs_tasks(),
        in_one_go(server, Phase::Flush, outcomes),
    ensures
        outcomes.len() == 1,
        run(server, Phase::Flush, outcomes) == Phase::Flush,
        outcomes[0] is Flushed || outcomes[0] is WouldBlock || outcomes[0] is Failed,
        outcomes[0] is Flushed ==> result(server, Phase::Flush, outcomes) == (
        Progress::<E>::Give { out: Some(()), unregister: true }),
        in_one_go(
            server,
            run(server, Phase::Flush, outcomes),
            seq![Happening::<E>::Flushed],
        ),
        result(server, run(server, Phase::Flush, outcomes), seq![Happening::<E>::Flushed]) == (
        Progress::<E>::Give { out: Some(()), unregister: true }),
{
    reveal_with_fuel(run, 2);
    reveal_with_fuel(possible, 2);
    run_up_to(server, Phase::Flush, outcomes, 0);
    assert(outcomes.take(0) =~= seq![]);
    if outcomes.len() > 1 {
        assert(followup_at(server, Phase::Flush, outcomes, 0) is Perform);
    }
    assert(outcomes.drop_last() =~= seq![]);
    let flushed = seq![Happening::<E>::Flushed];
    assert(flushed.take(0) =~= seq![]);
    assert(flushed.drop_last() =~= seq![]);
}

/// Over all polls of a handler the peer takes the response from its start on.
/// While it is written, what has gone out is as much of it as the state says, and
/// some is left; before it is written none has gone out. At the flush all of it
/// has gone out, unless the peer left and the chained task went on regardless.
pub proof fn response_goes_out_over_all_polls<E>(server: Server, outcomes: Seq<Happening<E>>)
    requires
        server.runs_tasks(),
        possible(server, Phase::Start, outcomes),
    ensures
        ({
            let phase = run(server, Phase::Start, outcomes);
            let sent = delivered(server, Phase::Start, outcomes);
            &&& sent.is_prefix_of(response_bytes())
            &&& phase is Start || phase is Read ==> sent.len() == 0
            &&& phase matches Phase::Write { response, written } ==> {
                &&& response == response_bytes()
                &&& written < response_bytes().len()
                &&& sent == response.take(written as int)
            }
            &&& phase is Flush && !(server is Functional && outcomes.contains(
                Happening::<E>::Sent(0),
            )) ==> sent == response_bytes()
        }),
{
    response_is_delivered_in_order(server, outcomes);
    run_keeps_wf(server, outcomes);
    if let Phase::Write { response, written } = run(server, Phase::Start, outcomes) {
        assert(delivered(server, Phase::Start, outcomes) =~= response.take(written as int));
    }
}

/// The links of the chained task follow one another. What an outcome calls for next
/// is done by the same link or by the one behind it, and only the last link
/// completes the task.
pub proof fn links_follow_one_another<E>(phase: Phase, outcome: Happening<E>)
    requires
        phase.wf(),
        phase.admits(outcome),
    ensures
        ({
            let link = phase.awaits().link();
            let after = phase.step(Server::Functional, outcome);
            &&& after.followup matches Followup::Perform(action) ==> {
                &&& action == after.phase.awaits()
                &&& action.link() == link || link.following() == Some(action.link())
            }
            &&& after.followup is Complete ==> link is Flush
        }),
{
}

/// A step of a poll, in every phase of both task servers. If the poll goes on, it is
/// with the operation that the handler awaits by then, so that it reads into the
/// room that is left and writes from the first byte on that is left; and it goes on
/// just after being registered, after bytes came in or went out, and, in the
/// chained task, after the peer is gone. If it is over, it gives nothing just where
/// the operation was not ready, and has the descriptor unregistered just where the
/// response was flushed.
pub proof fn poll_goes_on_with_what_is_awaited<E>(
    server: Server,
    phase: Phase,
    outcome: Happening<E>,
    error: E,
)
    requires
        server is Functional || server is Asynchronous,
        phase.wf(),
        phase.admits(outcome),
    ensures
        ({
            let after = phase.step(server, outcome);
            let progress = progress(after.followup);
            let gone = outcome matches Happening::Received(chunk) && chunk.len() == 0 || outcome
                == Happening::<E>::Sent(0);
            &&& progress matches Progress::Perform(action) ==> {
                &&& action == after.phase.awaits()
                &&& action is Register <==> after.phase is Start
                &&& action matches Action::Read { room } ==> after.phase is Read
                    && after.phase->read + room == CAPACITY
                &&& action matches Action::Write { from } ==> after.phase is Write
                    && after.phase->written == from
                &&& action is Flush ==> after.phase is Flush
            }
            &&& progress is Perform <==> {
                ||| outcome is Registered
                ||| (outcome is Received || outcome is Sent) && (!gone || server is Functional)
            }
            &&& progress == (Progress::<E>::Give { out: None, unregister: false }) <==> outcome
                is WouldBlock
            &&& progress == (Progress::<E>::Give { out: Some(()), unregister: true }) <==> outcome
                is Flushed
            &&& progress == (Progress::<E>::Give { out: Some(()), unregister: false }) <==> gone
                && server is Asynchronous
            &&& progress == Progress::Fail(error) <==> outcome == Happening::Failed(error)
        }),
{
    response_is_whole();
}

/// Over all polls of a handler, each write goes on where the last one stopped,
/// whether a poll begins with it or goes on to it: it offers the response from the
/// byte on whose place is the number of bytes that went out before.
pub proof fn polls_write_on_where_they_stopped<T, E>(
    server: Server,
    outcomes: Seq<Happening<E>>,
    outcome: Happening<E>,
    fd: i32,
    waker: Waker<T>,
)
    requires
        server is Functional || server is Asynchronous,
        possible(server, Phase::Start, outcomes.push(outcome)),
    ensures
        command(run(server, Phase::Start, outcomes), fd, waker) matches Command::Perform(
            Action::Write { from },
        ) ==> from == bytes_sent(outcomes),
        progress(run(server, Phase::Start, outcomes).step(server, outcome).followup)
            matches Progress::Perform(Action::Write { from }) ==> from == bytes_sent(
            outcomes.push(outcome),
        ),
{
    let longer = outcomes.push(outcome);
    assert(longer.drop_last() =~= outcomes);
    writes_go_on_where_they_stopped(server, outcomes);
    writes_go_on_where_they_stopped(server, longer);
    run_keeps_wf(server, outcomes);
    next_operation_is_awaited(server, run(server, Phase::Start, outcomes), outcome);
}

/// What a poll begins with, in every phase: in the start state the registration of
/// the handler's own descriptor for the waker of the poll, and in every other
/// state the operation that the handler awaits.
pub proof fn poll_begins_with_what_is_awaited<T>(phase: Phase, fd: i32, waker: Waker<T>)
    requires
        phase.wf(),
    ensures
        phase is Start ==> command(phase, fd, waker) == (Command::Register { fd, waker }),
        command(phase, fd, waker) matches Command::Perform(action) ==> {
            &&& action == phase.awaits()
            &&& !(action is Register)
        },
        command(phase, fd, waker) is Register ==> phase is Start,
{
}

/// Each action belongs to just one link, which is that of the phase that awaits it;
/// and the links come in the order of the phases.
pub proof fn links_are_those_of_the_phases(phase: Phase, action: Action)
    requires
        phase.wf(),
    ensures
        phase.awaits().link() is Register <==> phase is Start,
        phase.awaits().link() is Read <==> phase is Read,
        phase.awaits().link() is Write <==> phase is Write,
        phase.awaits().link() is Flush <==> phase is Flush,
        action.link() is Register <==> action is Register,
        action.link() is Read <==> action is Read,
        action.link() is Write <==> action is Write,
        action.link() is Flush <==> action is Flush,
{
}

/// The invariant of a handler: it is a task of one of the two servers that run tasks,
/// in a proper phase.
pub proof fn tasks_are_proper<C>(task: Task<C>)
    ensures
        task.wf() <==> (task.server is Functional || task.server is Asynchronous)
            && task.phase.wf(),
{
}

} // verus!
