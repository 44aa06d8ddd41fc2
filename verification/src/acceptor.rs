//! The listening side: taking up new connections.
use crate::scheduler::Waker;
use crate::server::Server;
use vstd::prelude::*;

verus! {

/// Where the servers listen.
pub const ADDRESS: &'static str = "localhost:3000";

/// What trying to accept a connection came to.
#[derive(Debug)]
pub enum Attempt<C, E> {
    /// A connection came in.
    Accepted(C),
    /// None is waiting, with the error that says so.
    WouldBlock(E),
    /// The listener failed with this error.
    Failed(E),
}

/// What an attempt to accept a connection leads to: a connection to take up, or
/// none, to move on and try again later, or an error to give up on. On a
/// blocking listener every error is final.
pub open spec fn admission<C, E>(server: Server, attempt: Attempt<C, E>) -> Result<Option<C>, E> {
    match attempt {
        Attempt::Accepted(connection) => Ok(Some(connection)),
        Attempt::WouldBlock(error) => if server.blocks() {
            Err(error)
        } else {
            Ok(None)
        },
        Attempt::Failed(error) => Err(error),
    }
}

/// Decides on an attempt to accept a connection.
pub fn decide<C, E>(server: Server, attempt: Attempt<C, E>) -> (decision: Result<Option<C>, E>)
    ensures
        decision == admission(server, attempt),
{
    match attempt {
        Attempt::Accepted(connection) => Ok(Some(connection)),
        Attempt::WouldBlock(error) => if server.blocks() {
            Err(error)
        } else {
            Ok(None)
        },
        Attempt::Failed(error) => Err(error),
    }
}

/// The task that accepts connections. It is pushed on and off the scheduler's
/// run queue for the entirety of the program, and never completes.
pub enum Main<L> {
    /// Not listening yet.
    Start,
    /// The listener is bound, but not registered yet. No poll leaves the task like
    /// that.
    Bound { listener: L, fd: i32 },
    /// The task stays in this state for the rest of the program, attempting to
    /// accept new connections.
    Accept { listener: L },
}

/// What a poll of the accepting task calls for.
pub enum MainAction<T> {
    /// Bind a listener to [`ADDRESS`] and set it to non-blocking mode.
    Bind,
    /// Register the descriptor of the listener with the reactor, for this waker.
    Register { fd: i32, waker: Waker<T> },
    /// Try accepting a connection.
    Accept,
}

/// What a [`MainAction`] came to.
pub enum MainOutcome<L, C, E> {
    /// The listener is bound, and this is its descriptor.
    Bound { listener: L, fd: i32 },
    /// The descriptor is registered.
    Registered,
    /// An attempt to accept a connection was made.
    Tried(Attempt<C, E>),
}

/// How a poll of the accepting task goes on.
pub enum MainReply<T, C, E> {
    /// Perform this in the same poll.
    Perform(MainAction<T>),
    /// The poll is over and gives `out`. A connection in `spawn` gets a task of its
    /// own.
    Give { out: Option<()>, spawn: Option<C> },
    /// Give up on the error.
    Fail(E),
}

impl<L> Main<L> {
    /// What the task waits on, in a poll with this waker.
    pub open spec fn awaits<T>(self, waker: Waker<T>) -> MainAction<T> {
        match self {
            Main::Start => MainAction::Bind,
            Main::Bound { listener, fd } => MainAction::Register { fd, waker },
            Main::Accept { .. } => MainAction::Accept,
        }
    }

    /// The outcome is one that the awaited action can have.
    pub open spec fn expects<C, E>(self, outcome: MainOutcome<L, C, E>) -> bool {
        match self {
            Main::Start => outcome is Bound,
            Main::Bound { .. } => outcome is Registered,
            Main::Accept { .. } => outcome is Tried,
        }
    }

    /// The task after the outcome. An attempt leaves it as it is.
    pub open spec fn after<C, E>(self, outcome: MainOutcome<L, C, E>) -> Main<L> {
        match (self, outcome) {
            (_, MainOutcome::Bound { listener, fd }) => Main::Bound { listener, fd },
            (Main::Bound { listener, fd }, MainOutcome::Registered) => Main::Accept { listener },
            (_, _) => self,
        }
    }

    /// A poll of the task with this waker: what to perform first.
    pub fn poll<T>(&self, waker: Waker<T>) -> (action: MainAction<T>)
        ensures
            action == self.awaits(waker),
            action matches MainAction::Register { fd, waker: w } ==> w == waker,
    {
        match self {
            Main::Start => MainAction::Bind,
            Main::Bound { listener, fd } => MainAction::Register { fd: *fd, waker },
            Main::Accept { .. } => MainAction::Accept,
        }
    }

    /// The listener, once there is one.
    pub fn listener(&self) -> (listener: Option<&L>)
        ensures
            match *self {
                Main::Start => listener is None,
                Main::Bound { listener: l, .. } => listener == Some(&l),
                Main::Accept { listener: l } => listener == Some(&l),
            },
    {
        match self {
            Main::Start => None,
            Main::Bound { listener, .. } => Some(listener),
            Main::Accept { listener } => Some(listener),
        }
    }

    /// Takes what came of the awaited action, in a poll with this waker, and says
    /// how the poll goes on.
    pub fn step<T, C, E>(
        &mut self,
        server: Server,
        waker: Waker<T>,
        outcome: MainOutcome<L, C, E>,
    ) -> (reply: MainReply<T, C, E>)
        requires
            old(self).expects(outcome),
        ensures
            *final(self) == old(self).after(outcome),
            reply == main_reply(server, waker, outcome),
    {
        match outcome {
            MainOutcome::Bound { listener, fd } => {
                *self = Main::Bound { listener, fd };
                MainReply::Perform(MainAction::Register { fd, waker })
            },
            MainOutcome::Registered => {
                let mut bound = Main::Start;
                std::mem::swap(self, &mut bound);
                if let Main::Bound { listener, .. } = bound {
                    *self = Main::Accept { listener };
                }
                MainReply::Perform(MainAction::Accept)
            },
            MainOutcome::Tried(attempt) => match decide(server, attempt) {
                Ok(spawn) => MainReply::Give { out: None, spawn },
                Err(error) => MainReply::Fail(error),
            },
        }
    }
}

/// How a poll with this waker goes on after an outcome. The descriptor of a new
/// listener is registered for the waker, and the listener is then tried at
/// once. After an attempt the poll is over: it gives nothing, because the task is
/// to be polled again whenever a connection comes in.
pub open spec fn main_reply<T, L, C, E>(
    server: Server,
    waker: Waker<T>,
    outcome: MainOutcome<L, C, E>,
) -> MainReply<T, C, E> {
    match outcome {
        MainOutcome::Bound { listener, fd } => MainReply::Perform(
            MainAction::Register { fd, waker },
        ),
        MainOutcome::Registered => MainReply::Perform(MainAction::Accept),
        MainOutcome::Tried(attempt) => match admission(server, attempt) {
            Ok(spawn) => MainReply::Give { out: None, spawn },
            Err(error) => MainReply::Fail(error),
        },
    }
}

/// The task that a run of outcomes leads to.
pub open spec fn main_run<L, C, E>(
    main: Main<L>,
    outcomes: Seq<MainOutcome<L, C, E>>,
) -> Main<L>
    decreases outcomes.len(),
{
    if outcomes.len() == 0 {
        main
    } else {
        main_run(main, outcomes.drop_last()).after(outcomes.last())
    }
}

/// Each outcome of the run is one that the action awaited at its place can have.
pub open spec fn main_possible<L, C, E>(
    main: Main<L>,
    outcomes: Seq<MainOutcome<L, C, E>>,
) -> bool
    decreases outcomes.len(),
{
    outcomes.len() > 0 ==> {
        &&& main_possible(main, outcomes.drop_last())
        &&& main_run(main, outcomes.drop_last()).expects(outcomes.last())
    }
}

/// The run is one poll: it goes on up to its last outcome, and ends there.
pub open spec fn is_main_poll<T, L, C, E>(
    server: Server,
    main: Main<L>,
    waker: Waker<T>,
    outcomes: Seq<MainOutcome<L, C, E>>,
) -> bool {
    &&& outcomes.len() > 0
    &&& main_possible(main, outcomes)
    &&& forall|i: int|
        0 <= i < outcomes.len() - 1 ==> main_reply(server, waker, #[trigger] outcomes[i])
            is Perform
    &&& !(main_reply(server, waker, outcomes.last()) is Perform)
}

/// The task that a row of polls leads to, each with its waker and its outcomes.
pub open spec fn main_after_polls<T, L, C, E>(
    main: Main<L>,
    polls: Seq<(Waker<T>, Seq<MainOutcome<L, C, E>>)>,
) -> Main<L>
    decreases polls.len(),
{
    if polls.len() == 0 {
        main
    } else {
        main_run(main_after_polls(main, polls.drop_last()), polls.last().1)
    }
}

/// The row is one of polls of the task.
pub open spec fn are_main_polls<T, L, C, E>(
    server: Server,
    main: Main<L>,
    polls: Seq<(Waker<T>, Seq<MainOutcome<L, C, E>>)>,
) -> bool
    decreases polls.len(),
{
    polls.len() > 0 ==> {
        &&& are_main_polls(server, main, polls.drop_last())
        &&& is_main_poll(
            server,
            main_after_polls(main, polls.drop_last()),
            polls.last().0,
            polls.last().1,
        )
    }
}

/// What a run with this waker registers: the descriptors, each with its waker.
pub open spec fn main_run_registers<T, L, C, E>(
    main: Main<L>,
    waker: Waker<T>,
    outcomes: Seq<MainOutcome<L, C, E>>,
) -> Seq<(i32, Waker<T>)>
    decreases outcomes.len(),
{
    if outcomes.len() == 0 {
        seq![]
    } else {
        main_run_registers(main, waker, outcomes.drop_last()) + match main_run(
            main,
            outcomes.drop_last(),
        ).awaits(waker) {
            MainAction::Register { fd, waker: w } => seq![(fd, w)],
            _ => seq![],
        }
    }
}

/// What a row of polls registers.
pub open spec fn main_registers<T, L, C, E>(
    main: Main<L>,
    polls: Seq<(Waker<T>, Seq<MainOutcome<L, C, E>>)>,
) -> Seq<(i32, Waker<T>)>
    decreases polls.len(),
{
    if polls.len() == 0 {
        seq![]
    } else {
        main_registers(main, polls.drop_last()) + main_run_registers(
            main_after_polls(main, polls.drop_last()),
            polls.last().0,
            polls.last().1,
        )
    }
}

/// Over all its polls the task binds a listener once, registers it once, both
/// before the first attempt to accept a connection, and keeps to that listener.
pub proof fn listens_once_and_first<L, C, E>(outcomes: Seq<MainOutcome<L, C, E>>)
    requires
        main_possible(Main::Start, outcomes),
    ensures
        forall|i: int|
            0 <= i < outcomes.len() ==> {
                &&& (#[trigger] outcomes[i]) is Bound <==> i == 0
                &&& outcomes[i] is Registered <==> i == 1
            },
        outcomes.len() == 1 ==> main_run(Main::Start, outcomes) == (Main::Bound {
            listener: outcomes[0]->listener,
            fd: outcomes[0]->fd,
        }),
        outcomes.len() > 1 ==> main_run(Main::Start, outcomes) == (Main::Accept {
            listener: outcomes[0]->listener,
        }),
    decreases outcomes.len(),
{
    if outcomes.len() > 0 {
        let before = outcomes.drop_last();
        listens_once_and_first(before);
        assert forall|i: int| 0 <= i < outcomes.len() implies {
            &&& (#[trigger] outcomes[i]) is Bound <==> i == 0
            &&& outcomes[i] is Registered <==> i == 1
        } by {
            if i < before.len() {
                assert(before[i] == outcomes[i]);
            }
        }
    }
}

/// Every poll makes exactly one attempt to accept a connection, as the last
/// thing it does, and leaves the task accepting. If the attempt does not fail it, it
/// gives nothing, so that the task never completes; and a task is spawned for just
/// the connection that came in. It fails with the error of the attempt.
pub proof fn every_poll_makes_one_attempt<T, L, C, E>(
    server: Server,
    main: Main<L>,
    waker: Waker<T>,
    outcomes: Seq<MainOutcome<L, C, E>>,
)
    requires
        is_main_poll(server, main, waker, outcomes),
    ensures
        outcomes.len() == (match main {
            Main::Start => 3nat,
            Main::Bound { .. } => 2,
            Main::Accept { .. } => 1,
        }),
        forall|i: int|
            0 <= i < outcomes.len() ==> ((#[trigger] outcomes[i]) is Tried <==> i == outcomes.len()
                - 1),
        main_run(main, outcomes) is Accept,
        main_reply(server, waker, outcomes.last()) == match admission(
            server,
            outcomes.last()->Tried_0,
        ) {
            Ok(spawn) => MainReply::<T, C, E>::Give { out: None, spawn },
            Err(error) => MainReply::Fail(error),
        },
{
    reveal_with_fuel(main_run, 4);
    let first = outcomes.take(1);
    main_prefix(main, outcomes, 0);
    assert(outcomes.take(0) =~= seq![]);
    assert(first.drop_last() =~= seq![]);
    if outcomes.len() > 1 {
        assert(main_reply(server, waker, outcomes[0]) is Perform);
        main_prefix(main, outcomes, 1);
        let second = outcomes.take(2);
        assert(second.drop_last() =~= first);
        if outcomes.len() > 2 {
            assert(main_reply(server, waker, outcomes[1]) is Perform);
            main_prefix(main, outcomes, 2);
            assert(outcomes.take(3).drop_last() =~= second);
            if outcomes.len() > 3 {
                assert(main_reply(server, waker, outcomes[2]) is Perform);
            }
            assert(outcomes =~= outcomes.take(3));
        } else {
            assert(outcomes =~= second);
        }
    } else {
        assert(outcomes =~= first);
    }
}

/// Over however many polls, the descriptor of the listener is registered exactly
/// once, by the first poll and for the waker of that poll. The wakers of the
/// later polls are not registered.
pub proof fn first_waker_is_registered<T, L, C, E>(
    server: Server,
    polls: Seq<(Waker<T>, Seq<MainOutcome<L, C, E>>)>,
)
    requires
        are_main_polls(server, Main::Start, polls),
    ensures
        polls.len() == 0 ==> main_registers(Main::Start, polls) == Seq::<(
            i32,
            Waker<T>,
        )>::empty(),
        polls.len() > 0 ==> {
            &&& polls[0].1[0] is Bound
            &&& main_registers(Main::Start, polls) == seq![(polls[0].1[0]->fd, polls[0].0)]
            &&& main_after_polls(Main::Start, polls) == (Main::Accept {
                listener: polls[0].1[0]->listener,
            })
        },
    decreases polls.len(),
{
    if polls.len() > 0 {
        let earlier = polls.drop_last();
        let (waker, outcomes) = polls.last();
        let main = main_after_polls(Main::Start, earlier);
        first_waker_is_registered(server, earlier);
        every_poll_makes_one_attempt(server, main, waker, outcomes);
        reveal_with_fuel(main_run_registers, 4);
        reveal_with_fuel(main_run, 4);
        reveal_with_fuel(main_possible, 4);
        if earlier.len() > 0 {
            assert(main_run_registers(main, waker, outcomes) =~= seq![]);
            assert(earlier[0] == polls[0]);
            assert(main_registers(Main::Start, polls) =~= main_registers(Main::Start, earlier));
        } else {
            listens_once_and_first(outcomes);
            let one = outcomes.drop_last().drop_last();
            assert(one.last() == outcomes[0]);
            assert(outcomes.drop_last().last() == outcomes[1]);
            assert(main_run_registers(main, waker, outcomes) =~= seq![(outcomes[0]->fd, waker)]);
            assert(main_registers(Main::Start, polls) =~= seq![(outcomes[0]->fd, waker)]);
        }
    }
}

/// What can come to pass can come to pass up to any point.
proof fn main_prefix<L, C, E>(main: Main<L>, outcomes: Seq<MainOutcome<L, C, E>>, n: nat)
    requires
        main_possible(main, outcomes),
        n < outcomes.len(),
    ensures
        main_run(main, outcomes.take(n as int)).expects(outcomes[n as int]),
    decreases outcomes.len(),
{
    let before = outcomes.drop_last();
    if n == before.len() {
        assert(outcomes.take(n as int) =~= before);
    } else {
        main_prefix(main, before, n);
        assert(before.take(n as int) =~= outcomes.take(n as int));
    }
}

/// An attempt brings a connection exactly if one came in, and that very connection.
/// It fails with the error that it ended with, which on a non-blocking listener is
/// no failure if it says that none is waiting.
pub proof fn attempts_are_told_apart<C, E>(
    server: Server,
    attempt: Attempt<C, E>,
    connection: C,
    error: E,
)
    ensures
        admission(server, attempt) == Ok::<Option<C>, E>(Some(connection)) <==> attempt
            == Attempt::<C, E>::Accepted(connection),
        admission(server, attempt) == Ok::<Option<C>, E>(None) <==> attempt is WouldBlock && !(
        server is Simple),
        admission(server, attempt) == Err::<Option<C>, E>(error) <==> {
            ||| attempt == Attempt::<C, E>::Failed(error)
            ||| attempt == Attempt::<C, E>::WouldBlock(error) && server is Simple
        },
{
}

/// A step of the accepting task, in every state. If the poll goes on, it is with what
/// the task awaits by then, for the same waker. If it is over, it gives nothing, and
/// spawns a task just for a connection that came in. Only a listener that was bound,
/// or that was registered, moves the task on, and it keeps that very listener.
pub proof fn accepting_goes_on_with_what_is_awaited<T, L, C, E>(
    server: Server,
    main: Main<L>,
    waker: Waker<T>,
    outcome: MainOutcome<L, C, E>,
    connection: C,
    error: E,
)
    requires
        main.expects(outcome),
        !(server is Simple),
    ensures
        ({
            let after = main.after(outcome);
            let reply = main_reply(server, waker, outcome);
            &&& reply matches MainReply::Perform(action) ==> action == after.awaits(waker)
            &&& reply is Perform <==> main is Start || main is Bound
            &&& reply == (MainReply::<T, C, E>::Give { out: None, spawn: Some(connection) })
                <==> outcome == MainOutcome::<L, C, E>::Tried(Attempt::Accepted(connection))
            &&& reply == (MainReply::<T, C, E>::Give { out: None, spawn: None }) <==> outcome
                is Tried && outcome->Tried_0 is WouldBlock
            &&& reply == MainReply::<T, C, E>::Fail(error) <==> outcome == MainOutcome::<
                L,
                C,
                E,
            >::Tried(Attempt::Failed(error))
            &&& main is Start ==> after is Bound && outcome is Bound
            &&& outcome matches MainOutcome::Bound { listener, fd } ==> after == (Main::Bound {
                listener,
                fd,
            })
            &&& main matches Main::Bound { listener, fd } ==> after == (Main::Accept { listener })
            &&& main is Accept ==> after == main
        }),
{
}

/// What the task awaits in each state: a listener, its registration for the waker of
/// the poll, and then connections, for good.
pub proof fn accepting_awaits_in_turn<T, L, C, E>(
    main: Main<L>,
    waker: Waker<T>,
    outcome: MainOutcome<L, C, E>,
)
    ensures
        main.awaits(waker) is Bind <==> main is Start,
        main.awaits(waker) is Register <==> main is Bound,
        main.awaits(waker) is Accept <==> main is Accept,
        main.awaits(waker) matches MainAction::Register { fd, waker: w } ==> fd == main->fd && w
            == waker,
        main.expects(outcome) <==> {
            ||| main is Start && outcome is Bound
            ||| main is Bound && outcome is Registered
            ||| main is Accept && outcome is Tried
        },
{
}

/// Where the servers listen: on port 3000 of the local host.
pub proof fn address_is_local()
    ensures
        ADDRESS@ == "localhost:3000"@,
{
}

} // verus!
