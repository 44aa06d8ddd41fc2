//! The connections of the non-blocking server, tried in turn.
use crate::acceptor::{admission, decide, Attempt};
use crate::connection::{message, Action, ConnectionState, Followup, Happening};
use crate::connection::{Outcome, Phase, Reply};
use crate::http::CAPACITY;
use crate::server::Server;
use crate::trace::{possible, run};
use vstd::prelude::*;

verus! {

/// All open connections, and how far the server has come with them.
///
/// The server tries to accept a connection, and then passes over all that are
/// open, to drive each one forward from its current state. The connections that
/// a pass completes are removed at its end.
pub struct ConnectionList<C> {
    connections: Vec<(C, ConnectionState)>,
    /// No pass is under way.
    accepting: bool,
    /// The connection that is being driven.
    next: usize,
    /// A separate list of indices to remove after the pass.
    completed: Vec<usize>,
}

/// What a [`ConnectionList`] stands for.
#[verifier::ext_equal]
pub ghost struct Pass<C> {
    pub connections: Seq<(C, Phase)>,
    pub accepting: bool,
    pub next: nat,
    pub completed: Seq<usize>,
}

/// What the server does next.
pub enum Next<'a, C> {
    /// Try accepting a new connection.
    Accept,
    /// Perform the action on the connection.
    Drive { connection: &'a C, action: Action },
}

/// The elements at indices below `n` that are not listed, in order.
pub open spec fn unlisted<A>(items: Seq<A>, n: nat, listed: Seq<usize>) -> Seq<A>
    decreases n,
{
    if n == 0 {
        seq![]
    } else {
        let rest = unlisted(items, (n - 1) as nat, listed);
        if listed.contains((n - 1) as usize) {
            rest
        } else {
            rest.push(items[n - 1])
        }
    }
}

impl<C> Pass<C> {
    /// The invariant: each connection is in a proper phase, a pass under way has
    /// a connection to drive, and the completed indices ascend and are behind it.
    pub open spec fn wf(self) -> bool {
        &&& forall|i: int|
            0 <= i < self.connections.len() ==> (#[trigger] self.connections[i]).1.wf()
        &&& forall|i: int|
            0 <= i < self.completed.len() ==> #[trigger] self.completed[i] < self.next
        &&& forall|i: int, j: int|
            0 <= i < j < self.completed.len() ==> self.completed[i] < self.completed[j]
        &&& if self.accepting {
            self.next == 0
        } else {
            self.next < self.connections.len()
        }
    }

    /// The connection that is being driven.
    pub open spec fn current(self) -> (C, Phase) {
        self.connections[self.next as int]
    }

    /// With a new connection, in the Read state with an empty buffer and zero
    /// bytes read.
    pub open spec fn with(self, connection: C) -> Pass<C> {
        Pass { connections: self.connections.push((connection, Phase::reading())), ..self }
    }

    /// Starts a pass over the connections.
    pub open spec fn begin(self) -> Pass<C> {
        Pass { accepting: false, ..self }.settle()
    }

    /// Takes the outcome of the action that the current connection awaited. A
    /// connection that is not ready yet, or that is done with, makes way for the
    /// next one.
    pub open spec fn advance<E>(self, outcome: Happening<E>) -> Pass<C> {
        let (connection, phase) = self.current();
        let after = phase.step(Server::NonBlocking, outcome);
        let connections = self.connections.update(self.next as int, (connection, after.phase));
        match after.followup {
            Followup::Suspend => Pass { connections, next: self.next + 1, ..self },
            Followup::Complete { .. } => Pass {
                connections,
                next: self.next + 1,
                completed: self.completed.push(self.next as usize),
                ..self
            },
            _ => Pass { connections, ..self },
        }.settle()
    }

    /// Ends the pass if it is through: the connections that it completed are
    /// removed, and the server goes back to accepting.
    pub open spec fn settle(self) -> Pass<C> {
        if self.next == self.connections.len() {
            Pass {
                connections: unlisted(self.connections, self.connections.len(), self.completed),
                accepting: true,
                next: 0,
                completed: seq![],
            }
        } else {
            self
        }
    }
}

impl<C> View for ConnectionList<C> {
    type V = Pass<C>;

    closed spec fn view(&self) -> Pass<C> {
        Pass {
            connections: self.connections@.map_values(|c: (C, ConnectionState)| (c.0, c.1@)),
            accepting: self.accepting,
            next: self.next as nat,
            completed: self.completed@,
        }
    }
}

impl<C> ConnectionList<C> {
    /// No connections.
    pub fn new() -> (list: Self)
        ensures
            list@.wf(),
            list@ == (Pass::<C> {
                connections: seq![],
                accepting: true,
                next: 0,
                completed: seq![],
            }),
    {
        let list = ConnectionList {
            connections: Vec::new(),
            accepting: true,
            next: 0,
            completed: Vec::new(),
        };
        assert(list@.connections =~= seq![]);
        list
    }

    /// What the server does next.
    pub fn next(&self) -> (next: Next<'_, C>)
        requires
            self@.wf(),
        ensures
            if self@.accepting {
                next is Accept
            } else {
                let (connection, phase) = self@.current();
                next == (Next::Drive {
                    connection: &connection,
                    action: phase.awaits(),
                })
            },
    {
        if self.accepting {
            Next::Accept
        } else {
            assert(self@.current().1.wf());
            let (connection, state) = &self.connections[self.next];
            Next::Drive { connection, action: state.resume() }
        }
    }

    /// Tells whether the outcome is one that the awaited action can have.
    pub fn admits<E>(&self, outcome: &Outcome<E>) -> (fits: bool)
        requires
            self@.wf(),
        ensures
            fits == (!self@.accepting && self@.current().1.admits(outcome@)),
    {
        !self.accepting && self.connections[self.next].1.admits(outcome)
    }

    /// Takes what trying to accept a connection came to, and starts a pass. If the
    /// listener failed, its error comes back.
    pub fn attempt<E>(&mut self, attempt: Attempt<C, E>) -> (result: Result<(), E>)
        requires
            old(self)@.wf(),
            old(self)@.accepting,
        ensures
            final(self)@.wf(),
            match admission(Server::NonBlocking, attempt) {
                Ok(Some(connection)) => {
                    &&& final(self)@ == old(self)@.with(connection).begin()
                    &&& result is Ok
                },
                Ok(None) => final(self)@ == old(self)@.begin() && result is Ok,
                Err(error) => final(self)@ == old(self)@ && result == Err::<(), E>(error),
            },
    {
        match decide(Server::NonBlocking, attempt) {
            Ok(Some(connection)) => {
                let state = ConnectionState::new(Server::NonBlocking);
                self.connections.push((connection, state));
                assert(self@ =~= old(self)@.with(connection));
            },
            Ok(None) => {},
            Err(error) => {
                return Err(error);
            },
        }
        let ghost before = self@;
        self.accepting = false;
        assert(self@ =~= (Pass { accepting: false, ..before }));
        self.settle();
        Ok(())
    }

    /// Takes the outcome of the action that the current connection awaited.
    pub fn step<E>(&mut self, outcome: Outcome<E>) -> (reply: Reply<E>)
        requires
            old(self)@.wf(),
            !old(self)@.accepting,
            old(self)@.current().1.admits(outcome@),
        ensures
            final(self)@.wf(),
            final(self)@ == old(self)@.advance(outcome@),
            ({
                let after = old(self)@.current().1.step(Server::NonBlocking, outcome@);
                &&& reply.followup == after.followup
                &&& message(reply.notice) == after.notice
            }),
    {
        let i: usize = self.next;
        let count: usize = self.connections.len();
        assert(i < count);
        assert(self@.current().1.wf());
        let reply = self.connections[i].1.step(Server::NonBlocking, outcome);
        match reply.followup {
            Followup::Suspend => {
                self.next = i + 1;
            },
            Followup::Complete { .. } => {
                self.completed.push(i);
                self.next = i + 1;
            },
            _ => {},
        }
        proof {
            let (connection, phase) = old(self)@.current();
            let after = phase.step(Server::NonBlocking, outcome@);
            assert(self@.connections =~= old(self)@.connections.update(
                i as int,
                (connection, after.phase),
            ));
            assert(self@.settle() == old(self)@.advance(outcome@));
        }
        self.settle();
        reply
    }

    /// Ends the pass if it is through.
    fn settle(&mut self)
        requires
            !old(self)@.accepting,
            old(self)@.next <= old(self)@.connections.len(),
            forall|i: int|
                0 <= i < old(self)@.connections.len() ==> (
                #[trigger] old(self)@.connections[i]).1.wf(),
            forall|i: int|
                0 <= i < old(self)@.completed.len() ==> #[trigger] old(self)@.completed[i]
                    < old(self)@.next,
            forall|i: int, j: int|
                0 <= i < j < old(self)@.completed.len() ==> old(self)@.completed[i] < old(
                    self,
                )@.completed[j],
        ensures
            final(self)@.wf(),
            final(self)@ == old(self)@.settle(),
    {
        if self.next < self.connections.len() {
            return;
        }
        let ghost all = self@.connections;
        let ghost done = self@.completed;
        let count: usize = self.connections.len();
        let mut k: usize = self.completed.len();
        proof {
            assert(done.skip(k as int) =~= seq![]);
            nothing_listed(all, all.len());
            assert(all.take(all.len() as int) =~= all);
        }
        // In reverse order, to preserve indices.
        while k > 0
            invariant
                k <= self.completed@.len(),
                self.completed@ == done,
                all.len() == count,
                forall|i: int| 0 <= i < done.len() ==> #[trigger] done[i] < all.len(),
                forall|i: int, j: int| 0 <= i < j < done.len() ==> done[i] < done[j],
                self@.connections == unlisted(all, all.len(), done.skip(k as int)),
            decreases k,
        {
            k = k - 1;
            let i: usize = self.completed[k];
            let ghost before = self@.connections;
            proof {
                assert(done.skip(k as int) =~= seq![i] + done.skip(k + 1));
                assert forall|j: int|
                    0 <= j < done.skip(k + 1).len() implies i < #[trigger] done.skip(
                    k + 1,
                )[j] by {
                    assert(done.skip(k + 1)[j] == done[k + 1 + j]);
                }
                listing_one_more(all, all.len(), i, done.skip(k + 1));
            }
            self.connections.remove(i);
            assert(self@.connections =~= before.remove(i as int));
        }
        assert(done.skip(0) =~= done);
        self.completed = Vec::new();
        self.next = 0;
        self.accepting = true;
        proof {
            assert(self@.connections == unlisted(all, all.len(), done));
            assert forall|i: int| 0 <= i < self@.connections.len() implies (
            #[trigger] self@.connections[i]).1.wf() by {
                unlisted_are_items(all, all.len(), done, i);
            }
        }
    }
}

/// A connection whose operation would have blocked keeps its state, and the
/// server moves on to the next one, or ends the pass.
pub proof fn blocked_moves_on<C, E>(pass: Pass<C>, error: E)
    requires
        pass.wf(),
        !pass.accepting,
    ensures
        ({
            let after = pass.advance(Happening::WouldBlock(error));
            if pass.next + 1 < pass.connections.len() {
                after == (Pass { next: pass.next + 1, ..pass })
            } else {
                &&& after.accepting
                &&& after.connections == unlisted(
                    pass.connections,
                    pass.connections.len(),
                    pass.completed,
                )
            }
        }),
{
    assert(pass.connections.update(pass.next as int, pass.current()) =~= pass.connections);
}

/// Each connection is where it would be if it were alone: the history gives the
/// outcomes of its own actions, and its phase is what those lead to.
pub open spec fn accounts_for<C, E>(history: Seq<Seq<Happening<E>>>, pass: Pass<C>) -> bool {
    &&& history.len() == pass.connections.len()
    &&& forall|i: int|
        0 <= i < pass.connections.len() ==> {
            &&& possible(
                Server::NonBlocking,
                Phase::initial(Server::NonBlocking),
                #[trigger] history[i],
            )
            &&& pass.connections[i].1 == run(
                Server::NonBlocking,
                Phase::initial(Server::NonBlocking),
                history[i],
            )
        }
}

/// The histories of the connections that the end of a pass leaves, if the pass
/// is through.
pub open spec fn histories_left<C, E>(
    history: Seq<Seq<Happening<E>>>,
    before: Pass<C>,
    after: Pass<C>,
    completed: Seq<usize>,
) -> Seq<Seq<Happening<E>>> {
    if after.accepting && !before.accepting {
        unlisted(history, history.len(), completed)
    } else {
        history
    }
}

/// However the connections are driven in turn, each one is served as if it were
/// alone: an outcome adds to the history of the connection that it is for, and
/// the end of the pass drops the histories of the completed ones.
pub proof fn served_as_if_alone<C, E>(
    history: Seq<Seq<Happening<E>>>,
    pass: Pass<C>,
    outcome: Happening<E>,
)
    requires
        pass.wf(),
        !pass.accepting,
        pass.current().1.admits(outcome),
        accounts_for(history, pass),
    ensures
        ({
            let mine = history[pass.next as int];
            let completed = if pass.current().1.step(
                Server::NonBlocking,
                outcome,
            ).followup is Complete {
                pass.completed.push(pass.next as usize)
            } else {
                pass.completed
            };
            let after = pass.advance(outcome);
            accounts_for(
                histories_left(
                    history.update(pass.next as int, mine.push(outcome)),
                    pass,
                    after,
                    completed,
                ),
                after,
            )
        }),
{
    let mine = history[pass.next as int];
    let longer = history.update(pass.next as int, mine.push(outcome));
    let (connection, phase) = pass.current();
    let step = phase.step(Server::NonBlocking, outcome);
    let connections = pass.connections.update(pass.next as int, (connection, step.phase));
    let completed = if step.followup is Complete {
        pass.completed.push(pass.next as usize)
    } else {
        pass.completed
    };
    let after = pass.advance(outcome);
    assert(mine.push(outcome).drop_last() =~= mine);
    let driven = Pass { connections, ..pass };
    assert(accounts_for(longer, driven)) by {
        assert forall|i: int| 0 <= i < connections.len() implies {
            &&& possible(
                Server::NonBlocking,
                Phase::initial(Server::NonBlocking),
                #[trigger] longer[i],
            )
            &&& connections[i].1 == run(
                Server::NonBlocking,
                Phase::initial(Server::NonBlocking),
                longer[i],
            )
        } by {
            assert(possible(
                Server::NonBlocking,
                Phase::initial(Server::NonBlocking),
                history[i],
            ));
        }
    }
    if after.accepting {
        let left = unlisted(longer, longer.len(), completed);
        assert forall|i: int| 0 <= i < after.connections.len() implies {
            &&& possible(
                Server::NonBlocking,
                Phase::initial(Server::NonBlocking),
                #[trigger] left[i],
            )
            &&& after.connections[i].1 == run(
                Server::NonBlocking,
                Phase::initial(Server::NonBlocking),
                left[i],
            )
        } by {
            let j = unlisted_side_by_side(connections, longer, connections.len(), completed, i);
            assert(longer[j] == left[i]);
        }
        unlisted_same_length(connections, longer, connections.len(), completed);
    }
}

/// A new connection starts with an empty history, and the start of a pass changes
/// no history.
pub proof fn new_connections_start_afresh<C, E>(
    history: Seq<Seq<Happening<E>>>,
    pass: Pass<C>,
    connection: C,
)
    requires
        pass.wf(),
        pass.accepting,
        accounts_for(history, pass),
    ensures
        accounts_for(history.push(seq![]), pass.with(connection).begin()),
        accounts_for(history, pass.begin()),
{
    let longer = history.push(seq![]);
    let with = pass.with(connection);
    assert forall|i: int| 0 <= i < with.connections.len() implies {
        &&& possible(
            Server::NonBlocking,
            Phase::initial(Server::NonBlocking),
            #[trigger] longer[i],
        )
        &&& with.connections[i].1 == run(
            Server::NonBlocking,
            Phase::initial(Server::NonBlocking),
            longer[i],
        )
    } by {
        if i < history.len() {
            assert(longer[i] == history[i]);
        }
    }
}

/// As many are left of two lists of equal length.
proof fn unlisted_same_length<A, B>(a: Seq<A>, b: Seq<B>, n: nat, listed: Seq<usize>)
    requires
        n <= a.len() == b.len(),
    ensures
        unlisted(a, n, listed).len() == unlisted(b, n, listed).len(),
    decreases n,
{
    if n > 0 {
        unlisted_same_length(a, b, (n - 1) as nat, listed);
    }
}

/// What is left of two lists of equal length comes from the same indices.
proof fn unlisted_side_by_side<A, B>(
    a: Seq<A>,
    b: Seq<B>,
    n: nat,
    listed: Seq<usize>,
    i: int,
) -> (index: int)
    requires
        n <= a.len() == b.len(),
        0 <= i < unlisted(a, n, listed).len(),
    ensures
        0 <= index < n,
        unlisted(a, n, listed)[i] == a[index],
        i < unlisted(b, n, listed).len(),
        unlisted(b, n, listed)[i] == b[index],
    decreases n,
{
    unlisted_same_length(a, b, (n - 1) as nat, listed);
    unlisted_same_length(a, b, n, listed);
    if i < unlisted(a, (n - 1) as nat, listed).len() {
        unlisted_side_by_side(a, b, (n - 1) as nat, listed, i)
    } else {
        n - 1
    }
}

/// While one connection is driven, every other one that is not done with
/// stays as it is, to the end of the pass and beyond.
pub proof fn others_stay_as_they_are<C, E>(pass: Pass<C>, outcome: Happening<E>, i: usize)
    requires
        pass.wf(),
        !pass.accepting,
        i < pass.connections.len() <= usize::MAX,
        i != pass.next,
        !pass.completed.contains(i),
    ensures
        pass.advance(outcome).connections.contains(pass.connections[i as int]),
{
    let (connection, phase) = pass.current();
    let after = phase.step(Server::NonBlocking, outcome);
    let connections = pass.connections.update(pass.next as int, (connection, after.phase));
    let completed = if after.followup is Complete {
        pass.completed.push(pass.next as usize)
    } else {
        pass.completed
    };
    assert(connections[i as int] == pass.connections[i as int]);
    assert(!completed.contains(i));
    unlisted_keep_order(connections, connections.len(), completed, i);
    let ended = unlisted(connections, connections.len(), completed);
    assert(ended.contains(connections[i as int]));
}

/// A pass that completes nothing removes nothing.
pub proof fn nothing_listed<A>(items: Seq<A>, n: nat)
    requires
        n <= items.len(),
    ensures
        unlisted(items, n, seq![]) == items.take(n as int),
    decreases n,
{
    if n > 0 {
        nothing_listed(items, (n - 1) as nat);
    }
    assert(unlisted(items, n, seq![]) =~= items.take(n as int));
}

/// What is left is among the items.
pub proof fn unlisted_are_items<A>(items: Seq<A>, n: nat, listed: Seq<usize>, i: int)
    requires
        n <= items.len(),
        0 <= i < unlisted(items, n, listed).len(),
    ensures
        items.contains(unlisted(items, n, listed)[i]),
    decreases n,
{
    if n > 0 {
        let rest = unlisted(items, (n - 1) as nat, listed);
        if i < rest.len() {
            unlisted_are_items(items, (n - 1) as nat, listed, i);
        } else {
            assert(items[n - 1] == unlisted(items, n, listed)[i]);
        }
    }
}

/// The items at indices that are not listed are all left, each once and in
/// order: one that has `before` unlisted items in front of it comes at that place.
pub proof fn unlisted_keep_order<A>(items: Seq<A>, n: nat, listed: Seq<usize>, index: usize)
    requires
        index < n <= items.len() <= usize::MAX,
        !listed.contains(index),
    ensures
        ({
            let before = unlisted(items, index as nat, listed).len();
            &&& before < unlisted(items, n, listed).len()
            &&& unlisted(items, n, listed)[before as int] == items[index as int]
            &&& unlisted(items, index as nat, listed).is_prefix_of(unlisted(items, n, listed))
        }),
    decreases n,
{
    let m = (n - 1) as nat;
    let rest = unlisted(items, m, listed);
    if index < m {
        unlisted_keep_order(items, m, listed, index);
        assert(unlisted(items, index as nat, listed).is_prefix_of(unlisted(items, n, listed)));
    } else {
        assert(unlisted(items, n, listed) =~= rest.push(items[m as int]));
    }
}

/// As many items are left as are not listed.
pub proof fn unlisted_count<A>(items: Seq<A>, n: nat, listed: Seq<usize>)
    requires
        n <= items.len() <= usize::MAX,
        forall|i: int| 0 <= i < listed.len() ==> #[trigger] listed[i] < n,
        forall|i: int, j: int| 0 <= i < j < listed.len() ==> listed[i] < listed[j],
    ensures
        unlisted(items, n, listed).len() + listed.len() == n,
    decreases listed.len(),
{
    if listed.len() == 0 {
        assert(listed =~= seq![]);
        nothing_listed(items, n);
    } else {
        let rest = listed.drop_first();
        assert forall|i: int| 0 <= i < rest.len() implies listed[0] < #[trigger] rest[i] by {
            assert(rest[i] == listed[i + 1]);
        }
        assert forall|i: int, j: int| 0 <= i < j < rest.len() implies rest[i] < rest[j] by {
            assert(rest[i] == listed[i + 1] && rest[j] == listed[j + 1]);
        }
        unlisted_count(items, n, rest);
        listing_one_more(items, n, listed[0], rest);
        assert(seq![listed[0]] + rest =~= listed);
    }
}

/// Removing an index in front of all the listed ones is listing it too.
proof fn listing_one_more<A>(items: Seq<A>, n: nat, index: usize, listed: Seq<usize>)
    requires
        index < n <= items.len() <= usize::MAX,
        forall|j: int| 0 <= j < listed.len() ==> index < #[trigger] listed[j],
    ensures
        index < unlisted(items, n, listed).len(),
        unlisted(items, n, listed).remove(index as int) == unlisted(
            items,
            n,
            seq![index] + listed,
        ),
    decreases n,
{
    let more = seq![index] + listed;
    assert(more[0] == index);
    let m = (n - 1) as nat;
    assert(listed.contains(m as usize) ==> more.contains(m as usize)) by {
        if listed.contains(m as usize) {
            let j = choose|j: int| 0 <= j < listed.len() && listed[j] == m as usize;
            assert(more[j + 1] == m as usize);
        }
    }
    if index == m {
        assert(!listed.contains(m as usize));
        listed_behind(items, m, listed, index);
        listed_behind(items, m, more, index);
        assert(unlisted(items, n, listed).remove(index as int) =~= items.take(m as int));
    } else {
        listing_one_more(items, m, index, listed);
        assert(more.contains(m as usize) ==> listed.contains(m as usize)) by {
            if more.contains(m as usize) {
                let j = choose|j: int| 0 <= j < more.len() && more[j] == m as usize;
                assert(listed[j - 1] == m as usize);
            }
        }
        assert(unlisted(items, n, listed).remove(index as int) =~= unlisted(items, n, more));
    }
}

/// Below an index that no listed index is below, everything is left.
proof fn listed_behind<A>(items: Seq<A>, n: nat, listed: Seq<usize>, index: usize)
    requires
        n <= index < items.len() <= usize::MAX,
        forall|j: int| 0 <= j < listed.len() ==> index <= #[trigger] listed[j],
    ensures
        unlisted(items, n, listed) == items.take(n as int),
    decreases n,
{
    if n > 0 {
        listed_behind(items, (n - 1) as nat, listed, index);
        assert(!listed.contains((n - 1) as usize));
    }
    assert(unlisted(items, n, listed) =~= items.take(n as int));
}

/// A new connection is put behind the others, in the Read state with nothing read,
/// and the others stay as they are. The pass that begins then starts with the
/// first of them all and has completed none.
pub proof fn accepted_is_listed_last<C>(pass: Pass<C>, connection: C)
    requires
        pass.wf(),
        pass.accepting,
    ensures
        ({
            let after = pass.with(connection).begin();
            let count = pass.connections.len() as int;
            &&& after.connections.len() == count + 1
            &&& after.connections.take(count) == pass.connections
            &&& after.connections[count].0 == connection
            &&& after.connections[count].1 is Read
            &&& after.connections[count].1->read == 0
            &&& after.connections[count].1->request.len() == CAPACITY
            &&& forall|i: int|
                0 <= i < CAPACITY ==> #[trigger] after.connections[count].1->request[i] == 0
            &&& !after.accepting
            &&& after.next == 0
            &&& after.completed.len() == 0
        }),
{
    let after = pass.with(connection).begin();
    assert(after.connections.take(pass.connections.len() as int) =~= pass.connections);
    assert(pass.completed.len() == 0) by {
        if pass.completed.len() > 0 {
            assert(pass.completed[0] < pass.next);
        }
    }
}

/// Without a new connection the pass that begins starts with the first of those that
/// are there. If there are none, the server goes on accepting.
pub proof fn passes_begin_with_the_first<C>(pass: Pass<C>)
    requires
        pass.wf(),
        pass.accepting,
    ensures
        ({
            let after = pass.begin();
            &&& after.connections == pass.connections
            &&& after.accepting <==> pass.connections.len() == 0
            &&& after.next == 0
            &&& after.completed.len() == 0
        }),
{
    assert(pass.completed.len() == 0) by {
        if pass.completed.len() > 0 {
            assert(pass.completed[0] < pass.next);
        }
    }
    assert(pass.completed =~= seq![]);
    nothing_listed(pass.connections, pass.connections.len());
    assert(pass.begin().connections =~= pass.connections);
}

/// What an outcome does to the pass. Only the connection that is being driven is
/// changed by it. It stays the one that is driven, unless it was not ready or is done
/// with; then the next one is. Its own index is listed just if it is done with: if the
/// response was flushed, or the peer is gone. Where there is no next one the pass
/// is over, and all but the listed ones are left.
pub proof fn outcomes_are_taken_in<C, E>(pass: Pass<C>, outcome: Happening<E>)
    requires
        pass.wf(),
        !pass.accepting,
        pass.connections.len() <= usize::MAX,
        pass.connections[pass.next as int].1.admits(outcome),
    ensures
        ({
            let after = pass.advance(outcome);
            let (connection, phase) = pass.connections[pass.next as int];
            let connections = pass.connections.update(
                pass.next as int,
                (connection, phase.step(Server::NonBlocking, outcome).phase),
            );
            let done = outcome is Flushed || outcome == Happening::<E>::Sent(0) || (
            outcome matches Happening::Received(chunk) && chunk.len() == 0);
            let completed = if done {
                pass.completed.push(pass.next as usize)
            } else {
                pass.completed
            };
            if !done && !(outcome is WouldBlock) {
                &&& after.connections == connections
                &&& after.next == pass.next
                &&& after.completed == pass.completed
                &&& !after.accepting
            } else if pass.next + 1 < pass.connections.len() {
                &&& after.connections == connections
                &&& after.next == pass.next + 1
                &&& after.completed == completed
                &&& !after.accepting
            } else {
                &&& after.connections == unlisted(connections, connections.len(), completed)
                &&& after.next == 0
                &&& after.completed.len() == 0
                &&& after.accepting
            }
        }),
{
}

/// The connection that is driven is the one at the index that the pass has come to.
pub proof fn current_is_at_its_index<C>(pass: Pass<C>)
    requires
        pass.wf(),
        !pass.accepting,
    ensures
        pass.next < pass.connections.len(),
        pass.current() == pass.connections[pass.next as int],
{
}

/// Over a whole pass, the connections that are removed are just those that are done
/// with, whose last outcome was the flush or a peer that is gone; whatever
/// else happened to them and to the others. While the pass is under way those are the
/// listed ones. At its end each connection that is not done with is left, and
/// nothing else is.
pub proof fn just_the_done_are_removed<C, E>(
    history: Seq<Seq<Happening<E>>>,
    pass: Pass<C>,
    outcome: Happening<E>,
)
    requires
        pass.wf(),
        !pass.accepting,
        pass.connections.len() <= usize::MAX,
        pass.connections[pass.next as int].1.admits(outcome),
        history.len() == pass.connections.len(),
        lists_the_done(history, pass.completed),
    ensures
        ({
            let longer = history.update(
                pass.next as int,
                history[pass.next as int].push(outcome),
            );
            let (connection, phase) = pass.connections[pass.next as int];
            let connections = pass.connections.update(
                pass.next as int,
                (connection, phase.step(Server::NonBlocking, outcome).phase),
            );
            let after = pass.advance(outcome);
            &&& !after.accepting ==> lists_the_done(longer, after.completed)
            &&& after.accepting ==> keeps_just_the_others(longer, connections, after.connections)
        }),
{
    let next = pass.next as int;
    let longer = history.update(next, history[next].push(outcome));
    let (connection, phase) = pass.connections[next];
    let connections = pass.connections.update(
        next,
        (connection, phase.step(Server::NonBlocking, outcome).phase),
    );
    let done = outcome is Flushed || outcome == Happening::<E>::Sent(0) || (
    outcome matches Happening::Received(chunk) && chunk.len() == 0);
    let completed = if done {
        pass.completed.push(pass.next as usize)
    } else {
        pass.completed
    };
    let after = pass.advance(outcome);
    outcomes_are_taken_in(pass, outcome);
    assert(longer[next].last() == outcome);
    assert(is_done(longer[next]) <==> done);
    assert(!pass.completed.contains(pass.next as usize)) by {
        if pass.completed.contains(pass.next as usize) {
            let j = choose|j: int|
                0 <= j < pass.completed.len() && pass.completed[j] == pass.next as usize;
            assert(pass.completed[j] < pass.next);
        }
    }
    assert forall|i: int| 0 <= i < longer.len() implies (completed.contains(i as usize)
        <==> is_done(#[trigger] longer[i])) by {
        let marked = pass.completed.push(pass.next as usize);
        assert(marked[pass.completed.len() as int] == pass.next as usize);
        if pass.completed.contains(i as usize) {
            let j = choose|j: int|
                0 <= j < pass.completed.len() && pass.completed[j] == i as usize;
            assert(marked[j] == i as usize);
        }
        assert(pass.completed.contains(i as usize) <==> is_done(history[i]));
        if i != next {
            assert(longer[i] == history[i]);
        }
    }
    assert(lists_the_done(longer, completed));
    if after.accepting {
        just_the_listed_are_removed(longer, connections, completed);
    }
}

/// Every connection is left that is not done with, and nothing else is.
pub open spec fn keeps_just_the_others<C, E>(
    history: Seq<Seq<Happening<E>>>,
    connections: Seq<(C, Phase)>,
    left: Seq<(C, Phase)>,
) -> bool {
    &&& forall|i: int|
        0 <= i < history.len() && !is_done(#[trigger] history[i]) ==> left.contains(connections[i])
    &&& forall|k: int|
        0 <= k < left.len() ==> is_among_the_others(history, connections, #[trigger] left[k])
}

/// This is one of the connections that are not done with.
pub open spec fn is_among_the_others<C, E>(
    history: Seq<Seq<Happening<E>>>,
    connections: Seq<(C, Phase)>,
    one: (C, Phase),
) -> bool {
    exists|i: int|
        0 <= i < history.len() && !is_done(#[trigger] history[i]) && one == connections[i]
}

/// If the listed ones are those that are done with, just they are removed.
proof fn just_the_listed_are_removed<C, E>(
    history: Seq<Seq<Happening<E>>>,
    connections: Seq<(C, Phase)>,
    listed: Seq<usize>,
)
    requires
        history.len() == connections.len() <= usize::MAX,
        lists_the_done(history, listed),
    ensures
        keeps_just_the_others(
            history,
            connections,
            unlisted(connections, connections.len(), listed),
        ),
{
    let left = unlisted(connections, connections.len(), listed);
    assert forall|i: int| 0 <= i < history.len() && !is_done(
        #[trigger] history[i],
    ) implies left.contains(connections[i]) by {
        unlisted_keep_order(connections, connections.len(), listed, i as usize);
        let place = unlisted(connections, i as nat, listed).len() as int;
        assert(left[place] == connections[i]);
    }
    assert forall|k: int| 0 <= k < left.len() implies is_among_the_others(
        history,
        connections,
        #[trigger] left[k],
    ) by {
        let i = left_is_unlisted(connections, connections.len(), listed, k);
        assert(!is_done(history[i]));
    }
}

/// The listed connections are just those that are done with.
pub open spec fn lists_the_done<E>(history: Seq<Seq<Happening<E>>>, listed: Seq<usize>) -> bool {
    forall|i: int|
        0 <= i < history.len() ==> (listed.contains(i as usize) <==> is_done(
            #[trigger] history[i],
        ))
}

/// The connection with this history is done with: the response was flushed, or the
/// peer is gone.
pub open spec fn is_done<E>(history: Seq<Happening<E>>) -> bool {
    history.len() > 0 && match history.last() {
        Happening::Flushed => true,
        Happening::Received(chunk) => chunk.len() == 0,
        Happening::Sent(n) => n == 0,
        _ => false,
    }
}

/// What is left comes from an index that is not listed.
proof fn left_is_unlisted<A>(items: Seq<A>, n: nat, listed: Seq<usize>, k: int) -> (index: int)
    requires
        n <= items.len() <= usize::MAX,
        0 <= k < unlisted(items, n, listed).len(),
    ensures
        0 <= index < n,
        !listed.contains(index as usize),
        unlisted(items, n, listed)[k] == items[index],
    decreases n,
{
    let rest = unlisted(items, (n - 1) as nat, listed);
    if k < rest.len() {
        left_is_unlisted(items, (n - 1) as nat, listed, k)
    } else {
        n - 1
    }
}

/// The invariant of a pass: every connection is in a proper phase, the pass has come
/// to one that is there, and the listed ones are behind it, in order and once each.
pub proof fn passes_are_proper<C>(pass: Pass<C>)
    ensures
        pass.wf() <==> {
            &&& forall|i: int|
                0 <= i < pass.connections.len() ==> (#[trigger] pass.connections[i]).1.wf()
            &&& pass.accepting ==> pass.next == 0
            &&& !pass.accepting ==> pass.next < pass.connections.len()
            &&& forall|i: int|
                0 <= i < pass.completed.len() ==> #[trigger] pass.completed[i] < pass.next
            &&& forall|i: int, j: int|
                0 <= i < j < pass.completed.len() ==> pass.completed[i] < pass.completed[j]
        },
{
}

} // verus!
