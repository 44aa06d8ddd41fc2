//! The connections of the multiplexed server, looked up by file descriptor.
use crate::acceptor::{admission, decide, Attempt};
use crate::connection::{message, Action, ConnectionState, Followup, Happening};
use crate::connection::{Outcome, Phase, Reply};
use crate::event::{data_leads_back, data_of, fd_of, interests_are_separate_bits};
use crate::event::{readable, writable};
use crate::event::{descriptor, read_interest, read_write_interest, Event, Registration};
use crate::http::CAPACITY;
use crate::server::Server;
use crate::trace::{possible, run};
use std::collections::{HashMap, VecDeque};
use vstd::prelude::*;

verus! {

broadcast use vstd::std_specs::hash::group_hash_axioms;

/// The listener and all open connections of one epoll instance, and how far the
/// server has come with the events that epoll reported.
///
/// The server only ever does I/O when epoll tells it to. The connections that a
/// batch of events completes are removed at its end.
pub struct ConnectionTable<C> {
    epoll: i32,
    listener: i32,
    connections: HashMap<i32, (C, ConnectionState)>,
    completed: Vec<i32>,
    /// The events that are still to be dealt with.
    events: VecDeque<Event>,
}

/// What a [`ConnectionTable`] stands for.
#[verifier::ext_equal]
pub ghost struct Batch<C> {
    /// The descriptor of the epoll instance.
    pub epoll: i32,
    /// The descriptor of the listener.
    pub listener: i32,
    /// The connections with their phases, by descriptor.
    pub connections: Map<i32, (C, Phase)>,
    /// The descriptors of the connections that the batch has completed.
    pub completed: Seq<i32>,
    /// The events that are still to be dealt with.
    pub events: Seq<Event>,
}

/// What an event is about.
#[derive(Clone, Copy, Debug, PartialEq, Eq, Structural)]
pub enum Ready {
    /// There is an incoming connection ready to accept.
    Listener,
    /// The connection with this descriptor is ready.
    Connection { fd: i32 },
}

/// What the server does next.
pub enum Next<'a, C> {
    /// The batch is through: remove the connections that it completed.
    EndBatch,
    /// Nothing is left of the batch: block until epoll reports events.
    Wait,
    /// Try accepting a connection.
    Accept,
    /// Perform the action on the connection.
    Drive { connection: &'a C, action: Action },
    /// There is no connection with the descriptor that epoll reported.
    Unknown { fd: i32 },
}

/// What an event with this data is about, with this listener.
pub open spec fn subject(listener: i32, data: u64) -> Ready {
    if fd_of(data) == listener {
        Ready::Listener
    } else {
        Ready::Connection { fd: fd_of(data) }
    }
}

impl<C> Batch<C> {
    /// The invariant: each connection is in a proper phase, and the completed
    /// ones are still there.
    pub open spec fn wf(self) -> bool {
        &&& forall|fd: i32| #[trigger]
            self.connections.contains_key(fd) ==> self.connections[fd].1.wf()
        &&& forall|i: int|
            0 <= i < self.completed.len() ==> self.connections.contains_key(
                #[trigger] self.completed[i],
            )
    }

    /// What the first of the remaining events is about.
    pub open spec fn ready(self) -> Ready {
        subject(self.listener, self.events.first().data)
    }

    /// It is about the listener.
    pub open spec fn at_listener(self) -> bool {
        self.events.len() > 0 && self.ready() is Listener
    }

    /// It is about a connection.
    pub open spec fn at_connection(self) -> bool {
        &&& self.events.len() > 0
        &&& self.ready() is Connection
        &&& self.connections.contains_key(self.ready()->fd)
    }

    /// The connection that it is about.
    pub open spec fn current(self) -> (C, Phase) {
        self.connections[self.ready()->fd]
    }

    /// Done with the first of the remaining events.
    pub open spec fn past_event(self) -> Batch<C> {
        Batch { events: self.events.drop_first(), ..self }
    }

    /// With a new connection, in the Read state with an empty buffer and zero
    /// bytes read.
    pub open spec fn with(self, fd: i32, connection: C) -> Batch<C> {
        Batch { connections: self.connections.insert(fd, (connection, Phase::reading())), ..self }
    }

    /// What epoll is told of a new connection: to report both read and write
    /// events.
    pub open spec fn registration(self, fd: i32) -> Registration {
        Registration {
            epoll: self.epoll,
            fd,
            event: Event { events: readable() | writable(), data: data_of(fd) },
        }
    }

    /// Takes the outcome of the action that the current connection awaited. A
    /// connection that is not ready yet, or that is done with, makes way for the
    /// next event.
    pub open spec fn advance<E>(self, outcome: Happening<E>) -> Batch<C> {
        let fd = self.ready()->fd;
        let (connection, phase) = self.current();
        let after = phase.step(Server::Multiplexed, outcome);
        let connections = self.connections.insert(fd, (connection, after.phase));
        match after.followup {
            Followup::Suspend => Batch { connections, ..self }.past_event(),
            Followup::Complete { .. } => Batch {
                connections,
                completed: self.completed.push(fd),
                ..self
            }.past_event(),
            _ => Batch { connections, ..self },
        }
    }
}

impl<C> View for ConnectionTable<C> {
    type V = Batch<C>;

    closed spec fn view(&self) -> Batch<C> {
        Batch {
            epoll: self.epoll,
            listener: self.listener,
            connections: self.connections@.map_values(|c: (C, ConnectionState)| (c.0, c.1@)),
            completed: self.completed@,
            events: self.events@,
        }
    }
}

impl<C> ConnectionTable<C> {
    /// The table of an epoll instance, with no connections.
    pub fn new(epoll: i32, listener: i32) -> (table: Self)
        ensures
            table@.wf(),
            table@ == (Batch::<C> {
                epoll,
                listener,
                connections: Map::empty(),
                completed: seq![],
                events: seq![],
            }),
    {
        let table = ConnectionTable {
            epoll,
            listener,
            connections: HashMap::new(),
            completed: Vec::new(),
            events: VecDeque::new(),
        };
        assert(table@.connections =~= Map::<i32, (C, Phase)>::empty());
        table
    }

    /// What epoll is to be told of the listener: we want to be notified when new
    /// connections come in.
    pub fn listen(&self) -> (registration: Registration)
        ensures
            registration == (Registration {
                epoll: self@.epoll,
                fd: self@.listener,
                event: Event { events: readable(), data: data_of(self@.listener) },
            }),
    {
        Registration {
            epoll: self.epoll,
            fd: self.listener,
            event: read_interest(self.listener),
        }
    }

    /// Uses the file descriptor to check whether the event is for the listener
    /// or for a connection.
    pub fn ready(&self, event: &Event) -> (ready: Ready)
        ensures
            ready == subject(self@.listener, event.data),
    {
        let fd: i32 = descriptor(event);
        if fd == self.listener {
            Ready::Listener
        } else {
            Ready::Connection { fd }
        }
    }

    /// Takes the events that epoll reported, the first `num_events` of the list. By
    /// then the connections that the last batch completed are removed.
    pub fn report(&mut self, events: &[Event], num_events: usize)
        requires
            old(self)@.wf(),
            old(self)@.events.len() == 0,
            old(self)@.completed.len() == 0,
            num_events <= events@.len(),
        ensures
            final(self)@.wf(),
            final(self)@ == (Batch { events: events@.take(num_events as int), ..old(self)@ }),
    {
        let mut i: usize = 0;
        while i < num_events
            invariant
                i <= num_events <= events@.len(),
                self@ =~= (Batch { events: events@.take(i as int), ..old(self)@ }),
            decreases num_events - i,
        {
            self.events.push_back(events[i]);
            assert(events@.take(i + 1) =~= events@.take(i as int).push(events@[i as int]));
            i = i + 1;
        }
    }

    /// What the server does next.
    pub fn next(&self) -> (next: Next<'_, C>)
        requires
            self@.wf(),
        ensures
            if self@.events.len() == 0 && self@.completed.len() > 0 {
                next is EndBatch
            } else if self@.events.len() == 0 {
                next is Wait
            } else if self@.at_listener() {
                next is Accept
            } else if self@.at_connection() {
                let (connection, phase) = self@.current();
                next == (Next::Drive {
                    connection: &connection,
                    action: phase.awaits(),
                })
            } else {
                next matches Next::Unknown { fd } && fd == self@.ready()->fd
            },
    {
        if self.events.len() == 0 {
            return if self.completed.len() > 0 {
                Next::EndBatch
            } else {
                Next::Wait
            };
        }
        match self.ready(&self.events[0]) {
            Ready::Listener => Next::Accept,
            Ready::Connection { fd } => match self.connections.get(&fd) {
                Some(entry) => {
                    assert(self@.connections.contains_key(fd));
                    Next::Drive {
                        connection: &entry.0,
                        action: entry.1.resume(),
                    }
                },
                None => Next::Unknown { fd },
            },
        }
    }

    /// Tells whether the outcome is one that the awaited action can have.
    pub fn admits<E>(&self, outcome: &Outcome<E>) -> (fits: bool)
        ensures
            fits == (self@.at_connection() && self@.current().1.admits(outcome@)),
    {
        if self.events.len() == 0 {
            return false;
        }
        match self.ready(&self.events[0]) {
            Ready::Listener => false,
            Ready::Connection { fd } => match self.connections.get(&fd) {
                Some(entry) => entry.1.admits(outcome),
                None => false,
            },
        }
    }

    /// What epoll is to be told of a connection before it is taken up: both read
    /// and write events are of interest, depending on its state.
    pub fn registration(&self, fd: i32) -> (registration: Registration)
        ensures
            registration == self@.registration(fd),
    {
        Registration { epoll: self.epoll, fd, event: read_write_interest(fd) }
    }

    /// Takes what trying to accept a connection came to. An accepted connection is
    /// one that epoll has taken the [`ConnectionTable::registration`] of. If the
    /// listener failed, its error comes back.
    pub fn attempt<E>(&mut self, attempt: Attempt<(i32, C), E>) -> (result: Result<(), E>)
        requires
            old(self)@.wf(),
            old(self)@.at_listener(),
        ensures
            final(self)@.wf(),
            match admission(Server::Multiplexed, attempt) {
                Ok(Some((fd, connection))) => {
                    &&& final(self)@ == old(self)@.with(fd, connection).past_event()
                    &&& result is Ok
                },
                Ok(None) => final(self)@ == old(self)@.past_event() && result is Ok,
                Err(error) => final(self)@ == old(self)@ && result == Err::<(), E>(error),
            },
    {
        match decide(Server::Multiplexed, attempt) {
            Ok(Some((fd, connection))) => {
                let state = ConnectionState::new(Server::Multiplexed);
                self.connections.insert(fd, (connection, state));
                self.events.pop_front();
                assert(self@ =~= old(self)@.with(fd, connection).past_event());
            },
            Ok(None) => {
                self.events.pop_front();
                assert(self@ =~= old(self)@.past_event());
            },
            Err(error) => {
                return Err(error);
            },
        }
        Ok(())
    }

    /// Takes the outcome of the action that the current connection awaited.
    pub fn step<E>(&mut self, outcome: Outcome<E>) -> (reply: Reply<E>)
        requires
            old(self)@.wf(),
            old(self)@.at_connection(),
            old(self)@.current().1.admits(outcome@),
        ensures
            final(self)@.wf(),
            final(self)@ == old(self)@.advance(outcome@),
            ({
                let after = old(self)@.current().1.step(Server::Multiplexed, outcome@);
                &&& reply.followup == after.followup
                &&& message(reply.notice) == after.notice
            }),
    {
        let fd: i32 = descriptor(&self.events[0]);
        assert(self@.connections.contains_key(fd));
        let entry = self.connections.remove(&fd);
        let (connection, mut state) = entry.unwrap();
        let reply = state.step(Server::Multiplexed, outcome);
        self.connections.insert(fd, (connection, state));
        match reply.followup {
            Followup::Suspend => {
                self.events.pop_front();
            },
            Followup::Complete { .. } => {
                self.completed.push(fd);
                self.events.pop_front();
            },
            _ => {},
        }
        proof {
            let (connection, phase) = old(self)@.current();
            let after = phase.step(Server::Multiplexed, outcome@);
            assert(self@.connections =~= old(self)@.connections.insert(
                fd,
                (connection, after.phase),
            ));
            assert(self@ =~= old(self)@.advance(outcome@));
        }
        reply
    }

    /// Ends the batch: removes the connections that it completed and drops them,
    /// which unregisters them from epoll. Tells whether each of them was still
    /// there, that is, whether none of them was completed twice.
    pub fn end_batch(&mut self) -> (once: bool)
        requires
            old(self)@.wf(),
            old(self)@.events.len() == 0,
        ensures
            final(self)@.wf(),
            final(self)@ == (Batch {
                connections: old(self)@.connections.remove_keys(old(self)@.completed.to_set()),
                completed: seq![],
                ..old(self)@
            }),
            forall|fd: i32| #[trigger]
                final(self)@.connections.contains_key(fd) <==> old(self)@.connections.contains_key(
                    fd,
                ) && !old(self)@.completed.contains(fd),
            forall|fd: i32| #[trigger]
                final(self)@.connections.contains_key(fd) ==> final(self)@.connections[fd] == old(
                    self,
                )@.connections[fd],
            once == old(self)@.completed.no_duplicates(),
    {
        let ghost all = self@.connections;
        let ghost done = self@.completed;
        let mut once = true;
        let mut i: usize = 0;
        assert(all.remove_keys(done.take(0).to_set()) =~= all);
        while i < self.completed.len()
            invariant
                i <= self.completed@.len(),
                self.completed@ == done,
                self.epoll == old(self).epoll,
                self.listener == old(self).listener,
                self.events == old(self).events,
                self@.connections == all.remove_keys(done.take(i as int).to_set()),
                once == done.take(i as int).no_duplicates(),
                forall|k: int| 0 <= k < done.len() ==> all.contains_key(#[trigger] done[k]),
            decreases done.len() - i,
        {
            let fd: i32 = self.completed[i];
            let ghost before = self@.connections;
            let removed = self.connections.remove(&fd);
            proof {
                let seen = done.take(i as int);
                let more = done.take(i + 1);
                assert(self@.connections =~= before.remove(fd));
                assert(more =~= seen.push(fd));
                assert(seen.push(fd).to_set() =~= seen.to_set().insert(fd)) by {
                    seen.lemma_push_to_set_commute(fd);
                }
                assert(self@.connections =~= all.remove_keys(more.to_set()));
                assert(removed is Some <==> !seen.contains(fd)) by {
                    assert(before.contains_key(fd) <==> !seen.to_set().contains(fd));
                }
                if once && !seen.contains(fd) {
                    assert(more.no_duplicates());
                } else if seen.contains(fd) {
                    let k = choose|k: int| 0 <= k < seen.len() && seen[k] == fd;
                    assert(more[k] == more[i as int]);
                } else {
                    let (a, b) = choose|a: int, b: int|
                        0 <= a < seen.len() && 0 <= b < seen.len() && a != b && seen[a] == seen[b];
                    assert(more[a] == more[b]);
                }
            }
            once = once && removed.is_some();
            i = i + 1;
        }
        assert(done.take(i as int) =~= done);
        self.completed = Vec::new();
        proof {
            assert forall|fd: i32| #[trigger]
                self@.connections.contains_key(fd) implies self@.connections[fd].1.wf() by {
                assert(all.contains_key(fd));
            }
        }
        once
    }
}

/// An event leads back to what was registered for it, the listener or the
/// connection.
pub proof fn event_leads_back(listener: i32, fd: i32)
    ensures
        subject(listener, data_of(listener)) == Ready::Listener,
        fd != listener ==> subject(listener, data_of(fd)) == (Ready::Connection { fd }),
{
    data_leads_back(listener);
    data_leads_back(fd);
}

/// The server only ever does I/O on what epoll reported. An outcome moves
/// the connection that the event is about, and no other.
pub proof fn only_reported_is_touched<C, E>(batch: Batch<C>, outcome: Happening<E>, fd: i32)
    requires
        batch.at_connection(),
        fd != batch.ready()->fd,
    ensures
        ({
            let after = batch.advance(outcome);
            &&& after.connections.contains_key(fd) <==> batch.connections.contains_key(fd)
            &&& after.connections.contains_key(fd) ==> after.connections[fd]
                == batch.connections[fd]
            &&& after.completed.contains(fd) <==> batch.completed.contains(fd)
        }),
{
    let marked = batch.completed.push(batch.ready()->fd);
    assert(marked.contains(fd) <==> batch.completed.contains(fd)) by {
        if batch.completed.contains(fd) {
            let i = choose|i: int| 0 <= i < batch.completed.len() && batch.completed[i] == fd;
            assert(marked[i] == fd);
        }
    }
}

/// Each connection is where it would be if it were alone: the history gives the
/// outcomes of its own actions, and its phase is what those lead to.
pub open spec fn accounts_for<C, E>(history: Map<i32, Seq<Happening<E>>>, batch: Batch<C>) -> bool {
    forall|fd: i32| #[trigger]
        batch.connections.contains_key(fd) ==> {
            &&& history.contains_key(fd)
            &&& possible(Server::Multiplexed, Phase::initial(Server::Multiplexed), history[fd])
            &&& batch.connections[fd].1 == run(
                Server::Multiplexed,
                Phase::initial(Server::Multiplexed),
                history[fd],
            )
        }
}

/// However the events of the connections are mixed, each connection is served as
/// if it were alone. A new one starts afresh, an outcome adds to the history of
/// the connection that it is for, and the end of a batch changes no history.
pub proof fn served_as_if_alone<C, E>(
    history: Map<i32, Seq<Happening<E>>>,
    batch: Batch<C>,
    fd: i32,
    connection: C,
    outcome: Happening<E>,
)
    requires
        accounts_for(history, batch),
    ensures
        accounts_for(history.insert(fd, seq![]), batch.with(fd, connection)),
        accounts_for(history, batch.past_event()),
        batch.at_connection() && batch.current().1.admits(outcome)
            ==> accounts_for(
            history.insert(
                batch.ready()->fd,
                history[batch.ready()->fd].push(outcome),
            ),
            batch.advance(outcome),
        ),
        accounts_for(
            history,
            Batch {
                connections: batch.connections.remove_keys(batch.completed.to_set()),
                completed: seq![],
                ..batch
            },
        ),
{
    if batch.at_connection() && batch.current().1.admits(outcome) {
        let mine = history[batch.ready()->fd];
        assert(mine.push(outcome).drop_last() =~= mine);
    }
}

/// A connection whose operation would have blocked keeps its state, and the
/// server moves on to the next event.
pub proof fn blocked_moves_on<C, E>(batch: Batch<C>, error: E)
    requires
        batch.at_connection(),
    ensures
        batch.advance(Happening::WouldBlock(error)) == batch.past_event(),
{
    assert(batch.connections.insert(batch.ready()->fd, batch.current()) =~= batch.connections);
}

/// The end of a batch removes the completed connections and keeps all
/// others as they are.
pub proof fn only_completed_are_removed<C>(
    connections: Map<i32, (C, Phase)>,
    completed: Seq<i32>,
    fd: i32,
)
    ensures
        ({
            let left = connections.remove_keys(completed.to_set());
            &&& left.contains_key(fd) <==> connections.contains_key(fd) && !completed.contains(fd)
            &&& left.contains_key(fd) ==> left[fd] == connections[fd]
        }),
{
}

/// An accepted connection is in the table afterwards, whatever else is: in the Read
/// state with nothing read. Every other descriptor keeps what it has, and so do
/// the events and what the batch has completed.
pub proof fn accepted_is_in_the_table<C>(batch: Batch<C>, fd: i32, connection: C, other: i32)
    ensures
        ({
            let after = batch.with(fd, connection);
            &&& after.connections.contains_key(fd)
            &&& after.connections[fd].0 == connection
            &&& after.connections[fd].1 is Read
            &&& after.connections[fd].1->read == 0
            &&& after.connections[fd].1->request.len() == CAPACITY
            &&& forall|i: int|
                0 <= i < CAPACITY ==> #[trigger] after.connections[fd].1->request[i] == 0
            &&& other != fd ==> {
                &&& after.connections.contains_key(other) <==> batch.connections.contains_key(other)
                &&& batch.connections.contains_key(other) ==> after.connections[other]
                    == batch.connections[other]
            }
            &&& after.epoll == batch.epoll
            &&& after.listener == batch.listener
            &&& after.completed == batch.completed
            &&& after.events == batch.events
        }),
{
}

/// An event for a connection that was just accepted drives it: it is ready to read its
/// request into an empty buffer.
pub proof fn accepted_is_driven_by_its_event<C>(
    batch: Batch<C>,
    fd: i32,
    connection: C,
    event: Event,
)
    requires
        event.data == data_of(fd),
        fd != batch.listener,
    ensures
        ({
            let after = Batch { events: seq![event], ..batch.with(fd, connection) };
            &&& after.at_connection()
            &&& !after.at_listener()
            &&& after.current().0 == connection
            &&& after.current().1.awaits() == (Action::Read { room: CAPACITY })
        }),
{
    data_leads_back(fd);
    assert(seq![event].first() == event);
}

/// What the first event is about: the listener if its data is for the listener's
/// descriptor, and otherwise the connection with the descriptor that it is for, if there
/// is one.
pub proof fn events_are_told_apart<C>(batch: Batch<C>, listener: i32, data: u64)
    ensures
        subject(listener, data) is Listener <==> fd_of(data) == listener,
        subject(listener, data) matches Ready::Connection { fd } ==> fd == fd_of(data),
        batch.at_listener() <==> batch.events.len() > 0 && fd_of(batch.events[0].data)
            == batch.listener,
        batch.at_connection() <==> {
            &&& batch.events.len() > 0
            &&& fd_of(batch.events[0].data) != batch.listener
            &&& batch.connections.contains_key(fd_of(batch.events[0].data))
        },
        batch.at_connection() ==> batch.current() == batch.connections[fd_of(
            batch.events[0].data,
        )] && batch.ready() == (Ready::Connection { fd: fd_of(batch.events[0].data) }),
{
}

/// To be done with an event is to leave all others in their order, and nothing else.
pub proof fn events_come_in_order<C>(batch: Batch<C>)
    requires
        batch.events.len() > 0,
    ensures
        ({
            let after = batch.past_event();
            &&& seq![batch.events[0]] + after.events == batch.events
            &&& after.connections == batch.connections
            &&& after.completed == batch.completed
            &&& after.epoll == batch.epoll
            &&& after.listener == batch.listener
        }),
{
    assert(seq![batch.events[0]] + batch.past_event().events =~= batch.events);
}

/// What an outcome does to the batch. Only the connection that the event is about is
/// changed by it. The event is done with just if that connection was not ready or is
/// done with, and the descriptor of the connection is then marked as completed
/// just in the latter case: if the response was flushed, or the peer is gone.
pub proof fn outcomes_are_taken_in<C, E>(batch: Batch<C>, outcome: Happening<E>, other: i32)
    requires
        batch.wf(),
        batch.at_connection(),
        batch.current().1.admits(outcome),
    ensures
        ({
            let fd = fd_of(batch.events[0].data);
            let (connection, phase) = batch.connections[fd];
            let after = batch.advance(outcome);
            let done = outcome is Flushed || outcome == Happening::<E>::Sent(0) || (
            outcome matches Happening::Received(chunk) && chunk.len() == 0);
            &&& after.connections.contains_key(fd)
            &&& after.connections[fd].0 == connection
            &&& after.connections[fd].1 == phase.step(Server::Multiplexed, outcome).phase
            &&& other != fd ==> {
                &&& after.connections.contains_key(other) <==> batch.connections.contains_key(other)
                &&& batch.connections.contains_key(other) ==> after.connections[other]
                    == batch.connections[other]
            }
            &&& after.completed == if done {
                batch.completed.push(fd)
            } else {
                batch.completed
            }
            &&& after.events == if done || outcome is WouldBlock {
                batch.events.skip(1)
            } else {
                batch.events
            }
            &&& after.epoll == batch.epoll
            &&& after.listener == batch.listener
        }),
{
    assert(batch.events.drop_first() =~= batch.events.skip(1));
}

/// A connection that is done with, by the flush or because the peer is gone, is marked,
/// stays marked whatever other outcome follows, and is no longer in the table
/// once the batch ends.
pub proof fn done_connections_are_removed<C, E>(
    batch: Batch<C>,
    outcome: Happening<E>,
    fd: i32,
)
    requires
        batch.wf(),
        batch.at_connection(),
        batch.current().1.admits(outcome),
    ensures
        ({
            let mine = fd_of(batch.events[0].data);
            let done = outcome is Flushed || outcome == Happening::<E>::Sent(0) || (
            outcome matches Happening::Received(chunk) && chunk.len() == 0);
            let after = batch.advance(outcome);
            let left = after.connections.remove_keys(after.completed.to_set());
            &&& done ==> after.completed.contains(mine) && !left.contains_key(mine)
            &&& !done && !batch.completed.contains(mine) ==> left.contains_key(mine)
            &&& batch.completed.contains(fd) ==> after.completed.contains(fd)
            &&& fd != mine && batch.connections.contains_key(fd) && !batch.completed.contains(fd)
                ==> left.contains_key(fd) && left[fd] == batch.connections[fd]
        }),
{
    let mine = fd_of(batch.events[0].data);
    let after = batch.advance(outcome);
    outcomes_are_taken_in(batch, outcome, fd);
    only_completed_are_removed(after.connections, after.completed, mine);
    only_completed_are_removed(after.connections, after.completed, fd);
    let marked = batch.completed.push(mine);
    assert(marked[batch.completed.len() as int] == mine);
    if batch.completed.contains(fd) {
        let i = choose|i: int| 0 <= i < batch.completed.len() && batch.completed[i] == fd;
        assert(marked[i] == fd);
    }
    if fd != mine && marked.contains(fd) {
        let i = choose|i: int| 0 <= i < marked.len() && marked[i] == fd;
        assert(batch.completed[i] == fd);
    }
}

/// What epoll is told of a connection leads back to it: the epoll instance is that of
/// the table, and the event carries the descriptor and both interests.
pub proof fn registrations_lead_back<C>(batch: Batch<C>, fd: i32)
    ensures
        batch.registration(fd).epoll == batch.epoll,
        batch.registration(fd).fd == fd,
        fd_of(batch.registration(fd).event.data) == fd,
        batch.registration(fd).event.events == 5,
{
    data_leads_back(fd);
    interests_are_separate_bits();
}

/// The invariant of a batch: every connection is in a proper phase, and those that it
/// has completed are still there.
pub proof fn batches_are_proper<C>(batch: Batch<C>)
    ensures
        batch.wf() <==> {
            &&& forall|fd: i32| #[trigger]
                batch.connections.contains_key(fd) ==> batch.connections[fd].1.wf()
            &&& forall|i: int|
                0 <= i < batch.completed.len() ==> batch.connections.contains_key(
                    #[trigger] batch.completed[i],
                )
        },
{
}

} // verus!
