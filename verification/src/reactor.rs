//! The reactor: a map of tasks keyed by file descriptor.
use crate::event::{descriptor, fd_of, read_write_interest};
use crate::event::{data_leads_back, data_of, readable, writable};
use crate::event::{Deregistration, Event, Registration};
use crate::scheduler::{every_task_gets_its_turn, polled, turns, Move};
use crate::scheduler::{Scheduler, Waker};
use std::collections::HashMap;
use std::sync::Arc;
use vstd::prelude::*;

verus! {

broadcast use vstd::std_specs::hash::group_hash_axioms;

/// A background service that drives epoll, so that wakers can be registered
/// with it.
pub struct Reactor<T> {
    epoll: i32,
    tasks: HashMap<i32, Waker<T>>,
}

/// The tasks that the events wake, in order: for each event the one that is
/// registered for its descriptor, if there is one.
pub open spec fn woken<T>(wakers: Map<i32, Waker<T>>, events: Seq<Event>) -> Seq<Arc<T>>
    decreases events.len(),
{
    if events.len() == 0 {
        seq![]
    } else {
        let rest = woken(wakers, events.drop_last());
        let fd = fd_of(events.last().data);
        if wakers.contains_key(fd) {
            rest.push(wakers[fd].task())
        } else {
            rest
        }
    }
}

impl<T> Reactor<T> {
    /// The descriptor of the epoll instance.
    pub closed spec fn epoll(self) -> i32 {
        self.epoll
    }

    /// The registered wakers.
    pub closed spec fn wakers(self) -> Map<i32, Waker<T>> {
        self.tasks@
    }

    /// A reactor for the epoll instance, with nothing registered.
    pub fn new(epoll: i32) -> (reactor: Reactor<T>)
        ensures
            reactor.epoll() == epoll,
            reactor.wakers() == Map::<i32, Waker<T>>::empty(),
    {
        Reactor { epoll, tasks: HashMap::new() }
    }

    /// The descriptor of the epoll instance, to wait on.
    pub fn descriptor(&self) -> (fd: i32)
        ensures
            fd == self.epoll(),
    {
        self.epoll
    }

    /// What epoll is to be told of a file descriptor before it is added: read and
    /// write interest.
    pub fn registration(&self, fd: i32) -> (registration: Registration)
        ensures
            registration == (Registration {
                epoll: self.epoll(),
                fd,
                event: Event { events: readable() | writable(), data: data_of(fd) },
            }),
    {
        Registration { epoll: self.epoll, fd, event: read_write_interest(fd) }
    }

    /// Adds a file descriptor with read and write interest.
    ///
    /// `waker` will be called when the descriptor becomes ready. `told` is what
    /// came of telling epoll about the [`Reactor::registration`]. If epoll refuses
    /// it, that error comes back, and everything stays as it is.
    pub fn add<E>(&mut self, fd: i32, waker: Waker<T>, told: Result<(), E>) -> (added: Result<
        (),
        E,
    >)
        ensures
            added == told,
            final(self).epoll() == old(self).epoll(),
            final(self).wakers() == match told {
                Ok(_) => old(self).wakers().insert(fd, waker),
                Err(_) => old(self).wakers(),
            },
    {
        if told.is_ok() {
            self.tasks.insert(fd, waker);
        }
        told
    }

    /// Removes the given descriptor from epoll.
    ///
    /// It will no longer receive any notifications. The result is what epoll is
    /// to be told. A descriptor that was never added, or is removed already, may
    /// be removed all the same.
    pub fn remove(&mut self, fd: i32) -> (deregistration: Deregistration)
        ensures
            final(self).epoll() == old(self).epoll(),
            final(self).wakers() == old(self).wakers().remove(fd),
            deregistration == (Deregistration { epoll: old(self).epoll(), fd }),
    {
        self.tasks.remove(&fd);
        Deregistration { epoll: self.epoll, fd }
    }

    /// Drives tasks forward: wakes the associated task for each of the first
    /// `num_events` events that epoll reported.
    pub fn wait(&self, events: &[Event], num_events: usize, scheduler: &mut Scheduler<T>)
        requires
            num_events <= events@.len(),
        ensures
            final(scheduler)@ == old(scheduler)@ + woken(
                self.wakers(),
                events@.take(num_events as int),
            ),
    {
        let mut i: usize = 0;
        while i < num_events
            invariant
                i <= num_events <= events@.len(),
                scheduler@ =~= old(scheduler)@ + woken(self.wakers(), events@.take(i as int)),
            decreases num_events - i,
        {
            assert(events@.take(i + 1).drop_last() =~= events@.take(i as int));
            let fd = descriptor(&events[i]);
            if let Some(waker) = self.tasks.get(&fd) {
                waker.wake(scheduler);
            }
            i = i + 1;
        }
    }
}

/// Once a descriptor is added, an event for it wakes just the task whose
/// waker was given last.
pub proof fn added_is_woken<T>(wakers: Map<i32, Waker<T>>, fd: i32, waker: Waker<T>, event: Event)
    requires
        event.data == data_of(fd),
    ensures
        woken(wakers.insert(fd, waker), seq![event]) == seq![waker.task()],
{
    data_leads_back(fd);
    assert(seq![event].drop_last() =~= seq![]);
    reveal_with_fuel(woken, 2);
}

/// Once a descriptor is removed, it no longer receives any notifications.
/// The other events wake what they did before.
pub proof fn removed_is_silent<T>(wakers: Map<i32, Waker<T>>, fd: i32, events: Seq<Event>)
    ensures
        woken(wakers.remove(fd), events) == woken(
            wakers,
            events.filter(|event: Event| fd_of(event.data) != fd),
        ),
    decreases events.len(),
{
    let others = |event: Event| fd_of(event.data) != fd;
    reveal(Seq::filter);
    if events.len() > 0 {
        let before = events.drop_last();
        removed_is_silent(wakers, fd, before);
        if fd_of(events.last().data) != fd {
            assert(events.filter(others) =~= before.filter(others).push(events.last()));
            assert(events.filter(others).drop_last() =~= before.filter(others));
        } else {
            assert(events.filter(others) =~= before.filter(others));
        }
    }
}

/// Removing a descriptor leaves no waker for it, and to remove it once more, or
/// where it never was, changes nothing.
pub proof fn removing_again_changes_nothing<T>(wakers: Map<i32, Waker<T>>, fd: i32)
    ensures
        !wakers.remove(fd).contains_key(fd),
        wakers.remove(fd).remove(fd) == wakers.remove(fd),
        !wakers.contains_key(fd) ==> wakers.remove(fd) == wakers,
{
    assert(wakers.remove(fd).remove(fd) =~= wakers.remove(fd));
    if !wakers.contains_key(fd) {
        assert(wakers.remove(fd) =~= wakers);
    }
}

/// To add a descriptor and remove it again leaves what was there without it.
pub proof fn remove_undoes_add<T>(wakers: Map<i32, Waker<T>>, fd: i32, waker: Waker<T>)
    ensures
        wakers.insert(fd, waker).remove(fd) == wakers.remove(fd),
{
    assert(wakers.insert(fd, waker).remove(fd) =~= wakers.remove(fd));
}

/// What is registered for one descriptor has no say in the events for
/// others.
pub proof fn others_are_unaffected<T>(
    wakers: Map<i32, Waker<T>>,
    fd: i32,
    waker: Waker<T>,
    events: Seq<Event>,
)
    requires
        forall|i: int| 0 <= i < events.len() ==> fd_of((#[trigger] events[i]).data) != fd,
    ensures
        woken(wakers.insert(fd, waker), events) == woken(wakers, events),
        woken(wakers.remove(fd), events) == woken(wakers, events),
    decreases events.len(),
{
    if events.len() > 0 {
        assert(fd_of(events[events.len() - 1].data) != fd);
        others_are_unaffected(wakers, fd, waker, events.drop_last());
    }
}

/// Every event wakes the associated task, however the events are spread
/// over waits.
pub proof fn waits_add_up<T>(wakers: Map<i32, Waker<T>>, first: Seq<Event>, second: Seq<Event>)
    ensures
        woken(wakers, first + second) == woken(wakers, first) + woken(wakers, second),
    decreases second.len(),
{
    if second.len() == 0 {
        assert(first + second =~= first);
        assert(woken(wakers, first) + woken(wakers, second) =~= woken(wakers, first));
    } else {
        assert((first + second).drop_last() =~= first + second.drop_last());
        waits_add_up(wakers, first, second.drop_last());
        assert(woken(wakers, first + second) =~= woken(wakers, first) + woken(wakers, second));
    }
}

/// A task that no waker of the reactor is for is not woken, whatever happens.
pub proof fn unregistered_is_not_woken<T>(
    wakers: Map<i32, Waker<T>>,
    events: Seq<Event>,
    task: Arc<T>,
)
    requires
        forall|fd: i32| #[trigger] wakers.contains_key(fd) ==> wakers[fd].task() != task,
    ensures
        !woken(wakers, events).contains(task),
    decreases events.len(),
{
    if events.len() > 0 {
        unregistered_is_not_woken(wakers, events.drop_last(), task);
    }
}

/// The task of a registered descriptor is among those that its event wakes.
pub proof fn event_wakes_its_task<T>(wakers: Map<i32, Waker<T>>, events: Seq<Event>, i: int)
    requires
        0 <= i < events.len(),
        wakers.contains_key(fd_of(events[i].data)),
    ensures
        woken(wakers, events).contains(wakers[fd_of(events[i].data)].task()),
    decreases events.len(),
{
    let task = wakers[fd_of(events[i].data)].task();
    let all = woken(wakers, events);
    let rest = woken(wakers, events.drop_last());
    if i < events.len() - 1 {
        event_wakes_its_task(wakers, events.drop_last(), i);
        let k = choose|k: int| 0 <= k < rest.len() && rest[k] == task;
        assert(all[k] == task);
    } else {
        assert(all[all.len() - 1] == task);
    }
}

/// The waker keeps everything connected. Once the run queue is empty and the
/// reactor has waited, the task of every descriptor that epoll reported is
/// polled in one of the turns that follow, whatever is spawned or woken
/// meanwhile.
pub proof fn event_gets_its_task_polled<T>(
    wakers: Map<i32, Waker<T>>,
    events: Seq<Event>,
    i: int,
    moves: Seq<Move<T>>,
)
    requires
        0 <= i < events.len(),
        wakers.contains_key(fd_of(events[i].data)),
        turns(moves) >= woken(wakers, events).len(),
    ensures
        polled(woken(wakers, events), moves).contains(wakers[fd_of(events[i].data)].task()),
{
    let task = wakers[fd_of(events[i].data)].task();
    let queue = woken(wakers, events);
    event_wakes_its_task(wakers, events, i);
    let k = choose|k: int| 0 <= k < queue.len() && queue[k] == task;
    every_task_gets_its_turn(queue, moves, k as nat);
    assert(polled(queue, moves)[k] == task);
}

/// An event wakes just the task that is registered for its descriptor, once, and if
/// none is registered for it, it wakes nothing.
pub proof fn event_wakes_no_other_task<T>(wakers: Map<i32, Waker<T>>, event: Event)
    ensures
        wakers.contains_key(fd_of(event.data)) ==> woken(wakers, seq![event]) == seq![
            wakers[fd_of(event.data)].task(),
        ],
        !wakers.contains_key(fd_of(event.data)) ==> woken(wakers, seq![event]).len() == 0,
        woken(wakers, seq![]).len() == 0,
{
    assert(seq![event].drop_last() =~= seq![]);
    reveal_with_fuel(woken, 2);
}

} // verus!
