//! The runtime: scheduler, reactor and futures.
use servers::event::{Deregistration, Event, Registration};
use servers::future::{poll_fn, Chain, Future, PollFn};
use servers::reactor::Reactor;
use servers::scheduler::{Scheduler, Turn, Waker};
use std::cell::RefCell;
use std::rc::Rc;
use std::sync::Arc;

/// The task of the next turn, with its waker.
fn take(scheduler: &mut Scheduler<char>) -> Option<(char, Waker<char>)> {
    match scheduler.run() {
        Turn::Poll { task, waker } => Some((*task, waker)),
        Turn::Wait => None,
    }
}

/// All runnable tasks, in order.
fn drain(scheduler: &mut Scheduler<char>) -> String {
    let mut tasks = String::new();
    while let Some((task, _)) = take(scheduler) {
        tasks.push(task);
    }
    tasks
}

/// A waker for the task.
fn waker(task: char) -> Waker<char> {
    let mut scheduler = Scheduler::default();
    scheduler.spawn(task);
    take(&mut scheduler).unwrap().1
}

/// Adds the descriptor, which epoll has taken, for the task.
fn register(reactor: &mut Reactor<char>, fd: i32, task: char) {
    assert_eq!(reactor.add(fd, waker(task), Ok::<(), ()>(())), Ok(()));
}

fn event(fd: i32) -> Event {
    Event { events: 5, data: fd as u64 }
}

#[test]
fn tasks_run_in_the_order_they_were_spawned() {
    let mut scheduler = Scheduler::default();
    assert!(matches!(scheduler.run(), Turn::Wait));
    for task in ['a', 'b', 'c'] {
        scheduler.spawn(task);
    }
    assert_eq!(drain(&mut scheduler), "abc");
    assert!(matches!(scheduler.run(), Turn::Wait));
}

#[test]
fn a_waker_pushes_its_task_back_on() {
    let mut scheduler = Scheduler::default();
    scheduler.spawn('a');
    scheduler.spawn('b');
    let (task, waker) = take(&mut scheduler).unwrap();
    assert_eq!(task, 'a');
    waker.wake(&mut scheduler);
    waker.clone().wake(&mut scheduler);
    scheduler.spawn('c');
    assert_eq!(drain(&mut scheduler), "baac");
    waker.wake(&mut scheduler);
    assert_eq!(drain(&mut scheduler), "a");
}

#[test]
fn a_waker_is_for_the_very_task() {
    let mut scheduler = Scheduler::default();
    scheduler.spawn(RefCell::new(0));
    let Turn::Poll { task, waker } = scheduler.run() else { panic!("nothing is runnable") };
    *task.borrow_mut() = 7;
    waker.wake(&mut scheduler);
    let Turn::Poll { task: again, .. } = scheduler.run() else { panic!("nothing is runnable") };
    assert!(Arc::ptr_eq(&task, &again));
    assert_eq!(*again.borrow(), 7);
}

#[test]
fn the_reactor_wakes_what_was_added() {
    let mut scheduler = Scheduler::default();
    let mut reactor = Reactor::new(3);
    assert_eq!(reactor.descriptor(), 3);
    assert_eq!(
        reactor.registration(5),
        Registration { epoll: 3, fd: 5, event: Event { events: 5, data: 5 } }
    );
    register(&mut reactor, 5, 'a');
    register(&mut reactor, 6, 'b');
    reactor.wait(&[event(6), event(9), event(5), event(6)], 4, &mut scheduler);
    assert_eq!(drain(&mut scheduler), "bab");
    reactor.wait(&[event(6), event(5)], 1, &mut scheduler);
    assert_eq!(drain(&mut scheduler), "b");
    reactor.wait(&[event(6)], 0, &mut scheduler);
    assert_eq!(drain(&mut scheduler), "");
}

#[test]
fn the_reactor_keeps_the_last_waker() {
    let mut scheduler = Scheduler::default();
    let mut reactor = Reactor::new(3);
    register(&mut reactor, 5, 'a');
    register(&mut reactor, 5, 'b');
    reactor.wait(&[event(5)], 1, &mut scheduler);
    assert_eq!(drain(&mut scheduler), "b");
}

#[test]
fn what_is_removed_is_not_woken() {
    let mut scheduler = Scheduler::default();
    let mut reactor = Reactor::new(3);
    register(&mut reactor, 5, 'a');
    register(&mut reactor, 6, 'b');
    assert_eq!(reactor.remove(5), Deregistration { epoll: 3, fd: 5 });
    assert_eq!(reactor.remove(5), Deregistration { epoll: 3, fd: 5 });
    assert_eq!(reactor.remove(7), Deregistration { epoll: 3, fd: 7 });
    assert_eq!(drain(&mut scheduler), "");
    reactor.wait(&[event(5), event(6), event(5)], 3, &mut scheduler);
    assert_eq!(drain(&mut scheduler), "b");
    register(&mut reactor, 5, 'c');
    reactor.wait(&[event(5), event(6)], 2, &mut scheduler);
    assert_eq!(drain(&mut scheduler), "cb");
}

#[test]
fn what_epoll_refuses_is_not_added() {
    let mut scheduler = Scheduler::default();
    let mut reactor = Reactor::new(3);
    register(&mut reactor, 5, 'a');
    assert_eq!(reactor.add(5, waker('b'), Err("refused")), Err("refused"));
    assert_eq!(reactor.add(6, waker('b'), Err("refused")), Err("refused"));
    reactor.wait(&[event(5), event(6)], 2, &mut scheduler);
    assert_eq!(drain(&mut scheduler), "a");
}

/// A future that is ready with the value when it is polled for the last time.
fn ready_after(polls: u32, value: u32) -> PollFn<impl FnMut(Waker<char>) -> Option<u32>> {
    let mut left = polls;
    poll_fn(move |_: Waker<char>| {
        left -= 1;
        if left == 0 {
            Some(value)
        } else {
            None
        }
    })
}

#[test]
fn poll_fn_delegates_to_the_closure() {
    let mut future = ready_after(2, 8);
    assert_eq!(future.poll(waker('a')), None);
    assert_eq!(future.poll(waker('a')), Some(8));
}

#[test]
fn a_chain_goes_on_at_once() {
    let mut chain = ready_after(2, 8).chain(|value| ready_after(1, value + 1));
    assert!(matches!(chain, Chain::First { transition: Some(_), .. }));
    assert_eq!(chain.poll(waker('a')), None);
    assert!(matches!(chain, Chain::First { transition: Some(_), .. }));
    assert_eq!(chain.poll(waker('a')), Some(9));
    assert!(matches!(chain, Chain::Second { .. }));
}

#[test]
fn a_chain_stays_with_its_second_future() {
    let made = Rc::new(RefCell::new(0));
    let count = made.clone();
    let mut chain = ready_after(1, 8).chain(move |value| {
        *count.borrow_mut() += 1;
        ready_after(3, value + 1)
    });
    assert_eq!(chain.poll(waker('a')), None);
    assert!(matches!(chain, Chain::Second { .. }));
    assert_eq!(chain.poll(waker('a')), None);
    assert_eq!(chain.poll(waker('a')), Some(9));
    assert_eq!(*made.borrow(), 1);
}

#[test]
fn both_futures_get_the_same_waker() {
    let scheduler = Rc::new(RefCell::new(Scheduler::default()));
    let first = scheduler.clone();
    let second = scheduler.clone();
    let mut chain = poll_fn(move |waker: Waker<char>| {
        waker.wake(&mut first.borrow_mut());
        Some(())
    })
    .chain(move |()| {
        poll_fn(move |waker: Waker<char>| {
            waker.wake(&mut second.borrow_mut());
            Some(5)
        })
    });
    assert_eq!(chain.poll(waker('w')), Some(5));
    assert_eq!(drain(&mut scheduler.borrow_mut()), "ww");
}

#[test]
fn chains_can_be_chained() {
    let mut chain = ready_after(1, 1)
        .chain(|value| ready_after(2, value + 1))
        .chain(|value| ready_after(2, value * 10));
    assert_eq!(chain.poll(waker('a')), None);
    assert_eq!(chain.poll(waker('a')), None);
    assert_eq!(chain.poll(waker('a')), Some(20));
}

#[test]
fn chaining_is_associative() {
    for polls in 1..4 {
        let mut left = ready_after(polls, 1)
            .chain(|value| ready_after(2, value + 1))
            .chain(|value| ready_after(3, value * 10));
        let mut right = ready_after(polls, 1).chain(|value| {
            ready_after(2, value + 1).chain(|value| ready_after(3, value * 10))
        });
        for _ in 1..polls + 3 {
            assert_eq!(left.poll(waker('a')), None);
            assert_eq!(right.poll(waker('a')), None);
        }
        assert_eq!(left.poll(waker('a')), Some(20));
        assert_eq!(right.poll(waker('a')), Some(20));
    }
}

#[test]
fn a_chain_without_its_transition_still_waits() {
    let mut chain: Chain<_, fn(u32) -> PollFn<fn(Waker<char>) -> Option<u32>>, _> =
        Chain::First { future1: ready_after(2, 8), transition: None };
    assert_eq!(chain.poll(waker('a')), None);
    assert!(matches!(chain, Chain::First { transition: None, .. }));
}

#[test]
fn a_turn_is_idle_only_where_the_queue_is_empty() {
    let mut scheduler = Scheduler::default();
    assert!(take(&mut scheduler).is_none());
    scheduler.spawn('a');
    assert_eq!(take(&mut scheduler).unwrap().0, 'a');
    assert!(take(&mut scheduler).is_none());
    assert!(take(&mut scheduler).is_none());
    scheduler.spawn('b');
    assert_eq!(take(&mut scheduler).unwrap().0, 'b');
}

/// A future with a state of its own.
struct Countdown(u32);

impl Future<char> for Countdown {
    type Output = &'static str;

    fn poll(&mut self, _: Waker<char>) -> Option<&'static str> {
        if self.0 == 0 {
            return Some("liftoff");
        }
        self.0 -= 1;
        None
    }
}

#[test]
fn futures_of_ones_own() {
    let mut chain = Countdown(1).chain(|word: &'static str| {
        poll_fn(move |_: Waker<char>| Some(word.len()))
    });
    assert_eq!(chain.poll(waker('a')), None);
    assert_eq!(chain.poll(waker('a')), Some(7));
}

#[test]
fn an_event_gets_its_task_polled() {
    let mut scheduler = Scheduler::default();
    let mut reactor = Reactor::new(3);
    for (fd, task) in [(5, 'a'), (6, 'b'), (7, 'c')] {
        scheduler.spawn(task);
        let (_, waker) = take(&mut scheduler).unwrap();
        assert_eq!(reactor.add(fd, waker, Ok::<(), ()>(())), Ok(()));
    }
    assert!(take(&mut scheduler).is_none());

    reactor.wait(&[event(7), event(5)], 2, &mut scheduler);
    let (first, waker) = take(&mut scheduler).unwrap();
    assert_eq!(first, 'c');
    scheduler.spawn('d');
    waker.wake(&mut scheduler);
    assert_eq!(drain(&mut scheduler), "adc");

    // Once it is done and removed, a task is never run again.
    reactor.remove(7);
    reactor.wait(&[event(7), event(6)], 2, &mut scheduler);
    assert_eq!(drain(&mut scheduler), "b");
}
