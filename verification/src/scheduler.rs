//! The run queue: which task to poll next, and how a task gets back on the queue.
use std::collections::VecDeque;
use std::sync::Arc;
use vstd::prelude::*;

verus! {

/// Puts one task back on the run queue of the scheduler.
///
/// A waker is given to a task each time it is polled; whoever knows when the
/// task can make progress calls [`Waker::wake`].
pub struct Waker<T> {
    task: Arc<T>,
}

impl<T> Waker<T> {
    /// The task that the waker is for.
    pub closed spec fn task(self) -> Arc<T> {
        self.task
    }

    /// Pushes the task to the back of the run queue.
    pub fn wake(&self, scheduler: &mut Scheduler<T>)
        ensures
            final(scheduler)@ == old(scheduler)@.push(self.task()),
            final(scheduler)@ == queue_after(old(scheduler)@, seq![Move::Push(self.task())]),
    {
        scheduler.runnable.push_back(self.task.clone());
        proof {
            one_move(old(scheduler)@, Move::Push(self.task()));
        }
    }
}

impl<T> Clone for Waker<T> {
    fn clone(&self) -> (waker: Self)
        ensures
            waker == *self,
    {
        Waker { task: self.task.clone() }
    }
}

/// The scheduler: tasks that can be polled, in the order in which they became
/// runnable. A task that was woken more than once is on the queue as often.
pub struct Scheduler<T> {
    runnable: VecDeque<Arc<T>>,
}

/// What the run loop does next.
pub enum Turn<T> {
    /// Poll the task with the waker.
    Poll { task: Arc<T>, waker: Waker<T> },
    /// Nothing is runnable: block until something becomes ready.
    Wait,
}

impl<T> View for Scheduler<T> {
    type V = Seq<Arc<T>>;

    closed spec fn view(&self) -> Seq<Arc<T>> {
        self.runnable@
    }
}

impl<T> Default for Scheduler<T> {
    fn default() -> (scheduler: Self)
        ensures
            scheduler@ == Seq::<Arc<T>>::empty(),
    {
        Scheduler { runnable: VecDeque::new() }
    }
}

impl<T> Scheduler<T> {
    /// Makes a new task runnable, behind all others.
    pub fn spawn(&mut self, task: T)
        ensures
            final(self)@ == old(self)@.push(Arc::new(task)),
            final(self)@ == queue_after(old(self)@, seq![Move::Push(Arc::new(task))]),
    {
        let ghost pushed = Arc::new(task);
        self.runnable.push_back(Arc::new(task));
        proof {
            one_move(old(self)@, Move::Push(pushed));
        }
    }

    /// One turn of the run loop: takes the first runnable task off the queue, to
    /// be polled with a waker that pushes it back on.
    pub fn run(&mut self) -> (turn: Turn<T>)
        ensures
            match turn {
                Turn::Poll { task, waker } => {
                    &&& old(self)@.len() > 0
                    &&& task == old(self)@.first()
                    &&& waker.task() == task
                    &&& final(self)@ == old(self)@.drop_first()
                },
                Turn::Wait => old(self)@.len() == 0 && final(self)@ == old(self)@,
            },
            final(self)@ == queue_after(old(self)@, seq![Move::Turn]),
            polled(old(self)@, seq![Move::Turn]) == match turn {
                Turn::Poll { task, waker } => seq![task],
                Turn::Wait => seq![],
            },
    {
        proof {
            one_move(self@, Move::Turn);
        }
        match self.runnable.pop_front() {
            Some(task) => {
                assert(self@ =~= old(self)@.drop_first());
                let waker = Waker { task: task.clone() };
                Turn::Poll { task, waker }
            },
            None => Turn::Wait,
        }
    }
}

/// What can happen to the run queue.
pub ghost enum Move<T> {
    /// A task is spawned or woken.
    Push(Arc<T>),
    /// The run loop takes a turn.
    Turn,
}

/// The queue after the moves.
pub open spec fn queue_after<T>(queue: Seq<Arc<T>>, moves: Seq<Move<T>>) -> Seq<Arc<T>>
    decreases moves.len(),
{
    if moves.len() == 0 {
        queue
    } else {
        let before = queue_after(queue, moves.drop_last());
        match moves.last() {
            Move::Push(task) => before.push(task),
            Move::Turn => if before.len() > 0 {
                before.drop_first()
            } else {
                before
            },
        }
    }
}

/// The tasks that the turns among the moves poll, in order.
pub open spec fn polled<T>(queue: Seq<Arc<T>>, moves: Seq<Move<T>>) -> Seq<Arc<T>>
    decreases moves.len(),
{
    if moves.len() == 0 {
        seq![]
    } else {
        let before = queue_after(queue, moves.drop_last());
        let earlier = polled(queue, moves.drop_last());
        if moves.last() is Turn && before.len() > 0 {
            earlier.push(before.first())
        } else {
            earlier
        }
    }
}

/// The tasks that are pushed among the moves, in order.
pub open spec fn pushed<T>(moves: Seq<Move<T>>) -> Seq<Arc<T>>
    decreases moves.len(),
{
    if moves.len() == 0 {
        seq![]
    } else {
        match moves.last() {
            Move::Push(task) => pushed(moves.drop_last()).push(task),
            Move::Turn => pushed(moves.drop_last()),
        }
    }
}

/// How many of the moves are turns.
pub open spec fn turns<T>(moves: Seq<Move<T>>) -> nat
    decreases moves.len(),
{
    if moves.len() == 0 {
        0
    } else if moves.last() is Turn {
        turns(moves.drop_last()) + 1
    } else {
        turns(moves.drop_last())
    }
}

/// Tasks are polled first come, first served, once for each time that they
/// were pushed. No spawned or woken task is lost, and none is made up: what was
/// polled and what still waits is what was there and what was pushed.
pub proof fn first_come_first_served<T>(queue: Seq<Arc<T>>, moves: Seq<Move<T>>)
    ensures
        polled(queue, moves) + queue_after(queue, moves) == queue + pushed(moves),
    decreases moves.len(),
{
    if moves.len() > 0 {
        first_come_first_served(queue, moves.drop_last());
        let before = queue_after(queue, moves.drop_last());
        let earlier = polled(queue, moves.drop_last());
        match moves.last() {
            Move::Push(task) => {
                assert(earlier + before.push(task) =~= (earlier + before).push(task));
                assert((queue + pushed(moves.drop_last())).push(task) =~= queue + pushed(moves));
            },
            Move::Turn => {
                if before.len() > 0 {
                    assert(earlier.push(before.first()) + before.drop_first() =~= earlier
                        + before);
                }
            },
        }
    } else {
        assert(polled(queue, moves) + queue =~= queue + pushed(moves));
    }
}

/// The task at place `i` of the queue is the one that the turn after `i`
/// others polls, whatever is spawned or woken meanwhile.
pub proof fn every_task_gets_its_turn<T>(queue: Seq<Arc<T>>, moves: Seq<Move<T>>, i: nat)
    requires
        i < queue.len(),
        i < turns(moves),
    ensures
        i < polled(queue, moves).len(),
        polled(queue, moves)[i as int] == queue[i as int],
{
    turns_are_used(queue, moves);
    first_come_first_served(queue, moves);
    let all = polled(queue, moves) + queue_after(queue, moves);
    assert(all[i as int] == queue[i as int]);
}

/// A turn polls nothing exactly where the run queue in front of it is empty.
/// Everywhere else it polls the first task of the queue.
pub proof fn idle_only_when_empty<T>(queue: Seq<Arc<T>>, moves: Seq<Move<T>>, i: int)
    requires
        0 <= i < moves.len(),
        moves[i] is Turn,
    ensures
        ({
            let front = queue_after(queue, moves.take(i));
            let earlier = polled(queue, moves.take(i));
            let later = polled(queue, moves.take(i + 1));
            &&& later == earlier <==> front.len() == 0
            &&& front.len() > 0 ==> later == earlier.push(front.first())
        }),
{
    assert(moves.take(i + 1).drop_last() =~= moves.take(i));
    let earlier = polled(queue, moves.take(i));
    let front = queue_after(queue, moves.take(i));
    assert(earlier.push(front.first()).len() != earlier.len());
}

/// As long as not all tasks of the queue have been polled, every turn has
/// polled one.
proof fn turns_are_used<T>(queue: Seq<Arc<T>>, moves: Seq<Move<T>>)
    ensures
        polled(queue, moves).len() <= turns(moves),
        polled(queue, moves).len() < queue.len() ==> polled(queue, moves).len() == turns(moves),
    decreases moves.len(),
{
    if moves.len() > 0 {
        turns_are_used(queue, moves.drop_last());
        first_come_first_served(queue, moves.drop_last());
        let before = queue_after(queue, moves.drop_last());
        let earlier = polled(queue, moves.drop_last());
        assert((earlier + before).len() == (queue + pushed(moves.drop_last())).len());
    }
}

/// A task that is neither on the queue nor spawned or woken is not polled.
pub proof fn unwoken_is_not_polled<T>(queue: Seq<Arc<T>>, moves: Seq<Move<T>>, task: Arc<T>)
    requires
        !queue.contains(task),
        !pushed(moves).contains(task),
    ensures
        !polled(queue, moves).contains(task),
{
    first_come_first_served(queue, moves);
    let all = polled(queue, moves) + queue_after(queue, moves);
    if polled(queue, moves).contains(task) {
        let i = choose|i: int|
            0 <= i < polled(queue, moves).len() && polled(queue, moves)[i] == task;
        assert(all[i] == task);
        assert(all.len() == queue.len() + pushed(moves).len());
        assert((queue + pushed(moves))[i] == task);
        if i < queue.len() {
            assert(queue[i] == task);
        } else {
            assert(pushed(moves)[i - queue.len()] == task);
        }
    }
}

/// A task that is woken while it is polled comes back on the queue behind
/// every other task.
pub proof fn woken_task_goes_to_the_back<T>(queue: Seq<Arc<T>>, waker: Waker<T>)
    requires
        queue.len() > 0,
        waker.task() == queue.first(),
    ensures
        queue_after(queue, seq![Move::Turn, Move::Push(waker.task())])
            == queue.drop_first().push(queue.first()),
{
    let moves = seq![Move::Turn, Move::Push(waker.task())];
    assert(moves.drop_last() =~= seq![Move::<T>::Turn]);
    assert(seq![Move::<T>::Turn].drop_last() =~= seq![]);
    reveal_with_fuel(queue_after, 3);
}

/// What a single move does to the queue, and what it polls.
proof fn one_move<T>(queue: Seq<Arc<T>>, the_move: Move<T>)
    ensures
        queue_after(queue, seq![the_move]) == match the_move {
            Move::Push(task) => queue.push(task),
            Move::Turn => if queue.len() > 0 {
                queue.drop_first()
            } else {
                queue
            },
        },
        polled(queue, seq![the_move]) == if the_move is Turn && queue.len() > 0 {
            seq![queue.first()]
        } else {
            seq![]
        },
{
    reveal_with_fuel(queue_after, 2);
    reveal_with_fuel(polled, 2);
    assert(seq![the_move].drop_last() =~= seq![]);
    assert(polled(queue, seq![the_move]) =~= if the_move is Turn && queue.len() > 0 {
        seq![queue.first()]
    } else {
        seq![]
    });
}

} // verus!
