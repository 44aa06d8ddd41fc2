//! Futures, and how to put them together.
use crate::scheduler::Waker;
use vstd::prelude::*;

verus! {

/// A piece of code that needs to be run, representing a value that will resolve
/// sometime in the future. `T` is what the scheduler keeps of a task.
pub trait Future<T> {
    type Output;

    /// The future may be polled with this waker. Unless it says otherwise, it
    /// always may.
    open spec fn pollable(&self, waker: Waker<T>) -> bool {
        true
    }

    /// Polling the future with this waker can leave it as `after` and give `out`.
    /// Unless it says otherwise, anything can come of it.
    open spec fn polls_to(
        &self,
        waker: Waker<T>,
        after: &Self,
        out: Option<Self::Output>,
    ) -> bool {
        true
    }

    /// Runs the future by asking it if the value is ready yet, and giving it a
    /// chance to make progress. The waker marks the task as ready again, so that
    /// the future is polled once more.
    fn poll(&mut self, waker: Waker<T>) -> (out: Option<Self::Output>)
        requires
            old(self).pollable(waker),
        ensures
            old(self).polls_to(waker, final(self), out),
    ;

    /// Chains a closure over the future's output. That way the closure can use
    /// the output of the first future to construct the second.
    fn chain<F, U>(self, transition: F) -> (chain: Chain<Self, F, U>) where
        F: FnOnce(Self::Output) -> U,
        Self: Sized,

        ensures
            chain == (Chain::<Self, F, U>::First { future1: self, transition: Some(transition) }),
    {
        Chain::First { future1: self, transition: Some(transition) }
    }
}

/// Two futures in a row, itself a small state machine. It starts off by polling
/// the first future, holding onto the transition closure for when it finishes.
pub enum Chain<T1, F, T2> {
    First { future1: T1, transition: Option<F> },
    Second { future2: T2 },
}

impl<T, T1, F, T2> Future<T> for Chain<T1, F, T2> where
    T1: Future<T>,
    F: FnOnce(<T1 as Future<T>>::Output) -> T2,
    T2: Future<T>,
 {
    type Output = <T2 as Future<T>>::Output;

    /// The future at hand may be polled. Where the first future can give a value,
    /// the transition must still be there, take that value, and make of it a
    /// future that may be polled in its turn.
    open spec fn pollable(&self, waker: Waker<T>) -> bool {
        match *self {
            Chain::First { future1, transition } => {
                &&& future1.pollable(waker)
                &&& forall|after1: T1, value: <T1 as Future<T>>::Output| #[trigger]
                    future1.polls_to(waker, &after1, Some(value)) ==> {
                        &&& transition is Some
                        &&& call_requires(transition->0, (value,))
                        &&& forall|future2: T2| #[trigger]
                            call_ensures(transition->0, (value,), future2) ==> future2.pollable(
                                waker,
                            )
                    }
            },
            Chain::Second { future2 } => future2.pollable(waker),
        }
    }

    /// Either the first future is not ready, and the chain waits; or it is, and
    /// the second future is made of its value and polled at once; or the chain
    /// is past that and polls the second future.
    open spec fn polls_to(
        &self,
        waker: Waker<T>,
        after: &Self,
        out: Option<Self::Output>,
    ) -> bool {
        match (*self, *after) {
            (
                Chain::First { future1, transition },
                Chain::First { future1: after1, transition: kept },
            ) => {
                &&& future1.polls_to(waker, &after1, None)
                &&& kept == transition
                &&& out is None
            },
            (Chain::First { future1, transition }, Chain::Second { future2: after2 }) => {
                exists|after1: T1, value: <T1 as Future<T>>::Output, future2: T2|
                    {
                        &&& #[trigger] future1.polls_to(waker, &after1, Some(value))
                        &&& #[trigger] call_ensures(transition->0, (value,), future2)
                        &&& future2.polls_to(waker, &after2, out)
                    }
            },
            (Chain::Second { future2 }, Chain::Second { future2: after2 }) => future2.polls_to(
                waker,
                &after2,
                out,
            ),
            (Chain::Second { .. }, Chain::First { .. }) => false,
        }
    }

    /// The same waker is used to poll both futures. This means that notifications
    /// for both are propagated to the chain.
    fn poll(&mut self, waker: Waker<T>) -> (out: Option<Self::Output>) {
        if let Chain::First { future1, transition } = self {
            match future1.poll(waker.clone()) {
                Some(value) => {
                    // The first future is done, transition into the second.
                    let future2 = (transition.take().unwrap())(value);
                    *self = Chain::Second { future2 };
                },
                None => return None,
            }
        }
        if let Chain::Second { future2 } = self {
            return future2.poll(waker);
        }
        None
    }
}

/// A future that delegates polling to a closure.
pub struct PollFn<F> {
    pub f: F,
}

impl<T, F, O> Future<T> for PollFn<F> where F: FnMut(Waker<T>) -> Option<O> {
    type Output = O;

    open spec fn pollable(&self, waker: Waker<T>) -> bool {
        call_requires(self.f, (waker,))
    }

    /// What comes out is what the closure gives. What the closure has captured by
    /// then is its own affair.
    open spec fn polls_to(&self, waker: Waker<T>, after: &Self, out: Option<O>) -> bool {
        call_ensures(self.f, (waker,), out)
    }

    fn poll(&mut self, waker: Waker<T>) -> (out: Option<O>)
        ensures
            call_ensures(old(self).f, (waker,), out),
    {
        (self.f)(waker)
    }
}

/// Creates a future from some block of code.
pub fn poll_fn<T, F, O>(f: F) -> (future: PollFn<F>) where F: FnMut(Waker<T>) -> Option<O>
    ensures
        future == (PollFn { f }),
        forall|waker: Waker<T>| #[trigger]
            future.pollable(waker) <==> call_requires(f, (waker,)),
        forall|waker: Waker<T>, after: PollFn<F>, out: Option<O>| #[trigger]
            future.polls_to(waker, &after, out) <==> call_ensures(f, (waker,), out),
{
    PollFn { f }
}

/// As long as the first future is not ready, the chain gives nothing and
/// holds onto the transition.
pub proof fn chain_waits_for_first<T, T1, F, T2>(
    chain: Chain<T1, F, T2>,
    waker: Waker<T>,
    after: Chain<T1, F, T2>,
    out: Option<<T2 as Future<T>>::Output>,
) where T1: Future<T>, F: FnOnce(<T1 as Future<T>>::Output) -> T2, T2: Future<T>
    requires
        chain is First,
        chain.polls_to(waker, &after, out),
        forall|after1: T1, out1: Option<<T1 as Future<T>>::Output>| #[trigger]
            chain->future1.polls_to(waker, &after1, out1) ==> out1 is None,
    ensures
        out is None,
        after is First,
        after->transition == chain->transition,
        chain->future1.polls_to(waker, &after->future1, None),
{
}

/// As soon as the first future is ready, the second is made of its value
/// and polled, with the same waker and in the same poll.
pub proof fn chain_goes_on_at_once<T, T1, F, T2>(
    chain: Chain<T1, F, T2>,
    waker: Waker<T>,
    after: Chain<T1, F, T2>,
    out: Option<<T2 as Future<T>>::Output>,
) -> (made: (T1, <T1 as Future<T>>::Output, T2)) where
    T1: Future<T>,
    F: FnOnce(<T1 as Future<T>>::Output) -> T2,
    T2: Future<T>,

    requires
        chain is First,
        chain.polls_to(waker, &after, out),
        forall|after1: T1, out1: Option<<T1 as Future<T>>::Output>| #[trigger]
            chain->future1.polls_to(waker, &after1, out1) ==> out1 is Some,
    ensures
        after is Second,
        chain->future1.polls_to(waker, &made.0, Some(made.1)),
        call_ensures(chain->transition->0, (made.1,), made.2),
        made.2.polls_to(waker, &after->future2, out),
{
    let (after1, value, future2) = choose|
        after1: T1,
        value: <T1 as Future<T>>::Output,
        future2: T2,
    |
        {
            &&& #[trigger] chain->future1.polls_to(waker, &after1, Some(value))
            &&& #[trigger] call_ensures(chain->transition->0, (value,), future2)
            &&& future2.polls_to(waker, &after->future2, out)
        };
    (after1, value, future2)
}

/// Where the first future can be ready with a value, and polling the second that
/// is made of it can give `out`, polling the chain can give `out`.
pub proof fn chain_can_go_on<T, T1, F, T2>(
    chain: Chain<T1, F, T2>,
    waker: Waker<T>,
    after1: T1,
    value: <T1 as Future<T>>::Output,
    future2: T2,
    after2: T2,
    out: Option<<T2 as Future<T>>::Output>,
) where T1: Future<T>, F: FnOnce(<T1 as Future<T>>::Output) -> T2, T2: Future<T>
    requires
        chain is First,
        chain->future1.polls_to(waker, &after1, Some(value)),
        call_ensures(chain->transition->0, (value,), future2),
        future2.polls_to(waker, &after2, out),
    ensures
        chain.polls_to(waker, &Chain::Second { future2: after2 }, out),
{
}

/// A chain never goes back to its first future. From then on it does just
/// what the second one does.
pub proof fn chain_never_goes_back<T, T1, F, T2>(
    chain: Chain<T1, F, T2>,
    waker: Waker<T>,
    after: Chain<T1, F, T2>,
    out: Option<<T2 as Future<T>>::Output>,
) where T1: Future<T>, F: FnOnce(<T1 as Future<T>>::Output) -> T2, T2: Future<T>
    requires
        chain is Second,
    ensures
        chain.polls_to(waker, &after, out) <==> after is Second && chain->future2.polls_to(
            waker,
            &after->future2,
            out,
        ),
{
}

/// A chain is done only once its second future is.
pub proof fn chain_ends_with_second<T, T1, F, T2>(
    chain: Chain<T1, F, T2>,
    waker: Waker<T>,
    after: Chain<T1, F, T2>,
    value: <T2 as Future<T>>::Output,
) where T1: Future<T>, F: FnOnce(<T1 as Future<T>>::Output) -> T2, T2: Future<T>
    requires
        chain.polls_to(waker, &after, Some(value)),
    ensures
        after is Second,
        exists|future2: T2| #[trigger] future2.polls_to(waker, &after->future2, Some(value)),
{
}

/// The transition `whole` does in one what `first` and `second` do in a row: of a
/// value it makes the future that `first` makes, chained to `second`.
pub open spec fn composed<T, A, F, B, G, C, H>(first: F, second: G, whole: H) -> bool where
    A: Future<T>,
    F: FnOnce(<A as Future<T>>::Output) -> B,
    B: Future<T>,
    G: FnOnce(<B as Future<T>>::Output) -> C,
    C: Future<T>,
    H: FnOnce(<A as Future<T>>::Output) -> Chain<B, G, C>,
 {
    &&& forall|value: <A as Future<T>>::Output| #[trigger]
        call_requires(whole, (value,)) <==> call_requires(first, (value,))
    &&& forall|value: <A as Future<T>>::Output, made: Chain<B, G, C>| #[trigger]
        call_ensures(whole, (value,), made) ==> {
            &&& made matches Chain::First { future1, transition }
            &&& transition == Some(second)
            &&& call_ensures(first, (value,), future1)
        }
    &&& forall|value: <A as Future<T>>::Output, future1: B| #[trigger]
        call_ensures(first, (value,), future1) ==> call_ensures(
            whole,
            (value,),
            Chain::First { future1, transition: Some(second) },
        )
}

/// The two chains, grouped to the left and to the right, have come equally far.
pub open spec fn abreast<T, A, F, B, G, C, H>(
    left: Chain<Chain<A, F, B>, G, C>,
    right: Chain<A, H, Chain<B, G, C>>,
) -> bool where
    A: Future<T>,
    F: FnOnce(<A as Future<T>>::Output) -> B,
    B: Future<T>,
    G: FnOnce(<B as Future<T>>::Output) -> C,
    C: Future<T>,
    H: FnOnce(<A as Future<T>>::Output) -> Chain<B, G, C>,
 {
    match (left, right) {
        (
            Chain::First {
                future1: Chain::First { future1: a, transition: Some(first) },
                transition: Some(second),
            },
            Chain::First { future1, transition: Some(whole) },
        ) => a == future1 && composed::<T, A, F, B, G, C, H>(first, second, whole),
        (
            Chain::First { future1: Chain::Second { future2: b }, transition: Some(second) },
            Chain::Second { future2: Chain::First { future1, transition } },
        ) => b == future1 && transition == Some(second),
        (
            Chain::Second { future2: c },
            Chain::Second { future2: Chain::Second { future2 } },
        ) => c == future2,
        (_, _) => false,
    }
}

/// Chaining is associative. Two chains that differ only in how they are
/// grouped begin abreast.
pub proof fn chains_begin_abreast<T, A, F, B, G, C, H>(a: A, first: F, second: G, whole: H) where
    A: Future<T>,
    F: FnOnce(<A as Future<T>>::Output) -> B,
    B: Future<T>,
    G: FnOnce(<B as Future<T>>::Output) -> C,
    C: Future<T>,
    H: FnOnce(<A as Future<T>>::Output) -> Chain<B, G, C>,

    requires
        composed::<T, A, F, B, G, C, H>(first, second, whole),
    ensures
        abreast::<T, A, F, B, G, C, H>(
            Chain::First {
                future1: Chain::First { future1: a, transition: Some(first) },
                transition: Some(second),
            },
            Chain::First { future1: a, transition: Some(whole) },
        ),
{
}

/// Chaining is associative. Whatever can come of a poll of the chain grouped to
/// the left can come of a poll of the one grouped to the right, with the same
/// waker, and they are abreast again.
pub proof fn right_follows_left<T, A, F, B, G, C, H>(
    left: Chain<Chain<A, F, B>, G, C>,
    right: Chain<A, H, Chain<B, G, C>>,
    waker: Waker<T>,
    after: Chain<Chain<A, F, B>, G, C>,
    out: Option<<C as Future<T>>::Output>,
) -> (follower: Chain<A, H, Chain<B, G, C>>) where
    A: Future<T>,
    F: FnOnce(<A as Future<T>>::Output) -> B,
    B: Future<T>,
    G: FnOnce(<B as Future<T>>::Output) -> C,
    C: Future<T>,
    H: FnOnce(<A as Future<T>>::Output) -> Chain<B, G, C>,

    requires
        abreast::<T, A, F, B, G, C, H>(left, right),
        left.polls_to(waker, &after, out),
    ensures
        right.polls_to(waker, &follower, out),
        abreast::<T, A, F, B, G, C, H>(after, follower),
{
    match after {
        Chain::First { future1: Chain::First { future1: a, transition }, transition: second } => {
            Chain::First { future1: a, transition: right->transition }
        },
        Chain::First { future1: Chain::Second { future2: b }, transition: second } => {
            Chain::Second { future2: Chain::First { future1: b, transition: second } }
        },
        Chain::Second { future2: c } => {
            Chain::Second { future2: Chain::Second { future2: c } }
        },
    }
}

/// Chaining is associative. Whatever can come of a poll of the chain grouped to
/// the right can come of a poll of the one grouped to the left, with the same
/// waker, and they are abreast again.
pub proof fn left_follows_right<T, A, F, B, G, C, H>(
    left: Chain<Chain<A, F, B>, G, C>,
    right: Chain<A, H, Chain<B, G, C>>,
    waker: Waker<T>,
    after: Chain<A, H, Chain<B, G, C>>,
    out: Option<<C as Future<T>>::Output>,
) -> (follower: Chain<Chain<A, F, B>, G, C>) where
    A: Future<T>,
    F: FnOnce(<A as Future<T>>::Output) -> B,
    B: Future<T>,
    G: FnOnce(<B as Future<T>>::Output) -> C,
    C: Future<T>,
    H: FnOnce(<A as Future<T>>::Output) -> Chain<B, G, C>,

    requires
        abreast::<T, A, F, B, G, C, H>(left, right),
        right.polls_to(waker, &after, out),
    ensures
        left.polls_to(waker, &follower, out),
        abreast::<T, A, F, B, G, C, H>(follower, after),
{
    if right is First && after is Second {
        // The transition is made: the chain that it makes is that of the left.
        let first = left->future1->transition->0;
        let (after1, value, made) = choose|
            after1: A,
            value: <A as Future<T>>::Output,
            made: Chain<B, G, C>,
        |
            {
                &&& #[trigger] right->future1.polls_to(waker, &after1, Some(value))
                &&& #[trigger] call_ensures(right->transition->0, (value,), made)
                &&& made.polls_to(waker, &after->future2, out)
            };
        let b = made->future1;
        assert(call_ensures(first, (value,), b));
        if let Chain::First { future1: after_b, .. } = after->future2 {
            assert(left->future1.polls_to(waker, &Chain::Second { future2: after_b }, None));
        } else {
            let (after_b, passed, c) = choose|
                after_b: B,
                passed: <B as Future<T>>::Output,
                c: C,
            |
                {
                    &&& #[trigger] b.polls_to(waker, &after_b, Some(passed))
                    &&& #[trigger] call_ensures(made->transition->0, (passed,), c)
                    &&& c.polls_to(waker, &after->future2->future2, out)
                };
            let after1: Chain<A, F, B> = Chain::Second { future2: after_b };
            assert(left->future1.polls_to(waker, &after1, Some(passed)));
            chain_can_go_on(left, waker, after1, passed, c, after->future2->future2, out);
        }
    } else if right is Second && right->future2 is First && after->future2 is Second {
        let b = right->future2->future1;
        let (after_b, passed, c) = choose|after_b: B, passed: <B as Future<T>>::Output, c: C|
            {
                &&& #[trigger] b.polls_to(waker, &after_b, Some(passed))
                &&& #[trigger] call_ensures(right->future2->transition->0, (passed,), c)
                &&& c.polls_to(waker, &after->future2->future2, out)
            };
        let after1: Chain<A, F, B> = Chain::Second { future2: after_b };
        assert(left->future1.polls_to(waker, &after1, Some(passed)));
        chain_can_go_on(left, waker, after1, passed, c, after->future2->future2, out);
    }
    match after {
        Chain::First { future1: a, transition } => Chain::First {
            future1: Chain::First { future1: a, transition: left->future1->transition },
            transition: left->transition,
        },
        Chain::Second { future2: Chain::First { future1: b, transition } } => Chain::First {
            future1: Chain::Second { future2: b },
            transition,
        },
        Chain::Second { future2: Chain::Second { future2: c } } => Chain::Second { future2: c },
    }
}

/// The future can be polled with these wakers in a row, giving these results.
pub open spec fn gives<T, X>(
    future: X,
    polls: Seq<(Waker<T>, Option<<X as Future<T>>::Output>)>,
) -> bool where X: Future<T>

    decreases polls.len(),
{
    polls.len() > 0 ==> exists|after: X|
        {
            &&& #[trigger] future.polls_to(polls.first().0, &after, polls.first().1)
            &&& gives(after, polls.drop_first())
        }
}

/// Chaining is associative: however two transitions are grouped, over any number
/// of polls with the same wakers the chains can give just the same results.
pub proof fn chaining_is_associative<T, A, F, B, G, C, H>(
    left: Chain<Chain<A, F, B>, G, C>,
    right: Chain<A, H, Chain<B, G, C>>,
    polls: Seq<(Waker<T>, Option<<C as Future<T>>::Output>)>,
) where
    A: Future<T>,
    F: FnOnce(<A as Future<T>>::Output) -> B,
    B: Future<T>,
    G: FnOnce(<B as Future<T>>::Output) -> C,
    C: Future<T>,
    H: FnOnce(<A as Future<T>>::Output) -> Chain<B, G, C>,

    requires
        abreast::<T, A, F, B, G, C, H>(left, right),
    ensures
        gives(left, polls) <==> gives(right, polls),
    decreases polls.len(),
{
    if polls.len() > 0 {
        let (waker, out) = polls.first();
        if gives(left, polls) {
            let after = choose|after: Chain<Chain<A, F, B>, G, C>|
                {
                    &&& #[trigger] left.polls_to(waker, &after, out)
                    &&& gives(after, polls.drop_first())
                };
            let follower = right_follows_left(left, right, waker, after, out);
            chaining_is_associative(after, follower, polls.drop_first());
            assert(right.polls_to(polls.first().0, &follower, polls.first().1));
        }
        if gives(right, polls) {
            let after = choose|after: Chain<A, H, Chain<B, G, C>>|
                {
                    &&& #[trigger] right.polls_to(waker, &after, out)
                    &&& gives(after, polls.drop_first())
                };
            let follower = left_follows_right(left, right, waker, after, out);
            chaining_is_associative(follower, after, polls.drop_first());
            assert(left.polls_to(polls.first().0, &follower, polls.first().1));
        }
    }
}

/// What a chain that may be polled takes for granted of its transition.
proof fn transition_is_ready<T, T1, F, T2>(
    chain: Chain<T1, F, T2>,
    waker: Waker<T>,
    after1: T1,
    value: <T1 as Future<T>>::Output,
) where T1: Future<T>, F: FnOnce(<T1 as Future<T>>::Output) -> T2, T2: Future<T>
    requires
        chain is First,
        chain.pollable(waker),
        chain->future1.polls_to(waker, &after1, Some(value)),
    ensures
        chain->transition is Some,
        call_requires(chain->transition->0, (value,)),
        forall|future2: T2| #[trigger]
            call_ensures(chain->transition->0, (value,), future2) ==> future2.pollable(waker),
{
}

/// Two chains that are abreast may be polled with the same wakers.
pub proof fn abreast_are_pollable_alike<T, A, F, B, G, C, H>(
    left: Chain<Chain<A, F, B>, G, C>,
    right: Chain<A, H, Chain<B, G, C>>,
    waker: Waker<T>,
) where
    A: Future<T>,
    F: FnOnce(<A as Future<T>>::Output) -> B,
    B: Future<T>,
    G: FnOnce(<B as Future<T>>::Output) -> C,
    C: Future<T>,
    H: FnOnce(<A as Future<T>>::Output) -> Chain<B, G, C>,

    requires
        abreast::<T, A, F, B, G, C, H>(left, right),
    ensures
        left.pollable(waker) <==> right.pollable(waker),
{
    if left.pollable(waker) {
        right_is_pollable(left, right, waker);
    }
    if right.pollable(waker) {
        left_is_pollable(left, right, waker);
    }
}

/// Where the chain grouped to the left may be polled, so may the other.
proof fn right_is_pollable<T, A, F, B, G, C, H>(
    left: Chain<Chain<A, F, B>, G, C>,
    right: Chain<A, H, Chain<B, G, C>>,
    waker: Waker<T>,
) where
    A: Future<T>,
    F: FnOnce(<A as Future<T>>::Output) -> B,
    B: Future<T>,
    G: FnOnce(<B as Future<T>>::Output) -> C,
    C: Future<T>,
    H: FnOnce(<A as Future<T>>::Output) -> Chain<B, G, C>,

    requires
        abreast::<T, A, F, B, G, C, H>(left, right),
        left.pollable(waker),
    ensures
        right.pollable(waker),
{
    if right is First {
        let inner = left->future1;
        let whole = right->transition->0;
        assert forall|after1: A, value: <A as Future<T>>::Output| #[trigger]
            right->future1.polls_to(waker, &after1, Some(value)) implies {
            &&& call_requires(whole, (value,))
            &&& forall|made: Chain<B, G, C>| #[trigger]
                call_ensures(whole, (value,), made) ==> made.pollable(waker)
        } by {
            transition_is_ready(inner, waker, after1, value);
            assert forall|made: Chain<B, G, C>| #[trigger]
                call_ensures(whole, (value,), made) implies made.pollable(waker) by {
                let b = made->future1;
                assert forall|after_b: B, passed: <B as Future<T>>::Output| #[trigger]
                    b.polls_to(waker, &after_b, Some(passed)) implies {
                    &&& call_requires(made->transition->0, (passed,))
                    &&& forall|c: C| #[trigger]
                        call_ensures(made->transition->0, (passed,), c) ==> c.pollable(waker)
                } by {
                    chain_can_go_on(inner, waker, after1, value, b, after_b, Some(passed));
                    transition_is_ready(left, waker, Chain::Second { future2: after_b }, passed);
                }
            }
        }
    } else if left is First {
        let b = right->future2->future1;
        assert forall|after_b: B, passed: <B as Future<T>>::Output| #[trigger]
            b.polls_to(waker, &after_b, Some(passed)) implies {
            &&& call_requires(left->transition->0, (passed,))
            &&& forall|c: C| #[trigger]
                call_ensures(left->transition->0, (passed,), c) ==> c.pollable(waker)
        } by {
            let after1: Chain<A, F, B> = Chain::Second { future2: after_b };
            assert(left->future1.polls_to(waker, &after1, Some(passed)));
            transition_is_ready(left, waker, after1, passed);
        }
    }
}

/// Where the chain grouped to the right may be polled, so may the other.
proof fn left_is_pollable<T, A, F, B, G, C, H>(
    left: Chain<Chain<A, F, B>, G, C>,
    right: Chain<A, H, Chain<B, G, C>>,
    waker: Waker<T>,
) where
    A: Future<T>,
    F: FnOnce(<A as Future<T>>::Output) -> B,
    B: Future<T>,
    G: FnOnce(<B as Future<T>>::Output) -> C,
    C: Future<T>,
    H: FnOnce(<A as Future<T>>::Output) -> Chain<B, G, C>,

    requires
        abreast::<T, A, F, B, G, C, H>(left, right),
        right.pollable(waker),
    ensures
        left.pollable(waker),
{
    if right is First {
        let inner = left->future1;
        let first = inner->transition->0;
        let second = left->transition->0;
        assert forall|after1: A, value: <A as Future<T>>::Output| #[trigger]
            inner->future1.polls_to(waker, &after1, Some(value)) implies {
            &&& call_requires(first, (value,))
            &&& forall|b: B| #[trigger]
                call_ensures(first, (value,), b) ==> b.pollable(waker)
        } by {
            transition_is_ready(right, waker, after1, value);
            assert forall|b: B| #[trigger]
                call_ensures(first, (value,), b) implies b.pollable(waker) by {
                let made: Chain<B, G, C> = Chain::First { future1: b, transition: Some(second) };
                assert(call_ensures(right->transition->0, (value,), made));
            }
        }
        assert forall|after1: Chain<A, F, B>, passed: <B as Future<T>>::Output| #[trigger]
            inner.polls_to(waker, &after1, Some(passed)) implies {
            &&& call_requires(second, (passed,))
            &&& forall|c: C| #[trigger]
                call_ensures(second, (passed,), c) ==> c.pollable(waker)
        } by {
            let (after_a, value, b) = choose|
                after_a: A,
                value: <A as Future<T>>::Output,
                b: B,
            |
                {
                    &&& #[trigger] inner->future1.polls_to(waker, &after_a, Some(value))
                    &&& #[trigger] call_ensures(first, (value,), b)
                    &&& b.polls_to(waker, &after1->future2, Some(passed))
                };
            transition_is_ready(right, waker, after_a, value);
            let made: Chain<B, G, C> = Chain::First { future1: b, transition: Some(second) };
            assert(call_ensures(right->transition->0, (value,), made));
            transition_is_ready(made, waker, after1->future2, passed);
        }
    } else if left is First {
        assert forall|after1: Chain<A, F, B>, passed: <B as Future<T>>::Output| #[trigger]
            left->future1.polls_to(waker, &after1, Some(passed)) implies {
            &&& call_requires(left->transition->0, (passed,))
            &&& forall|c: C| #[trigger]
                call_ensures(left->transition->0, (passed,), c) ==> c.pollable(waker)
        } by {
            transition_is_ready(right->future2, waker, after1->future2, passed);
        }
    }
}

/// A chain that is still with its first future after a poll has polled that future
/// to nothing, has kept the transition, and has given nothing; and all that the first
/// future can come to in this way, the chain can.
pub proof fn chain_waits_just_with_first<T, T1, F, T2>(
    chain: Chain<T1, F, T2>,
    waker: Waker<T>,
    after: Chain<T1, F, T2>,
    out: Option<<T2 as Future<T>>::Output>,
) where T1: Future<T>, F: FnOnce(<T1 as Future<T>>::Output) -> T2, T2: Future<T>
    requires
        chain is First,
        after is First,
    ensures
        chain.polls_to(waker, &after, out) <==> {
            &&& chain->future1.polls_to(waker, &after->future1, None)
            &&& after->transition == chain->transition
            &&& out is None
        },
{
}

/// A chain that has gone over to its second future in a poll has, in that poll, got a
/// value of the first, made the second of it, and polled it once, to what it gives.
pub proof fn chain_goes_over_with_a_value<T, T1, F, T2>(
    chain: Chain<T1, F, T2>,
    waker: Waker<T>,
    after: Chain<T1, F, T2>,
    out: Option<<T2 as Future<T>>::Output>,
) -> (made: (T1, <T1 as Future<T>>::Output, T2)) where
    T1: Future<T>,
    F: FnOnce(<T1 as Future<T>>::Output) -> T2,
    T2: Future<T>,

    requires
        chain is First,
        after is Second,
        chain.polls_to(waker, &after, out),
    ensures
        chain->future1.polls_to(waker, &made.0, Some(made.1)),
        call_ensures(chain->transition->0, (made.1,), made.2),
        made.2.polls_to(waker, &after->future2, out),
{
    choose|after1: T1, value: <T1 as Future<T>>::Output, future2: T2|
        {
            &&& #[trigger] chain->future1.polls_to(waker, &after1, Some(value))
            &&& #[trigger] call_ensures(chain->transition->0, (value,), future2)
            &&& future2.polls_to(waker, &after->future2, out)
        }
}

/// A chain may be polled wherever its first future may, as long as that one cannot
/// be ready, or the transition is there and takes what it gives to a future that may
/// be polled in turn. Past the transition it may be polled just where its second
/// future may.
pub proof fn chain_may_be_polled<T, T1, F, T2>(chain: Chain<T1, F, T2>, waker: Waker<T>) where
    T1: Future<T>,
    F: FnOnce(<T1 as Future<T>>::Output) -> T2,
    T2: Future<T>,

    ensures
        chain is Second ==> (chain.pollable(waker) <==> chain->future2.pollable(waker)),
        chain is First && chain.pollable(waker) ==> chain->future1.pollable(waker),
        chain is First && chain->future1.pollable(waker) && (forall|
            after1: T1,
            value: <T1 as Future<T>>::Output,
        | #[trigger]
            chain->future1.polls_to(waker, &after1, Some(value)) ==> {
                &&& chain->transition is Some
                &&& call_requires(chain->transition->0, (value,))
                &&& forall|future2: T2| #[trigger]
                    call_ensures(chain->transition->0, (value,), future2) ==> future2.pollable(
                        waker,
                    )
            }) ==> chain.pollable(waker),
{
}

} // verus!
