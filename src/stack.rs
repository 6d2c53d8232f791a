use crate::chance::shuffle_in_place;
use vstd::prelude::*;

verus! {

/// The error of taking from an empty stack.
#[derive(Debug, Clone, Copy, PartialEq, Eq, Structural)]
pub struct EmptyDeckError;

/// An ordered pile used as a stack: the last item pushed is the first popped.
///
/// The number of items is the length of the underlying vector, so the count
/// can never drift from the contents.
#[derive(Debug, Clone, Default, PartialEq)]
pub struct Stack<T> {
    items: Vec<T>,
}

impl<T> View for Stack<T> {
    type V = Seq<T>;

    /// The items from the bottom of the stack to its top.
    closed spec fn view(&self) -> Seq<T> {
        self.items@
    }
}

impl<T> Stack<T> {
    pub fn new() -> (r: Self)
        ensures
            r@ == Seq::<T>::empty(),
    {
        Stack { items: Vec::new() }
    }

    /// Puts `val` on top.
    pub fn push(&mut self, val: T)
        ensures
            final(self)@ == old(self)@.push(val),
    {
        self.items.push(val);
    }

    /// Takes the top item, or reports that there is none and leaves the stack as it was.
    pub fn pop(&mut self) -> (r: Result<T, EmptyDeckError>)
        ensures
            old(self)@.len() == 0 <==> r is Err,
            r is Err ==> final(self)@ == old(self)@,
            r is Ok ==> r->Ok_0 == old(self)@.last() && final(self)@ == old(self)@.drop_last(),
    {
        match self.items.pop() {
            Some(v) => Ok(v),
            None => Err(EmptyDeckError),
        }
    }

    /// Reorders the items at random, `times` times over. The same items stay,
    /// each as many times as before.
    pub fn shuffle(&mut self, times: usize)
        ensures
            final(self)@.len() == old(self)@.len(),
            final(self)@.to_multiset() == old(self)@.to_multiset(),
            times == 0 ==> final(self)@ == old(self)@,
    {
        let mut round: usize = 0;
        while round < times
            invariant
                round <= times,
                self@.len() == old(self)@.len(),
                self@.to_multiset() == old(self)@.to_multiset(),
                times == 0 ==> self@ == old(self)@,
            decreases times - round,
        {
            shuffle_in_place(&mut self.items);
            round = round + 1;
        }
    }

    /// Puts `times` copies of `val` on top.
    pub fn push_times(&mut self, val: T, times: usize)
        where
            T: Copy,
        ensures
            final(self)@ == old(self)@ + Seq::new(times as nat, |_i: int| val),
    {
        let mut n: usize = 0;
        while n < times
            invariant
                n <= times,
                self@ == old(self)@ + Seq::new(n as nat, |_i: int| val),
            decreases times - n,
        {
            self.items.push(val);
            n = n + 1;
            assert(self@ =~= old(self)@ + Seq::new(n as nat, |_i: int| val));
        }
    }

    /// Pops `n` times in a row, or until the stack is empty, and returns the
    /// items in the order they came out.
    pub fn pop_many(&mut self, n: usize) -> (r: Vec<T>)
        ensures
            r@ == popped(old(self)@, n as nat),
            final(self)@ == after_pops(old(self)@, n as nat),
    {
        let mut out: Vec<T> = Vec::new();
        let mut k: usize = 0;
        while k < n
            invariant
                k <= n,
                popped(old(self)@, n as nat) == out@ + popped(self@, (n - k) as nat),
                after_pops(old(self)@, n as nat) == after_pops(self@, (n - k) as nat),
            decreases n - k,
        {
            let ghost before = self@;
            match self.pop() {
                Ok(v) => {
                    proof {
                        assert(popped(before, (n - k) as nat) == seq![v] + popped(self@, (n - k - 1) as nat));
                        assert(out@.push(v) + popped(self@, (n - k - 1) as nat) =~= out@ + (seq![v] + popped(self@, (n - k - 1) as nat)));
                        if n - k <= before.len() {
                            assert(self@.take(self@.len() - (n - k - 1)) =~= before.take(
                                before.len() - (n - k),
                            ));
                        }
                        assert(after_pops(before, (n - k) as nat) == after_pops(self@, (n - k - 1) as nat));
                    }
                    out.push(v);
                    k = k + 1;
                },
                Err(_) => {
                    proof {
                        assert(popped(self@, (n - k) as nat) =~= Seq::<T>::empty());
                        assert(out@ + Seq::<T>::empty() =~= out@);
                        if n - k <= self@.len() {
                            assert(self@.take(0) =~= Seq::<T>::empty());
                        }
                    }
                    return out;
                },
            }
        }
        proof {
            assert(out@ + Seq::<T>::empty() =~= out@);
            assert(self@.take(self@.len() as int) =~= self@);
        }
        out
    }

    /// The number of items on the stack.
    pub fn len(&self) -> (r: usize)
        ensures
            r == self@.len(),
    {
        self.items.len()
    }

    /// The items from the bottom of the stack to its top.
    pub fn into_vec(self) -> (r: Vec<T>)
        ensures
            r@ == self@,
    {
        self.items
    }
}

/// A stack holding `s` once each item of `xs` has been pushed, in order.
pub open spec fn pushed_all<T>(s: Seq<T>, xs: Seq<T>) -> Seq<T>
    decreases xs.len(),
{
    if xs.len() == 0 {
        s
    } else {
        pushed_all(s, xs.drop_last()).push(xs.last())
    }
}

/// The items that `n` pops in a row take from a stack holding `s`, in the
/// order they come out; pops of an empty stack return nothing.
pub open spec fn popped<T>(s: Seq<T>, n: nat) -> Seq<T>
    decreases n,
{
    if n == 0 || s.len() == 0 {
        Seq::empty()
    } else {
        seq![s.last()] + popped(s.drop_last(), (n - 1) as nat)
    }
}

/// What a stack holding `s` holds after `n` pops.
pub open spec fn after_pops<T>(s: Seq<T>, n: nat) -> Seq<T> {
    if n <= s.len() {
        s.take(s.len() - n)
    } else {
        Seq::empty()
    }
}

proof fn lemma_pushed_all<T>(s: Seq<T>, xs: Seq<T>)
    ensures
        pushed_all(s, xs) == s + xs,
    decreases xs.len(),
{
    if xs.len() > 0 {
        lemma_pushed_all(s, xs.drop_last());
        assert(s + xs =~= (s + xs.drop_last()).push(xs.last()));
    }
}

proof fn lemma_popped<T>(s: Seq<T>, n: nat)
    requires
        n <= s.len(),
    ensures
        popped(s, n).len() == n,
        forall|i: int| 0 <= i < n ==> #[trigger] popped(s, n)[i] == s[s.len() - 1 - i],
    decreases n,
{
    if n > 0 {
        let rest = popped(s.drop_last(), (n - 1) as nat);
        lemma_popped(s.drop_last(), (n - 1) as nat);
        assert forall|i: int| 0 <= i < n implies #[trigger] popped(s, n)[i] == s[s.len() - 1 - i] by {
            if i > 0 {
                assert(popped(s, n)[i] == rest[i - 1]);
            }
        }
    }
}

/// Pushing the items of `xs` one by one and then popping as many times
/// returns them in reverse order and leaves the stack as it was.
pub proof fn lemma_pops_reverse_pushes<T>(s: Seq<T>, xs: Seq<T>)
    ensures
        popped(pushed_all(s, xs), xs.len()) == xs.reverse(),
        after_pops(pushed_all(s, xs), xs.len()) == s,
{
    lemma_pushed_all(s, xs);
    lemma_popped(s + xs, xs.len());
    assert(popped(s + xs, xs.len()) =~= xs.reverse());
    assert((s + xs).take(s.len() as int) =~= s);
}

/// Pushing `k` copies of `v` makes the stack `k` items longer, and the next
/// `k` pops each return `v`.
pub proof fn lemma_push_times_pops<T>(s: Seq<T>, v: T, k: nat)
    ensures
        (s + Seq::new(k, |_i: int| v)).len() == s.len() + k,
        popped(s + Seq::new(k, |_i: int| v), k) == Seq::new(k, |_i: int| v),
        after_pops(s + Seq::new(k, |_i: int| v), k) == s,
{
    let t = s + Seq::new(k, |_i: int| v);
    lemma_popped(t, k);
    assert(popped(t, k) =~= Seq::new(k, |_i: int| v));
    assert(t.take(s.len() as int) =~= s);
}

/// Popping until the stack is empty takes exactly as many items as its
/// length: all of them, top first.
pub proof fn lemma_drain_len<T>(s: Seq<T>)
    ensures
        popped(s, s.len()).len() == s.len(),
        popped(s, s.len()) == s.reverse(),
        after_pops(s, s.len()) == Seq::<T>::empty(),
{
    lemma_popped(s, s.len());
    assert(popped(s, s.len()) =~= s.reverse());
    assert(s.take(0) =~= Seq::<T>::empty());
}

} // verus!
