use vstd::prelude::*;
use vstd::arithmetic::div_mod::{
    lemma_fundamental_div_mod, lemma_mod_multiples_vanish, lemma_small_mod,
    lemma_mod_sub_multiples_vanish,
};

verus! {

/// Where the `k`-th oldest of the last `len` values sits, when the oldest
/// sits at `index`.
pub open spec fn slot(index: int, k: int, len: int) -> int {
    if index + k < len {
        index + k
    } else {
        index + k - len
    }
}

/// The last `len` values written into a fixed number of slots, overwriting
/// the oldest each time: the slot logic of the rolling buffer whose average
/// the experiments keep of their last answers and timings.
pub struct Ring<T> {
    vals: Vec<T>,
    len: usize,
    pushes: usize,
    index: usize,
}

impl<T> Ring<T> {
    /// The slots match the capacity and the oldest slot lies among them.
    pub closed spec fn wf(&self) -> bool {
        &&& self.vals@.len() == self.len
        &&& (self.len > 0 ==> self.index < self.len)
        &&& (self.len == 0 ==> self.index == 0)
    }

    /// The number of slots.
    pub closed spec fn capacity(&self) -> nat {
        self.len as nat
    }

    /// How many values `push` has written so far.
    pub closed spec fn pushes(&self) -> nat {
        self.pushes as nat
    }

    /// The slot that holds the oldest value (the next one to overwrite).
    pub closed spec fn oldest_slot(&self) -> nat {
        self.index as nat
    }

    /// The values in the slots, from the oldest to the newest.
    pub closed spec fn window(&self) -> Seq<T> {
        Seq::new(
            self.len as nat,
            |k: int| self.vals@[slot(self.index as int, k, self.len as int)],
        )
    }
}

impl<T: Copy> Ring<T> {
    /// A ring of `len` slots that all hold `init`.
    pub fn new(len: usize, init: T) -> (r: Self)
        ensures
            r.wf(),
            r.capacity() == len,
            r.pushes() == 0,
            r.oldest_slot() == 0,
            r.window() == Seq::new(len as nat, |k: int| init),
    {
        let mut vals: Vec<T> = Vec::new();
        let mut i: usize = 0;
        while i < len
            invariant
                i <= len,
                vals@ == Seq::new(i as nat, |k: int| init),
            decreases len - i,
        {
            vals.push(init);
            i = i + 1;
        }
        let r = Ring { vals, len, pushes: 0, index: 0 };
        assert(r.window() =~= Seq::new(len as nat, |k: int| init));
        r
    }

    /// The number of slots.
    pub fn len(&self) -> (n: usize)
        ensures
            n == self.capacity(),
    {
        self.len
    }

    /// The slot that holds the oldest value (the next one to overwrite).
    pub fn index(&self) -> (i: usize)
        ensures
            i == self.oldest_slot(),
    {
        self.index
    }

    /// How many values `push` has written so far.
    pub fn push_count(&self) -> (n: usize)
        ensures
            n == self.pushes(),
    {
        self.pushes
    }

    fn overwrite_oldest(&mut self, val: T)
        requires
            old(self).wf(),
            old(self).capacity() > 0,
        ensures
            final(self).wf(),
            final(self).capacity() == old(self).capacity(),
            final(self).pushes() == old(self).pushes(),
            final(self).window() == old(self).window().drop_first().push(val),
            final(self).oldest_slot() == (if old(self).oldest_slot() + 1 >= old(self).capacity() {
                0
            } else {
                old(self).oldest_slot() + 1
            }),
    {
        let ghost w = self.window();
        let ghost len = self.len as int;
        let ghost i0 = self.index as int;
        let idx = self.index;
        self.vals.set(idx, val);
        if self.index + 1 >= self.len {
            self.index = 0;
        } else {
            self.index = self.index + 1;
        }
        proof {
            let w2 = self.window();
            assert forall|k: int| 0 <= k < len implies w2[k] == w.drop_first().push(val)[k] by {
                if k < len - 1 {
                    assert(slot(self.index as int, k, len) == slot(i0, k + 1, len));
                    assert(slot(i0, k + 1, len) != i0);
                } else {
                    assert(slot(self.index as int, k, len) == i0);
                }
            }
            assert(w2 =~= w.drop_first().push(val));
        }
    }

    /// Writes `val` over the oldest value and counts the push. Once every
    /// slot has been written by a push, returns the value that was
    /// overwritten; before that, `None`.
    pub fn push(&mut self, val: T) -> (evicted: Option<T>)
        requires
            old(self).wf(),
            old(self).capacity() > 0,
            old(self).pushes() < usize::MAX,
        ensures
            final(self).wf(),
            final(self).capacity() == old(self).capacity(),
            final(self).pushes() == old(self).pushes() + 1,
            final(self).window() == old(self).window().drop_first().push(val),
            final(self).oldest_slot() == (if old(self).oldest_slot() + 1 >= old(self).capacity() {
                0
            } else {
                old(self).oldest_slot() + 1
            }),
            is_push_step(*old(self), *final(self), val),
            evicted == (if old(self).pushes() >= old(self).capacity() {
                Some(old(self).window()[0])
            } else {
                None::<T>
            }),
    {
        let evicted = if self.pushes >= self.len {
            Some(self.vals[self.index])
        } else {
            None
        };
        proof {
            assert(slot(self.index as int, 0, self.len as int) == self.index);
        }
        self.overwrite_oldest(val);
        self.pushes = self.pushes + 1;
        evicted
    }

    /// Writes `val` over the oldest value without counting a push.
    pub fn qpush(&mut self, val: T)
        requires
            old(self).wf(),
            old(self).capacity() > 0,
        ensures
            final(self).wf(),
            final(self).capacity() == old(self).capacity(),
            final(self).pushes() == old(self).pushes(),
            final(self).window() == old(self).window().drop_first().push(val),
            final(self).oldest_slot() == (if old(self).oldest_slot() + 1 >= old(self).capacity() {
                0
            } else {
                old(self).oldest_slot() + 1
            }),
    {
        self.overwrite_oldest(val);
    }

    /// The value at position `ind` counted from the newest: `ind == 0` is
    /// the newest, `ind == 1` the oldest, then onward towards the newest.
    pub fn get(&self, ind: usize) -> (r: T)
        requires
            self.wf(),
            self.capacity() > 0,
            self.oldest_slot() + self.capacity() <= usize::MAX,
            self.oldest_slot() + self.capacity() - 1 + ind <= usize::MAX,
        ensures
            r == self.window()[(self.capacity() - 1 + ind) % (self.capacity() as int)],
    {
        let pos = (self.index + self.len - 1 + ind) % self.len;
        proof {
            lemma_slot_mod(self.index as int, self.len - 1 + ind, self.len as int);
        }
        self.vals[pos]
    }
}

/// The window after the values `vs` are written, one after the other, into
/// a ring whose window was `w`.
pub open spec fn after_writes<T>(w: Seq<T>, vs: Seq<T>) -> Seq<T>
    decreases vs.len(),
{
    if vs.len() == 0 {
        w
    } else {
        after_writes(w.drop_first().push(vs[0]), vs.drop_first())
    }
}

/// A ring always holds the last values written into it: after writing
/// `vs`, its window is the last `capacity` values of the old window followed
/// by `vs`.
pub proof fn lemma_window_holds_last_values<T>(w: Seq<T>, vs: Seq<T>)
    requires
        w.len() > 0,
    ensures
        after_writes(w, vs) == (w + vs).subrange(vs.len() as int, (vs.len() + w.len()) as int),
    decreases vs.len(),
{
    if vs.len() > 0 {
        let w1 = w.drop_first().push(vs[0]);
        lemma_window_holds_last_values(w1, vs.drop_first());
        assert((w1 + vs.drop_first()).subrange(
            vs.drop_first().len() as int,
            (vs.drop_first().len() + w1.len()) as int,
        ) =~= (w + vs).subrange(vs.len() as int, (vs.len() + w.len()) as int));
    } else {
        assert(w + vs =~= w);
        assert(w.subrange(0, w.len() as int) =~= w);
    }
}

/// What `get(ind)` reads, for `ind` below the capacity: `ind == 0` reads
/// the newest value, the last one written; `ind >= 1` reads the
/// `ind`-th oldest (`ind == 1` the oldest).
pub proof fn lemma_get_order(cap: int, ind: int)
    requires
        cap > 0,
        0 <= ind < cap,
    ensures
        (cap - 1 + ind) % cap == (if ind == 0 {
            cap - 1
        } else {
            ind - 1
        }),
{
    if ind == 0 {
        lemma_small_mod((cap - 1) as nat, cap as nat);
    } else {
        lemma_mod_sub_multiples_vanish(cap - 1 + ind, cap);
        assert(-cap + (cap - 1 + ind) == ind - 1);
        lemma_small_mod((ind - 1) as nat, cap as nat);
    }
}

/// The slot after `o` around a ring of `cap` slots.
pub open spec fn next_slot(o: nat, cap: nat) -> nat {
    if o + 1 >= cap {
        0
    } else {
        (o + 1) as nat
    }
}

/// `after` is `before` once `push(v)` has run, as `push` states it.
pub open spec fn is_push_step<T>(before: Ring<T>, after: Ring<T>, v: T) -> bool {
    &&& after.capacity() == before.capacity()
    &&& after.pushes() == before.pushes() + 1
    &&& after.window() == before.window().drop_first().push(v)
    &&& after.oldest_slot() == next_slot(before.oldest_slot(), before.capacity())
}

/// A new ring of `cap` slots holding `init`, after `n` pushes of `vs` (and
/// no `qpush`): it has counted `n` pushes, its oldest slot is `n % cap`,
/// its window is the last `cap` values of the `init`s followed by `vs`;
/// `get(0)` reads the last value pushed, and once `n >= cap`, `get(k)` for
/// `1 <= k <= cap` reads the `k`-th of the last `cap` values pushed.
pub proof fn lemma_pushes_from_new<T>(rings: Seq<Ring<T>>, vs: Seq<T>, init: T)
    requires
        rings.len() == vs.len() + 1,
        rings[0].capacity() > 0,
        rings[0].pushes() == 0,
        rings[0].oldest_slot() == 0,
        rings[0].window() == Seq::new(rings[0].capacity(), |k: int| init),
        forall|i: int| 0 <= i < vs.len() ==> is_push_step(#[trigger] rings[i], rings[i + 1], vs[i]),
    ensures
        ({
            let cap = rings[0].capacity() as int;
            let n = vs.len() as int;
            let r = rings[n];
            &&& r.capacity() == cap
            &&& r.pushes() == n
            &&& r.oldest_slot() == n % cap
            &&& r.window() == (Seq::new(cap as nat, |k: int| init) + vs).subrange(n, n + cap)
            &&& n >= 1 ==> r.window()[(cap - 1 + 0) % cap] == vs[n - 1]
            &&& n >= cap ==> forall|k: int|
                1 <= k <= cap ==> #[trigger] r.window()[(cap - 1 + k) % cap] == vs[n - cap + k - 1]
        }),
    decreases vs.len(),
{
    let cap = rings[0].capacity() as int;
    let n = vs.len() as int;
    let w0 = Seq::new(cap as nat, |k: int| init);
    if n == 0 {
        assert((w0 + vs).subrange(0, cap) =~= w0);
        lemma_small_mod(0, cap as nat);
    } else {
        let m = n - 1;
        lemma_pushes_from_new(rings.take(n), vs.take(m), init);
        assert(rings.take(n)[m] == rings[m]);
        let before = rings[m];
        let r = rings[n];
        assert(is_push_step(rings[m], rings[m + 1], vs[m]));
        assert(before.window() == (w0 + vs.take(m)).subrange(m, m + cap));
        assert(r.window() =~= (w0 + vs).subrange(n, n + cap));
        lemma_mod_succ(m, cap);
        let w = r.window();
        lemma_get_order(cap, 0);
        assert(w[cap - 1] == vs[n - 1]);
        if n >= cap {
            assert forall|k: int| 1 <= k <= cap implies #[trigger] w[(cap - 1 + k) % cap] == vs[n - cap + k - 1] by {
                if k < cap {
                    lemma_get_order(cap, k);
                } else {
                    lemma_mod_sub_multiples_vanish(cap - 1 + k, cap);
                    assert(-cap + (cap - 1 + k) == cap - 1);
                    lemma_small_mod((cap - 1) as nat, cap as nat);
                }
            }
        }
    }
}

/// Going one slot around the ring from `i % cap` lands on `(i + 1) % cap`.
proof fn lemma_mod_succ(i: int, cap: int)
    requires
        i >= 0,
        cap > 0,
    ensures
        next_slot((i % cap) as nat, cap as nat) == (i + 1) % cap,
        0 <= i % cap < cap,
{
    lemma_fundamental_div_mod(i, cap);
    vstd::arithmetic::div_mod::lemma_mod_pos_bound(i, cap);
    let q = i / cap;
    let r = i % cap;
    assert(i + 1 == cap * q + (r + 1));
    if r + 1 < cap {
        lemma_mod_multiples_vanish(q, r + 1, cap);
        lemma_small_mod((r + 1) as nat, cap as nat);
    } else {
        assert(i + 1 == cap * (q + 1) + 0) by (nonlinear_arith)
            requires i + 1 == cap * q + (r + 1), r + 1 == cap;
        lemma_mod_multiples_vanish(q + 1, 0, cap);
        lemma_small_mod(0, cap as nat);
    }
}

/// Position `a` counted from the slot `index` lands, around the ring, on the
/// slot of the `a % len`-th oldest value.
proof fn lemma_slot_mod(index: int, a: int, len: int)
    requires
        0 <= index < len,
        0 <= a,
    ensures
        (index + a) % len == slot(index, a % len, len),
        0 <= a % len < len,
{
    let m = a % len;
    let q = a / len;
    lemma_fundamental_div_mod(a, len);
    assert(0 <= m < len) by {
        vstd::arithmetic::div_mod::lemma_mod_pos_bound(a, len);
    }
    lemma_mod_multiples_vanish(q, index + m, len);
    assert(index + a == len * q + (index + m));
    if index + m < len {
        lemma_small_mod((index + m) as nat, len as nat);
    } else {
        lemma_mod_sub_multiples_vanish(index + m, len);
        lemma_small_mod((index + m - len) as nat, len as nat);
        assert(-len + (index + m) == index + m - len);
    }
}

} // verus!
