use vstd::prelude::*;

verus! {

/// Seconds in one day: the step between two consecutive day keys.
pub const DAY_SECONDS: u64 = 86400;

/// How many keys `get_keys_for_interval(from, to)` yields: every day start
/// from `from` up to `to`, and one more past it.
pub open spec fn key_count(from: int, to: int) -> nat {
    if from > to {
        1
    } else {
        ((to - from) / (DAY_SECONDS as int) + 2) as nat
    }
}

/// The `i`-th key of the interval that starts at `from`.
pub open spec fn key_at(from: int, i: int) -> int {
    from + (DAY_SECONDS as int) * i
}

/// The last key of the interval: the first day start past `to`.
pub open spec fn last_key(from: int, to: int) -> int {
    key_at(from, key_count(from, to) - 1)
}

/// The keys of the interval, as a sequence of numbers.
pub open spec fn interval_keys(from: int, to: int) -> Seq<int> {
    Seq::new(key_count(from, to), |i: int| key_at(from, i))
}

/// Day keys of the interval `[from, to]`: `from`, `from + 86400`, ... up to
/// the last one not after `to`, followed by the first one after `to`.
pub fn get_keys_for_interval(from: u64, to: u64) -> (keys: Vec<u64>)
    requires
        last_key(from as int, to as int) <= u64::MAX,
    ensures
        keys@.len() == key_count(from as int, to as int),
        forall|i: int| 0 <= i < keys@.len() ==> keys@[i] == key_at(from as int, i),
{
    let mut keys: Vec<u64> = Vec::new();
    let mut cur: u64 = from;
    while cur <= to
        invariant
            last_key(from as int, to as int) <= u64::MAX,
            cur == key_at(from as int, keys@.len() as int),
            keys@.len() > 0 ==> cur - DAY_SECONDS <= to,
            forall|i: int| 0 <= i < keys@.len() ==> keys@[i] == key_at(from as int, i),
            keys@.len() <= key_count(from as int, to as int) - 1 || from > to,
        decreases to - cur + DAY_SECONDS,
    {
        proof {
            lemma_key_count_bounds(from as int, to as int, keys@.len() as int);
        }
        keys.push(cur);
        cur = cur + DAY_SECONDS;
    }
    proof {
        lemma_key_count_exact(from as int, to as int, keys@.len() as int);
    }
    keys.push(cur);
    keys
}

/// The keys start at `from`, go up one day at a time, stay within `to`
/// but for the last, which is the first one past `to`.
pub proof fn lemma_keys_cover_interval(from: int, to: int)
    ensures
        interval_keys(from, to).len() >= 1,
        interval_keys(from, to)[0] == from,
        forall|i: int|
            0 <= i < interval_keys(from, to).len() - 1 ==> #[trigger] interval_keys(from, to)[i + 1]
                == interval_keys(from, to)[i] + DAY_SECONDS,
        forall|i: int|
            0 <= i < interval_keys(from, to).len() - 1 ==> #[trigger] interval_keys(from, to)[i]
                <= to,
        interval_keys(from, to).last() > to,
{
    let ks = interval_keys(from, to);
    let n = key_count(from, to) as int;
    if from <= to {
        let d = DAY_SECONDS as int;
        let q = (to - from) / d;
        assert(q * d <= to - from < q * d + d) by (nonlinear_arith)
            requires q == (to - from) / d, d > 0, to - from >= 0;
        assert forall|i: int| 0 <= i < n - 1 implies #[trigger] ks[i] <= to by {
            assert(d * i <= d * q) by (nonlinear_arith)
                requires 0 <= i <= q, d > 0;
        }
    }
}

/// A period of `days` days, from `from` to the start of its last day, has
/// `days + 1` day keys: one per day and the one past its end.
pub proof fn lemma_period_key_count(from: int, days: int)
    requires
        days >= 1,
    ensures
        key_count(from, from + (days - 1) * (DAY_SECONDS as int)) == days + 1,
{
    let d = DAY_SECONDS as int;
    assert((days - 1) * d >= 0) by (nonlinear_arith)
        requires days >= 1, d > 0;
    assert(((days - 1) * d) / d == days - 1) by (nonlinear_arith)
        requires days >= 1, d > 0;
}

proof fn lemma_key_count_bounds(from: int, to: int, n: int)
    requires
        from <= to,
        0 <= n,
        key_at(from, n) <= to,
    ensures
        n + 1 <= key_count(from, to) - 1,
        key_at(from, n + 1) <= last_key(from, to),
{
    let d = DAY_SECONDS as int;
    let q = (to - from) / d;
    assert(d * n <= to - from);
    assert(q * d <= to - from < q * d + d) by (nonlinear_arith)
        requires q == (to - from) / d, d > 0, to - from >= 0;
    assert(n <= q) by (nonlinear_arith)
        requires d * n <= to - from, to - from < q * d + d, d > 0;
    assert(d * (n + 1) <= d * (q + 1)) by (nonlinear_arith)
        requires n <= q, d > 0;
}

proof fn lemma_key_count_exact(from: int, to: int, n: int)
    requires
        0 <= n,
        key_at(from, n) > to,
        n > 0 ==> key_at(from, n) - (DAY_SECONDS as int) <= to,
        n == 0 ==> from > to,
    ensures
        n + 1 == key_count(from, to),
{
    if from <= to {
        let d = DAY_SECONDS as int;
        let q = (to - from) / d;
        assert(q * d <= to - from < q * d + d) by (nonlinear_arith)
            requires q == (to - from) / d, d > 0, to - from >= 0;
        assert(n - 1 == q) by (nonlinear_arith)
            requires d * n > to - from, d * (n - 1) <= to - from, q * d <= to - from,
                to - from < q * d + d, d > 0;
    }
}

} // verus!
