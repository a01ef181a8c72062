use vstd::prelude::*;

use crate::keys::{get_keys_for_interval, key_at, key_count, last_key};

verus! {

/// Milliseconds in one day.
pub const DAY_MILLIS: u128 = 86400000;

/// The day (counted from the Unix epoch) that a clock reading in
/// milliseconds falls in, as a `u64` the way `as` converts it.
pub open spec fn day_of(now_ms: u128) -> u64 {
    (now_ms / DAY_MILLIS) as u64
}

/// The first second of a new applicant's period: the given start, or else
/// the start of the day `days + 2` days before today.
pub open spec fn window_from(now_ms: u128, days: u64, from: Option<u64>) -> int {
    match from {
        Some(v) => v as int,
        None => (day_of(now_ms) - days - 2) * 86400,
    }
}

/// The first second of the last day of a period of `days` days that starts
/// at `from`.
pub open spec fn window_to(from: int, days: u64) -> int {
    from + (days - 1) * 86400
}

/// The period `(from, to)` of a new applicant of `days` days, by the clock
/// reading `now_ms`: it starts at `from` where given, else `days + 2` days
/// before today, and `to` is the start of its last day.
pub fn applicant_window(now_ms: u128, days: u64, from: Option<u64>) -> (r: (u64, u64))
    requires
        days >= 1,
        from is None ==> day_of(now_ms) >= days + 2,
        0 <= window_from(now_ms, days, from) <= u64::MAX,
        window_to(window_from(now_ms, days, from), days) <= u64::MAX,
    ensures
        r.0 == window_from(now_ms, days, from),
        r.1 == window_to(r.0 as int, days),
{
    let next = (now_ms / DAY_MILLIS) as u64;
    let start: u64 = match from {
        Some(v) => v,
        None => (next - days - 2) * 86400,
    };
    let to = start + (days - 1) * 86400;
    (start, to)
}

/// The first start of a run of daily applicants: the day after the latest
/// applicant already made, or `default_start` when there is none.
pub open spec fn schedule_start(latest_from: Option<u64>, default_start: u64) -> int {
    match latest_from {
        Some(f) => f + 86400,
        None => default_start as int,
    }
}

/// The last start of a run of daily applicants of `days` days: the start of
/// the day `days + 2` days before today.
pub open spec fn schedule_end(now_ms: u128, days: u64) -> int {
    (day_of(now_ms) - days - 2) * 86400
}

/// The starts of the daily applicants still to make: one per day from
/// `schedule_start` up to `schedule_end`.
pub fn applicant_starts(
    latest_from: Option<u64>,
    default_start: u64,
    now_ms: u128,
    days: u64,
) -> (starts: Vec<u64>)
    requires
        day_of(now_ms) >= days + 2,
        schedule_end(now_ms, days) <= u64::MAX,
        schedule_start(latest_from, default_start) <= u64::MAX,
        last_key(schedule_start(latest_from, default_start), schedule_end(now_ms, days))
            <= u64::MAX,
    ensures
        starts@.len() == key_count(
            schedule_start(latest_from, default_start),
            schedule_end(now_ms, days),
        ) - 1,
        forall|i: int|
            0 <= i < starts@.len() ==> starts@[i] == key_at(
                schedule_start(latest_from, default_start),
                i,
            ),
{
    let start: u64 = match latest_from {
        Some(f) => f + 86400,
        None => default_start,
    };
    let next = (now_ms / DAY_MILLIS) as u64;
    let end: u64 = (next - days - 2) * 86400;
    let mut keys = get_keys_for_interval(start, end);
    keys.pop();
    keys
}

/// With no start given, a new applicant's period is made of whole days and
/// ends where the day before yesterday begins: its last day is three days
/// before today.
pub proof fn lemma_window_ends_before_yesterday(now_ms: u128, days: u64)
    requires
        days >= 1,
        day_of(now_ms) >= days + 2,
    ensures
        window_to(window_from(now_ms, days, None), days) + 86400 == (day_of(now_ms) - 2) * 86400,
        window_from(now_ms, days, None) % 86400 == 0,
{
    let d = day_of(now_ms) - days - 2;
    assert((d * 86400) % 86400 == 0) by (nonlinear_arith)
        requires d >= 0;
}

/// A new applicant's period starts at the given start where there is one,
/// and spans `days` days: its last day starts `days - 1` days after its
/// first.
pub proof fn lemma_window_spans_days(now_ms: u128, days: u64, from: Option<u64>)
    ensures
        window_to(window_from(now_ms, days, from), days) - window_from(now_ms, days, from) == (
        days - 1) * 86400,
        from is Some ==> window_from(now_ms, days, from) == from->0,
{
}

/// The daily applicants still to make start the day after the latest one
/// (or at `default_start`) and go up one day at a time; each leaves room for
/// a whole period of `days` days that ends by the start of the day before
/// yesterday, and the day after the last one would not. Where the starts
/// fall on day boundaries, the last one is the start of the day `days + 2`
/// days before today.
pub proof fn lemma_starts_fit_before_yesterday(
    latest_from: Option<u64>,
    default_start: u64,
    now_ms: u128,
    days: u64,
)
    requires
        day_of(now_ms) >= days + 2,
    ensures
        key_at(schedule_start(latest_from, default_start), 0) == (match latest_from {
            Some(f) => f + 86400,
            None => default_start as int,
        }),
        forall|i: int|
            0 <= i < key_count(
                schedule_start(latest_from, default_start),
                schedule_end(now_ms, days),
            ) - 1 ==> #[trigger] key_at(schedule_start(latest_from, default_start), i) + days
                * 86400 <= (day_of(now_ms) - 2) * 86400,
        key_at(
            schedule_start(latest_from, default_start),
            key_count(schedule_start(latest_from, default_start), schedule_end(now_ms, days))
                - 1,
        ) + days * 86400 > (day_of(now_ms) - 2) * 86400,
        schedule_start(latest_from, default_start) % 86400 == 0 && key_count(
            schedule_start(latest_from, default_start),
            schedule_end(now_ms, days),
        ) >= 2 ==> key_at(
            schedule_start(latest_from, default_start),
            key_count(schedule_start(latest_from, default_start), schedule_end(now_ms, days))
                - 2,
        ) == (day_of(now_ms) - days - 2) * 86400,
{
    let s0 = schedule_start(latest_from, default_start);
    let dd = day_of(now_ms) - days - 2;
    let e = schedule_end(now_ms, days);
    assert(e == dd * 86400);
    assert(e + days * 86400 == (day_of(now_ms) - 2) * 86400);
    if s0 <= e {
        let q = (e - s0) / 86400;
        assert(0 <= e - s0 - 86400 * q < 86400);
        assert forall|i: int|
            0 <= i < key_count(s0, e) - 1 implies #[trigger] key_at(s0, i) + days * 86400 <= (
            day_of(now_ms) - 2) * 86400 by {
            assert(86400 * i <= 86400 * q) by (nonlinear_arith)
                requires 0 <= i <= q;
        }
        if s0 % 86400 == 0 {
            let m = dd - s0 / 86400;
            assert(e - s0 == 86400 * m);
            assert(q == m);
        }
    }
}

/// How many of the latest candles a `StepsIterateBack` evaluation replays
/// at epoch `epoch`: a fiftieth of them, or `epoch` where that is more,
/// but never more than there are.
pub open spec fn replay_len(len: int, epoch: int) -> int {
    let base = len / 50;
    let grown = if base >= epoch {
        base
    } else {
        epoch
    };
    if grown <= len {
        grown
    } else {
        len
    }
}

/// The number of latest candles replayed at epoch `epoch`; the replay starts
/// at index `len - r`.
pub fn iterate_back_window(len: usize, epoch: usize) -> (r: usize)
    ensures
        r == replay_len(len as int, epoch as int),
        r <= len,
{
    let base = len / 50;
    let grown = if base >= epoch {
        base
    } else {
        epoch
    };
    if grown <= len {
        grown
    } else {
        len
    }
}

/// Every pair of a profit and a stake, profits in the outer order: the
/// pair at `i * stakes.len() + k` is `(profits[i], stakes[k])`. These are
/// the orders among which a `Steps` network chooses.
pub fn steps_grid<T: Copy>(profits: &Vec<T>, stakes: &Vec<T>) -> (grid: Vec<(T, T)>)
    requires
        profits@.len() * stakes@.len() <= usize::MAX,
    ensures
        grid@.len() == profits@.len() * stakes@.len(),
        forall|i: int, k: int|
            0 <= i < profits@.len() && 0 <= k < stakes@.len() ==> #[trigger] grid@[i
                * stakes@.len() + k] == (profits@[i], stakes@[k]),
{
    let np = profits.len();
    let ns = stakes.len();
    let mut grid: Vec<(T, T)> = Vec::new();
    let mut i: usize = 0;
    while i < np
        invariant
            np == profits@.len(),
            ns == stakes@.len(),
            i <= np,
            grid@.len() == i * ns,
            forall|a: int, k: int|
                0 <= a < i && 0 <= k < ns ==> #[trigger] grid@[a * ns + k] == (
                    profits@[a],
                    stakes@[k],
                ),
        decreases np - i,
    {
        let mut k: usize = 0;
        while k < ns
            invariant
                np == profits@.len(),
                ns == stakes@.len(),
                i < np,
                k <= ns,
                grid@.len() == i * ns + k,
                forall|a: int, b: int|
                    0 <= a < i && 0 <= b < ns ==> #[trigger] grid@[a * ns + b] == (
                        profits@[a],
                        stakes@[b],
                    ),
                forall|b: int| 0 <= b < k ==> #[trigger] grid@[i * ns + b] == (profits@[i as int], stakes@[b]),
            decreases ns - k,
        {
            proof {
                assert((i as int) * (ns as int) + (k as int) < (np as int) * (ns as int)) by (nonlinear_arith)
                    requires i < np, k < ns;
            }
            let ghost before = grid@;
            grid.push((profits[i], stakes[k]));
            proof {
                assert forall|a: int, b: int|
                    0 <= a < i && 0 <= b < ns implies #[trigger] grid@[a * ns + b] == (
                        profits@[a],
                        stakes@[b],
                    ) by {
                    lemma_grid_index_below(a, b, ns as int, i as int);
                    assert(grid@[a * ns + b] == before[a * ns + b]);
                }
            }
            k = k + 1;
        }
        proof {
            assert((i + 1) * ns == i * ns + ns) by (nonlinear_arith);
            assert forall|a: int, b: int|
                0 <= a < i + 1 && 0 <= b < ns implies #[trigger] grid@[a * ns + b] == (
                    profits@[a],
                    stakes@[b],
                ) by {
                if a == i {
                    assert(grid@[i * ns + b] == (profits@[i as int], stakes@[b]));
                }
            }
        }
        i = i + 1;
    }
    grid
}

proof fn lemma_grid_index_below(a: int, b: int, n: int, i: int)
    requires
        0 <= a < i,
        0 <= b < n,
    ensures
        0 <= a * n + b < i * n,
{
    assert(0 <= a * n + b < i * n) by (nonlinear_arith)
        requires 0 <= a < i, 0 <= b < n;
}

} // verus!
