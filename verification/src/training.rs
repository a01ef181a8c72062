use vstd::prelude::*;
use vstd::string::StringExecFns;

use crate::applicant_type::NeatNetworkApplicantType;

verus! {

/// How many unique results an applicant keeps: the best ones.
pub const MAX_UNIQUE_RESULTS: usize = 10;

/// Whether the training loop goes on for another epoch: while the best
/// organism has stagnated fewer than `limit` epochs; for the `StepsIterate`
/// kind also, whatever the stagnation, while fewer epochs than candles
/// have run.
pub fn can_go_next(
    applicant_type: NeatNetworkApplicantType,
    epoch: usize,
    candles_len: usize,
    stagnation: usize,
    limit: usize,
) -> (r: bool)
    ensures
        r == (match applicant_type {
            NeatNetworkApplicantType::StepsIterate => epoch < candles_len || stagnation < limit,
            _ => stagnation < limit,
        }),
{
    match applicant_type {
        NeatNetworkApplicantType::StepsIterate => epoch < candles_len || stagnation < limit,
        _ => stagnation < limit,
    }
}

/// Whether a network already holds one of an applicant's results, by the
/// network ids of those results: then the applicant is skipped.
pub fn already_scored(result_network_ids: &Vec<String>, network_id: &str) -> (b: bool)
    ensures
        b == exists|i: int|
            0 <= i < result_network_ids@.len() && (#[trigger] result_network_ids@[i])@
                == network_id@,
{
    let target = String::from_str(network_id);
    let mut i: usize = 0;
    while i < result_network_ids.len()
        invariant
            i <= result_network_ids@.len(),
            target@ == network_id@,
            forall|k: int| 0 <= k < i ==> (#[trigger] result_network_ids@[k])@ != network_id@,
        decreases result_network_ids@.len() - i,
    {
        if result_network_ids[i] == target {
            return true;
        }
        i = i + 1;
    }
    false
}

/// Whether `(i, j)` is a pair of the crossover round: two different
/// organisms, the second of which has grown more nodes than the inputs and
/// outputs it started with.
pub open spec fn is_crossover_pair(node_counts: Seq<usize>, start_nodes: int, p: (usize, usize)) -> bool {
    &&& p.0 < node_counts.len()
    &&& p.1 < node_counts.len()
    &&& p.0 != p.1
    &&& node_counts[p.1 as int] > start_nodes
}

/// Whether pair `p` comes before pair `q`, the first organism first.
pub open spec fn pair_before(p: (usize, usize), q: (usize, usize)) -> bool {
    p.0 < q.0 || (p.0 == q.0 && p.1 < q.1)
}

/// The pairs of organisms that the crossover round mates, by the number of
/// nodes of each organism's genome: every pair `(i, j)` of different
/// organisms whose second one has more nodes than `inputs + outputs`, each
/// once, in order of `i`, then of `j`.
pub fn crossover_pairs(node_counts: &Vec<usize>, inputs: usize, outputs: usize) -> (pairs: Vec<(usize, usize)>)
    requires
        inputs + outputs <= usize::MAX,
    ensures
        forall|k: int|
            0 <= k < pairs@.len() ==> is_crossover_pair(
                node_counts@,
                inputs + outputs,
                #[trigger] pairs@[k],
            ),
        forall|k: int, l: int|
            0 <= k < l < pairs@.len() ==> pair_before(#[trigger] pairs@[k], #[trigger] pairs@[l]),
        forall|p: (usize, usize)|
            is_crossover_pair(node_counts@, inputs + outputs, p) ==> #[trigger] pairs@.contains(p),
{
    let n = node_counts.len();
    let start_nodes = inputs + outputs;
    let mut pairs: Vec<(usize, usize)> = Vec::new();
    let mut i: usize = 0;
    while i < n
        invariant
            n == node_counts@.len(),
            start_nodes == inputs + outputs,
            i <= n,
            forall|k: int|
                0 <= k < pairs@.len() ==> is_crossover_pair(
                    node_counts@,
                    start_nodes as int,
                    #[trigger] pairs@[k],
                ),
            forall|k: int| 0 <= k < pairs@.len() ==> (#[trigger] pairs@[k]).0 < i,
            forall|k: int, l: int|
                0 <= k < l < pairs@.len() ==> pair_before(#[trigger] pairs@[k], #[trigger] pairs@[l]),
            forall|p: (usize, usize)|
                is_crossover_pair(node_counts@, start_nodes as int, p) && p.0 < i
                    ==> #[trigger] pairs@.contains(p),
        decreases n - i,
    {
        let mut j: usize = 0;
        let ghost row_start = pairs@.len();
        while j < n
            invariant
                n == node_counts@.len(),
                start_nodes == inputs + outputs,
                i < n,
                j <= n,
                row_start <= pairs@.len(),
                forall|k: int|
                    0 <= k < pairs@.len() ==> is_crossover_pair(
                        node_counts@,
                        start_nodes as int,
                        #[trigger] pairs@[k],
                    ),
                forall|k: int| 0 <= k < row_start ==> (#[trigger] pairs@[k]).0 < i,
                forall|k: int|
                    row_start <= k < pairs@.len() ==> (#[trigger] pairs@[k]).0 == i && pairs@[k].1
                        < j,
                forall|k: int, l: int|
                    0 <= k < l < pairs@.len() ==> pair_before(#[trigger] pairs@[k], #[trigger] pairs@[l]),
                forall|p: (usize, usize)|
                    is_crossover_pair(node_counts@, start_nodes as int, p) && (p.0 < i || (p.0 == i
                        && p.1 < j)) ==> #[trigger] pairs@.contains(p),
            decreases n - j,
        {
            if i != j && node_counts[j] > start_nodes {
                let ghost before = pairs@;
                pairs.push((i, j));
                proof {
                    assert forall|p: (usize, usize)|
                        is_crossover_pair(node_counts@, start_nodes as int, p) && (p.0 < i || (p.0
                            == i && p.1 < j + 1)) implies #[trigger] pairs@.contains(p) by {
                        if p == (i, j) {
                            assert(pairs@[pairs@.len() - 1] == p);
                        } else {
                            assert(before.contains(p));
                            let k = choose|k: int| 0 <= k < before.len() && before[k] == p;
                            assert(pairs@[k] == p);
                        }
                    }
                }
            } else {
                proof {
                    assert forall|p: (usize, usize)|
                        is_crossover_pair(node_counts@, start_nodes as int, p) && (p.0 < i || (p.0
                            == i && p.1 < j + 1)) implies #[trigger] pairs@.contains(p) by {
                        if p.0 == i && p.1 == j {
                            assert(false);
                        }
                    }
                }
            }
            j = j + 1;
        }
        i = i + 1;
    }
    pairs
}

/// Removes the items past the first `keep`, one at a time from the end, and
/// returns them in the order they were removed (the last item first).
pub fn pop_excess<T>(items: &mut Vec<T>, keep: usize) -> (removed: Vec<T>)
    ensures
        old(items)@.len() <= keep ==> final(items)@ == old(items)@ && removed@.len() == 0,
        old(items)@.len() > keep ==> {
            &&& final(items)@ == old(items)@.take(keep as int)
            &&& removed@ == old(items)@.skip(keep as int).reverse()
        },
{
    let ghost orig = items@;
    let mut removed: Vec<T> = Vec::new();
    while items.len() > keep
        invariant
            orig.len() > keep ==> items@.len() >= keep,
            orig.len() <= keep ==> items@ == orig && removed@.len() == 0,
            items@ == orig.take(items@.len() as int),
            items@.len() <= orig.len(),
            removed@ == orig.skip(items@.len() as int).reverse(),
        decreases items@.len(),
    {
        let ghost before = items@;
        let last = items.pop().unwrap();
        proof {
            assert(orig.skip(items@.len() as int) =~= seq![last] + orig.skip(before.len() as int));
        }
        removed.push(last);
        proof {
            assert(removed@ =~= orig.skip(items@.len() as int).reverse());
            assert(items@ =~= orig.take(items@.len() as int));
        }
    }
    removed
}

/// What `pop_excess` keeps, followed by what it removed taken in the
/// opposite order, is the list it started from: nothing is lost.
pub proof fn lemma_pop_excess_restores<T>(orig: Seq<T>, keep: int)
    requires
        0 <= keep < orig.len(),
    ensures
        orig.take(keep) + orig.skip(keep).reverse().reverse() == orig,
{
    assert(orig.skip(keep).reverse().reverse() =~= orig.skip(keep));
    assert(orig.take(keep) + orig.skip(keep) =~= orig);
}

} // verus!
