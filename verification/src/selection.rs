use vstd::prelude::*;
use vivalaakam_neat_rs::Organism;

verus! {

/// `vivalaakam_neat_rs::Organism`, declared so that a population can pass
/// through verified code; nothing inside an organism is visible here.
#[verifier::external_type_specification]
#[verifier::external_body]
pub struct ExOrganism(Organism);

/// What `new_york_utils::levenshtein` returns for two genotypes (lists of
/// node ids), with an error of the crate read as `None`.
pub uninterp spec fn levenshtein_result(a: Seq<Seq<char>>, b: Seq<Seq<char>>) -> Option<i32>;

/// The least of three numbers.
pub open spec fn min3(x: int, y: int, z: int) -> int {
    if x <= y && x <= z {
        x
    } else if y <= z {
        y
    } else {
        z
    }
}

/// The edit distance of two lists: the least number of insertions,
/// deletions and replacements of single items that turns one into the other.
pub open spec fn edit_distance<A>(a: Seq<A>, b: Seq<A>) -> int
    decreases a.len() + b.len(),
{
    if a.len() == 0 {
        b.len() as int
    } else if b.len() == 0 {
        a.len() as int
    } else {
        min3(
            edit_distance(a.drop_last(), b.drop_last()) + (if a.last() == b.last() {
                0int
            } else {
                1int
            }),
            edit_distance(a.drop_last(), b) + 1,
            edit_distance(a, b.drop_last()) + 1,
        )
    }
}

/// Calls `new_york_utils::levenshtein` on two genotypes; its error becomes
/// `None`. The contract names the result (`levenshtein_result`) and claims
/// what the crate's source shows: for lists shorter than `i32::MAX`, where
/// no `i32` arithmetic wraps, the result is `Ok` (every matrix position it
/// reads and writes lies inside the matrix) and holds the edit distance,
/// which its table of prefixes computes row by row.
#[verifier::external_body]
fn levenshtein(a: Vec<String>, b: Vec<String>) -> (r: Option<i32>)
    ensures
        r == levenshtein_result(a.deep_view(), b.deep_view()),
        a@.len() < i32::MAX && b@.len() < i32::MAX ==> r == Some(
            edit_distance(a.deep_view(), b.deep_view()) as i32,
        ),
{
    new_york_utils::levenshtein(a, b).ok()
}

/// What `Organism::get_genotype` returns for an organism: the sorted ids of
/// its hidden nodes.
pub uninterp spec fn organism_genotype(o: Organism) -> Seq<Seq<char>>;

/// Calls `Organism::get_genotype`, which hands out a copy of the ids that
/// the organism keeps; the contract names them (`organism_genotype`).
#[verifier::external_body]
fn genotype(o: &Organism) -> (g: Vec<String>)
    ensures
        g.deep_view() == organism_genotype(*o),
{
    o.get_genotype()
}

/// The genotypes of every organism of a population.
pub open spec fn population_genotypes(population: Seq<Organism>) -> Seq<Seq<Seq<char>>> {
    Seq::new(population.len(), |i: int| organism_genotype(population[i]))
}

/// The distance that decides how close organism `j` is to organism `start`:
/// the edit distance of their genotypes, or `i32::MAX` where it cannot be had.
pub open spec fn genotype_distance(g: Seq<Seq<Seq<char>>>, start: int, j: int) -> int {
    match levenshtein_result(g[start], g[j]) {
        Some(d) => d as int,
        None => i32::MAX as int,
    }
}

/// For every candidate after `start` whose genotype, like that of
/// `start`, is shorter than `i32::MAX`, the distance read is the edit
/// distance of the two genotypes.
pub open spec fn distances_are_edit_distances(g: Seq<Seq<Seq<char>>>, start: int) -> bool {
    forall|k: int|
        start < k < g.len() && g[start].len() < i32::MAX && g[k].len() < i32::MAX
            ==> #[trigger] levenshtein_result(g[start], g[k]) == Some(
            edit_distance(g[start], g[k]) as i32,
        )
}

/// The distances of every organism from organism `start`.
pub open spec fn distances_from(g: Seq<Seq<Seq<char>>>, start: int) -> Seq<int> {
    Seq::new(g.len(), |j: int| genotype_distance(g, start, j))
}

/// `r` is the choice among the candidates after `start`: the first one
/// whose score is the least positive score below `i32::MAX`, or `None`
/// where no candidate has such a score.
pub open spec fn is_closest(scores: Seq<int>, start: int, r: Option<usize>) -> bool {
    match r {
        None => forall|k: int| start < k < scores.len() ==> !(0 < #[trigger] scores[k] < i32::MAX),
        Some(j) => {
            &&& start < j < scores.len()
            &&& 0 < scores[j as int] < i32::MAX
            &&& forall|k: int|
                start < k < scores.len() && 0 < #[trigger] scores[k] ==> scores[j as int]
                    <= scores[k]
            &&& forall|k: int| start < k < j ==> !(0 < #[trigger] scores[k] <= scores[j as int])
        },
    }
}

/// Whatever the scores, one choice at most meets `is_closest`.
pub proof fn lemma_closest_unique(scores: Seq<int>, start: int, a: Option<usize>, b: Option<usize>)
    requires
        is_closest(scores, start, a),
        is_closest(scores, start, b),
    ensures
        a == b,
{
    match (a, b) {
        (Some(x), Some(y)) => {
            if (x as int) < (y as int) {
                assert(scores[y as int] <= scores[x as int]);
            } else if (y as int) < (x as int) {
                assert(scores[x as int] <= scores[y as int]);
            }
        },
        (Some(x), None) => {
            assert(0 < scores[x as int] < i32::MAX);
        },
        (None, Some(y)) => {
            assert(0 < scores[y as int] < i32::MAX);
        },
        (None, None) => {},
    }
}

/// Among the scores after `start`, the index of the first least positive
/// score below `i32::MAX`, if there is one.
pub fn select_closest(scores: &Vec<i32>, start: usize) -> (r: Option<usize>)
    ensures
        is_closest(scores@.map_values(|s: i32| s as int), start as int, r),
{
    let ghost sc = scores@.map_values(|s: i32| s as int);
    let len = scores.len();
    if start >= len {
        return None;
    }
    let mut min_score: i32 = i32::MAX;
    let mut min_j: usize = start;
    let mut j: usize = start + 1;
    while j < len
        invariant
            len == scores@.len(),
            sc == scores@.map_values(|s: i32| s as int),
            start < len,
            start + 1 <= j <= len,
            min_j == start ==> min_score == i32::MAX,
            min_j == start ==> forall|k: int| start < k < j ==> !(0 < #[trigger] sc[k] < i32::MAX),
            min_j != start ==> {
                &&& start < min_j < j
                &&& min_score == sc[min_j as int]
                &&& 0 < min_score < i32::MAX
                &&& forall|k: int| start < k < j && 0 < #[trigger] sc[k] ==> min_score <= sc[k]
                &&& forall|k: int| start < k < min_j ==> !(0 < #[trigger] sc[k] <= min_score)
            },
        decreases len - j,
    {
        let score = scores[j];
        if score > 0 && score < min_score {
            min_score = score;
            min_j = j;
        }
        j = j + 1;
    }
    if min_j != start {
        Some(min_j)
    } else {
        None
    }
}

/// The partner for organism `start` among the later organisms, by the
/// genotypes of all organisms: the first one at the least positive
/// distance, if any.
pub fn find_closest(genotypes: &Vec<Vec<String>>, start: usize) -> (r: Option<usize>)
    ensures
        is_closest(distances_from(genotypes.deep_view(), start as int), start as int, r),
        distances_are_edit_distances(genotypes.deep_view(), start as int),
{
    let len = genotypes.len();
    let ghost g = genotypes.deep_view();
    let mut scores: Vec<i32> = Vec::new();
    let mut j: usize = 0;
    while j < len
        invariant
            len == genotypes@.len(),
            g == genotypes.deep_view(),
            j <= len,
            scores@.len() == j,
            forall|k: int| 0 <= k < j ==> #[trigger] scores@[k] as int == (if k > start {
                genotype_distance(g, start as int, k)
            } else {
                0
            }),
            forall|k: int|
                start < k < j && g[start as int].len() < i32::MAX && g[k].len() < i32::MAX
                    ==> #[trigger] levenshtein_result(g[start as int], g[k]) == Some(
                    edit_distance(g[start as int], g[k]) as i32,
                ),
        decreases len - j,
    {
        if j > start {
            let a = genotypes[start].clone();
            let b = genotypes[j].clone();
            proof {
                assert(a.deep_view() =~= g[start as int]);
                assert(b.deep_view() =~= g[j as int]);
                assert(a@.len() == g[start as int].len());
                assert(b@.len() == g[j as int].len());
            }
            let d = match levenshtein(a, b) {
                Some(d) => d,
                None => i32::MAX,
            };
            scores.push(d);
        } else {
            scores.push(0);
        }
        j = j + 1;
    }
    let r = select_closest(&scores, start);
    proof {
        let sc = scores@.map_values(|s: i32| s as int);
        let ds = distances_from(g, start as int);
        assert forall|k: int| start < k < len implies #[trigger] sc[k] == ds[k] by {}
        match r {
            Some(x) => {
                assert forall|k: int| start < k < ds.len() && 0 < #[trigger] ds[k] implies ds[x as int]
                    <= ds[k] by {
                    assert(sc[k] == ds[k]);
                }
                assert forall|k: int| start < k < x implies !(0 < #[trigger] ds[k] <= ds[x as int]) by {
                    assert(sc[k] == ds[k]);
                }
            },
            None => {
                assert forall|k: int| start < k < ds.len() implies !(0 < #[trigger] ds[k] < i32::MAX) by {
                    assert(sc[k] == ds[k]);
                }
            },
        }
    }
    r
}

/// The organism after `start` that it should mate with: the first one whose
/// genotype is at the least positive edit distance from its own, if any.
pub fn find_appropriate(population: &Vec<Organism>, start: usize) -> (child: Option<&Organism>)
    ensures
        exists|c: Option<usize>|
            {
                &&& is_closest(
                    distances_from(population_genotypes(population@), start as int),
                    start as int,
                    c,
                )
                &&& child == (match c {
                    Some(j) => Some(&population@[j as int]),
                    None => None,
                })
            },
        distances_are_edit_distances(population_genotypes(population@), start as int),
{
    let len = population.len();
    let ghost g = population_genotypes(population@);
    if start >= len || start + 1 >= len {
        proof {
            assert(is_closest(distances_from(g, start as int), start as int, None));
        }
        return None;
    }
    let mut genotypes: Vec<Vec<String>> = Vec::new();
    let mut j: usize = 0;
    while j < len
        invariant
            len == population@.len(),
            g == population_genotypes(population@),
            j <= len,
            genotypes@.len() == j,
            forall|i: int| 0 <= i < j ==> (#[trigger] genotypes@[i]).deep_view() == g[i],
        decreases len - j,
    {
        genotypes.push(genotype(&population[j]));
        j = j + 1;
    }
    proof {
        assert(genotypes.deep_view() =~= g);
    }
    let c = find_closest(&genotypes, start);
    let child = match c {
        Some(j) => Some(&population[j]),
        None => None,
    };
    child
}

} // verus!
