use experiments::applicant_type::NeatNetworkApplicantType;
use experiments::ring::Ring;
use experiments::selection::{find_appropriate, find_closest, select_closest};
use experiments::training::{already_scored, can_go_next, crossover_pairs, pop_excess, MAX_UNIQUE_RESULTS};
use vivalaakam_neat_rs::Organism;

fn genes(names: &[&str]) -> Vec<String> {
    names.iter().map(|s| s.to_string()).collect()
}

#[test]
fn ring_push_evicts_once_full() {
    let mut ring = Ring::new(3, 0.0f64);
    assert_eq!(ring.len(), 3);
    assert_eq!(ring.push(1.0), None);
    assert_eq!(ring.push(2.0), None);
    assert_eq!(ring.push(3.0), None);
    assert_eq!(ring.push(4.0), Some(1.0));
    assert_eq!(ring.push(5.0), Some(2.0));
    assert_eq!(ring.push_count(), 5);
}

#[test]
fn ring_get_order() {
    let mut ring = Ring::new(3, 0u64);
    ring.push(1);
    ring.push(2);
    ring.push(3);
    ring.push(4);
    // window, oldest first: 2, 3, 4
    assert_eq!(ring.get(0), 4);
    assert_eq!(ring.get(1), 2);
    assert_eq!(ring.get(2), 3);
    assert_eq!(ring.get(3), 4);
}

#[test]
fn ring_initial_values() {
    let ring = Ring::new(2, 7i32);
    assert_eq!(ring.get(0), 7);
    assert_eq!(ring.get(1), 7);
    assert_eq!(ring.push_count(), 0);
}

#[test]
fn ring_qpush_does_not_count() {
    let mut ring = Ring::new(2, 0u8);
    ring.qpush(5);
    ring.qpush(6);
    assert_eq!(ring.push_count(), 0);
    assert_eq!(ring.get(0), 6);
    assert_eq!(ring.get(1), 5);
    assert_eq!(ring.push(9), None);
}

#[test]
fn ring_of_one_slot() {
    let mut ring = Ring::new(1, 0u32);
    assert_eq!(ring.push(3), None);
    assert_eq!(ring.push(4), Some(3));
    assert_eq!(ring.get(0), 4);
    assert_eq!(ring.get(5), 4);
}

#[test]
fn go_next_by_stagnation() {
    assert!(can_go_next(NeatNetworkApplicantType::Float, 1000, 10, 3, 4));
    assert!(!can_go_next(NeatNetworkApplicantType::Float, 0, 10, 4, 4));
    assert!(!can_go_next(NeatNetworkApplicantType::StepsIterateBack, 0, 10, 5, 4));
}

#[test]
fn go_next_steps_iterate_runs_through_candles() {
    assert!(can_go_next(NeatNetworkApplicantType::StepsIterate, 3, 10, 100, 4));
    assert!(!can_go_next(NeatNetworkApplicantType::StepsIterate, 10, 10, 100, 4));
    assert!(can_go_next(NeatNetworkApplicantType::StepsIterate, 10, 10, 1, 4));
}

#[test]
fn pop_excess_keeps_best_ten() {
    let mut items: Vec<u32> = (0..13).collect();
    let removed = pop_excess(&mut items, MAX_UNIQUE_RESULTS);
    assert_eq!(items, (0..10).collect::<Vec<u32>>());
    assert_eq!(removed, vec![12, 11, 10]);
}

#[test]
fn pop_excess_short_list() {
    let mut items = vec![1, 2];
    let removed = pop_excess(&mut items, 10);
    assert_eq!(items, vec![1, 2]);
    assert!(removed.is_empty());
    let mut empty: Vec<i32> = vec![];
    assert!(pop_excess(&mut empty, 0).is_empty());
}

#[test]
fn pop_excess_to_nothing() {
    let mut items = vec!['a', 'b', 'c'];
    let removed = pop_excess(&mut items, 0);
    assert!(items.is_empty());
    assert_eq!(removed, vec!['c', 'b', 'a']);
}

#[test]
fn select_closest_first_least_positive() {
    assert_eq!(select_closest(&vec![0, 5, 3, 0, 3, 4], 0), Some(2));
    assert_eq!(select_closest(&vec![9, 9, 1, 2], 1), Some(2));
    assert_eq!(select_closest(&vec![0, 0, -1, i32::MAX], 0), None);
    assert_eq!(select_closest(&vec![1, 1], 1), None);
    assert_eq!(select_closest(&vec![1, 1], 5), None);
    assert_eq!(select_closest(&vec![], 0), None);
}

#[test]
fn find_closest_by_edit_distance() {
    let genotypes = vec![
        genes(&["k", "i", "t", "t", "e", "n"]),
        genes(&["f", "i", "t", "t", "i", "n", "g"]),
        genes(&["s", "m", "i", "t", "t", "e", "n"]),
        genes(&["k", "i", "t", "t", "e", "n"]),
    ];
    // distances from 0: 3, 2, 0 (equal genotype, skipped)
    assert_eq!(find_closest(&genotypes, 0), Some(2));
    // from 1 the only later candidates are 2 (distance 4) and 3 (3)
    assert_eq!(find_closest(&genotypes, 1), Some(3));
    assert_eq!(find_closest(&genotypes, 3), None);
}

#[test]
fn find_closest_with_empty_genotypes() {
    let genotypes = vec![genes(&[]), genes(&["a", "b"]), genes(&["c"])];
    assert_eq!(find_closest(&genotypes, 0), Some(2));
}

#[test]
fn find_appropriate_among_identical_organisms() {
    let population = vec![Organism::default(), Organism::default(), Organism::default()];
    assert!(find_appropriate(&population, 0).is_none());
    assert!(find_appropriate(&population, 2).is_none());
    assert!(find_appropriate(&population, 7).is_none());
}

#[test]
fn ring_oldest_slot_moves_around() {
    let mut ring = Ring::new(3, 0i64);
    assert_eq!(ring.index(), 0);
    ring.push(1);
    assert_eq!(ring.index(), 1);
    ring.qpush(2);
    assert_eq!(ring.index(), 2);
    ring.push(3);
    assert_eq!(ring.index(), 0);
}

#[test]
fn crossover_pairs_need_grown_partner() {
    // inputs + outputs == 3: organisms 0 and 2 have grown, 1 has not.
    let pairs = crossover_pairs(&vec![5, 3, 4], 2, 1);
    assert_eq!(pairs, vec![(0, 2), (1, 0), (1, 2), (2, 0)]);
    assert!(crossover_pairs(&vec![3, 3], 2, 1).is_empty());
    assert!(crossover_pairs(&vec![10], 0, 0).is_empty());
    assert!(crossover_pairs(&vec![], 0, 0).is_empty());
}

#[test]
fn ring_after_many_pushes() {
    let len = 4usize;
    let mut ring = Ring::new(len, 0u64);
    let values: Vec<u64> = (1..=11).collect();
    for v in &values {
        ring.push(*v);
    }
    let n = values.len();
    assert_eq!(ring.push_count(), n);
    assert_eq!(ring.index(), n % len);
    assert_eq!(ring.get(0), values[n - 1]);
    for k in 1..=len {
        assert_eq!(ring.get(k), values[n - len + k - 1]);
    }
}

#[test]
fn already_scored_by_network_id() {
    let ids = genes(&["a1", "b2", "c3"]);
    assert!(already_scored(&ids, "b2"));
    assert!(!already_scored(&ids, "b"));
    assert!(!already_scored(&vec![], "a1"));
}

#[test]
fn find_appropriate_with_no_later_organism() {
    let population = vec![Organism::default()];
    assert!(find_appropriate(&population, 0).is_none());
    let empty: Vec<Organism> = vec![];
    assert!(find_appropriate(&empty, 0).is_none());
}
