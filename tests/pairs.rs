use nbody::pairs::{all_pairs, pair_count, PairCursor};

#[test]
fn no_pairs_below_two_bodies() {
    assert!(all_pairs(0).is_empty());
    assert!(all_pairs(1).is_empty());
    assert_eq!(pair_count(0), 0);
    assert_eq!(pair_count(1), 0);
}

#[test]
fn four_bodies_in_fixed_order() {
    assert_eq!(
        all_pairs(4),
        vec![(0, 1), (0, 2), (0, 3), (1, 2), (1, 3), (2, 3)]
    );
}

#[test]
fn pair_count_formula() {
    assert_eq!(pair_count(2), 1);
    assert_eq!(pair_count(3), 3);
    assert_eq!(pair_count(101), 5050);
    assert_eq!(pair_count(1000), 499500);
}

#[test]
fn every_pair_exactly_once() {
    for n in 0..30usize {
        let pairs = all_pairs(n);
        assert_eq!(pairs.len(), pair_count(n));
        let mut seen = vec![vec![0u32; n]; n];
        for &(i, j) in &pairs {
            assert!(i < j && j < n);
            seen[i][j] += 1;
        }
        for i in 0..n {
            for j in (i + 1)..n {
                assert_eq!(seen[i][j], 1);
            }
        }
    }
}

#[test]
fn cursor_matches_all_pairs_and_stays_done() {
    let mut cursor = PairCursor::new(5);
    let mut walked = Vec::new();
    while let Some(p) = cursor.next() {
        walked.push(p);
    }
    assert_eq!(walked, all_pairs(5));
    assert_eq!(cursor.next(), None);
    assert_eq!(cursor.next(), None);
}
