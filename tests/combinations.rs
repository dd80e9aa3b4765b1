use poker_rs::evaluator::combinations::{
    Combinations4Choose2, Combinations5Choose3, Combinations7Choose5,
};

fn all_4c2() -> Vec<[usize; 2]> {
    let mut it = Combinations4Choose2::new();
    let mut out = Vec::new();
    while let Some(c) = it.next() {
        out.push(c);
    }
    out
}

fn all_5c3() -> Vec<[usize; 3]> {
    let mut it = Combinations5Choose3::new();
    let mut out = Vec::new();
    while let Some(c) = it.next() {
        out.push(c);
    }
    out
}

fn all_7c5() -> Vec<[usize; 5]> {
    let mut it = Combinations7Choose5::new();
    let mut out = Vec::new();
    while let Some(c) = it.next() {
        out.push(c);
    }
    out
}

#[test]
fn test_4choose2_generates_6_combinations() {
    let combos: Vec<[usize; 2]> = all_4c2();
    assert_eq!(combos.len(), 6);
}

#[test]
fn test_4choose2_all_valid() {
    for combo in all_4c2() {
        assert!(combo.iter().all(|&i| i < 4));
        assert!(combo[1] > combo[0]);
    }
}

#[test]
fn test_4choose2_specific() {
    let combos: Vec<[usize; 2]> = all_4c2();
    assert_eq!(combos[0], [0, 1]);
    assert_eq!(combos[1], [0, 2]);
    assert_eq!(combos[2], [0, 3]);
    assert_eq!(combos[3], [1, 2]);
    assert_eq!(combos[4], [1, 3]);
    assert_eq!(combos[5], [2, 3]);
}

#[test]
fn test_4choose2_no_duplicates() {
    let combos: Vec<[usize; 2]> = all_4c2();
    let mut seen = std::collections::HashSet::new();
    for combo in combos {
        assert!(seen.insert(combo), "Duplicate: {combo:?}");
    }
}

#[test]
fn test_5choose3_generates_10_combinations() {
    let combos: Vec<[usize; 3]> = all_5c3();
    assert_eq!(combos.len(), 10);
}

#[test]
fn test_5choose3_all_valid() {
    for combo in all_5c3() {
        assert!(combo.iter().all(|&i| i < 5));
        assert!(combo[1] > combo[0]);
        assert!(combo[2] > combo[1]);
    }
}

#[test]
fn test_5choose3_specific() {
    let combos: Vec<[usize; 3]> = all_5c3();
    assert_eq!(combos[0], [0, 1, 2]);
    assert_eq!(combos[1], [0, 1, 3]);
    assert_eq!(combos[2], [0, 1, 4]);
    assert_eq!(combos[3], [0, 2, 3]);
    assert_eq!(combos[4], [0, 2, 4]);
    assert_eq!(combos[5], [0, 3, 4]);
    assert_eq!(combos[6], [1, 2, 3]);
    assert_eq!(combos[7], [1, 2, 4]);
    assert_eq!(combos[8], [1, 3, 4]);
    assert_eq!(combos[9], [2, 3, 4]);
}

#[test]
fn test_5choose3_no_duplicates() {
    let combos: Vec<[usize; 3]> = all_5c3();
    let mut seen = std::collections::HashSet::new();
    for combo in combos {
        assert!(seen.insert(combo), "Duplicate: {combo:?}");
    }
}

#[test]
fn test_generates_21_combinations() {
    let combos: Vec<[usize; 5]> = all_7c5();
    assert_eq!(combos.len(), 21);
}

#[test]
fn test_all_combinations_valid() {
    for combo in all_7c5() {
        // All indices should be < 7
        assert!(combo.iter().all(|&i| i < 7));

        // All indices should be in ascending order
        for i in 1..5 {
            assert!(combo[i] > combo[i - 1]);
        }
    }
}

#[test]
fn test_first_combination() {
    let mut iter = Combinations7Choose5::new();
    assert_eq!(iter.next(), Some([0, 1, 2, 3, 4]));
}

#[test]
fn test_last_combination() {
    let combos: Vec<[usize; 5]> = all_7c5();
    assert_eq!(combos.last(), Some(&[2, 3, 4, 5, 6]));
}

#[test]
fn test_no_duplicates() {
    let combos: Vec<[usize; 5]> = all_7c5();
    let mut seen = std::collections::HashSet::new();

    for combo in combos {
        assert!(seen.insert(combo), "Duplicate combination found: {combo:?}");
    }
}

#[test]
fn test_specific_combinations() {
    let combos: Vec<[usize; 5]> = all_7c5();

    // Check a few known combinations
    assert!(combos.contains(&[0, 1, 2, 3, 4]));
    assert!(combos.contains(&[0, 1, 2, 3, 5]));
    assert!(combos.contains(&[0, 1, 2, 3, 6]));
    assert!(combos.contains(&[0, 1, 2, 4, 5]));
    assert!(combos.contains(&[2, 3, 4, 5, 6]));
}

#[test]
fn test_lexicographic_order() {
    let combos: Vec<[usize; 5]> = all_7c5();

    // Verify lexicographic ordering
    for i in 1..combos.len() {
        let prev = combos[i - 1];
        let curr = combos[i];

        // Find first position where they differ
        for j in 0..5 {
            if prev[j] != curr[j] {
                assert!(
                    prev[j] < curr[j],
                    "Not in lexicographic order: {prev:?} should come before {curr:?}"
                );
                break;
            }
        }
    }
}

#[test]
fn test_iterator_exhausts() {
    let mut iter = Combinations7Choose5::new();

    // Consume all 21 combinations
    for _ in 0..21 {
        assert!(iter.next().is_some());
    }

    // Should be exhausted now
    assert!(iter.next().is_none());
    assert!(iter.next().is_none()); // Still none
}
