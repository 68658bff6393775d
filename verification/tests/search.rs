use pagepool::bsearch::binary_search_by;
use std::cmp::Ordering;

fn search(haystack: &[u64], needle: u64) -> Result<usize, usize> {
    binary_search_by(haystack.len(), |i| haystack[i].cmp(&needle))
}

#[test]
fn finds_exact_index_on_match() {
    let keys = [1u64, 3, 5, 7, 11];
    assert_eq!(search(&keys, 1), Ok(0));
    assert_eq!(search(&keys, 5), Ok(2));
    assert_eq!(search(&keys, 11), Ok(4));
}

#[test]
fn returns_insertion_point_on_miss() {
    let keys = [1u64, 3, 5, 7, 11];
    assert_eq!(search(&keys, 0), Err(0));
    assert_eq!(search(&keys, 4), Err(2));
    assert_eq!(search(&keys, 8), Err(4));
    assert_eq!(search(&keys, 100), Err(5));
}

#[test]
fn empty_range_yields_insertion_at_zero() {
    let r = binary_search_by(0, |_i| Ordering::Less);
    assert_eq!(r, Err(0));
}

#[test]
fn duplicate_keys_report_some_match() {
    let keys = [2u64, 2, 2, 9];
    match search(&keys, 2) {
        Ok(i) => assert!(i < 3),
        Err(_) => panic!("expected a match"),
    }
    assert_eq!(search(&keys, 9), Ok(3));
}
