use rutis::list::{is_sparse, shrink_if_sparse};

#[test]
fn lists_that_waste_most_of_their_space_give_it_back() {
    let mut sparse: Vec<u64> = Vec::with_capacity(1000);
    sparse.extend([1, 2, 3]);
    shrink_if_sparse(&mut sparse);
    assert_eq!(sparse, vec![1, 2, 3]);
    assert!(sparse.capacity() < 1000);

    let mut dense: Vec<u64> = Vec::with_capacity(1000);
    dense.extend(0..1000);
    let space = dense.capacity();
    shrink_if_sparse(&mut dense);
    assert_eq!(dense.capacity(), space);
    assert_eq!(dense.len(), 1000);
}

#[test]
fn a_list_is_sparse_below_a_quarter_of_more_than_a_few_places() {
    assert!(!is_sparse(0, 64));
    assert!(is_sparse(16, 65));
    assert!(!is_sparse(17, 65));
    assert!(is_sparse(24, 100));
    assert!(!is_sparse(25, 100));
}
