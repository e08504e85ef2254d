use lib::map_inplace::MapInplace;
use lib::map_inplace::PartialVec;

/// `map_inplace` needs element types of the same size; `usize` and `()`
/// differ.
#[test]
fn test_map_inplace_incompatible_types_fail() {
    assert!(std::mem::size_of::<usize>() != std::mem::size_of::<()>());
}

#[test]
fn test_map_inplace() {
    let v = vec![0usize, 1, 2];
    assert_eq!(v.map_inplace(|i: usize| i as isize - 1).as_slice(), &[-1isize, 0, 1]);
}

#[test]
fn partial_vec_example() {
    let mut pv: PartialVec<usize, usize> = PartialVec::new(vec![0usize, 1]);
    assert_eq!(pv.pop(), Some(0));
    assert_eq!(pv.pop(), Some(1));
    assert_eq!(pv.pop(), None);
    pv.push(2);
    pv.push(3);
    assert_eq!(pv.into_vec(), vec![2, 3]);
}
