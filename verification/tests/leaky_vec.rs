use lib::bitmagic::relative_size_of;
use lib::bitmagic::relative_size_of_mult;
use lib::leaky_vec::LeakyVec;

#[test]
fn readers_see_commits() {
    let mut v: LeakyVec<u32> = LeakyVec::new();
    assert!(v.as_slice().is_empty());
    v.push(1);
    v.push(2);
    assert!(v.as_slice().is_empty());
    v.commit();
    assert_eq!(v.as_slice(), &[1, 2]);
    v.push(3);
    assert_eq!(v.as_slice(), &[1, 2]);
    v.push_and_commit(4);
    assert_eq!(v.as_slice(), &[1, 2, 3, 4]);
}

#[test]
fn relative_sizes() {
    assert_eq!(relative_size_of::<u32, u8>(), 4);
    assert_eq!(relative_size_of::<[u16; 3], u16>(), 3);
    assert_eq!(relative_size_of_mult::<u8, u32>(8), 2);
}
