use pentagram::hash::{Hasher, FNV_OFFSET};

#[test]
fn empty_hash_is_the_offset_basis() {
    assert_eq!(Hasher::new().finish(), FNV_OFFSET);
}

#[test]
fn is_order_sensitive() {
    let mut a = Hasher::new();
    a.u32(1).u32(2);
    let mut b = Hasher::new();
    b.u32(2).u32(1);
    assert_ne!(a.finish(), b.finish());
}

#[test]
fn distinguishes_adjacent_values() {
    let mut a = Hasher::new();
    a.i32(0);
    let mut b = Hasher::new();
    b.i32(1);
    assert_ne!(a.finish(), b.finish());
}

#[test]
fn matches_published_fnv1a_vectors() {
    let mut a = Hasher::new();
    a.bytes(b"a");
    assert_eq!(a.finish(), 0xaf63_dc4c_8601_ec8c);

    let mut b = Hasher::new();
    b.bytes(b"foobar");
    assert_eq!(b.finish(), 0x85944171f73967e8);
}
