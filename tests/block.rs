use mpz::block::Block;
use mpz::memory::{Ptr, Slice};
use mpz::range::RangeSet;
use mpz::store::{Store, StoreError};

#[test]
fn gfmul_matches_known_products() {
    let x = Block::new(2);
    assert_eq!(x.gfmul(Block::new(3)), Block::new(6));
    let top = Block::new(1u128 << 127);
    assert_eq!(top.gfmul(Block::new(2)), Block::new(0x87));
    assert_eq!(Block::new(0xdead_beef).gfmul(Block::one()), Block::new(0xdead_beef));
    assert_eq!(Block::new(0xdead_beef).gfmul(Block::zero()), Block::zero());
    let a = Block::new(0x0123_4567_89ab_cdef_fedc_ba98_7654_3210);
    let b = Block::new(0x1111_2222_3333_4444_5555_6666_7777_8888);
    assert_eq!(a.gfmul(b), b.gfmul(a));
}

#[test]
fn powers_are_successive_products() {
    let x = Block::new(0x1234_5678_9abc_def0_0fed_cba9_8765_4321);
    let p = Block::powers(x, 4);
    assert_eq!(p.len(), 4);
    assert_eq!(p[0], x);
    assert_eq!(p[1], x.gfmul(x));
    assert_eq!(p[2], p[1].gfmul(x));
    assert_eq!(p[3], p[2].gfmul(x));
    assert!(Block::powers(x, 0).is_empty());
}

#[test]
fn inner_product_sums_products() {
    let a = vec![Block::new(3), Block::new(5)];
    let b = vec![Block::new(7), Block::new(9)];
    let r = Block::inner_product_reduced(&a, &b);
    assert_eq!(r, Block::new(3).gfmul(Block::new(7)).xor(Block::new(5).gfmul(Block::new(9))));
}

#[test]
fn bytes_round_trip_little_endian() {
    let b = Block::new(0x0f0e_0d0c_0b0a_0908_0706_0504_0302_0100);
    let bytes = b.to_bytes();
    assert_eq!(bytes, [0, 1, 2, 3, 4, 5, 6, 7, 8, 9, 10, 11, 12, 13, 14, 15]);
    assert_eq!(Block::from_bytes(bytes), b);
}

#[test]
fn pointer_bit_helpers() {
    let mut b = Block::new(4);
    assert!(!b.lsb());
    b.set_lsb(true);
    assert_eq!(b, Block::new(5));
    b.xor_lsb(true);
    assert_eq!(b, Block::new(4));
    b.xor_lsb(false);
    assert_eq!(b, Block::new(4));
    assert_eq!(Block::minus_one().and(Block::new(7)), Block::new(6));
}

#[test]
fn rangeset_union_merges_adjacent_and_overlapping() {
    let s = RangeSet::new().union_range(5, 10).union_range(0, 3).union_range(3, 5);
    assert_eq!(s.iter_ranges().clone(), vec![(0, 10)]);
    let t = RangeSet::from_ranges(&vec![(20, 25), (0, 4), (2, 8), (9, 10)]);
    assert_eq!(t.iter_ranges().clone(), vec![(0, 8), (9, 10), (20, 25)]);
    assert_eq!(t.len(), 14);
    assert!(t.contains_range(2, 6));
    assert!(!t.contains_range(7, 10));
    assert!(t.is_disjoint_range(10, 20));
    assert!(!t.is_disjoint_range(7, 9));
    assert_eq!(t.indices(), vec![0, 1, 2, 3, 4, 5, 6, 7, 9, 20, 21, 22, 23, 24]);
    let u = RangeSet::from_ranges(&vec![(9, 10), (0, 8), (20, 25)]);
    assert!(t.set_eq(&u));
    assert!(!t.set_eq(&s));
    assert!(RangeSet::new().union_range(4, 4).is_empty());
}

#[test]
fn store_set_once_then_read() {
    let mut s: Store<bool> = Store::new();
    let a = s.alloc_filled(4, false);
    assert_eq!(s.try_get(a), Err(StoreError::Uninit(a)));
    s.try_set(a, &[true, false, true, true]).unwrap();
    assert_eq!(s.try_get(a).unwrap(), vec![true, false, true, true]);
    let part = Slice::new_unchecked(Ptr::new(2), 1);
    assert_eq!(s.try_set(part, &[false]), Err(StoreError::AlreadySet(part)));
    let past = Slice::new_unchecked(Ptr::new(3), 2);
    assert_eq!(s.try_set(past, &[false, false]), Err(StoreError::InvalidSlice(past)));
}
