use mpz::block::Block;
use mpz::correlated::{Delta, KeyStore, MacStore};
use mpz::memory::Slice;
use mpz::ot::{COTReceiverOutput, IdealCOT};
use rand::rngs::StdRng;
use rand::{Rng, SeedableRng};

fn random_blocks(rng: &mut StdRng, n: usize) -> Vec<Block> {
    (0..n).map(|_| Block::new(rng.gen())).collect()
}

#[test]
fn test_correlated_store() {
    let mut cot = IdealCOT::default();
    let mut rng = StdRng::seed_from_u64(0);
    let delta = Delta::new(Block::new(rng.gen()));
    cot.set_delta(delta.into_inner());

    let mut keys = KeyStore::new(delta);
    let mut macs = MacStore::new();

    let val_a: Vec<bool> = (0..128).map(|_| rng.gen::<bool>()).collect();
    let val_b: Vec<bool> = (0..128).map(|_| rng.gen::<bool>()).collect();

    let ref_a_keys = keys.alloc_with(&random_blocks(&mut rng, 128));
    let ref_b_keys = keys.alloc_with(&random_blocks(&mut rng, 128));

    let ref_a_macs = macs.allocate(128);
    let ref_b_macs = macs.allocate(128);

    let macs_a = keys.authenticate(ref_a_keys, &val_a).unwrap();
    let keys_b = keys.oblivious_transfer(ref_b_keys).unwrap();

    let (_, COTReceiverOutput { msgs: macs_b, .. }) = cot.correlated(keys_b, val_b.clone());

    macs.try_set(ref_a_macs, &macs_a).unwrap();
    macs.try_set(ref_b_macs, &macs_b).unwrap();

    assert!(keys.is_set(ref_a_keys));
    assert!(keys.is_set(ref_b_keys));
    assert!(macs.is_set(ref_a_macs));
    assert!(macs.is_set(ref_b_macs));

    let key_bits_a = keys.try_get_bits(ref_a_keys).unwrap();
    let key_bits_b = keys.try_get_bits(ref_b_keys).unwrap();

    let mac_bits_a = macs.try_get_bits(ref_a_macs).unwrap();
    let mac_bits_b = macs.try_get_bits(ref_b_macs).unwrap();

    let val_a_recovered: Vec<bool> = key_bits_a.iter().zip(&mac_bits_a).map(|(k, m)| k ^ m).collect();
    let val_b_recovered: Vec<bool> = key_bits_b.iter().zip(&mac_bits_b).map(|(k, m)| k ^ m).collect();

    assert_eq!(val_a, val_a_recovered);
    assert_eq!(val_b, val_b_recovered);

    let (mut bits, hash) = macs
        .prove(&Slice::to_rangeset(&vec![ref_a_macs, ref_b_macs]))
        .unwrap();

    keys.verify(&Slice::to_rangeset(&vec![ref_a_keys, ref_b_keys]), &mut bits, hash)
        .unwrap();

    assert_eq!(&val_a[..], &bits[0..128]);
    assert_eq!(&val_b[..], &bits[128..]);
}

#[test]
fn verify_rejects_a_tampered_proof() {
    let mut rng = StdRng::seed_from_u64(1);
    let delta = Delta::new(Block::new(rng.gen()));
    let mut keys = KeyStore::new(delta);
    let mut macs = MacStore::new();
    let values: Vec<bool> = (0..16).map(|_| rng.gen::<bool>()).collect();
    let k = keys.alloc_with(&random_blocks(&mut rng, 16));
    let m = macs.allocate(16);
    let tags = keys.authenticate(k, &values).unwrap();
    macs.try_set(m, &tags).unwrap();
    let (mut bits, mut hash) = macs.prove(&Slice::to_rangeset(&vec![m])).unwrap();
    hash[0] ^= 1;
    let before = bits.clone();
    let r = keys.verify(&Slice::to_rangeset(&vec![k]), &mut bits, hash);
    assert_eq!(r, Err(mpz::correlated::KeyStoreError::Verify));
    assert_eq!(bits, before);
}

#[test]
fn verify_rejects_a_flipped_mac_byte() {
    let mut rng = StdRng::seed_from_u64(2);
    let delta = Delta::new(Block::new(rng.gen()));
    let mut keys = KeyStore::new(delta);
    let mut macs = MacStore::new();
    let values: Vec<bool> = (0..8).map(|_| rng.gen::<bool>()).collect();
    let k = keys.alloc_with(&random_blocks(&mut rng, 8));
    let m = macs.allocate(8);
    let mut tags = keys.authenticate(k, &values).unwrap();
    tags[3] = Block::new(tags[3].0 ^ (1u128 << 40));
    macs.try_set(m, &tags).unwrap();
    let (mut bits, hash) = macs.prove(&Slice::to_rangeset(&vec![m])).unwrap();
    let r = keys.verify(&Slice::to_rangeset(&vec![k]), &mut bits, hash);
    assert_eq!(r, Err(mpz::correlated::KeyStoreError::Verify));
}

#[test]
fn delta_pointer_bit_is_set() {
    let d = Delta::new(Block::new(0));
    assert_eq!(d.as_block(), Block::new(1));
    let d = Delta::new(Block::new(0xf0));
    assert_eq!(d.into_inner(), Block::new(0xf1));
    assert!(d.as_block().lsb());
}

#[test]
fn authenticate_round_trip_pointer_bits() {
    let delta = Delta::new(Block::new(0x1234_5678_9abc_def0));
    let mut keys = KeyStore::new(delta);
    let k = keys.alloc_with(&[Block::new(6), Block::new(7)]);
    let tags = keys.authenticate(k, &[true, false]).unwrap();
    assert_eq!(tags[0], Block::new(6 ^ 0x1234_5678_9abc_def1));
    assert_eq!(tags[1], Block::new(7));
    assert_eq!(tags[0].lsb() ^ true, Block::new(6).lsb());
}

#[test]
fn key_store_errors() {
    let delta = Delta::new(Block::new(3));
    let mut keys = KeyStore::new(delta);
    let unset = keys.allocate(4);
    assert_eq!(keys.authenticate(unset, &[false; 4]), Err(mpz::correlated::KeyStoreError::Uninit(unset)));
    let set = keys.alloc_with(&[Block::new(1); 4]);
    assert!(keys.oblivious_transfer(set).is_ok());
    assert_eq!(keys.oblivious_transfer(set), Err(mpz::correlated::KeyStoreError::AlreadyAssigned(set)));
    let past = Slice::new_unchecked(mpz::memory::Ptr::new(6), 4);
    assert_eq!(keys.try_get(past), Err(mpz::correlated::KeyStoreError::InvalidSlice(past)));
    assert_eq!(keys.try_set(set, &[Block::new(2); 4]), Err(mpz::correlated::KeyStoreError::AlreadySet(set)));
}

#[test]
fn adjust_flips_pointer_bits() {
    let delta = Delta::new(Block::new(5));
    let mut keys = KeyStore::new(delta);
    let s = keys.alloc_with(&[Block::new(2), Block::new(3)]);
    keys.adjust(s, &[true, true]).unwrap();
    assert_eq!(keys.try_get(s).unwrap(), vec![Block::new(3), Block::new(2)]);
    let mut macs = MacStore::new();
    let m = macs.alloc_with(&[Block::new(8)]);
    macs.try_adjust(m, &[true]).unwrap();
    assert_eq!(macs.try_get(m).unwrap(), vec![Block::new(9)]);
}

#[test]
fn delta_round_trips_through_its_block() {
    let d = Delta::new(Block::new(0x1234));
    let b = d.into_inner();
    assert!(b.lsb());
    assert_eq!(Delta::new(b), d);
    assert_eq!(Delta::new(Block::new(0x1235)).into_inner(), Block::new(0x1235));
}
