use mpz::block::Block;
use mpz::correlated::Delta;
use mpz::garble::{EvaluatorStore, GeneratorStore};
use mpz::ot::{COTReceiverOutput, IdealCOT};
use rand::rngs::StdRng;
use rand::{Rng, SeedableRng};

fn random_delta(rng: &mut StdRng) -> Delta {
    Delta::new(Block::new(rng.gen()))
}

fn random_bits(rng: &mut StdRng, n: usize) -> Vec<bool> {
    (0..n).map(|_| rng.gen::<bool>()).collect()
}

#[test]
fn test_store_decode() {
    let mut cot = IdealCOT::default();
    let mut rng = StdRng::seed_from_u64(0);
    let delta = random_delta(&mut rng);
    cot.set_delta(delta.into_inner());

    let mut gen = GeneratorStore::new(rng.gen(), delta);
    let mut ev = EvaluatorStore::default();

    let val_a = random_bits(&mut rng, 128);
    let val_b = random_bits(&mut rng, 128);
    let val_c = random_bits(&mut rng, 128);

    let ref_a_gen = gen.allocate(128);
    let ref_b_gen = gen.allocate(128);
    let ref_c_gen = gen.allocate(128);

    let ref_a_ev = ev.allocate(128);
    let ref_b_ev = ev.allocate(128);
    let ref_c_ev = ev.allocate(128);

    gen.assign_public(ref_a_gen, &val_a).unwrap();
    gen.assign_private(ref_b_gen, &val_b).unwrap();
    gen.assign_blind(ref_c_gen).unwrap();

    ev.assign_public(ref_a_ev, &val_a).unwrap();
    ev.assign_blind(ref_b_ev).unwrap();
    ev.assign_private(ref_c_ev, &val_c).unwrap();

    let (payload, keys) = gen.execute_assign().unwrap();
    let (receive, choices) = ev.execute_assign().unwrap();

    let (_, COTReceiverOutput { msgs: macs, .. }) = cot.correlated(keys, choices);

    receive.receive(&mut ev, payload, macs).unwrap();

    let mut fut_a_gen = gen.decode(ref_a_gen).unwrap();
    let mut fut_b_gen = gen.decode(ref_b_gen).unwrap();
    let mut fut_c_gen = gen.decode(ref_c_gen).unwrap();

    let mut fut_a_ev = ev.decode(ref_a_ev).unwrap();
    let mut fut_b_ev = ev.decode(ref_b_ev).unwrap();
    let mut fut_c_ev = ev.decode(ref_c_ev).unwrap();

    let payload = gen.send_key_bits().unwrap();
    ev.receive_key_bits(payload).unwrap();
    let payload = ev.execute_decode().unwrap();
    gen.verify_data(payload).unwrap();
    gen.execute_decode().unwrap();

    let (val_a_gen, val_b_gen, val_c_gen) = (
        fut_a_gen.try_recv().unwrap().unwrap(),
        fut_b_gen.try_recv().unwrap().unwrap(),
        fut_c_gen.try_recv().unwrap().unwrap(),
    );

    let (val_a_ev, val_b_ev, val_c_ev) = (
        fut_a_ev.try_recv().unwrap().unwrap(),
        fut_b_ev.try_recv().unwrap().unwrap(),
        fut_c_ev.try_recv().unwrap().unwrap(),
    );

    assert_eq!(val_a_gen, val_a_ev);
    assert_eq!(val_b_gen, val_b_ev);
    assert_eq!(val_c_gen, val_c_ev);
    assert_eq!(val_a_gen, val_a);
    assert_eq!(val_b_gen, val_b);
    assert_eq!(val_c_gen, val_c);
}

#[test]
fn test_store_gen_wants_assign_public() {
    let mut rng = StdRng::seed_from_u64(0);
    let mut gen = GeneratorStore::new(rng.gen(), random_delta(&mut rng));

    let a = gen.allocate(128);

    gen.assign_public(a, &random_bits(&mut rng, 128)).unwrap();

    assert!(gen.wants_assign());
}

#[test]
fn test_store_gen_wants_assign_private() {
    let mut rng = StdRng::seed_from_u64(0);
    let mut gen = GeneratorStore::new(rng.gen(), random_delta(&mut rng));

    let a = gen.allocate(128);

    gen.assign_private(a, &random_bits(&mut rng, 128)).unwrap();

    assert!(gen.wants_assign());
}

#[test]
fn test_store_gen_wants_assign_blind() {
    let mut rng = StdRng::seed_from_u64(0);
    let mut gen = GeneratorStore::new(rng.gen(), random_delta(&mut rng));

    let a = gen.allocate(128);

    gen.assign_blind(a).unwrap();

    assert!(gen.wants_assign());
}

#[test]
fn test_store_gen_does_not_want_assign() {
    let mut rng = StdRng::seed_from_u64(0);
    let gen = GeneratorStore::new(rng.gen(), random_delta(&mut rng));

    assert!(!gen.wants_assign());
}

#[test]
fn test_store_ev_wants_assign_public() {
    let mut rng = StdRng::seed_from_u64(0);
    let mut ev = EvaluatorStore::default();

    let a = ev.allocate(128);

    ev.assign_public(a, &random_bits(&mut rng, 128)).unwrap();

    assert!(ev.wants_assign());
}

#[test]
fn test_store_ev_wants_assign_private() {
    let mut rng = StdRng::seed_from_u64(0);
    let mut ev = EvaluatorStore::default();

    let a = ev.allocate(128);

    ev.assign_private(a, &random_bits(&mut rng, 128)).unwrap();

    assert!(ev.wants_assign());
}

#[test]
fn test_store_ev_wants_assign_blind() {
    let mut ev = EvaluatorStore::default();

    let a = ev.allocate(128);

    ev.assign_blind(a).unwrap();

    assert!(ev.wants_assign());
}

#[test]
fn test_store_ev_does_not_want_assign() {
    let ev = EvaluatorStore::default();

    assert!(!ev.wants_assign());
}

#[test]
fn test_store_gen_wants_send_key_bits() {
    let mut rng = StdRng::seed_from_u64(0);
    let mut gen = GeneratorStore::new(rng.gen(), random_delta(&mut rng));

    let a = gen.allocate(128);

    let _ = gen.decode(a).unwrap();

    assert!(gen.wants_send_key_bits());
}

#[test]
fn test_store_gen_does_not_want_send_key_bits_uninit() {
    let mut rng = StdRng::seed_from_u64(0);
    let mut gen = GeneratorStore::new(rng.gen(), random_delta(&mut rng));

    let a = gen.alloc_output(128);

    let _ = gen.decode(a).unwrap();

    assert!(!gen.wants_send_key_bits());
}

#[test]
fn test_store_ev_wants_key_bits() {
    let mut ev = EvaluatorStore::default();

    let a = ev.allocate(128);

    ev.try_set_macs(a, &[Block::default(); 128]).unwrap();

    let _ = ev.decode(a).unwrap();

    assert!(ev.wants_key_bits());
}

#[test]
fn test_store_ev_does_not_want_key_bits_uninit() {
    let mut ev = EvaluatorStore::default();

    let a = ev.allocate(128);

    let _ = ev.decode(a).unwrap();

    assert!(!ev.wants_key_bits());
}

#[test]
fn test_store_gen_wants_decode() {
    let mut rng = StdRng::seed_from_u64(0);
    let mut gen = GeneratorStore::new(rng.gen(), random_delta(&mut rng));

    let a = gen.allocate(128);
    let _ = gen.decode(a).unwrap();

    assert!(gen.wants_verify_data());
}

#[test]
fn test_store_gen_does_not_want_decode_uninit() {
    let mut rng = StdRng::seed_from_u64(0);
    let mut gen = GeneratorStore::new(rng.gen(), random_delta(&mut rng));

    let _ = gen.allocate(128);

    assert!(!gen.wants_verify_data());
}

#[test]
fn test_store_ev_wants_decode() {
    let mut rng = StdRng::seed_from_u64(0);
    let mut ev = EvaluatorStore::default();
    let mut gen = GeneratorStore::new(rng.gen(), random_delta(&mut rng));

    let a = gen.allocate(128);
    let _ = gen.decode(a).unwrap();
    let payload = gen.send_key_bits().unwrap();

    let a = ev.allocate(128);
    ev.try_set_macs(a, &[Block::default(); 128]).unwrap();
    ev.receive_key_bits(payload).unwrap();
    let _ = ev.decode(a).unwrap();

    assert!(ev.wants_decode());
}

#[test]
fn test_store_ev_does_not_want_decode_uninit() {
    let mut ev = EvaluatorStore::default();

    let _ = ev.allocate(128);

    assert!(!ev.wants_decode());
}

#[test]
fn assigning_a_slice_twice_in_one_round_fails() {
    let mut rng = StdRng::seed_from_u64(3);
    let mut gen = GeneratorStore::new(rng.gen(), random_delta(&mut rng));
    let a = gen.allocate(8);
    gen.assign_blind(a).unwrap();
    gen.assign_blind(a).unwrap();
    assert!(gen.execute_assign().is_err());
    let mut ev = EvaluatorStore::default();
    let b = ev.allocate(8);
    ev.assign_public(b, &[true; 8]).unwrap();
    assert!(ev.assign_public(b, &[true; 8]).is_err());
}

#[test]
fn blind_everywhere_decodes_on_both_sides() {
    let mut rng = StdRng::seed_from_u64(4);
    let delta = random_delta(&mut rng);
    let mut cot = IdealCOT::new(Block::new(5), delta.into_inner());
    let mut gen = GeneratorStore::new(rng.gen(), delta);
    let mut ev = EvaluatorStore::default();
    let x = random_bits(&mut rng, 40);
    let g = gen.allocate(40);
    let e = ev.allocate(40);
    gen.assign_blind(g).unwrap();
    ev.assign_private(e, &x).unwrap();
    let (payload, keys) = gen.execute_assign().unwrap();
    let (receive, choices) = ev.execute_assign().unwrap();
    assert_eq!(choices, x);
    let (_, out) = cot.correlated(keys, choices);
    receive.receive(&mut ev, payload, out.msgs).unwrap();
    let mut fg = gen.decode(g).unwrap();
    let mut fe = ev.decode(e).unwrap();
    let kb = gen.send_key_bits().unwrap();
    ev.receive_key_bits(kb).unwrap();
    let proof = ev.execute_decode().unwrap();
    gen.verify_data(proof).unwrap();
    gen.execute_decode().unwrap();
    assert_eq!(fg.try_recv().unwrap().unwrap(), x);
    assert_eq!(fe.try_recv().unwrap().unwrap(), x);
}

#[test]
fn mismatched_assign_payload_is_a_protocol_error() {
    let mut rng = StdRng::seed_from_u64(5);
    let mut gen = GeneratorStore::new(rng.gen(), random_delta(&mut rng));
    let mut ev = EvaluatorStore::default();
    let g = gen.allocate(4);
    let _ = ev.allocate(4);
    let e2 = ev.allocate(4);
    gen.assign_public(g, &[true, false, true, false]).unwrap();
    ev.assign_public(e2, &[true, false, true, false]).unwrap();
    let (payload, _) = gen.execute_assign().unwrap();
    let (receive, _) = ev.execute_assign().unwrap();
    assert_eq!(receive.receive(&mut ev, payload, vec![]), Err(mpz::garble::EvaluatorStoreError::Protocol));
}
