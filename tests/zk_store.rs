use mpz::block::Block;
use mpz::correlated::Delta;
use mpz::ot::{IdealCOT, RCOTReceiverOutput, RCOTSenderOutput};
use mpz::zk_store::{ProverStore, VerifierStore, VerifierStoreError};
use rand::rngs::StdRng;
use rand::{Rng, SeedableRng};

struct Provider {
    idx_keys: usize,
    keys: Vec<Block>,
    idx_data: usize,
    data: Vec<bool>,
    macs: Vec<Block>,
}

impl Provider {
    fn new(count: usize, delta: Delta) -> Self {
        let mut cot = IdealCOT::default();
        cot.set_delta(delta.into_inner());
        let (
            RCOTSenderOutput { msgs: keys, .. },
            RCOTReceiverOutput {
                choices: data,
                msgs: macs,
                ..
            },
        ) = cot.random_correlated(count);

        Self {
            idx_keys: 0,
            keys,
            idx_data: 0,
            data,
            macs,
        }
    }

    fn provide_keys(&mut self, len: usize) -> &[Block] {
        let idx = self.idx_keys;
        self.idx_keys += len;
        &self.keys[idx..idx + len]
    }

    fn provide_macs(&mut self, len: usize) -> (&[bool], &[Block]) {
        let idx = self.idx_data;
        self.idx_data += len;
        (&self.data[idx..idx + len], &self.macs[idx..idx + len])
    }
}

#[test]
fn store_test_store() {
    let mut rng = StdRng::seed_from_u64(0);
    let delta = Delta::new(Block::new(rng.gen()));
    let mut provider = Provider::new(256, delta);

    let mut verifier = VerifierStore::new(delta);
    let mut prover = ProverStore::default();

    let val_a: Vec<bool> = (0..128).map(|_| rng.gen::<bool>()).collect();
    let val_b: Vec<bool> = (0..128).map(|_| rng.gen::<bool>()).collect();

    let ref_a_verifier = verifier.alloc_with(provider.provide_keys(128));
    let ref_b_verifier = verifier.alloc_with(provider.provide_keys(128));

    let (data, macs) = provider.provide_macs(128);
    let ref_a_prover = prover.alloc_with(data, macs);
    let (data, macs) = provider.provide_macs(128);
    let ref_b_prover = prover.alloc_with(data, macs);

    verifier.assign_public(ref_a_verifier, &val_a).unwrap();
    verifier.assign_blind(ref_b_verifier).unwrap();

    prover.assign_public(ref_a_prover, &val_a).unwrap();
    prover.assign_private(ref_b_prover, &val_b).unwrap();

    let payload = prover.execute_assign().unwrap();
    verifier.execute_assign(payload).unwrap();

    let mut fut_a_verifier = verifier.decode(ref_a_verifier).unwrap();
    let mut fut_b_verifier = verifier.decode(ref_b_verifier).unwrap();

    let _ = prover.decode(ref_a_prover).unwrap();
    let _ = prover.decode(ref_b_prover).unwrap();

    let payload = prover.execute_decode().unwrap();
    verifier.verify_data(payload).unwrap();
    verifier.execute_decode().unwrap();

    let (val_a_verifier, val_b_verifier) = (
        fut_a_verifier.try_recv().unwrap().unwrap(),
        fut_b_verifier.try_recv().unwrap().unwrap(),
    );

    assert_eq!(val_a_verifier, val_a);
    assert_eq!(val_b_verifier, val_b);
}

#[test]
fn zk_store_rejects_mismatched_ranges() {
    let delta = Delta::new(Block::new(9));
    let mut provider = Provider::new(8, delta);
    let mut verifier = VerifierStore::new(delta);
    let mut prover = ProverStore::default();
    let _ = verifier.alloc_with(provider.provide_keys(4));
    let b = verifier.alloc_with(provider.provide_keys(4));
    let (data, macs) = provider.provide_macs(4);
    let a = prover.alloc_with(data, macs);
    verifier.assign_blind(b).unwrap();
    prover.assign_private(a, &[true, true, false, false]).unwrap();
    let payload = prover.execute_assign().unwrap();
    assert_eq!(verifier.execute_assign(payload), Err(VerifierStoreError::Protocol));
}

#[test]
fn zk_store_wants() {
    let delta = Delta::new(Block::new(9));
    let mut verifier = VerifierStore::new(delta);
    let mut prover = ProverStore::default();
    assert!(!verifier.wants_assign());
    assert!(!prover.wants_assign());
    let a = verifier.alloc_output(8);
    let _ = verifier.decode(a).unwrap();
    assert!(!verifier.wants_verify_data());
    let p = prover.alloc_output(8);
    let _ = prover.decode(p).unwrap();
    assert!(!prover.wants_decode());
    prover.set_macs(p, &[Block::zero(); 8]).unwrap();
    assert!(prover.wants_decode());
}
