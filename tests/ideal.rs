use mpz::block::Block;
use mpz::ot::{
    poly_check, COTReceiverOutput, COTSenderOutput, IdealCOT, IdealVOPE, RCOTReceiverOutput,
    RCOTSenderOutput, VOPEReceiverOutput, VOPESenderOutput,
};
use rand::{Rng, SeedableRng};
use rand_chacha::ChaCha8Rng;

fn assert_cot(delta: Block, choices: &[bool], msgs: &[Block], received: &[Block]) {
    assert!(choices.len() == msgs.len() && msgs.len() == received.len());
    for ((c, m), r) in choices.iter().zip(msgs).zip(received) {
        if *c {
            assert_eq!(*r, m.xor(delta));
        } else {
            assert_eq!(r, m);
        }
    }
}

#[test]
fn test_ideal_rcot() {
    let mut ideal = IdealCOT::default();

    let (
        RCOTSenderOutput { msgs, .. },
        RCOTReceiverOutput {
            choices,
            msgs: received,
            ..
        },
    ) = ideal.random_correlated(100);

    assert_cot(ideal.delta(), &choices, &msgs, &received)
}

#[test]
fn test_ideal_cot() {
    let mut ideal = IdealCOT::default();

    let mut rng = ChaCha8Rng::seed_from_u64(0);
    let msgs: Vec<Block> = (0..100).map(|_| Block::new(rng.gen())).collect();
    let mut choices = vec![false; 100];
    rng.fill(&mut choices[..]);

    let (COTSenderOutput { msgs, .. }, COTReceiverOutput { msgs: received, .. }) =
        ideal.correlated(msgs, choices.clone());

    assert_cot(ideal.delta(), &choices, &msgs, &received)
}

#[test]
fn test_ideal_vope() {
    let mut ideal = IdealVOPE::default();

    let (VOPESenderOutput { eval, .. }, VOPEReceiverOutput { coeff, .. }) =
        ideal.random_correlated(10);

    assert!(poly_check(&coeff, eval, ideal.delta()));
}

#[test]
fn vope_degree_one_masks_relation() {
    let mut ideal = IdealVOPE::new(Block::new(9), Block::new(0x77));
    let (s, r) = ideal.random_correlated(1);
    assert_eq!(r.coeff.len(), 2);
    assert_eq!(s.eval, r.coeff[0].xor(Block::new(0x77).gfmul(r.coeff[1])));
    assert!(!poly_check(&r.coeff, s.eval.xor(Block::new(1)), Block::new(0x77)));
    assert_eq!(ideal.count(), 1);
}

#[test]
fn ideal_counts_transfers() {
    let mut ideal = IdealCOT::new(Block::new(1), Block::new(3));
    let _ = ideal.random_correlated(5);
    let _ = ideal.correlated(vec![Block::new(1)], vec![true]);
    assert_eq!(ideal.count(), 6);
}

#[test]
fn transfer_ids_advance_once_per_call() {
    let mut ideal = IdealCOT::new(Block::new(1), Block::new(3));
    let id0 = ideal.transfer_id();
    let (a, _) = ideal.random_correlated(2);
    let (b, _) = ideal.correlated(vec![Block::new(1)], vec![false]);
    assert_eq!(a.id, id0);
    assert_ne!(a.id, b.id);
    ideal.set_delta(Block::new(5));
    assert_eq!(ideal.transfer_id().0, id0.0 + 2);
    assert_eq!(ideal.delta(), Block::new(5));
}
