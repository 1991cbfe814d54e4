use mpz::block::Block;
use mpz::circuit::{Circuit, Gate};
use mpz::correlated::Delta;
use mpz::ot::{IdealCOT, IdealVOPE, RCOTReceiverOutput, RCOTSenderOutput};
use mpz::prg::Prg;
use mpz::quicksilver::{bools_to_bytes, bytes_to_bools, Prover, Verifier};
use mpz::zk;

fn assert_cot(delta: Block, choices: &[bool], msgs: &[Block], received: &[Block]) {
    assert!(choices.len() == msgs.len() && msgs.len() == received.len());
    for ((c, m), r) in choices.iter().zip(msgs).zip(received) {
        if *c {
            assert_eq!(*m, r.xor(delta));
        } else {
            assert_eq!(m, r);
        }
    }
}

#[test]
fn test_qs_core() {
    const N: usize = 200;
    let mut prg = Prg::from_seed(Block::new(7));
    let input = prg.random_bools(N);
    let mut delta = prg.random_block();
    delta.set_lsb(true);

    let mut ideal_cot = IdealCOT::new(Block::zero(), delta);
    let mut ideal_vope = IdealVOPE::new(Block::zero(), delta);

    let mut prover = Prover::new();
    let mut verifier = Verifier::new(Delta::new(delta));

    let (cot_sender, cot_receiver) = ideal_cot.random_correlated(input.len());

    let (masks, prover_labels) = prover.auth_input_bits(&input, cot_receiver).unwrap();

    let verifier_labels = verifier.auth_input_bits(&masks, cot_sender).unwrap();
    let input_exp: Vec<bool> = prover_labels.iter().map(|x| x.lsb()).collect();
    assert_eq!(input, input_exp);

    assert_cot(delta, &input, &prover_labels, &verifier_labels);

    let mut output_macs = vec![Block::zero(); N];
    let mut output_keys = vec![Block::zero(); N];
    for i in 0..N {
        let (cot_sender, cot_receiver) = ideal_cot.random_correlated(1);
        let RCOTReceiverOutput { choices: s, msgs: blks, .. } = cot_receiver;
        let (mask, tmp) = prover.auth_and_gate(prover_labels[i], prover_labels[i], (s[0], blks[0]));
        output_macs[i] = tmp;
        let RCOTSenderOutput { msgs: blks, .. } = cot_sender;
        output_keys[i] = verifier.auth_and_gate(verifier_labels[i], verifier_labels[i], mask, blks[0]);
    }

    assert_cot(delta, &input, &output_macs, &output_keys);

    let (vope_sender, vope_receiver) = ideal_vope.random_correlated(1);

    let (u, v) = prover.check_and_gates((vope_receiver.coeff[0], vope_receiver.coeff[1]));

    verifier.check_and_gates(vope_sender, u, v);

    let hash = prover.finish(&output_macs);
    verifier.finish(hash, &output_keys, &input).unwrap();

    assert!(verifier.checked());
}

#[test]
fn flipped_and_output_fails_the_check() {
    let mut prg = Prg::from_seed(Block::new(11));
    let input = prg.random_bools(16);
    let mut delta = prg.random_block();
    delta.set_lsb(true);
    let mut cot = IdealCOT::new(Block::new(1), delta);
    let mut vope = IdealVOPE::new(Block::new(2), delta);
    let mut prover = Prover::new();
    let mut verifier = Verifier::new(Delta::new(delta));
    let (s, r) = cot.random_correlated(16);
    let (masks, macs) = prover.auth_input_bits(&input, r).unwrap();
    let keys = verifier.auth_input_bits(&masks, s).unwrap();
    for i in 0..15 {
        let (cs, cr) = cot.random_correlated(1);
        let (mask, _) = prover.auth_and_gate(macs[i], macs[i + 1], (cr.choices[0], cr.msgs[0]));
        let mask = if i == 7 { !mask } else { mask };
        verifier.auth_and_gate(keys[i], keys[i + 1], mask, cs.msgs[0]);
    }
    let (vs, vr) = vope.random_correlated(1);
    let (u, v) = prover.check_and_gates((vr.coeff[0], vr.coeff[1]));
    verifier.check_and_gates(vs, u, v);
    assert!(!verifier.checked());
}

#[test]
fn wrong_output_hash_is_rejected() {
    let mut verifier = Verifier::new(Delta::new(Block::new(3)));
    verifier.finish([0u8; 32], &vec![Block::new(1)], &vec![true]).unwrap();
    assert!(!verifier.checked());
    assert!(verifier.finish([0u8; 32], &vec![Block::new(1)], &vec![]).is_err());
}

#[test]
fn bools_bytes_round_trip() {
    let bits = vec![true, false, true, true, false, false, false, true, true, true];
    let bytes = bools_to_bytes(&bits);
    assert_eq!(bytes, vec![0b1011_0001, 0b1100_0000]);
    let back = bytes_to_bools(&bytes);
    assert_eq!(back.len(), 16);
    assert_eq!(&back[..10], &bits[..]);
    assert!(back[10..].iter().all(|b| !b));
    assert!(bools_to_bytes(&[]).is_empty());
}

fn small_circuit() -> Circuit {
    // wires: 0, 1, 2 inputs; 3 = 0 & 1; 4 = 3 ^ 2; 5 = !4; 6 = 5 & 0
    Circuit::new(
        vec![0, 1, 2],
        vec![4, 5, 6],
        vec![
            Gate::And { x: 0, y: 1, z: 3 },
            Gate::Xor { x: 3, y: 2, z: 4 },
            Gate::Inv { x: 4, z: 5 },
            Gate::And { x: 5, y: 0, z: 6 },
        ],
        7,
    )
    .unwrap()
}

fn run_zk(input: &[bool], tamper: bool) -> bool {
    let circ = small_circuit();
    let mut prg = Prg::from_seed(Block::new(13));
    let mut delta = prg.random_block();
    delta.set_lsb(true);
    let mut cot = IdealCOT::new(Block::new(4), delta);
    let mut vope = IdealVOPE::new(Block::new(5), delta);

    let (s, r) = cot.random_correlated(input.len());
    let mut prover = zk::Prover::new();
    let mut verifier = zk::Verifier::new(Delta::new(delta));
    let (masks, input_macs) = prover.auth_inputs(input, r).unwrap();
    let input_keys = verifier.auth_inputs(&masks, s).unwrap();

    let (gs, gr) = cot.random_correlated(circ.and_count());
    let (mut adjust, output_macs) = prover.execute(&circ, &input_macs, &gr.choices, &gr.msgs).unwrap();
    if tamper {
        adjust[1] = !adjust[1];
    }
    let output_keys = verifier.execute(&circ, &input_keys, &gs.msgs, &adjust).unwrap();

    let outputs = circ.evaluate(&input.to_vec()).unwrap();
    for ((m, k), o) in output_macs.iter().zip(&output_keys).zip(&outputs) {
        if !tamper {
            assert_eq!(*m, if *o { k.xor(delta) } else { *k });
        }
    }

    let (vs, vr) = vope.random_correlated(1);
    let (u, v) = prover.check(vr.coeff[0], vr.coeff[1]);
    verifier.check(vs, u, v);
    verifier.checked()
}

#[test]
fn zk_circuit_completeness() {
    assert!(run_zk(&[true, true, false], false));
    assert!(run_zk(&[true, false, true], false));
    assert!(run_zk(&[false, false, false], false));
}

#[test]
fn zk_circuit_tampered_and_gate_is_rejected() {
    assert!(!run_zk(&[true, true, false], true));
}

#[test]
fn circuit_evaluates_plaintext() {
    let circ = small_circuit();
    assert_eq!(circ.evaluate(&vec![true, true, false]).unwrap(), vec![true, false, false]);
    assert_eq!(circ.evaluate(&vec![true, false, false]).unwrap(), vec![false, true, true]);
    assert!(circ.evaluate(&vec![true]).is_err());
    assert!(Circuit::new(vec![0], vec![9], vec![], 2).is_err());
}

#[test]
fn zk_length_mismatch_is_an_error() {
    let circ = small_circuit();
    let mut prover = zk::Prover::new();
    assert_eq!(
        prover.execute(&circ, &vec![Block::zero(); 3], &vec![false], &vec![Block::zero()]),
        Err(zk::ZkError::InvalidLength)
    );
}

#[test]
fn test_zk() {
    let circ = small_circuit();
    let mut prg = Prg::from_seed(Block::new(0));
    let delta = Delta::new(prg.random_block());
    let mut cot = IdealCOT::new(prg.random_block(), delta.into_inner());

    let (
        RCOTSenderOutput { msgs: keys, .. },
        RCOTReceiverOutput {
            choices,
            msgs: macs,
            ..
        },
    ) = cot.random_correlated(circ.input_len() + circ.and_count());

    let input_keys = keys[..circ.input_len()].to_vec();
    let gate_keys = keys[circ.input_len()..].to_vec();
    let input_macs = macs[..circ.input_len()].to_vec();
    let gate_masks = choices[circ.input_len()..].to_vec();
    let gate_macs = macs[circ.input_len()..].to_vec();

    let mut prover = zk::Prover::new();
    let mut verifier = zk::Verifier::new(delta);

    let (adjust, output_macs) = prover
        .execute(&circ, &input_macs, &gate_masks, &gate_macs)
        .unwrap();
    let output_keys = verifier
        .execute(&circ, &input_keys, &gate_keys, &adjust)
        .unwrap();

    assert_eq!(adjust.len(), circ.and_count());
    assert_eq!(output_macs.len(), circ.output_len());
    assert_eq!(output_keys.len(), circ.output_len());
}

#[test]
fn stepwise_runs_match_execute() {
    let circ = small_circuit();
    let mut prg = Prg::from_seed(Block::new(31));
    let mut delta = prg.random_block();
    delta.set_lsb(true);
    let mut cot = IdealCOT::new(Block::new(6), delta);
    let mut vope = IdealVOPE::new(Block::new(7), delta);
    let input = [true, true, false];

    let mut prover = zk::Prover::new();
    let mut verifier = zk::Verifier::new(Delta::new(delta));
    let (s, r) = cot.random_correlated(3);
    let (masks, input_macs) = prover.auth_inputs(&input, r).unwrap();
    let input_keys = verifier.auth_inputs(&masks, s).unwrap();
    let (gs, gr) = cot.random_correlated(circ.and_count());

    let mut prun = prover.begin(&circ, &input_macs).unwrap();
    let mut vrun = verifier.begin(&circ, &input_keys).unwrap();
    while !prun.is_done(&circ) {
        let adjust = prover.step(&mut prun, &circ, &gr.choices, &gr.msgs);
        let used = verifier.step(&mut vrun, &circ, &gs.msgs, &adjust);
        assert_eq!(used, adjust.len());
        if prover.window_full() {
            let (vs, vr) = vope.random_correlated(1);
            let (u, v) = prover.check(vr.coeff[0], vr.coeff[1]);
            verifier.check(vs, u, v);
        }
    }
    assert!(vrun.is_done(&circ));
    let output_macs = prover.finish(prun, &circ);
    let output_keys = verifier.finish(vrun, &circ);
    let outputs = circ.evaluate(&input.to_vec()).unwrap();
    for ((m, k), o) in output_macs.iter().zip(&output_keys).zip(&outputs) {
        assert_eq!(*m, if *o { k.xor(delta) } else { *k });
    }
    let (vs, vr) = vope.random_correlated(1);
    let (u, v) = prover.check(vr.coeff[0], vr.coeff[1]);
    verifier.check(vs, u, v);
    assert!(verifier.checked());
}
