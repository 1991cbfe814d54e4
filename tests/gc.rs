use mpz::block::Block;
use mpz::circuit::{Circuit, Gate};
use mpz::correlated::{Delta, MacStore};
use mpz::gc::{evaluate, from_batches, generate, into_batches, tweak_hash_exec, EncryptedGate, GarbleError};
use mpz::memory::Slice;
use mpz::prg::Prg;

fn adder_bit() -> Circuit {
    // full adder: inputs a=0, b=1, c=2; s = a ^ b ^ c (4); carry = (a & b) ^ (c & (a ^ b)) (7); !carry (8)
    Circuit::new(
        vec![0, 1, 2],
        vec![4, 7, 8],
        vec![
            Gate::Xor { x: 0, y: 1, z: 3 },
            Gate::Xor { x: 3, y: 2, z: 4 },
            Gate::And { x: 0, y: 1, z: 5 },
            Gate::And { x: 2, y: 3, z: 6 },
            Gate::Xor { x: 5, y: 6, z: 7 },
            Gate::Inv { x: 7, z: 8 },
        ],
        9,
    )
    .unwrap()
}

fn run(input: [bool; 3]) {
    let circ = adder_bit();
    let mut prg = Prg::from_seed(Block::new(21));
    let delta = Delta::new(prg.random_block());
    let d = delta.as_block();
    let zero = prg.random_blocks(3);
    let active: Vec<Block> = zero
        .iter()
        .zip(input.iter())
        .map(|(k, x)| if *x { k.xor(d) } else { *k })
        .collect();
    let (tables, gen_out) = generate(&circ, delta, &zero).unwrap();
    assert_eq!(tables.len(), 2);
    let ev_out = evaluate(&circ, &active, &tables).unwrap();
    let plain = circ.evaluate(&input.to_vec()).unwrap();
    for ((k, m), v) in gen_out.outputs.iter().zip(&ev_out.outputs).zip(&plain) {
        assert_eq!(*m, if *v { k.xor(d) } else { *k });
    }
}

#[test]
fn garbled_outputs_are_labels_of_plain_outputs() {
    for bits in 0..8u8 {
        run([bits & 1 == 1, bits & 2 == 2, bits & 4 == 4]);
    }
}

#[test]
fn garbled_full_adder_values() {
    let circ = adder_bit();
    assert_eq!(circ.evaluate(&vec![true, true, false]).unwrap(), vec![false, true, false]);
    assert_eq!(circ.evaluate(&vec![true, true, true]).unwrap(), vec![true, true, false]);
}

#[test]
fn garbled_count_errors() {
    let circ = adder_bit();
    let delta = Delta::new(Block::new(3));
    assert_eq!(generate(&circ, delta, &vec![Block::zero(); 2]).err(), Some(GarbleError::InvalidInputCount));
    assert_eq!(evaluate(&circ, &vec![Block::zero(); 3], &vec![]).err(), Some(GarbleError::InvalidGateCount));
}

#[test]
fn tweak_hash_is_blake3_of_label_and_tweak() {
    let x = Block::new(0x0102_0304_0506_0708_090a_0b0c_0d0e_0f10);
    let mut input = x.to_bytes().to_vec();
    input.extend_from_slice(&7u64.to_le_bytes());
    let digest = blake3::hash(&input);
    let mut first = [0u8; 16];
    first.copy_from_slice(&digest.as_bytes()[..16]);
    assert_eq!(tweak_hash_exec(x, 7), Block::from_bytes(first));
    assert_ne!(tweak_hash_exec(x, 7), tweak_hash_exec(x, 8));
}

#[test]
fn mac_proof_is_blake3_of_encodings() {
    let mut macs = MacStore::new();
    let blocks = vec![Block::new(5), Block::new(1u128 << 100)];
    let s = macs.alloc_with(&blocks);
    let (bits, digest) = macs.prove(&Slice::to_rangeset(&vec![s])).unwrap();
    assert_eq!(bits, vec![true, false]);
    let mut bytes = Vec::new();
    for b in &blocks {
        bytes.extend_from_slice(&b.to_bytes());
    }
    assert_eq!(&digest, blake3::hash(&bytes).as_bytes());
}

#[test]
fn batches_pad_and_trim() {
    let gates: Vec<EncryptedGate> = (0..300u128).map(|i| [Block::new(i), Block::new(i + 1000)]).collect();
    let batches = into_batches(&gates);
    assert_eq!(batches.len(), 3);
    assert_eq!(batches[2].gates[43], [Block::new(299), Block::new(1299)]);
    assert_eq!(batches[2].gates[44], [Block::zero(), Block::zero()]);
    assert_eq!(from_batches(&batches, 300), gates);
    assert!(into_batches(&vec![]).is_empty());
}

#[test]
fn circuit_without_and_gates_needs_no_tables() {
    let circ = Circuit::new(
        vec![0, 1],
        vec![2, 3],
        vec![Gate::Xor { x: 0, y: 1, z: 2 }, Gate::Inv { x: 2, z: 3 }],
        4,
    )
    .unwrap();
    let delta = Delta::new(Block::new(0xabc));
    let d = delta.as_block();
    let zero = vec![Block::new(10), Block::new(20)];
    let active = vec![zero[0].xor(d), zero[1]];
    let (tables, gen_out) = generate(&circ, delta, &zero).unwrap();
    assert!(tables.is_empty());
    let ev_out = evaluate(&circ, &active, &tables).unwrap();
    assert_eq!(ev_out.outputs[0], gen_out.outputs[0].xor(d));
    assert_eq!(ev_out.outputs[1], gen_out.outputs[1]);
}
