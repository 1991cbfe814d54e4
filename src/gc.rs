//! Garbled circuits with free XOR and half-gate AND gates.
//!
//! The generator holds the zero label `K_w` of each wire; the label of value `v`
//! is `K_w ^ (v * Δ)`. The evaluator holds, for each wire, the label of the
//! wire's actual value. XOR gates are free. An INV gate gives the output wire
//! the zero label `K_x ^ Δ`, so the evaluator keeps its label unchanged. Each
//! AND gate costs two blocks, and its labels are derived with a hash of a label
//! and a per-gate tweak.
use vstd::prelude::*;

use crate::block::{byte_of, le_bytes, Block};
use crate::circuit::{and_count_upto, assign_wires, gate_in_bounds, plain_run, plain_step, Circuit, Gate};
use crate::correlated::{lsb, mac_of, Delta};
use crate::hash::{blake3_digest, hash, push_block_bytes};
use crate::zk::{lemma_and_count_mono, load_inputs, read_outputs, zero_buffer, zero_wires};

verus! {

/// The little-endian encoding of a tweak.
pub open spec fn tweak_bytes(t: u64) -> Seq<u8> {
    Seq::new(8, |i: int| ((t >> ((8 * i) as u64)) & 0xffu64) as u8)
}

/// Whether `r` is the hash of label `x` under tweak `t`: the first 16 bytes of
/// the BLAKE3 digest of the label's encoding followed by the tweak's.
pub open spec fn is_tweak_hash(r: u128, x: u128, t: u64) -> bool {
    le_bytes(r) == blake3_digest(le_bytes(x) + tweak_bytes(t)).subrange(0, 16)
}

/// The hash of label `x` under tweak `t`.
pub open spec fn tweak_hash(x: u128, t: u64) -> u128 {
    choose|r: u128| is_tweak_hash(r, x, t)
}

proof fn lemma_byte_eq(a: u128, b: u128, i: int)
    requires
        0 <= i < 16,
        le_bytes(a) == le_bytes(b),
    ensures
        (a >> ((8 * i) as u128)) & 0xffu128 == (b >> ((8 * i) as u128)) & 0xffu128,
{
    assert(le_bytes(a)[i] == le_bytes(b)[i]);
    assert(le_bytes(a)[i] == byte_of(a, i));
    assert(le_bytes(b)[i] == byte_of(b, i));
    let s = (8 * i) as u128;
    let x = (a >> s) & 0xffu128;
    let y = (b >> s) & 0xffu128;
    assert(byte_of(a, i) == x as u8 && byte_of(b, i) == y as u8);
    assert(x <= 0xffu128 && y <= 0xffu128) by (bit_vector)
        requires
            x == (a >> s) & 0xffu128,
            y == (b >> s) & 0xffu128,
    ;
    assert(x <= 0xffu128 && y <= 0xffu128 && x as u8 == y as u8 ==> x == y) by (bit_vector);
}

/// Two values with the same encoding are equal.
pub proof fn lemma_le_bytes_injective(a: u128, b: u128)
    requires
        le_bytes(a) == le_bytes(b),
    ensures
        a == b,
{
    lemma_byte_eq(a, b, 0);
    lemma_byte_eq(a, b, 1);
    lemma_byte_eq(a, b, 2);
    lemma_byte_eq(a, b, 3);
    lemma_byte_eq(a, b, 4);
    lemma_byte_eq(a, b, 5);
    lemma_byte_eq(a, b, 6);
    lemma_byte_eq(a, b, 7);
    lemma_byte_eq(a, b, 8);
    lemma_byte_eq(a, b, 9);
    lemma_byte_eq(a, b, 10);
    lemma_byte_eq(a, b, 11);
    lemma_byte_eq(a, b, 12);
    lemma_byte_eq(a, b, 13);
    lemma_byte_eq(a, b, 14);
    lemma_byte_eq(a, b, 15);
    assert(
        (a >> 0u128) & 0xffu128 == (b >> 0u128) & 0xffu128 && (a >> 8u128) & 0xffu128 == (b >> 8u128) & 0xffu128
        && (a >> 16u128) & 0xffu128 == (b >> 16u128) & 0xffu128 && (a >> 24u128) & 0xffu128 == (b >> 24u128) & 0xffu128
        && (a >> 32u128) & 0xffu128 == (b >> 32u128) & 0xffu128 && (a >> 40u128) & 0xffu128 == (b >> 40u128) & 0xffu128
        && (a >> 48u128) & 0xffu128 == (b >> 48u128) & 0xffu128 && (a >> 56u128) & 0xffu128 == (b >> 56u128) & 0xffu128
        && (a >> 64u128) & 0xffu128 == (b >> 64u128) & 0xffu128 && (a >> 72u128) & 0xffu128 == (b >> 72u128) & 0xffu128
        && (a >> 80u128) & 0xffu128 == (b >> 80u128) & 0xffu128 && (a >> 88u128) & 0xffu128 == (b >> 88u128) & 0xffu128
        && (a >> 96u128) & 0xffu128 == (b >> 96u128) & 0xffu128 && (a >> 104u128) & 0xffu128 == (b >> 104u128) & 0xffu128
        && (a >> 112u128) & 0xffu128 == (b >> 112u128) & 0xffu128 && (a >> 120u128) & 0xffu128 == (b >> 120u128) & 0xffu128
        ==> a == b) by (bit_vector);
}

/// Returns the hash of label `x` under tweak `t`.
pub fn tweak_hash_exec(x: Block, t: u64) -> (r: Block)
    ensures
        r.0 == tweak_hash(x.0, t),
{
    let mut input: Vec<u8> = Vec::with_capacity(24);
    push_block_bytes(&mut input, x);
    let mut i: usize = 0;
    while i < 8
        invariant
            i <= 8,
            input@ == le_bytes(x.0) + tweak_bytes(t).subrange(0, i as int),
        decreases 8 - i,
    {
        let sh: u64 = 8 * (i as u64);
        input.push(((t >> sh) & 0xff) as u8);
        assert(input@ =~= le_bytes(x.0) + tweak_bytes(t).subrange(0, i + 1));
        i = i + 1;
    }
    assert(tweak_bytes(t).subrange(0, 8) =~= tweak_bytes(t));
    let digest = hash(input.as_slice());
    let mut first: [u8; 16] = [0u8; 16];
    let mut j: usize = 0;
    while j < 16
        invariant
            j <= 16,
            first@.len() == 16,
            digest@.len() == 32,
            forall|k: int| 0 <= k < j ==> first@[k] == digest@[k],
        decreases 16 - j,
    {
        first[j] = digest[j];
        j = j + 1;
    }
    assert(first@ =~= digest@.subrange(0, 16));
    let r = Block::from_bytes(first);
    proof {
        assert(is_tweak_hash(r.0, x.0, t));
        let c = tweak_hash(x.0, t);
        assert(is_tweak_hash(c, x.0, t));
        lemma_le_bytes_injective(r.0, c);
    }
    r
}

/// `x` if `b`, else zero.
pub open spec fn sel(b: bool, x: u128) -> u128 {
    if b {
        x
    } else {
        0
    }
}

/// The generator half's table entry of AND gate `j` with input zero labels `ka`, `kb`.
pub open spec fn table_g(ka: u128, kb: u128, delta: u128, j: u64) -> u128 {
    tweak_hash(ka, (2 * j) as u64) ^ tweak_hash(ka ^ delta, (2 * j) as u64) ^ sel(lsb(kb), delta)
}

/// The evaluator half's table entry of AND gate `j`.
pub open spec fn table_e(ka: u128, kb: u128, delta: u128, j: u64) -> u128 {
    tweak_hash(kb, (2 * j + 1) as u64) ^ tweak_hash(kb ^ delta, (2 * j + 1) as u64) ^ ka
}

/// The output zero label of AND gate `j`.
pub open spec fn and_zero_label(ka: u128, kb: u128, delta: u128, j: u64) -> u128 {
    (tweak_hash(ka, (2 * j) as u64) ^ sel(lsb(ka), table_g(ka, kb, delta, j)))
        ^ (tweak_hash(kb, (2 * j + 1) as u64) ^ sel(lsb(kb), table_e(ka, kb, delta, j) ^ ka))
}

/// The evaluator's output label of AND gate `j` from its input labels and the table.
pub open spec fn and_eval_label(wa: u128, wb: u128, tg: u128, te: u128, j: u64) -> u128 {
    (tweak_hash(wa, (2 * j) as u64) ^ sel(lsb(wa), tg)) ^ (tweak_hash(wb, (2 * j + 1) as u64) ^ sel(lsb(wb), te ^ wa))
}

/// Half-gates are correct: evaluating an AND gate on the labels of values `a` and
/// `b` gives the label of `a & b`.
pub proof fn lemma_half_gates(ka: u128, kb: u128, a: bool, b: bool, delta: u128, j: u64)
    requires
        lsb(delta),
    ensures
        and_eval_label(mac_of(ka, a, delta), mac_of(kb, b, delta), table_g(ka, kb, delta, j), table_e(ka, kb, delta, j), j)
            == mac_of(and_zero_label(ka, kb, delta, j), a && b, delta),
{
    let t1 = (2 * j) as u64;
    let t2 = (2 * j + 1) as u64;
    let h0 = tweak_hash(ka, t1);
    let h1 = tweak_hash(ka ^ delta, t1);
    let g0 = tweak_hash(kb, t2);
    let g1 = tweak_hash(kb ^ delta, t2);
    let wa = mac_of(ka, a, delta);
    let wb = mac_of(kb, b, delta);
    crate::correlated::lemma_authenticate_pointer_bit(ka, a, delta);
    crate::correlated::lemma_authenticate_pointer_bit(kb, b, delta);
    assert(tweak_hash(wa, t1) == if a { h1 } else { h0 });
    assert(tweak_hash(wb, t2) == if b { g1 } else { g0 });
    let pa = lsb(ka);
    let pb = lsb(kb);
    let tg = h0 ^ h1 ^ sel(pb, delta);
    let te = g0 ^ g1 ^ ka;
    assert(table_g(ka, kb, delta, j) == tg);
    assert(table_e(ka, kb, delta, j) == te);
    assert(lsb(wa) == (pa != a));
    assert(lsb(wb) == (pb != b));
    crate::gf::lemma_xor_facts();
}

/// An AND gate's table: the generator half's and the evaluator half's entries.
pub type EncryptedGate = [Block; 2];

/// The generator's output zero labels.
#[derive(Debug)]
pub struct GeneratorOutput {
    /// Zero labels of the output wires.
    pub outputs: Vec<Block>,
}

/// The evaluator's output labels.
#[derive(Debug)]
pub struct EvaluatorOutput {
    /// Labels of the output wires.
    pub outputs: Vec<Block>,
}

/// Errors of garbling or evaluation.
#[derive(Clone, Copy, Debug, PartialEq, Eq, Structural)]
pub enum GarbleError {
    /// The number of input labels does not match the circuit.
    InvalidInputCount,
    /// The number of encrypted gates does not match the circuit's AND gates.
    InvalidGateCount,
    /// A tweak would overflow.
    TooManyGates,
}

/// One gate applied to the generator's zero labels; `ctr` counts the AND gates before it.
pub open spec fn gen_step(w: Seq<Block>, g: Gate, delta: u128, ctr: nat) -> Seq<Block> {
    match g {
        Gate::Xor { x, y, z } => w.update(z as int, Block(w[x as int].0 ^ w[y as int].0)),
        Gate::And { x, y, z } => w.update(z as int, Block(and_zero_label(w[x as int].0, w[y as int].0, delta, ctr as u64))),
        Gate::Inv { x, z } => w.update(z as int, Block(w[x as int].0 ^ delta)),
    }
}

/// The generator's zero labels after the first `k` gates.
pub open spec fn gen_run(gates: Seq<Gate>, w0: Seq<Block>, delta: u128, k: nat) -> Seq<Block>
    decreases k,
{
    if k == 0 {
        w0
    } else {
        gen_step(gen_run(gates, w0, delta, (k - 1) as nat), gates[k - 1], delta, and_count_upto(gates, (k - 1) as nat))
    }
}

/// The tables of the AND gates among the first `k` gates.
pub open spec fn gen_tables(gates: Seq<Gate>, w0: Seq<Block>, delta: u128, k: nat) -> Seq<EncryptedGate>
    decreases k,
{
    if k == 0 {
        Seq::empty()
    } else {
        let prev = gen_tables(gates, w0, delta, (k - 1) as nat);
        match gates[k - 1] {
            Gate::And { x, y, z } => {
                let w = gen_run(gates, w0, delta, (k - 1) as nat);
                let j = and_count_upto(gates, (k - 1) as nat) as u64;
                prev.push([Block(table_g(w[x as int].0, w[y as int].0, delta, j)), Block(table_e(w[x as int].0, w[y as int].0, delta, j))])
            },
            _ => prev,
        }
    }
}

/// One gate applied to the evaluator's labels; `ctr` counts the AND gates before it.
pub open spec fn eval_step(w: Seq<Block>, g: Gate, tables: Seq<EncryptedGate>, ctr: nat) -> Seq<Block> {
    match g {
        Gate::Xor { x, y, z } => w.update(z as int, Block(w[x as int].0 ^ w[y as int].0)),
        Gate::And { x, y, z } => w.update(z as int, Block(and_eval_label(w[x as int].0, w[y as int].0, tables[ctr as int][0].0, tables[ctr as int][1].0, ctr as u64))),
        Gate::Inv { x, z } => w.update(z as int, w[x as int]),
    }
}

/// The evaluator's labels after the first `k` gates.
pub open spec fn eval_run(gates: Seq<Gate>, w0: Seq<Block>, tables: Seq<EncryptedGate>, k: nat) -> Seq<Block>
    decreases k,
{
    if k == 0 {
        w0
    } else {
        eval_step(eval_run(gates, w0, tables, (k - 1) as nat), gates[k - 1], tables, and_count_upto(gates, (k - 1) as nat))
    }
}

/// The tables number the AND gates seen, and grow by appending.
pub proof fn lemma_tables_prefix(gates: Seq<Gate>, w0: Seq<Block>, delta: u128, k: nat, n: nat)
    requires
        k <= n <= gates.len(),
    ensures
        gen_tables(gates, w0, delta, k).len() == and_count_upto(gates, k),
        forall|i: int| 0 <= i < and_count_upto(gates, k) ==> #[trigger] gen_tables(gates, w0, delta, k)[i] == gen_tables(gates, w0, delta, n)[i],
    decreases n,
{
    if n > k {
        lemma_tables_prefix(gates, w0, delta, k, (n - 1) as nat);
        lemma_tables_prefix(gates, w0, delta, (n - 1) as nat, (n - 1) as nat);
        lemma_and_count_mono(gates, k, (n - 1) as nat);
    } else if k > 0 {
        lemma_tables_prefix(gates, w0, delta, (k - 1) as nat, (k - 1) as nat);
    }
}

/// Garbled evaluation is consistent: when the evaluator starts with the labels
/// of the plaintext values under the generator's zero labels and evaluates with
/// the generator's tables, then after any number of gates each of its labels is
/// the label of the wire's plaintext value.
pub proof fn lemma_garbled_consistent(gates: Seq<Gate>, k0: Seq<Block>, m0: Seq<Block>, v0: Seq<bool>, delta: u128, k: nat)
    requires
        lsb(delta),
        k <= gates.len(),
        k0.len() == v0.len(),
        m0.len() == v0.len(),
        forall|j: int| 0 <= j < v0.len() ==> (#[trigger] m0[j]).0 == mac_of(k0[j].0, v0[j], delta),
        forall|i: int| 0 <= i < gates.len() ==> gate_in_bounds(#[trigger] gates[i], v0.len()),
    ensures
        gen_run(gates, k0, delta, k).len() == v0.len(),
        eval_run(gates, m0, gen_tables(gates, k0, delta, gates.len()), k).len() == v0.len(),
        plain_run(gates, v0, k).len() == v0.len(),
        forall|j: int| 0 <= j < v0.len() ==> (#[trigger] eval_run(gates, m0, gen_tables(gates, k0, delta, gates.len()), k)[j]).0
            == mac_of(gen_run(gates, k0, delta, k)[j].0, plain_run(gates, v0, k)[j], delta),
    decreases k,
{
    if k > 0 {
        let kk = (k - 1) as nat;
        lemma_garbled_consistent(gates, k0, m0, v0, delta, kk);
        let tables = gen_tables(gates, k0, delta, gates.len());
        let gw = gen_run(gates, k0, delta, kk);
        let ew = eval_run(gates, m0, tables, kk);
        let pv = plain_run(gates, v0, kk);
        let ctr = and_count_upto(gates, kk);
        let g = gates[kk as int];
        assert(gate_in_bounds(g, v0.len()));
        let gw2 = gen_run(gates, k0, delta, k);
        let ew2 = eval_run(gates, m0, tables, k);
        let pv2 = plain_run(gates, v0, k);
        assert(gw2 == gen_step(gw, g, delta, ctr));
        assert(ew2 == eval_step(ew, g, tables, ctr));
        assert(pv2 == plain_step(pv, g));
        match g {
            Gate::Xor { x, y, z } => {
                assert(ew[x as int].0 == mac_of(gw[x as int].0, pv[x as int], delta));
                assert(ew[y as int].0 == mac_of(gw[y as int].0, pv[y as int], delta));
                let (kx, ky) = (gw[x as int].0, gw[y as int].0);
                assert((kx ^ delta) ^ (ky ^ delta) == kx ^ ky && (kx ^ delta) ^ ky == (kx ^ ky) ^ delta
                    && kx ^ (ky ^ delta) == (kx ^ ky) ^ delta) by (bit_vector);
            },
            Gate::Inv { x, z } => {
                assert(ew[x as int].0 == mac_of(gw[x as int].0, pv[x as int], delta));
                let kx = gw[x as int].0;
                assert((kx ^ delta) ^ delta == kx) by (bit_vector);
            },
            Gate::And { x, y, z } => {
                assert(ew[x as int].0 == mac_of(gw[x as int].0, pv[x as int], delta));
                assert(ew[y as int].0 == mac_of(gw[y as int].0, pv[y as int], delta));
                lemma_and_count_mono(gates, k, gates.len());
                lemma_tables_prefix(gates, k0, delta, k, gates.len());
                assert(tables[ctr as int] == gen_tables(gates, k0, delta, k)[ctr as int]);
                lemma_half_gates(gw[x as int].0, gw[y as int].0, pv[x as int], pv[y as int], delta, ctr as u64);
            },
        }
        assert forall|j: int| 0 <= j < v0.len() implies (#[trigger] ew2[j]).0 == mac_of(gw2[j].0, pv2[j], delta) by {
            assert(ew[j].0 == mac_of(gw[j].0, pv[j], delta));
        }
    }
}


fn sel_exec(b: bool, x: Block) -> (r: Block)
    ensures
        r.0 == sel(b, x.0),
{
    if b {
        x
    } else {
        Block(0)
    }
}

/// Garbles `circ` with correlation `delta` and the inputs' zero labels: returns
/// the table of each AND gate, in order, and the outputs' zero labels.
pub fn generate(circ: &Circuit, delta: Delta, inputs: &Vec<Block>) -> (r: Result<(Vec<EncryptedGate>, GeneratorOutput), GarbleError>)
    requires
        circ.wf(),
    ensures
        r.is_ok() == (inputs@.len() == circ.input_wires().len() && and_count_upto(circ.spec_gates(), circ.spec_gates().len()) <= usize::MAX / 2),
        r.is_ok() ==> {
            let w0 = assign_wires(zero_wires(circ.spec_feed_count()), circ.input_wires(), inputs@);
            let n = circ.spec_gates().len();
            let wires = gen_run(circ.spec_gates(), w0, delta.value(), n);
            &&& r.unwrap().0@ == gen_tables(circ.spec_gates(), w0, delta.value(), n)
            &&& r.unwrap().1.outputs@ == circ.output_wires().map_values(|w: usize| wires[w as int])
        },
{
    let total = circ.and_count();
    if inputs.len() != circ.input_len() {
        return Err(GarbleError::InvalidInputCount);
    }
    if total > usize::MAX / 2 {
        return Err(GarbleError::TooManyGates);
    }
    proof {
        circ.lemma_wf();
    }
    let d = delta.as_block();
    let mut buffer = zero_buffer(circ.feed_count());
    load_inputs(&mut buffer, circ, inputs);
    let ghost w0 = buffer@;
    let ghost gs = circ.spec_gates();
    let gates = circ.gates();
    let mut tables: Vec<EncryptedGate> = Vec::with_capacity(total);
    let mut ctr: usize = 0;
    let mut k: usize = 0;
    while k < gates.len()
        invariant
            circ.wf(),
            gates@ == gs,
            gs == circ.spec_gates(),
            forall|i: int| 0 <= i < gs.len() ==> gate_in_bounds(#[trigger] gs[i], circ.spec_feed_count()),
            k <= gs.len(),
            total == and_count_upto(gs, gs.len()),
            total <= usize::MAX / 2,
            ctr == and_count_upto(gs, k as nat),
            ctr <= total,
            d.0 == delta.value(),
            buffer@ == gen_run(gs, w0, d.0, k as nat),
            buffer@.len() == circ.spec_feed_count(),
            tables@ == gen_tables(gs, w0, d.0, k as nat),
        decreases gs.len() - k,
    {
        assert(gate_in_bounds(gs[k as int], circ.spec_feed_count()));
        proof {
            lemma_and_count_mono(gs, (k + 1) as nat, gs.len());
        }
        match gates[k] {
            Gate::Xor { x, y, z } => {
                let b = buffer[x].xor(buffer[y]);
                buffer.set(z, b);
            },
            Gate::And { x, y, z } => {
                let ka = buffer[x];
                let kb = buffer[y];
                let t1: u64 = 2 * (ctr as u64);
                let t2: u64 = t1 + 1;
                let h0 = tweak_hash_exec(ka, t1);
                let h1 = tweak_hash_exec(ka.xor(d), t1);
                let g0 = tweak_hash_exec(kb, t2);
                let g1 = tweak_hash_exec(kb.xor(d), t2);
                let tg = h0.xor(h1).xor(sel_exec(kb.lsb(), d));
                let te = g0.xor(g1).xor(ka);
                let wg = h0.xor(sel_exec(ka.lsb(), tg));
                let we = g0.xor(sel_exec(kb.lsb(), te.xor(ka)));
                buffer.set(z, wg.xor(we));
                tables.push([tg, te]);
                ctr = ctr + 1;
            },
            Gate::Inv { x, z } => {
                let b = buffer[x].xor(d);
                buffer.set(z, b);
            },
        }
        k = k + 1;
    }
    let outputs = read_outputs(&buffer, circ);
    Ok((tables, GeneratorOutput { outputs }))
}

/// Evaluates the garbled `circ` on the inputs' labels with the AND gates' tables:
/// returns the outputs' labels.
pub fn evaluate(circ: &Circuit, inputs: &Vec<Block>, gates_tables: &Vec<EncryptedGate>) -> (r: Result<EvaluatorOutput, GarbleError>)
    requires
        circ.wf(),
    ensures
        r matches Err(GarbleError::InvalidInputCount) ==> inputs@.len() != circ.input_wires().len(),
        r matches Err(GarbleError::InvalidGateCount) ==> gates_tables@.len() != and_count_upto(circ.spec_gates(), circ.spec_gates().len()),
        r.is_ok() == (inputs@.len() == circ.input_wires().len()
            && gates_tables@.len() == and_count_upto(circ.spec_gates(), circ.spec_gates().len())
            && gates_tables@.len() <= usize::MAX / 2),
        r.is_ok() ==> {
            let w0 = assign_wires(zero_wires(circ.spec_feed_count()), circ.input_wires(), inputs@);
            let wires = eval_run(circ.spec_gates(), w0, gates_tables@, circ.spec_gates().len());
            r.unwrap().outputs@ == circ.output_wires().map_values(|w: usize| wires[w as int])
        },
{
    let total = circ.and_count();
    if inputs.len() != circ.input_len() {
        return Err(GarbleError::InvalidInputCount);
    }
    if gates_tables.len() != total {
        return Err(GarbleError::InvalidGateCount);
    }
    if total > usize::MAX / 2 {
        return Err(GarbleError::TooManyGates);
    }
    proof {
        circ.lemma_wf();
    }
    let mut buffer = zero_buffer(circ.feed_count());
    load_inputs(&mut buffer, circ, inputs);
    let ghost w0 = buffer@;
    let ghost gs = circ.spec_gates();
    let gates = circ.gates();
    let mut ctr: usize = 0;
    let mut k: usize = 0;
    while k < gates.len()
        invariant
            circ.wf(),
            gates@ == gs,
            gs == circ.spec_gates(),
            forall|i: int| 0 <= i < gs.len() ==> gate_in_bounds(#[trigger] gs[i], circ.spec_feed_count()),
            k <= gs.len(),
            total == and_count_upto(gs, gs.len()),
            total <= usize::MAX / 2,
            gates_tables@.len() == total,
            ctr == and_count_upto(gs, k as nat),
            ctr <= total,
            buffer@ == eval_run(gs, w0, gates_tables@, k as nat),
            buffer@.len() == circ.spec_feed_count(),
        decreases gs.len() - k,
    {
        assert(gate_in_bounds(gs[k as int], circ.spec_feed_count()));
        proof {
            lemma_and_count_mono(gs, (k + 1) as nat, gs.len());
        }
        match gates[k] {
            Gate::Xor { x, y, z } => {
                let b = buffer[x].xor(buffer[y]);
                buffer.set(z, b);
            },
            Gate::And { x, y, z } => {
                let wa = buffer[x];
                let wb = buffer[y];
                let t1: u64 = 2 * (ctr as u64);
                let t2: u64 = t1 + 1;
                let table = gates_tables[ctr];
                let wg = tweak_hash_exec(wa, t1).xor(sel_exec(wa.lsb(), table[0]));
                let we = tweak_hash_exec(wb, t2).xor(sel_exec(wb.lsb(), table[1].xor(wa)));
                buffer.set(z, wg.xor(we));
                ctr = ctr + 1;
            },
            Gate::Inv { x, z } => {
                let b = buffer[x];
                buffer.set(z, b);
            },
        }
        k = k + 1;
    }
    let outputs = read_outputs(&buffer, circ);
    Ok(EvaluatorOutput { outputs })
}

/// Writing labels of the same values on the same wires keeps both sides consistent.
pub proof fn lemma_assign_consistent(
    k: Seq<Block>,
    m: Seq<Block>,
    v: Seq<bool>,
    wires: Seq<usize>,
    kin: Seq<Block>,
    min: Seq<Block>,
    x: Seq<bool>,
    delta: u128,
)
    requires
        k.len() == v.len(),
        m.len() == v.len(),
        forall|j: int| 0 <= j < v.len() ==> (#[trigger] m[j]).0 == mac_of(k[j].0, v[j], delta),
        forall|i: int| 0 <= i < wires.len() ==> #[trigger] wires[i] < v.len(),
        kin.len() >= wires.len(),
        min.len() >= wires.len(),
        x.len() >= wires.len(),
        forall|i: int| 0 <= i < wires.len() ==> (#[trigger] min[i]).0 == mac_of(kin[i].0, x[i], delta),
    ensures
        assign_wires(k, wires, kin).len() == v.len(),
        assign_wires(m, wires, min).len() == v.len(),
        assign_wires(v, wires, x).len() == v.len(),
        forall|j: int| 0 <= j < v.len() ==> (#[trigger] assign_wires(m, wires, min)[j]).0
            == mac_of(assign_wires(k, wires, kin)[j].0, assign_wires(v, wires, x)[j], delta),
    decreases wires.len(),
{
    if wires.len() > 0 {
        let w = wires.drop_last();
        lemma_assign_consistent(k, m, v, w, kin, min, x, delta);
        let last = wires.len() - 1;
        assert(wires[last] < v.len());
        assert(min[last].0 == mac_of(kin[last].0, x[last], delta));
    }
}

/// Garbling is consistent for whole circuits: for any circuit and any input, when
/// the evaluator's input labels are the labels of the input values under the
/// generator's input zero labels, each of the evaluator's output labels is the
/// label of the output value under the generator's output zero label.
pub proof fn lemma_garbled_circuit_consistent(circ: &Circuit, delta: u128, kin: Seq<Block>, min: Seq<Block>, x: Seq<bool>)
    requires
        circ.wf(),
        lsb(delta),
        kin.len() == circ.input_wires().len(),
        min.len() == circ.input_wires().len(),
        x.len() == circ.input_wires().len(),
        forall|i: int| 0 <= i < x.len() ==> (#[trigger] min[i]).0 == mac_of(kin[i].0, x[i], delta),
    ensures
        ({
            let n = circ.spec_gates().len();
            let k0 = assign_wires(zero_wires(circ.spec_feed_count()), circ.input_wires(), kin);
            let m0 = assign_wires(zero_wires(circ.spec_feed_count()), circ.input_wires(), min);
            let gen = gen_run(circ.spec_gates(), k0, delta, n);
            let ev = eval_run(circ.spec_gates(), m0, gen_tables(circ.spec_gates(), k0, delta, n), n);
            let values = circ.spec_wires(x);
            forall|o: int| 0 <= o < circ.output_wires().len() ==>
                (#[trigger] ev[circ.output_wires()[o] as int]).0 == mac_of(gen[circ.output_wires()[o] as int].0, values[circ.output_wires()[o] as int], delta)
        }),
{
    circ.lemma_wf();
    let nf = circ.spec_feed_count();
    let z = zero_wires(nf);
    let f = Seq::new(nf, |i: int| false);
    assert forall|j: int| 0 <= j < f.len() implies (#[trigger] z[j]).0 == mac_of(z[j].0, f[j], delta) by {}
    lemma_assign_consistent(z, z, f, circ.input_wires(), kin, min, x, delta);
    let k0 = assign_wires(z, circ.input_wires(), kin);
    let m0 = assign_wires(z, circ.input_wires(), min);
    let v0 = assign_wires(f, circ.input_wires(), x);
    let n = circ.spec_gates().len();
    lemma_garbled_consistent(circ.spec_gates(), k0, m0, v0, delta, n);
    assert forall|o: int| 0 <= o < circ.output_wires().len() implies
        (#[trigger] eval_run(circ.spec_gates(), m0, gen_tables(circ.spec_gates(), k0, delta, n), n)[circ.output_wires()[o] as int]).0
            == mac_of(gen_run(circ.spec_gates(), k0, delta, n)[circ.output_wires()[o] as int].0, circ.spec_wires(x)[circ.output_wires()[o] as int], delta) by {
        assert(circ.output_wires()[o] < nf);
    }
}

/// Number of AND-gate tables in a batch.
pub const BATCH_SIZE: usize = 128;

/// A fixed-size batch of AND-gate tables; the last batch of a circuit is padded
/// with zero blocks.
#[derive(Clone, Copy, Debug)]
pub struct EncryptedGateBatch {
    /// The tables.
    pub gates: [EncryptedGate; 128],
}

/// Splits tables into batches of [`BATCH_SIZE`], padding the last one.
pub fn into_batches(gates: &Vec<EncryptedGate>) -> (r: Vec<EncryptedGateBatch>)
    ensures
        r@.len() == (gates@.len() + 127) / 128,
        forall|i: int| 0 <= i < gates@.len() ==> #[trigger] r@[i / 128].gates@[i % 128] == gates@[i],
{
    let n = gates.len();
    let count: usize = n / 128 + if n % 128 == 0 { 0 } else { 1 };
    let mut out: Vec<EncryptedGateBatch> = Vec::with_capacity(count);
    let mut b: usize = 0;
    while b < count
        invariant
            n == gates@.len(),
            count == (n + 127) / 128,
            b <= count,
            out@.len() == b,
            forall|i: int| 0 <= i < n && i / 128 < b ==> #[trigger] out@[i / 128].gates@[i % 128] == gates@[i],
        decreases count - b,
    {
        let mut batch: [EncryptedGate; 128] = [[Block(0), Block(0)]; 128];
        let mut t: usize = 0;
        while t < 128
            invariant
                n == gates@.len(),
                b < count,
                count == (n + 127) / 128,
                t <= 128,
                batch@.len() == 128,
                forall|j: int| 0 <= j < t && 128 * b + j < n ==> batch@[j] == gates@[128 * b + j],
            decreases 128 - t,
        {
            if 128 * b + t < n {
                batch[t] = gates[128 * b + t];
            }
            t = t + 1;
        }
        let ghost prev = out@;
        out.push(EncryptedGateBatch { gates: batch });
        proof {
            assert forall|i: int| 0 <= i < n && i / 128 < b + 1 implies #[trigger] out@[i / 128].gates@[i % 128] == gates@[i] by {
                if i / 128 == b as int {
                    assert(128 * b + i % 128 == i);
                } else {
                    assert(out@[i / 128] == prev[i / 128]);
                }
            }
        }
        b = b + 1;
    }
    proof {
        assert forall|i: int| 0 <= i < n implies #[trigger] out@[i / 128].gates@[i % 128] == gates@[i] by {
            assert(i / 128 < count);
        }
    }
    out
}

/// Joins batches back into the first `count` tables, dropping the padding.
pub fn from_batches(batches: &Vec<EncryptedGateBatch>, count: usize) -> (r: Vec<EncryptedGate>)
    requires
        count <= 128 * batches@.len(),
    ensures
        r@.len() == count,
        forall|i: int| 0 <= i < count ==> #[trigger] r@[i] == batches@[i / 128].gates@[i % 128],
{
    let mut out: Vec<EncryptedGate> = Vec::with_capacity(count);
    let mut i: usize = 0;
    while i < count
        invariant
            count <= 128 * batches@.len(),
            i <= count,
            out@.len() == i,
            forall|j: int| 0 <= j < i ==> #[trigger] out@[j] == batches@[j / 128].gates@[j % 128],
        decreases count - i,
    {
        let b = &batches[i / 128];
        out.push(b.gates[i % 128]);
        i = i + 1;
    }
    out
}

/// Batching then unbatching with the table count gives the tables back.
pub proof fn lemma_batches_round_trip(gates: Seq<EncryptedGate>, batches: Seq<EncryptedGateBatch>, r: Seq<EncryptedGate>)
    requires
        batches.len() == (gates.len() + 127) / 128,
        forall|i: int| 0 <= i < gates.len() ==> #[trigger] batches[i / 128].gates@[i % 128] == gates[i],
        r.len() == gates.len(),
        forall|i: int| 0 <= i < r.len() ==> #[trigger] r[i] == batches[i / 128].gates@[i % 128],
    ensures
        r == gates,
{
    assert forall|i: int| 0 <= i < r.len() implies r[i] == gates[i] by {
        assert(r[i] == batches[i / 128].gates@[i % 128]);
    }
    assert(r =~= gates);
}

} // verus!
