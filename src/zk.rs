//! Gate-by-gate execution of a circuit by the QuickSilver prover and verifier.
//!
//! XOR gates are local on both sides. INV flips the prover's pointer bit and
//! adds `Δ ^ 1` to the verifier's key. Each AND gate consumes one random
//! correlation and one adjustment bit, sent from the prover to the verifier.
use vstd::prelude::*;

use crate::block::Block;
use crate::circuit::{and_count_upto, assign_wires, gate_in_bounds, plain_run, plain_step, Circuit, Gate};
use crate::correlated::{lsb, mac_of, Delta};
use crate::ot::correlate;
use crate::block::{inner_product, le_bytes};
use crate::quicksilver::{chi_powers, is_challenge, CHECK_BUFFER_SIZE, pack_bits, set_value, set_zero, u_terms, v_terms, w_terms, Prover as QsProver, Verifier as QsVerifier};

verus! {

/// One gate applied to the prover's MACs; `ctr` counts the AND gates before it.
pub open spec fn prover_step(w: Seq<Block>, g: Gate, gate_macs: Seq<Block>, ctr: nat) -> Seq<Block> {
    match g {
        Gate::Xor { x, y, z } => w.update(z as int, Block(w[x as int].0 ^ w[y as int].0)),
        Gate::And { x, y, z } => w.update(z as int, Block(set_value(gate_macs[ctr as int].0, lsb(w[x as int].0) && lsb(w[y as int].0)))),
        Gate::Inv { x, z } => w.update(z as int, Block(w[x as int].0 ^ 1u128)),
    }
}

/// The prover's MACs after the first `k` gates.
pub open spec fn prover_run(gates: Seq<Gate>, w0: Seq<Block>, gate_macs: Seq<Block>, k: nat) -> Seq<Block>
    decreases k,
{
    if k == 0 {
        w0
    } else {
        prover_step(prover_run(gates, w0, gate_macs, (k - 1) as nat), gates[k - 1], gate_macs, and_count_upto(gates, (k - 1) as nat))
    }
}

/// The adjustment bits the prover sends over the first `k` gates: for each AND
/// gate, the choice bit of its correlation XOR the value on its output wire.
pub open spec fn prover_adjusts(gates: Seq<Gate>, w0: Seq<Block>, gate_masks: Seq<bool>, gate_macs: Seq<Block>, k: nat) -> Seq<bool>
    decreases k,
{
    if k == 0 {
        Seq::empty()
    } else {
        let prev = prover_adjusts(gates, w0, gate_masks, gate_macs, (k - 1) as nat);
        match gates[k - 1] {
            Gate::And { x, y, z } => {
                let w = prover_run(gates, w0, gate_macs, (k - 1) as nat);
                prev.push(gate_masks[and_count_upto(gates, (k - 1) as nat) as int] != (lsb(w[x as int].0) && lsb(w[y as int].0)))
            },
            _ => prev,
        }
    }
}

/// One gate applied to the verifier's keys; `ctr` counts the AND gates before it.
pub open spec fn verifier_step(w: Seq<Block>, g: Gate, gate_keys: Seq<Block>, adjust: Seq<bool>, ctr: nat, delta: u128) -> Seq<Block> {
    match g {
        Gate::Xor { x, y, z } => w.update(z as int, Block(w[x as int].0 ^ w[y as int].0)),
        Gate::And { x, y, z } => w.update(z as int, Block(set_zero(correlate(gate_keys[ctr as int].0, adjust[ctr as int], delta)))),
        Gate::Inv { x, z } => w.update(z as int, Block(w[x as int].0 ^ delta ^ 1u128)),
    }
}

/// The verifier's keys after the first `k` gates.
pub open spec fn verifier_run(gates: Seq<Gate>, w0: Seq<Block>, gate_keys: Seq<Block>, adjust: Seq<bool>, delta: u128, k: nat) -> Seq<Block>
    decreases k,
{
    if k == 0 {
        w0
    } else {
        verifier_step(
            verifier_run(gates, w0, gate_keys, adjust, delta, (k - 1) as nat),
            gates[k - 1],
            gate_keys,
            adjust,
            and_count_upto(gates, (k - 1) as nat),
            delta,
        )
    }
}

/// Every wire holds a MAC on its value under its key, and every key's pointer bit is zero.
pub open spec fn wires_consistent(macs: Seq<Block>, keys: Seq<Block>, values: Seq<bool>, delta: u128) -> bool {
    &&& macs.len() == keys.len()
    &&& keys.len() == values.len()
    &&& forall|j: int| 0 <= j < keys.len() ==> (#[trigger] macs[j]).0 == mac_of(keys[j].0, values[j], delta)
    &&& forall|j: int| 0 <= j < keys.len() ==> !lsb((#[trigger] keys[j]).0)
}

/// The AND count only grows.
pub proof fn lemma_and_count_mono(gates: Seq<Gate>, a: nat, b: nat)
    requires
        a <= b <= gates.len(),
    ensures
        and_count_upto(gates, a) <= and_count_upto(gates, b),
        and_count_upto(gates, b) <= b,
    decreases b,
{
    if b > 0 {
        if a < b {
            lemma_and_count_mono(gates, a, (b - 1) as nat);
        } else {
            lemma_and_count_mono(gates, (b - 1) as nat, (b - 1) as nat);
        }
    }
}

/// The adjustment bits number the AND gates seen, and grow by appending.
pub proof fn lemma_adjusts_prefix(gates: Seq<Gate>, w0: Seq<Block>, gate_masks: Seq<bool>, gate_macs: Seq<Block>, k: nat, n: nat)
    requires
        k <= n <= gates.len(),
    ensures
        prover_adjusts(gates, w0, gate_masks, gate_macs, k).len() == and_count_upto(gates, k),
        forall|i: int| 0 <= i < and_count_upto(gates, k) ==> #[trigger] prover_adjusts(gates, w0, gate_masks, gate_macs, k)[i]
            == prover_adjusts(gates, w0, gate_masks, gate_macs, n)[i],
    decreases n,
{
    if n > k {
        lemma_adjusts_prefix(gates, w0, gate_masks, gate_macs, k, (n - 1) as nat);
        lemma_adjusts_prefix(gates, w0, gate_masks, gate_macs, (n - 1) as nat, (n - 1) as nat);
        lemma_and_count_mono(gates, k, (n - 1) as nat);
    } else if k > 0 {
        lemma_adjusts_prefix(gates, w0, gate_masks, gate_macs, (k - 1) as nat, (k - 1) as nat);
    }
}

proof fn lemma_xor_consistent(kx: u128, ky: u128, x: bool, y: bool, delta: u128)
    ensures
        mac_of(kx, x, delta) ^ mac_of(ky, y, delta) == mac_of(kx ^ ky, x != y, delta),
        !lsb(kx) && !lsb(ky) ==> !lsb(kx ^ ky),
{
    assert((kx ^ delta) ^ (ky ^ delta) == kx ^ ky) by (bit_vector);
    assert((kx ^ delta) ^ ky == (kx ^ ky) ^ delta) by (bit_vector);
    assert(kx ^ (ky ^ delta) == (kx ^ ky) ^ delta) by (bit_vector);
    assert(kx & 1u128 != 1u128 && ky & 1u128 != 1u128 ==> (kx ^ ky) & 1u128 != 1u128) by (bit_vector);
}

proof fn lemma_inv_consistent(kx: u128, x: bool, delta: u128)
    requires
        lsb(delta),
    ensures
        mac_of(kx, x, delta) ^ 1u128 == mac_of(kx ^ delta ^ 1u128, !x, delta),
        !lsb(kx) ==> !lsb(kx ^ delta ^ 1u128),
{
    assert((kx ^ delta) ^ 1u128 == kx ^ delta ^ 1u128) by (bit_vector);
    assert(kx ^ 1u128 == (kx ^ delta ^ 1u128) ^ delta) by (bit_vector);
    assert(delta & 1u128 == 1u128 && kx & 1u128 != 1u128 ==> (kx ^ delta ^ 1u128) & 1u128 != 1u128) by (bit_vector);
}

/// An AND gate's output MAC from the correlation `(s, B_K ^ s * Δ)` and the value
/// `w` is a MAC on `w` under the verifier's key from the adjustment `s ^ w`.
pub proof fn lemma_and_consistent(bk: u128, s: bool, w: bool, delta: u128)
    requires
        lsb(delta),
    ensures
        set_value(correlate(bk, s, delta), w) == mac_of(set_zero(correlate(bk, s != w, delta)), w, delta),
        !lsb(set_zero(correlate(bk, s != w, delta))),
{
    let m1 = crate::block::MINUS_ONE;
    assert(m1 == 0xffff_ffff_ffff_ffff_ffff_ffff_ffff_fffeu128);
    assert(delta & 1u128 == 1u128 ==> {
        &&& (bk & 0xffff_ffff_ffff_ffff_ffff_ffff_ffff_fffeu128) ^ 1u128 == ((bk ^ delta) & 0xffff_ffff_ffff_ffff_ffff_ffff_ffff_fffeu128) ^ delta
        &&& ((bk ^ delta) & 0xffff_ffff_ffff_ffff_ffff_ffff_ffff_fffeu128) ^ 1u128 == (bk & 0xffff_ffff_ffff_ffff_ffff_ffff_ffff_fffeu128) ^ delta
        &&& (bk & 0xffff_ffff_ffff_ffff_ffff_ffff_ffff_fffeu128) & 1u128 != 1u128
        &&& ((bk ^ delta) & 0xffff_ffff_ffff_ffff_ffff_ffff_ffff_fffeu128) & 1u128 != 1u128
        &&& (bk & 0xffff_ffff_ffff_ffff_ffff_ffff_ffff_fffeu128) ^ 0u128 == bk & 0xffff_ffff_ffff_ffff_ffff_ffff_ffff_fffeu128
        &&& ((bk ^ delta) & 0xffff_ffff_ffff_ffff_ffff_ffff_ffff_fffeu128) ^ 0u128 == (bk ^ delta) & 0xffff_ffff_ffff_ffff_ffff_ffff_ffff_fffeu128
    }) by (bit_vector);
}

/// Executing a circuit keeps every wire consistent: when the prover's and the
/// verifier's starting wires are consistent with the plaintext values, each AND
/// gate's correlation is a MAC on its choice bit, and the verifier applies the
/// prover's adjustment bits, then after any number of gates each wire of the
/// prover holds a MAC, under the verifier's key, on the wire's plaintext value.
pub proof fn lemma_execution_consistent(
    gates: Seq<Gate>,
    m0: Seq<Block>,
    k0: Seq<Block>,
    v0: Seq<bool>,
    gate_masks: Seq<bool>,
    gate_macs: Seq<Block>,
    gate_keys: Seq<Block>,
    delta: u128,
    k: nat,
)
    requires
        lsb(delta),
        k <= gates.len(),
        wires_consistent(m0, k0, v0, delta),
        forall|i: int| 0 <= i < gates.len() ==> gate_in_bounds(#[trigger] gates[i], v0.len()),
        gate_masks.len() >= and_count_upto(gates, gates.len()),
        gate_macs.len() >= and_count_upto(gates, gates.len()),
        gate_keys.len() >= and_count_upto(gates, gates.len()),
        forall|i: int| 0 <= i < and_count_upto(gates, gates.len()) ==> (#[trigger] gate_macs[i]).0 == correlate(gate_keys[i].0, gate_masks[i], delta),
    ensures
        wires_consistent(
            prover_run(gates, m0, gate_macs, k),
            verifier_run(gates, k0, gate_keys, prover_adjusts(gates, m0, gate_masks, gate_macs, gates.len()), delta, k),
            plain_run(gates, v0, k),
            delta,
        ),
        plain_run(gates, v0, k).len() == v0.len(),
    decreases k,
{
    if k > 0 {
        let kk = (k - 1) as nat;
        lemma_execution_consistent(gates, m0, k0, v0, gate_masks, gate_macs, gate_keys, delta, kk);
        let adj = prover_adjusts(gates, m0, gate_masks, gate_macs, gates.len());
        let pm = prover_run(gates, m0, gate_macs, kk);
        let vk = verifier_run(gates, k0, gate_keys, adj, delta, kk);
        let pv = plain_run(gates, v0, kk);
        let ctr = and_count_upto(gates, kk);
        let g = gates[kk as int];
        assert(gate_in_bounds(g, v0.len()));
        let pm2 = prover_run(gates, m0, gate_macs, k);
        let vk2 = verifier_run(gates, k0, gate_keys, adj, delta, k);
        let pv2 = plain_run(gates, v0, k);
        assert(pm2 == prover_step(pm, g, gate_macs, ctr));
        assert(vk2 == verifier_step(vk, g, gate_keys, adj, ctr, delta));
        assert(pv2 == plain_step(pv, g));
        assert(pv.len() == v0.len());
        match g {
            Gate::Xor { x, y, z } => {
                assert(pm[x as int].0 == mac_of(vk[x as int].0, pv[x as int], delta) && !lsb(vk[x as int].0));
                assert(pm[y as int].0 == mac_of(vk[y as int].0, pv[y as int], delta) && !lsb(vk[y as int].0));
                assert(pm2.len() == pm.len() && vk2.len() == vk.len() && pv2.len() == pv.len());
                lemma_xor_consistent(vk[x as int].0, vk[y as int].0, pv[x as int], pv[y as int], delta);
            },
            Gate::Inv { x, z } => {
                assert(pm[x as int].0 == mac_of(vk[x as int].0, pv[x as int], delta) && !lsb(vk[x as int].0));
                assert(pm2.len() == pm.len() && vk2.len() == vk.len() && pv2.len() == pv.len());
                lemma_inv_consistent(vk[x as int].0, pv[x as int], delta);
            },
            Gate::And { x, y, z } => {
                assert(pm[x as int].0 == mac_of(vk[x as int].0, pv[x as int], delta) && !lsb(vk[x as int].0));
                assert(pm[y as int].0 == mac_of(vk[y as int].0, pv[y as int], delta) && !lsb(vk[y as int].0));
                assert(pm2.len() == pm.len() && vk2.len() == vk.len() && pv2.len() == pv.len());
                lemma_and_count_mono(gates, k, gates.len());
                assert(and_count_upto(gates, k) == ctr + 1);
                lemma_adjusts_prefix(gates, m0, gate_masks, gate_macs, k, gates.len());
                let w = lsb(pm[x as int].0) && lsb(pm[y as int].0);
                assert(prover_adjusts(gates, m0, gate_masks, gate_macs, k)[ctr as int] == (gate_masks[ctr as int] != w));
                assert(adj[ctr as int] == (gate_masks[ctr as int] != w));
                crate::correlated::lemma_authenticate_pointer_bit(vk[x as int].0, pv[x as int], delta);
                crate::correlated::lemma_authenticate_pointer_bit(vk[y as int].0, pv[y as int], delta);
                assert(w == (pv[x as int] && pv[y as int]));
                lemma_and_consistent(gate_keys[ctr as int].0, gate_masks[ctr as int], w, delta);
            },
        }
        assert forall|j: int| 0 <= j < vk2.len() implies (#[trigger] pm2[j]).0 == mac_of(vk2[j].0, pv2[j], delta) && !lsb(vk2[j].0) by {
            assert(pm[j].0 == mac_of(vk[j].0, pv[j], delta));
            assert(!lsb(vk[j].0));
        }
    } else {
        assert(plain_run(gates, v0, 0) == v0);
    }
}

/// The MACs that the AND gates among the first `k` gates add to the prover's check
/// buffers: the two input MACs and the output MAC of each.
pub open spec fn prover_window(gates: Seq<Gate>, w0: Seq<Block>, gate_macs: Seq<Block>, k: nat) -> Seq<(Block, Block, Block)>
    decreases k,
{
    if k == 0 {
        Seq::empty()
    } else {
        let prev = prover_window(gates, w0, gate_macs, (k - 1) as nat);
        match gates[k - 1] {
            Gate::And { x, y, z } => {
                let w = prover_run(gates, w0, gate_macs, (k - 1) as nat);
                let w2 = prover_run(gates, w0, gate_macs, k);
                prev.push((w[x as int], w[y as int], w2[z as int]))
            },
            _ => prev,
        }
    }
}

/// The keys that the AND gates among the first `k` gates add to the verifier's
/// check buffers.
pub open spec fn verifier_window(gates: Seq<Gate>, w0: Seq<Block>, gate_keys: Seq<Block>, adjust: Seq<bool>, delta: u128, k: nat) -> Seq<(Block, Block, Block)>
    decreases k,
{
    if k == 0 {
        Seq::empty()
    } else {
        let prev = verifier_window(gates, w0, gate_keys, adjust, delta, (k - 1) as nat);
        match gates[k - 1] {
            Gate::And { x, y, z } => {
                let w = verifier_run(gates, w0, gate_keys, adjust, delta, (k - 1) as nat);
                let w2 = verifier_run(gates, w0, gate_keys, adjust, delta, k);
                prev.push((w[x as int], w[y as int], w2[z as int]))
            },
            _ => prev,
        }
    }
}

/// The plaintext input values of the AND gates among the first `k` gates.
pub open spec fn plain_window(gates: Seq<Gate>, v0: Seq<bool>, k: nat) -> Seq<(bool, bool)>
    decreases k,
{
    if k == 0 {
        Seq::empty()
    } else {
        let prev = plain_window(gates, v0, (k - 1) as nat);
        match gates[k - 1] {
            Gate::And { x, y, z } => {
                let v = plain_run(gates, v0, (k - 1) as nat);
                prev.push((v[x as int], v[y as int]))
            },
            _ => prev,
        }
    }
}

/// The check buffers of an honest execution pair up. For each AND, the prover's
/// two input MACs authenticate the two input values under the verifier's input
/// keys, whose pointer bits are zero, and the prover's output MAC authenticates
/// the conjunction of those values under the verifier's output key.
pub proof fn lemma_windows_consistent(
    gates: Seq<Gate>,
    m0: Seq<Block>,
    k0: Seq<Block>,
    v0: Seq<bool>,
    gate_masks: Seq<bool>,
    gate_macs: Seq<Block>,
    gate_keys: Seq<Block>,
    delta: u128,
    k: nat,
)
    requires
        lsb(delta),
        k <= gates.len(),
        wires_consistent(m0, k0, v0, delta),
        forall|i: int| 0 <= i < gates.len() ==> gate_in_bounds(#[trigger] gates[i], v0.len()),
        gate_masks.len() >= and_count_upto(gates, gates.len()),
        gate_macs.len() >= and_count_upto(gates, gates.len()),
        gate_keys.len() >= and_count_upto(gates, gates.len()),
        forall|i: int| 0 <= i < and_count_upto(gates, gates.len()) ==> (#[trigger] gate_macs[i]).0 == correlate(gate_keys[i].0, gate_masks[i], delta),
    ensures
        ({
            let adj = prover_adjusts(gates, m0, gate_masks, gate_macs, gates.len());
            let pw = prover_window(gates, m0, gate_macs, k);
            let vw = verifier_window(gates, k0, gate_keys, adj, delta, k);
            let xw = plain_window(gates, v0, k);
            &&& pw.len() == and_count_upto(gates, k)
            &&& vw.len() == pw.len()
            &&& xw.len() == pw.len()
            &&& forall|i: int| 0 <= i < pw.len() ==> {
                &&& (#[trigger] pw[i]).0.0 == mac_of(vw[i].0.0, xw[i].0, delta) && !lsb(vw[i].0.0)
                &&& pw[i].1.0 == mac_of(vw[i].1.0, xw[i].1, delta) && !lsb(vw[i].1.0)
                &&& pw[i].2.0 == mac_of(vw[i].2.0, xw[i].0 && xw[i].1, delta)
            }
        }),
    decreases k,
{
    if k > 0 {
        let kk = (k - 1) as nat;
        lemma_windows_consistent(gates, m0, k0, v0, gate_masks, gate_macs, gate_keys, delta, kk);
        lemma_execution_consistent(gates, m0, k0, v0, gate_masks, gate_macs, gate_keys, delta, kk);
        lemma_execution_consistent(gates, m0, k0, v0, gate_masks, gate_macs, gate_keys, delta, k);
        let adj = prover_adjusts(gates, m0, gate_masks, gate_macs, gates.len());
        let pm = prover_run(gates, m0, gate_macs, kk);
        let vk = verifier_run(gates, k0, gate_keys, adj, delta, kk);
        let pv = plain_run(gates, v0, kk);
        let pm2 = prover_run(gates, m0, gate_macs, k);
        let vk2 = verifier_run(gates, k0, gate_keys, adj, delta, k);
        let pv2 = plain_run(gates, v0, k);
        let g = gates[kk as int];
        assert(gate_in_bounds(g, v0.len()));
        match g {
            Gate::And { x, y, z } => {
                assert(pm[x as int].0 == mac_of(vk[x as int].0, pv[x as int], delta) && !lsb(vk[x as int].0));
                assert(pm[y as int].0 == mac_of(vk[y as int].0, pv[y as int], delta) && !lsb(vk[y as int].0));
                assert(pm2[z as int].0 == mac_of(vk2[z as int].0, pv2[z as int], delta));
                assert(pv2 == plain_step(pv, g));
                assert(pv2[z as int] == (pv[x as int] && pv[y as int]));
            },
            _ => {},
        }
    }
}

/// Completeness of an honest execution: the check over the buffers that an
/// honest prover and verifier fill while executing a circuit balances,
/// `W == U ^ Δ * V`, for any challenge and masks from a degree-one VOPE.
pub proof fn lemma_execution_check_balances(
    gates: Seq<Gate>,
    m0: Seq<Block>,
    k0: Seq<Block>,
    v0: Seq<bool>,
    gate_masks: Seq<bool>,
    gate_macs: Seq<Block>,
    gate_keys: Seq<Block>,
    delta: u128,
    chi: u128,
    mask_u: u128,
    mask_v: u128,
    mask_w: u128,
)
    requires
        lsb(delta),
        wires_consistent(m0, k0, v0, delta),
        forall|i: int| 0 <= i < gates.len() ==> gate_in_bounds(#[trigger] gates[i], v0.len()),
        gate_masks.len() >= and_count_upto(gates, gates.len()),
        gate_macs.len() >= and_count_upto(gates, gates.len()),
        gate_keys.len() >= and_count_upto(gates, gates.len()),
        forall|i: int| 0 <= i < and_count_upto(gates, gates.len()) ==> (#[trigger] gate_macs[i]).0 == correlate(gate_keys[i].0, gate_masks[i], delta),
        mask_w == mask_u ^ crate::block::gf_mul(delta, mask_v),
    ensures
        ({
            let n = gates.len();
            let adj = prover_adjusts(gates, m0, gate_masks, gate_macs, n);
            let pw = prover_window(gates, m0, gate_macs, n);
            let vw = verifier_window(gates, k0, gate_keys, adj, delta, n);
            let mx = pw.map_values(|t: (Block, Block, Block)| t.0);
            let my = pw.map_values(|t: (Block, Block, Block)| t.1);
            let mz = pw.map_values(|t: (Block, Block, Block)| t.2);
            let kx = vw.map_values(|t: (Block, Block, Block)| t.0);
            let ky = vw.map_values(|t: (Block, Block, Block)| t.1);
            let kz = vw.map_values(|t: (Block, Block, Block)| t.2);
            let c = chi_powers(chi, pw.len());
            inner_product(w_terms(kx, ky, kz, delta), c, pw.len()) ^ mask_w
                == (inner_product(u_terms(mx, my), c, pw.len()) ^ mask_u)
                    ^ crate::block::gf_mul(delta, inner_product(v_terms(mx, my, mz), c, pw.len()) ^ mask_v)
        }),
{
    let n = gates.len();
    lemma_windows_consistent(gates, m0, k0, v0, gate_masks, gate_macs, gate_keys, delta, n);
    let adj = prover_adjusts(gates, m0, gate_masks, gate_macs, n);
    let pw = prover_window(gates, m0, gate_macs, n);
    let vw = verifier_window(gates, k0, gate_keys, adj, delta, n);
    let xw = plain_window(gates, v0, n);
    let mx = pw.map_values(|t: (Block, Block, Block)| t.0);
    let my = pw.map_values(|t: (Block, Block, Block)| t.1);
    let mz = pw.map_values(|t: (Block, Block, Block)| t.2);
    let kx = vw.map_values(|t: (Block, Block, Block)| t.0);
    let ky = vw.map_values(|t: (Block, Block, Block)| t.1);
    let kz = vw.map_values(|t: (Block, Block, Block)| t.2);
    let vx = xw.map_values(|t: (bool, bool)| t.0);
    let vy = xw.map_values(|t: (bool, bool)| t.1);
    assert forall|i: int| 0 <= i < mx.len() implies {
        &&& (#[trigger] mx[i]).0 == mac_of(kx[i].0, vx[i], delta) && !lsb(kx[i].0)
        &&& my[i].0 == mac_of(ky[i].0, vy[i], delta) && !lsb(ky[i].0)
        &&& mz[i].0 == mac_of(kz[i].0, vx[i] && vy[i], delta)
    } by {
        let t = pw[i];
        assert(t.0.0 == mac_of(vw[i].0.0, xw[i].0, delta) && !lsb(vw[i].0.0));
        assert(t.1.0 == mac_of(vw[i].1.0, xw[i].1, delta) && !lsb(vw[i].1.0));
        assert(t.2.0 == mac_of(vw[i].2.0, xw[i].0 && xw[i].1, delta));
        assert(my[i] == t.1 && mz[i] == t.2 && mx[i] == t.0);
    }
    crate::quicksilver::lemma_check_complete(mx, my, mz, kx, ky, kz, vx, vy, delta, chi, mask_u, mask_v, mask_w);
}

/// The check-buffer entries of the first `k` gates number their AND gates.
pub proof fn lemma_window_len(gates: Seq<Gate>, w0: Seq<Block>, gate_macs: Seq<Block>, gate_keys: Seq<Block>, adjust: Seq<bool>, delta: u128, k: nat)
    requires
        k <= gates.len(),
    ensures
        prover_window(gates, w0, gate_macs, k).len() == and_count_upto(gates, k),
        verifier_window(gates, w0, gate_keys, adjust, delta, k).len() == and_count_upto(gates, k),
    decreases k,
{
    if k > 0 {
        lemma_window_len(gates, w0, gate_macs, gate_keys, adjust, delta, (k - 1) as nat);
    }
}

/// The verifier's keys after `k` gates depend on the adjustment bits of those
/// gates' AND gates only.
pub proof fn lemma_verifier_run_prefix(gates: Seq<Gate>, w0: Seq<Block>, gate_keys: Seq<Block>, a: Seq<bool>, b: Seq<bool>, delta: u128, k: nat)
    requires
        k <= gates.len(),
        forall|i: int| 0 <= i < and_count_upto(gates, k) ==> a[i] == b[i],
    ensures
        verifier_run(gates, w0, gate_keys, a, delta, k) == verifier_run(gates, w0, gate_keys, b, delta, k),
    decreases k,
{
    if k > 0 {
        lemma_and_count_mono(gates, (k - 1) as nat, k);
        lemma_verifier_run_prefix(gates, w0, gate_keys, a, b, delta, (k - 1) as nat);
    }
}

/// The verifier's check-buffer entries of `k` gates depend on the adjustment
/// bits of those gates' AND gates only.
pub proof fn lemma_verifier_window_prefix(gates: Seq<Gate>, w0: Seq<Block>, gate_keys: Seq<Block>, a: Seq<bool>, b: Seq<bool>, delta: u128, k: nat)
    requires
        k <= gates.len(),
        forall|i: int| 0 <= i < and_count_upto(gates, k) ==> a[i] == b[i],
    ensures
        verifier_window(gates, w0, gate_keys, a, delta, k) == verifier_window(gates, w0, gate_keys, b, delta, k),
    decreases k,
{
    if k > 0 {
        lemma_and_count_mono(gates, (k - 1) as nat, k);
        lemma_verifier_window_prefix(gates, w0, gate_keys, a, b, delta, (k - 1) as nat);
        lemma_verifier_run_prefix(gates, w0, gate_keys, a, b, delta, (k - 1) as nat);
        lemma_verifier_run_prefix(gates, w0, gate_keys, a, b, delta, k);
    }
}

/// Whether `g` is an AND gate.
pub fn is_and(g: Gate) -> (r: bool)
    ensures
        r == (g is And),
{
    match g {
        Gate::And { .. } => true,
        _ => false,
    }
}

/// A circuit execution in progress: the wires after the gates executed so far.
pub struct Run {
    buffer: Vec<Block>,
    next: usize,
    ands: usize,
    start: Ghost<Seq<Block>>,
    seen: Ghost<Seq<bool>>,
}

impl Run {
    /// The wires before the first gate.
    pub closed spec fn start_wires(&self) -> Seq<Block> {
        self.start@
    }

    /// The wires after the gates executed so far.
    pub closed spec fn wires(&self) -> Seq<Block> {
        self.buffer@
    }

    /// The number of gates executed so far.
    pub closed spec fn next_gate(&self) -> nat {
        self.next as nat
    }

    /// The number of AND gates executed so far.
    pub closed spec fn ands_done(&self) -> nat {
        self.ands as nat
    }

    /// The adjustment bits a verifier's run has consumed, one per AND gate executed.
    pub closed spec fn adjust_seen(&self) -> Seq<bool> {
        self.seen@
    }

    /// The run's bookkeeping fits the circuit.
    pub closed spec fn fits(&self, circ: &Circuit) -> bool {
        &&& self.buffer@.len() == circ.spec_feed_count()
        &&& self.next <= circ.spec_gates().len()
        &&& self.ands == and_count_upto(circ.spec_gates(), self.next as nat)
    }

    /// Whether every gate has been executed.
    pub fn is_done(&self, circ: &Circuit) -> (r: bool)
        ensures
            r == (self.next_gate() >= circ.spec_gates().len()),
    {
        self.next >= circ.gates().len()
    }
}

fn begin_run(circ: &Circuit, inputs: &Vec<Block>) -> (r: Run)
    requires
        circ.wf(),
        inputs@.len() == circ.input_wires().len(),
    ensures
        r.fits(circ),
        r.next_gate() == 0,
        r.start_wires() == assign_wires(zero_wires(circ.spec_feed_count()), circ.input_wires(), inputs@),
        r.wires() == r.start_wires(),
        r.adjust_seen().len() == 0,
{
    let mut buffer = zero_buffer(circ.feed_count());
    load_inputs(&mut buffer, circ, inputs);
    let ghost w0 = buffer@;
    Run { buffer, next: 0, ands: 0, start: Ghost(w0), seen: Ghost(Seq::empty()) }
}

/// Errors of circuit execution.
#[derive(Clone, Copy, Debug, PartialEq, Eq, Structural)]
pub enum ZkError {
    /// The number of MACs, keys, masks or bits does not match the circuit.
    InvalidLength,
}

/// The prover's side of circuit execution, over MACs.
#[derive(Debug)]
pub struct Prover {
    core: QsProver,
}

/// The verifier's side of circuit execution, over keys.
#[derive(Debug)]
pub struct Verifier {
    core: QsVerifier,
}

/// The all-zero wire buffer.
pub open spec fn zero_wires(n: nat) -> Seq<Block> {
    Seq::new(n, |i: int| Block(0))
}

pub(crate) fn zero_buffer(n: usize) -> (r: Vec<Block>)
    ensures
        r@ == zero_wires(n as nat),
{
    let mut v: Vec<Block> = Vec::with_capacity(n);
    let mut i: usize = 0;
    while i < n
        invariant
            i <= n,
            v@ == zero_wires(i as nat),
        decreases n - i,
    {
        v.push(Block(0));
        assert(v@ =~= zero_wires((i + 1) as nat));
        i = i + 1;
    }
    v
}

pub(crate) fn load_inputs(buffer: &mut Vec<Block>, circ: &Circuit, values: &Vec<Block>)
    requires
        circ.wf(),
        old(buffer)@.len() == circ.spec_feed_count(),
        values@.len() == circ.input_wires().len(),
    ensures
        final(buffer)@ == assign_wires(old(buffer)@, circ.input_wires(), values@),
        final(buffer)@.len() == circ.spec_feed_count(),
{
    proof {
        circ.lemma_wf();
    }
    let wires = circ.inputs();
    let mut i: usize = 0;
    while i < wires.len()
        invariant
            circ.wf(),
            wires@ == circ.input_wires(),
            forall|j: int| 0 <= j < wires@.len() ==> #[trigger] wires@[j] < circ.spec_feed_count(),
            i <= wires@.len(),
            values@.len() == wires@.len(),
            buffer@ == assign_wires(old(buffer)@, wires@.subrange(0, i as int), values@),
            buffer@.len() == circ.spec_feed_count(),
        decreases wires@.len() - i,
    {
        let w = wires[i];
        buffer.set(w, values[i]);
        assert(wires@.subrange(0, i + 1).drop_last() =~= wires@.subrange(0, i as int));
        i = i + 1;
    }
    assert(wires@.subrange(0, i as int) =~= wires@);
}

pub(crate) fn read_outputs(buffer: &Vec<Block>, circ: &Circuit) -> (r: Vec<Block>)
    requires
        circ.wf(),
        buffer@.len() == circ.spec_feed_count(),
    ensures
        r@ == circ.output_wires().map_values(|w: usize| buffer@[w as int]),
{
    proof {
        circ.lemma_wf();
    }
    let wires = circ.outputs();
    let mut out: Vec<Block> = Vec::with_capacity(wires.len());
    let mut i: usize = 0;
    while i < wires.len()
        invariant
            wires@ == circ.output_wires(),
            forall|j: int| 0 <= j < wires@.len() ==> #[trigger] wires@[j] < circ.spec_feed_count(),
            buffer@.len() == circ.spec_feed_count(),
            i <= wires@.len(),
            out@ == wires@.subrange(0, i as int).map_values(|w: usize| buffer@[w as int]),
        decreases wires@.len() - i,
    {
        out.push(buffer[wires[i]]);
        assert(out@ =~= wires@.subrange(0, i + 1).map_values(|w: usize| buffer@[w as int]));
        i = i + 1;
    }
    assert(wires@.subrange(0, i as int) =~= wires@);
    out
}

impl Prover {
    /// The check state.
    pub closed spec fn check_state(&self) -> QsProver {
        self.core
    }

    /// Creates a prover.
    pub fn new() -> (r: Prover)
        ensures
            r.check_state().wf(),
            r.check_state().left().len() == 0,
    {
        Prover { core: QsProver::new() }
    }

    /// Authenticates the input bits with random correlations: returns the masks
    /// `x_i ^ r_i` to send and the input MACs, and binds the masks into the
    /// check transcript.
    pub fn auth_inputs(&mut self, inputs: &[bool], cot: crate::ot::RCOTReceiverOutput) -> (r: Result<(Vec<bool>, Vec<Block>), crate::quicksilver::QsProverError>)
        requires
            old(self).check_state().wf(),
        ensures
            final(self).check_state().wf(),
            final(self).check_state().left() == old(self).check_state().left(),
            final(self).check_state().masks() == old(self).check_state().masks(),
            r.is_ok() == (cot.choices@.len() == inputs@.len() && cot.msgs@.len() == inputs@.len()),
            match r {
                Ok((masks, macs)) => {
                    &&& masks@.len() == inputs@.len()
                    &&& macs@.len() == inputs@.len()
                    &&& forall|i: int| 0 <= i < inputs@.len() ==> #[trigger] masks@[i] == (inputs@[i] != cot.choices@[i])
                    &&& forall|i: int| 0 <= i < inputs@.len() ==> (#[trigger] macs@[i]).0 == set_value(cot.msgs@[i].0, inputs@[i])
                    &&& final(self).check_state().transcript() == old(self).check_state().transcript() + pack_bits(masks@)
                },
                Err(_) => final(self).check_state().transcript() == old(self).check_state().transcript(),
            },
    {
        self.core.auth_input_bits(inputs, cot)
    }

    /// Returns whether the check buffers hold a full window, so that a check is
    /// due before more AND gates are executed.
    pub fn window_full(&self) -> (r: bool)
        ensures
            r == (self.check_state().left().len() >= CHECK_BUFFER_SIZE),
    {
        self.core.enable_check()
    }

    /// Returns whether AND gates await a check.
    pub fn wants_check(&self) -> (r: bool)
        ensures
            r == (self.check_state().left().len() > 0),
    {
        self.core.enable_final_check()
    }

    /// Runs the AND-gate check, returning `(U, V)`.
    pub fn check(&mut self, mask_u: Block, mask_v: Block) -> (r: (Block, Block))
        requires
            old(self).check_state().wf(),
        ensures
            final(self).check_state().wf(),
            final(self).check_state().left().len() == 0,
            exists|chi: u128| #![trigger is_challenge(chi, old(self).check_state().transcript() + pack_bits(old(self).check_state().masks()))] {
                let st = old(self).check_state();
                let n = st.left().len();
                let t = st.transcript() + pack_bits(st.masks());
                &&& is_challenge(chi, t)
                &&& r.0.0 == inner_product(u_terms(st.left(), st.right()), chi_powers(chi, n), n) ^ mask_u.0
                &&& r.1.0 == inner_product(v_terms(st.left(), st.right(), st.out()), chi_powers(chi, n), n) ^ mask_v.0
                &&& final(self).check_state().transcript() == t + le_bytes(r.0.0) + le_bytes(r.1.0)
            },
    {
        self.core.check_and_gates((mask_u, mask_v))
    }

    /// Starts executing `circ` over MACs, with `input_macs` on the input wires.
    pub fn begin(&self, circ: &Circuit, input_macs: &Vec<Block>) -> (r: Result<Run, ZkError>)
        requires
            circ.wf(),
        ensures
            r.is_ok() == (input_macs@.len() == circ.input_wires().len()),
            r.is_ok() ==> {
                &&& r.unwrap().fits(circ)
                &&& r.unwrap().next_gate() == 0
                &&& r.unwrap().start_wires() == assign_wires(zero_wires(circ.spec_feed_count()), circ.input_wires(), input_macs@)
                &&& r.unwrap().wires() == r.unwrap().start_wires()
            },
    {
        if input_macs.len() != circ.input_len() {
            return Err(ZkError::InvalidLength);
        }
        Ok(begin_run(circ, input_macs))
    }

    /// Executes gates of the run until every gate is done, or the check buffers
    /// are full and the next gate is an AND gate: a check is then due. Returns the
    /// adjustment bits of the AND gates executed.
    pub fn step(&mut self, run: &mut Run, circ: &Circuit, gate_masks: &Vec<bool>, gate_macs: &Vec<Block>) -> (r: Vec<bool>)
        requires
            old(self).check_state().wf(),
            circ.wf(),
            old(run).fits(circ),
            old(run).wires() == prover_run(circ.spec_gates(), old(run).start_wires(), gate_macs@, old(run).next_gate()),
            gate_masks@.len() == and_count_upto(circ.spec_gates(), circ.spec_gates().len()),
            gate_macs@.len() == and_count_upto(circ.spec_gates(), circ.spec_gates().len()),
        ensures
            ({
                let gs = circ.spec_gates();
                let w0 = old(run).start_wires();
                let k0 = old(run).next_gate();
                let k1 = final(run).next_gate();
                let win = prover_window(gs, w0, gate_macs@, k1).subrange(and_count_upto(gs, k0) as int, and_count_upto(gs, k1) as int);
                &&& final(self).check_state().wf()
                &&& final(run).fits(circ)
                &&& final(run).start_wires() == w0
                &&& k0 <= k1
                &&& final(run).wires() == prover_run(gs, w0, gate_macs@, k1)
                &&& k1 == gs.len() || (final(self).check_state().left().len() >= CHECK_BUFFER_SIZE && gs[k1 as int] is And)
                &&& (old(self).check_state().left().len() < CHECK_BUFFER_SIZE && k0 < gs.len()) ==> k0 < k1
                &&& old(self).check_state().left().len() <= CHECK_BUFFER_SIZE ==> final(self).check_state().left().len() <= CHECK_BUFFER_SIZE
                &&& prover_adjusts(gs, w0, gate_masks@, gate_macs@, k0) + r@ == prover_adjusts(gs, w0, gate_masks@, gate_macs@, k1)
                &&& final(self).check_state().left() == old(self).check_state().left() + win.map_values(|t: (Block, Block, Block)| t.0)
                &&& final(self).check_state().right() == old(self).check_state().right() + win.map_values(|t: (Block, Block, Block)| t.1)
                &&& final(self).check_state().out() == old(self).check_state().out() + win.map_values(|t: (Block, Block, Block)| t.2)
                &&& final(self).check_state().masks() == old(self).check_state().masks() + r@
                &&& final(self).check_state().transcript() == old(self).check_state().transcript()
            }),
    {
        let total = circ.and_count();
        proof {
            circ.lemma_wf();
        }
        let ghost gs = circ.spec_gates();
        let ghost w0 = run.start@;
        let ghost k0 = run.next as nat;
        let ghost a0 = run.ands as int;
        let gates = circ.gates();
        let mut adjust: Vec<bool> = Vec::new();
        proof {
            lemma_window_len(gs, w0, gate_macs@, gate_macs@, Seq::empty(), 0, k0);
            lemma_adjusts_prefix(gs, w0, gate_masks@, gate_macs@, k0, k0);
            lemma_and_count_mono(gs, k0, gs.len());
            assert(prover_window(gs, w0, gate_macs@, k0).subrange(a0, a0) =~= Seq::<(Block, Block, Block)>::empty());
            assert(prover_adjusts(gs, w0, gate_masks@, gate_macs@, k0) + adjust@ =~= prover_adjusts(gs, w0, gate_masks@, gate_macs@, k0));
        }
        while run.next < gates.len() && !(is_and(gates[run.next]) && self.core.enable_check())
            invariant
                circ.wf(),
                gates@ == gs,
                gs == circ.spec_gates(),
                forall|i: int| 0 <= i < gs.len() ==> gate_in_bounds(#[trigger] gs[i], circ.spec_feed_count()),
                k0 <= run.next <= gs.len(),
                a0 == and_count_upto(gs, k0),
                total == and_count_upto(gs, gs.len()),
                gate_masks@.len() == total,
                gate_macs@.len() == total,
                run.ands == and_count_upto(gs, run.next as nat),
                run.ands <= total,
                a0 <= run.ands,
                run.start@ == w0,
                run.buffer@ == prover_run(gs, w0, gate_macs@, run.next as nat),
                run.buffer@.len() == circ.spec_feed_count(),
                prover_adjusts(gs, w0, gate_masks@, gate_macs@, k0) + adjust@ == prover_adjusts(gs, w0, gate_masks@, gate_macs@, run.next as nat),
                self.core.wf(),
                self.core.left() == old(self).core.left() + prover_window(gs, w0, gate_macs@, run.next as nat).subrange(a0, run.ands as int).map_values(|t: (Block, Block, Block)| t.0),
                self.core.right() == old(self).core.right() + prover_window(gs, w0, gate_macs@, run.next as nat).subrange(a0, run.ands as int).map_values(|t: (Block, Block, Block)| t.1),
                self.core.out() == old(self).core.out() + prover_window(gs, w0, gate_macs@, run.next as nat).subrange(a0, run.ands as int).map_values(|t: (Block, Block, Block)| t.2),
                self.core.masks() == old(self).core.masks() + adjust@,
                self.core.transcript() == old(self).core.transcript(),
                old(self).core.left().len() <= CHECK_BUFFER_SIZE ==> self.core.left().len() <= CHECK_BUFFER_SIZE,
            decreases gs.len() - run.next,
        {
            let k = run.next;
            assert(gate_in_bounds(gs[k as int], circ.spec_feed_count()));
            proof {
                lemma_and_count_mono(gs, (k + 1) as nat, gs.len());
                lemma_window_len(gs, w0, gate_macs@, gate_macs@, Seq::empty(), 0, k as nat);
                lemma_adjusts_prefix(gs, w0, gate_masks@, gate_macs@, k as nat, k as nat);
            }
            let ghost win = prover_window(gs, w0, gate_macs@, k as nat);
            let ghost adj0 = adjust@;
            match gates[k] {
                Gate::Xor { x, y, z } => {
                    let b = run.buffer[x].xor(run.buffer[y]);
                    run.buffer.set(z, b);
                },
                Gate::And { x, y, z } => {
                    let ctr = run.ands;
                    let (d, mc) = self.core.auth_and_gate(run.buffer[x], run.buffer[y], (gate_masks[ctr], gate_macs[ctr]));
                    run.buffer.set(z, mc);
                    adjust.push(d);
                    run.ands = run.ands + 1;
                    proof {
                        let t = (prover_run(gs, w0, gate_macs@, k as nat)[x as int], prover_run(gs, w0, gate_macs@, k as nat)[y as int], run.buffer@[z as int]);
                        assert(prover_window(gs, w0, gate_macs@, (k + 1) as nat) == win.push(t));
                        assert(win.push(t).subrange(a0, ctr + 1) =~= win.subrange(a0, ctr as int).push(t));
                        assert(win.push(t).subrange(a0, ctr + 1).map_values(|t: (Block, Block, Block)| t.0) =~= win.subrange(a0, ctr as int).map_values(|t: (Block, Block, Block)| t.0).push(t.0));
                        assert(win.push(t).subrange(a0, ctr + 1).map_values(|t: (Block, Block, Block)| t.1) =~= win.subrange(a0, ctr as int).map_values(|t: (Block, Block, Block)| t.1).push(t.1));
                        assert(win.push(t).subrange(a0, ctr + 1).map_values(|t: (Block, Block, Block)| t.2) =~= win.subrange(a0, ctr as int).map_values(|t: (Block, Block, Block)| t.2).push(t.2));
                        assert(self.core.left() =~= old(self).core.left() + win.subrange(a0, ctr as int).map_values(|t: (Block, Block, Block)| t.0).push(t.0));
                        assert(self.core.right() =~= old(self).core.right() + win.subrange(a0, ctr as int).map_values(|t: (Block, Block, Block)| t.1).push(t.1));
                        assert(self.core.out() =~= old(self).core.out() + win.subrange(a0, ctr as int).map_values(|t: (Block, Block, Block)| t.2).push(t.2));
                        assert(self.core.masks() =~= old(self).core.masks() + adjust@);
                        assert(prover_adjusts(gs, w0, gate_masks@, gate_macs@, k as nat) + adjust@ =~= (prover_adjusts(gs, w0, gate_masks@, gate_macs@, k as nat) + adj0).push(d));
                    }
                },
                Gate::Inv { x, z } => {
                    let b = Block(run.buffer[x].0 ^ 1);
                    run.buffer.set(z, b);
                },
            }
            run.next = k + 1;
        }
        adjust
    }

    /// Returns the output MACs of a run whose gates are all executed.
    pub fn finish(&self, run: Run, circ: &Circuit) -> (r: Vec<Block>)
        requires
            circ.wf(),
            run.fits(circ),
        ensures
            r@ == circ.output_wires().map_values(|w: usize| run.wires()[w as int]),
    {
        read_outputs(&run.buffer, circ)
    }

    /// Executes the circuit over MACs: `input_macs` on the input wires, and for the
    /// `i`-th AND gate the random correlation `(gate_masks[i], gate_macs[i])`.
    /// Returns the adjustment bit of each AND gate and the output MACs; the AND
    /// gates join the check window.
    pub fn execute(&mut self, circ: &Circuit, input_macs: &Vec<Block>, gate_masks: &Vec<bool>, gate_macs: &Vec<Block>) -> (r: Result<(Vec<bool>, Vec<Block>), ZkError>)
        requires
            old(self).check_state().wf(),
            circ.wf(),
        ensures
            final(self).check_state().wf(),
            r.is_ok() == (input_macs@.len() == circ.input_wires().len()
                && gate_masks@.len() == and_count_upto(circ.spec_gates(), circ.spec_gates().len())
                && gate_macs@.len() == and_count_upto(circ.spec_gates(), circ.spec_gates().len())),
            r.is_ok() ==> {
                let w0 = assign_wires(zero_wires(circ.spec_feed_count()), circ.input_wires(), input_macs@);
                let n = circ.spec_gates().len();
                let wires = prover_run(circ.spec_gates(), w0, gate_macs@, n);
                let win = prover_window(circ.spec_gates(), w0, gate_macs@, n);
                &&& r.unwrap().0@ == prover_adjusts(circ.spec_gates(), w0, gate_masks@, gate_macs@, n)
                &&& r.unwrap().1@ == circ.output_wires().map_values(|w: usize| wires[w as int])
                &&& final(self).check_state().left() == old(self).check_state().left() + win.map_values(|t: (Block, Block, Block)| t.0)
                &&& final(self).check_state().right() == old(self).check_state().right() + win.map_values(|t: (Block, Block, Block)| t.1)
                &&& final(self).check_state().out() == old(self).check_state().out() + win.map_values(|t: (Block, Block, Block)| t.2)
                &&& final(self).check_state().masks() == old(self).check_state().masks() + r.unwrap().0@
                &&& final(self).check_state().transcript() == old(self).check_state().transcript()
            },
    {
        let total = circ.and_count();
        if input_macs.len() != circ.input_len() || gate_masks.len() != total || gate_macs.len() != total {
            return Err(ZkError::InvalidLength);
        }
        proof {
            circ.lemma_wf();
        }
        let mut buffer = zero_buffer(circ.feed_count());
        load_inputs(&mut buffer, circ, input_macs);
        let ghost w0 = buffer@;
        let ghost gs = circ.spec_gates();
        let gates = circ.gates();
        let mut adjust: Vec<bool> = Vec::with_capacity(total);
        let mut ctr: usize = 0;
        let mut k: usize = 0;
        while k < gates.len()
            invariant
                circ.wf(),
                gates@ == gs,
                gs == circ.spec_gates(),
                forall|i: int| 0 <= i < gs.len() ==> gate_in_bounds(#[trigger] gs[i], circ.spec_feed_count()),
                k <= gs.len(),
                total == and_count_upto(gs, gs.len()),
                gate_masks@.len() == total,
                gate_macs@.len() == total,
                ctr == and_count_upto(gs, k as nat),
                ctr <= total,
                buffer@ == prover_run(gs, w0, gate_macs@, k as nat),
                buffer@.len() == circ.spec_feed_count(),
                adjust@ == prover_adjusts(gs, w0, gate_masks@, gate_macs@, k as nat),
                self.core.wf(),
                self.core.left() == old(self).core.left() + prover_window(gs, w0, gate_macs@, k as nat).map_values(|t: (Block, Block, Block)| t.0),
                self.core.right() == old(self).core.right() + prover_window(gs, w0, gate_macs@, k as nat).map_values(|t: (Block, Block, Block)| t.1),
                self.core.out() == old(self).core.out() + prover_window(gs, w0, gate_macs@, k as nat).map_values(|t: (Block, Block, Block)| t.2),
                self.core.masks() == old(self).core.masks() + adjust@,
                self.core.transcript() == old(self).core.transcript(),
            decreases gs.len() - k,
        {
            assert(gate_in_bounds(gs[k as int], circ.spec_feed_count()));
            proof {
                lemma_and_count_mono(gs, (k + 1) as nat, gs.len());
            }
            match gates[k] {
                Gate::Xor { x, y, z } => {
                    let b = buffer[x].xor(buffer[y]);
                    buffer.set(z, b);
                },
                Gate::And { x, y, z } => {
                    let ghost win = prover_window(gs, w0, gate_macs@, k as nat);
                    let (d, mc) = self.core.auth_and_gate(buffer[x], buffer[y], (gate_masks[ctr], gate_macs[ctr]));
                    buffer.set(z, mc);
                    adjust.push(d);
                    ctr = ctr + 1;
                    proof {
                        let t = (prover_run(gs, w0, gate_macs@, k as nat)[x as int], prover_run(gs, w0, gate_macs@, k as nat)[y as int], buffer@[z as int]);
                        assert(prover_window(gs, w0, gate_macs@, (k + 1) as nat) == win.push(t));
                        assert(win.push(t).map_values(|t: (Block, Block, Block)| t.0) =~= win.map_values(|t: (Block, Block, Block)| t.0).push(t.0));
                        assert(win.push(t).map_values(|t: (Block, Block, Block)| t.1) =~= win.map_values(|t: (Block, Block, Block)| t.1).push(t.1));
                        assert(win.push(t).map_values(|t: (Block, Block, Block)| t.2) =~= win.map_values(|t: (Block, Block, Block)| t.2).push(t.2));
                        assert(self.core.left() =~= old(self).core.left() + win.map_values(|t: (Block, Block, Block)| t.0).push(t.0));
                        assert(self.core.right() =~= old(self).core.right() + win.map_values(|t: (Block, Block, Block)| t.1).push(t.1));
                        assert(self.core.out() =~= old(self).core.out() + win.map_values(|t: (Block, Block, Block)| t.2).push(t.2));
                        assert(self.core.masks() =~= old(self).core.masks() + adjust@);
                    }
                },
                Gate::Inv { x, z } => {
                    let b = Block(buffer[x].0 ^ 1);
                    buffer.set(z, b);
                },
            }
            k = k + 1;
        }
        let outputs = read_outputs(&buffer, circ);
        Ok((adjust, outputs))
    }
}

impl Verifier {
    /// The check state.
    pub closed spec fn check_state(&self) -> QsVerifier {
        self.core
    }

    /// Creates a verifier with correlation `delta`.
    pub fn new(delta: Delta) -> (r: Verifier)
        ensures
            r.check_state().wf(),
            r.check_state().spec_delta() == delta,
            r.check_state().left().len() == 0,
            r.check_state().spec_checked(),
    {
        Verifier { core: QsVerifier::new(delta) }
    }

    /// Authenticates the input bits from the prover's masks and the random
    /// correlation keys: returns the input keys, and binds the masks into the
    /// check transcript.
    pub fn auth_inputs(&mut self, masks: &[bool], cot: crate::ot::RCOTSenderOutput) -> (r: Result<Vec<Block>, crate::quicksilver::QsVerifierError>)
        requires
            old(self).check_state().wf(),
        ensures
            final(self).check_state().wf(),
            final(self).check_state().spec_delta() == old(self).check_state().spec_delta(),
            final(self).check_state().left() == old(self).check_state().left(),
            final(self).check_state().masks() == old(self).check_state().masks(),
            final(self).check_state().spec_checked() == old(self).check_state().spec_checked(),
            r.is_ok() == (masks@.len() == cot.msgs@.len()),
            match r {
                Ok(keys) => {
                    &&& keys@.len() == masks@.len()
                    &&& forall|i: int| 0 <= i < masks@.len() ==> (#[trigger] keys@[i]).0 == set_zero(
                        if masks@[i] { cot.msgs@[i].0 ^ old(self).check_state().spec_delta().value() } else { cot.msgs@[i].0 },
                    )
                    &&& final(self).check_state().transcript() == old(self).check_state().transcript() + pack_bits(masks@)
                },
                Err(_) => final(self).check_state().transcript() == old(self).check_state().transcript(),
            },
    {
        self.core.auth_input_bits(masks, cot)
    }

    /// Returns whether the check buffers hold a full window, so that a check is
    /// due before more AND gates are executed.
    pub fn window_full(&self) -> (r: bool)
        ensures
            r == (self.check_state().left().len() >= CHECK_BUFFER_SIZE),
    {
        self.core.enable_check()
    }

    /// Returns whether AND gates await a check.
    pub fn wants_check(&self) -> (r: bool)
        ensures
            r == (self.check_state().left().len() > 0),
    {
        self.core.enable_final_check()
    }

    /// Runs the AND-gate check with the VOPE evaluation and the prover's `(U, V)`.
    pub fn check(&mut self, vope: crate::ot::VOPESenderOutput, u: Block, v: Block)
        requires
            old(self).check_state().wf(),
        ensures
            final(self).check_state().wf(),
            final(self).check_state().left().len() == 0,
            final(self).check_state().spec_delta() == old(self).check_state().spec_delta(),
            exists|chi: u128| #![trigger is_challenge(chi, old(self).check_state().transcript() + pack_bits(old(self).check_state().masks()))] {
                let st = old(self).check_state();
                let t = st.transcript() + pack_bits(st.masks());
                &&& is_challenge(chi, t)
                &&& final(self).check_state().spec_checked() == (st.spec_checked()
                    && st.spec_w(chi, vope.eval.0) == u.0 ^ crate::block::gf_mul(st.spec_delta().value(), v.0))
                &&& final(self).check_state().transcript() == t + le_bytes(u.0) + le_bytes(v.0)
            },
    {
        self.core.check_and_gates(vope, u, v)
    }

    /// Returns whether every check so far has passed.
    pub fn checked(&self) -> (r: bool)
        ensures
            r == self.check_state().spec_checked(),
    {
        self.core.checked()
    }

    /// Starts executing `circ` over keys, with `input_keys` on the input wires.
    pub fn begin(&self, circ: &Circuit, input_keys: &Vec<Block>) -> (r: Result<Run, ZkError>)
        requires
            circ.wf(),
        ensures
            r.is_ok() == (input_keys@.len() == circ.input_wires().len()),
            r.is_ok() ==> {
                &&& r.unwrap().fits(circ)
                &&& r.unwrap().next_gate() == 0
                &&& r.unwrap().adjust_seen().len() == 0
                &&& r.unwrap().start_wires() == assign_wires(zero_wires(circ.spec_feed_count()), circ.input_wires(), input_keys@)
                &&& r.unwrap().wires() == r.unwrap().start_wires()
            },
    {
        if input_keys.len() != circ.input_len() {
            return Err(ZkError::InvalidLength);
        }
        Ok(begin_run(circ, input_keys))
    }

    /// Executes gates of the run with the prover's next adjustment bits `adjust`,
    /// until every gate is done, or the next gate is an AND gate and either the
    /// check buffers are full or the bits are used up. Returns how many bits it used.
    pub fn step(&mut self, run: &mut Run, circ: &Circuit, gate_keys: &Vec<Block>, adjust: &Vec<bool>) -> (used: usize)
        requires
            old(self).check_state().wf(),
            circ.wf(),
            old(run).fits(circ),
            old(run).adjust_seen().len() == old(run).ands_done(),
            old(run).wires() == verifier_run(circ.spec_gates(), old(run).start_wires(), gate_keys@, old(run).adjust_seen(),
                old(self).check_state().spec_delta().value(), old(run).next_gate()),
            gate_keys@.len() == and_count_upto(circ.spec_gates(), circ.spec_gates().len()),
        ensures
            ({
                let gs = circ.spec_gates();
                let w0 = old(run).start_wires();
                let d = old(self).check_state().spec_delta().value();
                let k0 = old(run).next_gate();
                let k1 = final(run).next_gate();
                let seen = final(run).adjust_seen();
                let win = verifier_window(gs, w0, gate_keys@, seen, d, k1).subrange(and_count_upto(gs, k0) as int, and_count_upto(gs, k1) as int);
                &&& final(self).check_state().wf()
                &&& final(self).check_state().spec_delta() == old(self).check_state().spec_delta()
                &&& final(self).check_state().spec_checked() == old(self).check_state().spec_checked()
                &&& final(run).fits(circ)
                &&& final(run).start_wires() == w0
                &&& k0 <= k1
                &&& used <= adjust@.len()
                &&& seen == old(run).adjust_seen() + adjust@.subrange(0, used as int)
                &&& seen.len() == final(run).ands_done()
                &&& final(run).wires() == verifier_run(gs, w0, gate_keys@, seen, d, k1)
                &&& k1 == gs.len() || (gs[k1 as int] is And && (final(self).check_state().left().len() >= CHECK_BUFFER_SIZE || used == adjust@.len()))
                &&& old(self).check_state().left().len() <= CHECK_BUFFER_SIZE ==> final(self).check_state().left().len() <= CHECK_BUFFER_SIZE
                &&& final(self).check_state().left() == old(self).check_state().left() + win.map_values(|t: (Block, Block, Block)| t.0)
                &&& final(self).check_state().right() == old(self).check_state().right() + win.map_values(|t: (Block, Block, Block)| t.1)
                &&& final(self).check_state().out() == old(self).check_state().out() + win.map_values(|t: (Block, Block, Block)| t.2)
                &&& final(self).check_state().masks() == old(self).check_state().masks() + adjust@.subrange(0, used as int)
                &&& final(self).check_state().transcript() == old(self).check_state().transcript()
            }),
    {
        proof {
            circ.lemma_wf();
        }
        let ghost gs = circ.spec_gates();
        let ghost w0 = run.start@;
        let ghost k0 = run.next as nat;
        let ghost a0 = run.ands as int;
        let ghost seen0 = run.seen@;
        let ghost all = seen0 + adjust@;
        let total = circ.and_count();
        let d = self.core.delta().as_block();
        let gates = circ.gates();
        let mut used: usize = 0;
        proof {
            lemma_and_count_mono(gs, k0, gs.len());
            lemma_verifier_run_prefix(gs, w0, gate_keys@, seen0, all, d.0, k0);
            lemma_window_len(gs, w0, gate_keys@, gate_keys@, all, d.0, k0);
            assert(verifier_window(gs, w0, gate_keys@, all, d.0, k0).subrange(a0, a0) =~= Seq::<(Block, Block, Block)>::empty());
            assert(adjust@.subrange(0, 0) =~= Seq::<bool>::empty());
            assert(seen0 + adjust@.subrange(0, 0) =~= seen0);
        }
        while run.next < gates.len() && !(is_and(gates[run.next]) && (self.core.enable_check() || used >= adjust.len()))
            invariant
                circ.wf(),
                gates@ == gs,
                gs == circ.spec_gates(),
                forall|i: int| 0 <= i < gs.len() ==> gate_in_bounds(#[trigger] gs[i], circ.spec_feed_count()),
                k0 <= run.next <= gs.len(),
                a0 == and_count_upto(gs, k0),
                total == and_count_upto(gs, gs.len()),
                gate_keys@.len() == total,
                d.0 == old(self).check_state().spec_delta().value(),
                all == seen0 + adjust@,
                seen0.len() == a0,
                used <= adjust@.len(),
                run.ands == a0 + used,
                run.ands == and_count_upto(gs, run.next as nat),
                run.ands <= total,
                run.start@ == w0,
                run.seen@ == seen0,
                run.buffer@ == verifier_run(gs, w0, gate_keys@, all, d.0, run.next as nat),
                run.buffer@.len() == circ.spec_feed_count(),
                self.core.wf(),
                self.core.spec_delta() == old(self).check_state().spec_delta(),
                self.core.spec_checked() == old(self).check_state().spec_checked(),
                self.core.left() == old(self).core.left() + verifier_window(gs, w0, gate_keys@, all, d.0, run.next as nat).subrange(a0, run.ands as int).map_values(|t: (Block, Block, Block)| t.0),
                self.core.right() == old(self).core.right() + verifier_window(gs, w0, gate_keys@, all, d.0, run.next as nat).subrange(a0, run.ands as int).map_values(|t: (Block, Block, Block)| t.1),
                self.core.out() == old(self).core.out() + verifier_window(gs, w0, gate_keys@, all, d.0, run.next as nat).subrange(a0, run.ands as int).map_values(|t: (Block, Block, Block)| t.2),
                self.core.masks() == old(self).core.masks() + adjust@.subrange(0, used as int),
                self.core.transcript() == old(self).core.transcript(),
                old(self).core.left().len() <= CHECK_BUFFER_SIZE ==> self.core.left().len() <= CHECK_BUFFER_SIZE,
            decreases gs.len() - run.next,
        {
            let k = run.next;
            assert(gate_in_bounds(gs[k as int], circ.spec_feed_count()));
            proof {
                lemma_and_count_mono(gs, (k + 1) as nat, gs.len());
                lemma_window_len(gs, w0, gate_keys@, gate_keys@, all, d.0, k as nat);
            }
            let ghost win = verifier_window(gs, w0, gate_keys@, all, d.0, k as nat);
            match gates[k] {
                Gate::Xor { x, y, z } => {
                    let b = run.buffer[x].xor(run.buffer[y]);
                    run.buffer.set(z, b);
                },
                Gate::And { x, y, z } => {
                    let ctr = run.ands;
                    let bit = adjust[used];
                    assert(all[ctr as int] == bit);
                    let kc = self.core.auth_and_gate(run.buffer[x], run.buffer[y], bit, gate_keys[ctr]);
                    run.buffer.set(z, kc);
                    run.ands = run.ands + 1;
                    used = used + 1;
                    proof {
                        let t = (verifier_run(gs, w0, gate_keys@, all, d.0, k as nat)[x as int], verifier_run(gs, w0, gate_keys@, all, d.0, k as nat)[y as int], run.buffer@[z as int]);
                        assert(verifier_window(gs, w0, gate_keys@, all, d.0, (k + 1) as nat) == win.push(t));
                        assert(win.push(t).subrange(a0, ctr + 1) =~= win.subrange(a0, ctr as int).push(t));
                        assert(win.push(t).subrange(a0, ctr + 1).map_values(|t: (Block, Block, Block)| t.0) =~= win.subrange(a0, ctr as int).map_values(|t: (Block, Block, Block)| t.0).push(t.0));
                        assert(win.push(t).subrange(a0, ctr + 1).map_values(|t: (Block, Block, Block)| t.1) =~= win.subrange(a0, ctr as int).map_values(|t: (Block, Block, Block)| t.1).push(t.1));
                        assert(win.push(t).subrange(a0, ctr + 1).map_values(|t: (Block, Block, Block)| t.2) =~= win.subrange(a0, ctr as int).map_values(|t: (Block, Block, Block)| t.2).push(t.2));
                        assert(self.core.left() =~= old(self).core.left() + win.subrange(a0, ctr as int).map_values(|t: (Block, Block, Block)| t.0).push(t.0));
                        assert(self.core.right() =~= old(self).core.right() + win.subrange(a0, ctr as int).map_values(|t: (Block, Block, Block)| t.1).push(t.1));
                        assert(self.core.out() =~= old(self).core.out() + win.subrange(a0, ctr as int).map_values(|t: (Block, Block, Block)| t.2).push(t.2));
                        assert(adjust@.subrange(0, used as int) =~= adjust@.subrange(0, used - 1).push(bit));
                        assert(self.core.masks() =~= old(self).core.masks() + adjust@.subrange(0, used as int));
                    }
                },
                Gate::Inv { x, z } => {
                    let b = Block(run.buffer[x].0 ^ d.0 ^ 1);
                    run.buffer.set(z, b);
                },
            }
            run.next = k + 1;
        }
        let ghost seen1 = seen0 + adjust@.subrange(0, used as int);
        proof {
            let k1 = run.next as nat;
            assert forall|i: int| 0 <= i < and_count_upto(gs, k1) implies seen1[i] == all[i] by {
                if i >= a0 {
                    assert(seen1[i] == adjust@[i - a0]);
                }
            }
            lemma_verifier_run_prefix(gs, w0, gate_keys@, seen1, all, d.0, k1);
            lemma_verifier_window_prefix(gs, w0, gate_keys@, seen1, all, d.0, k1);
        }
        run.seen = Ghost(seen1);
        used
    }

    /// Returns the output keys of a run whose gates are all executed.
    pub fn finish(&self, run: Run, circ: &Circuit) -> (r: Vec<Block>)
        requires
            circ.wf(),
            run.fits(circ),
        ensures
            r@ == circ.output_wires().map_values(|w: usize| run.wires()[w as int]),
    {
        read_outputs(&run.buffer, circ)
    }

    /// Executes the circuit over keys: `input_keys` on the input wires, and for the
    /// `i`-th AND gate the correlation key `gate_keys[i]` adjusted by `adjust[i]`.
    /// Returns the output keys; the AND gates join the check window.
    pub fn execute(&mut self, circ: &Circuit, input_keys: &Vec<Block>, gate_keys: &Vec<Block>, adjust: &Vec<bool>) -> (r: Result<Vec<Block>, ZkError>)
        requires
            old(self).check_state().wf(),
            circ.wf(),
        ensures
            final(self).check_state().wf(),
            final(self).check_state().spec_delta() == old(self).check_state().spec_delta(),
            final(self).check_state().spec_checked() == old(self).check_state().spec_checked(),
            r.is_ok() == (input_keys@.len() == circ.input_wires().len()
                && gate_keys@.len() == and_count_upto(circ.spec_gates(), circ.spec_gates().len())
                && adjust@.len() == and_count_upto(circ.spec_gates(), circ.spec_gates().len())),
            r.is_ok() ==> {
                let w0 = assign_wires(zero_wires(circ.spec_feed_count()), circ.input_wires(), input_keys@);
                let n = circ.spec_gates().len();
                let d = old(self).check_state().spec_delta().value();
                let wires = verifier_run(circ.spec_gates(), w0, gate_keys@, adjust@, d, n);
                let win = verifier_window(circ.spec_gates(), w0, gate_keys@, adjust@, d, n);
                &&& r.unwrap()@ == circ.output_wires().map_values(|w: usize| wires[w as int])
                &&& final(self).check_state().left() == old(self).check_state().left() + win.map_values(|t: (Block, Block, Block)| t.0)
                &&& final(self).check_state().right() == old(self).check_state().right() + win.map_values(|t: (Block, Block, Block)| t.1)
                &&& final(self).check_state().out() == old(self).check_state().out() + win.map_values(|t: (Block, Block, Block)| t.2)
                &&& final(self).check_state().masks() == old(self).check_state().masks() + adjust@
                &&& final(self).check_state().transcript() == old(self).check_state().transcript()
            },
    {
        let total = circ.and_count();
        if input_keys.len() != circ.input_len() || gate_keys.len() != total || adjust.len() != total {
            return Err(ZkError::InvalidLength);
        }
        proof {
            circ.lemma_wf();
        }
        let d = self.core.delta().as_block();
        let mut buffer = zero_buffer(circ.feed_count());
        load_inputs(&mut buffer, circ, input_keys);
        let ghost w0 = buffer@;
        let ghost gs = circ.spec_gates();
        let gates = circ.gates();
        let mut ctr: usize = 0;
        let mut k: usize = 0;
        while k < gates.len()
            invariant
                circ.wf(),
                gates@ == gs,
                gs == circ.spec_gates(),
                forall|i: int| 0 <= i < gs.len() ==> gate_in_bounds(#[trigger] gs[i], circ.spec_feed_count()),
                k <= gs.len(),
                total == and_count_upto(gs, gs.len()),
                gate_keys@.len() == total,
                adjust@.len() == total,
                ctr == and_count_upto(gs, k as nat),
                ctr <= total,
                d.0 == old(self).check_state().spec_delta().value(),
                buffer@ == verifier_run(gs, w0, gate_keys@, adjust@, d.0, k as nat),
                buffer@.len() == circ.spec_feed_count(),
                self.core.wf(),
                self.core.spec_delta() == old(self).check_state().spec_delta(),
                self.core.spec_checked() == old(self).check_state().spec_checked(),
                self.core.left() == old(self).core.left() + verifier_window(gs, w0, gate_keys@, adjust@, d.0, k as nat).map_values(|t: (Block, Block, Block)| t.0),
                self.core.right() == old(self).core.right() + verifier_window(gs, w0, gate_keys@, adjust@, d.0, k as nat).map_values(|t: (Block, Block, Block)| t.1),
                self.core.out() == old(self).core.out() + verifier_window(gs, w0, gate_keys@, adjust@, d.0, k as nat).map_values(|t: (Block, Block, Block)| t.2),
                self.core.masks() == old(self).core.masks() + adjust@.subrange(0, ctr as int),
                self.core.transcript() == old(self).core.transcript(),
            decreases gs.len() - k,
        {
            assert(gate_in_bounds(gs[k as int], circ.spec_feed_count()));
            proof {
                lemma_and_count_mono(gs, (k + 1) as nat, gs.len());
            }
            match gates[k] {
                Gate::Xor { x, y, z } => {
                    let b = buffer[x].xor(buffer[y]);
                    buffer.set(z, b);
                },
                Gate::And { x, y, z } => {
                    let ghost win = verifier_window(gs, w0, gate_keys@, adjust@, d.0, k as nat);
                    let kc = self.core.auth_and_gate(buffer[x], buffer[y], adjust[ctr], gate_keys[ctr]);
                    buffer.set(z, kc);
                    ctr = ctr + 1;
                    proof {
                        let t = (verifier_run(gs, w0, gate_keys@, adjust@, d.0, k as nat)[x as int], verifier_run(gs, w0, gate_keys@, adjust@, d.0, k as nat)[y as int], buffer@[z as int]);
                        assert(verifier_window(gs, w0, gate_keys@, adjust@, d.0, (k + 1) as nat) == win.push(t));
                        assert(win.push(t).map_values(|t: (Block, Block, Block)| t.0) =~= win.map_values(|t: (Block, Block, Block)| t.0).push(t.0));
                        assert(win.push(t).map_values(|t: (Block, Block, Block)| t.1) =~= win.map_values(|t: (Block, Block, Block)| t.1).push(t.1));
                        assert(win.push(t).map_values(|t: (Block, Block, Block)| t.2) =~= win.map_values(|t: (Block, Block, Block)| t.2).push(t.2));
                        assert(self.core.left() =~= old(self).core.left() + win.map_values(|t: (Block, Block, Block)| t.0).push(t.0));
                        assert(self.core.right() =~= old(self).core.right() + win.map_values(|t: (Block, Block, Block)| t.1).push(t.1));
                        assert(self.core.out() =~= old(self).core.out() + win.map_values(|t: (Block, Block, Block)| t.2).push(t.2));
                        assert(adjust@.subrange(0, ctr as int) =~= adjust@.subrange(0, ctr - 1).push(adjust@[ctr - 1]));
                        assert(self.core.masks() =~= old(self).core.masks() + adjust@.subrange(0, ctr as int));
                    }
                },
                Gate::Inv { x, z } => {
                    let b = Block(buffer[x].0 ^ d.0 ^ 1);
                    buffer.set(z, b);
                },
            }
            k = k + 1;
        }
        assert(adjust@.subrange(0, ctr as int) =~= adjust@);
        let outputs = read_outputs(&buffer, circ);
        Ok(outputs)
    }
}

} // verus!
