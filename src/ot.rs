//! Ideal correlated oblivious transfer and vector oblivious polynomial evaluation.
use vstd::prelude::*;

use crate::block::{gf_mul, gf_pow, Block};
use crate::prg::Prg;

verus! {

/// Identifier of a transfer.
#[derive(Clone, Copy, Debug, PartialEq, Eq, Default, Structural)]
pub struct TransferId(pub u64);

impl TransferId {
    /// Returns the current id and moves on to the next one.
    pub fn next_id(&mut self) -> (r: TransferId)
        ensures
            r == *old(self),
            final(self).0 == old(self).0.wrapping_add(1),
    {
        let r = *self;
        self.0 = self.0.wrapping_add(1);
        r
    }
}

/// Sender output of random correlated OT: the keys `q_i`.
#[derive(Debug)]
pub struct RCOTSenderOutput {
    /// Transfer id.
    pub id: TransferId,
    /// Keys.
    pub msgs: Vec<Block>,
}

/// Receiver output of random correlated OT: choices `r_i` and `q_i ^ (r_i * Δ)`.
#[derive(Debug)]
pub struct RCOTReceiverOutput {
    /// Transfer id.
    pub id: TransferId,
    /// Random choice bits.
    pub choices: Vec<bool>,
    /// Chosen messages.
    pub msgs: Vec<Block>,
}

/// Sender output of correlated OT: the keys it sent.
#[derive(Debug)]
pub struct COTSenderOutput {
    /// Transfer id.
    pub id: TransferId,
    /// Keys.
    pub msgs: Vec<Block>,
}

/// Receiver output of correlated OT: `q_i ^ (c_i * Δ)` for its choices `c_i`.
#[derive(Debug)]
pub struct COTReceiverOutput {
    /// Transfer id.
    pub id: TransferId,
    /// Received messages.
    pub msgs: Vec<Block>,
}

/// Sender output of VOPE: the evaluation at `Δ`.
#[derive(Debug)]
pub struct VOPESenderOutput {
    /// Transfer id.
    pub id: TransferId,
    /// `⊕_i c_i * Δ^i`.
    pub eval: Block,
}

/// Receiver output of VOPE: the polynomial's coefficients.
#[derive(Debug)]
pub struct VOPEReceiverOutput {
    /// Transfer id.
    pub id: TransferId,
    /// Coefficients `c_0, ..., c_d`.
    pub coeff: Vec<Block>,
}

/// `q ^ (c * Δ)`.
pub open spec fn correlate(q: u128, c: bool, delta: u128) -> u128 {
    if c {
        q ^ delta
    } else {
        q
    }
}

/// `⊕_{i < n} c_i * Δ^i`.
pub open spec fn poly_eval(coeff: Seq<Block>, delta: u128, n: nat) -> u128
    decreases n,
{
    if n == 0 {
        0
    } else {
        poly_eval(coeff, delta, (n - 1) as nat) ^ gf_mul(coeff[n - 1].0, gf_pow(delta, (n - 1) as nat))
    }
}

/// Returns `q_i ^ (c_i * Δ)` for each message and choice.
pub fn correlate_all(msgs: &Vec<Block>, choices: &Vec<bool>, delta: Block) -> (r: Vec<Block>)
    requires
        msgs@.len() == choices@.len(),
    ensures
        r@.len() == msgs@.len(),
        forall|i: int| 0 <= i < msgs@.len() ==> (#[trigger] r@[i]).0 == correlate(msgs@[i].0, choices@[i], delta.0),
{
    let mut r: Vec<Block> = Vec::with_capacity(msgs.len());
    let mut i: usize = 0;
    while i < msgs.len()
        invariant
            i <= msgs@.len(),
            msgs@.len() == choices@.len(),
            r@.len() == i,
            forall|j: int| 0 <= j < i ==> (#[trigger] r@[j]).0 == correlate(msgs@[j].0, choices@[j], delta.0),
        decreases msgs@.len() - i,
    {
        let q = msgs[i];
        r.push(if choices[i] { q.xor(delta) } else { q });
        i = i + 1;
    }
    r
}

/// The ideal correlated OT functionality.
#[derive(Debug)]
pub struct IdealCOT {
    delta: Block,
    transfer_id: TransferId,
    counter: usize,
    prg: Prg,
}

impl IdealCOT {
    /// The correlation.
    pub closed spec fn spec_delta(&self) -> Block {
        self.delta
    }

    /// The number of OTs executed.
    pub closed spec fn spec_count(&self) -> usize {
        self.counter
    }

    /// The id of the next transfer.
    pub closed spec fn spec_transfer_id(&self) -> TransferId {
        self.transfer_id
    }

    /// Creates the functionality with a generator seed and a correlation.
    pub fn new(seed: Block, delta: Block) -> (r: IdealCOT)
        ensures
            r.spec_delta() == delta,
            r.spec_count() == 0,
            r.spec_transfer_id() == TransferId(0),
    {
        IdealCOT { delta, transfer_id: TransferId(0), counter: 0, prg: Prg::from_seed(seed) }
    }

    /// Returns the correlation.
    pub fn delta(&self) -> (r: Block)
        ensures
            r == self.spec_delta(),
    {
        self.delta
    }

    /// Sets the correlation.
    pub fn set_delta(&mut self, delta: Block)
        ensures
            final(self).spec_delta() == delta,
            final(self).spec_count() == old(self).spec_count(),
            final(self).spec_transfer_id() == old(self).spec_transfer_id(),
    {
        self.delta = delta;
    }

    /// Returns the current transfer id.
    pub fn transfer_id(&self) -> (r: TransferId)
        ensures
            r == self.spec_transfer_id(),
    {
        self.transfer_id
    }

    /// Returns the number of OTs executed.
    pub fn count(&self) -> (r: usize)
        ensures
            r == self.spec_count(),
    {
        self.counter
    }

    /// Deals `count` random correlated OTs: random keys `q_i` to the sender, random
    /// choices `r_i` and `q_i ^ (r_i * Δ)` to the receiver.
    pub fn random_correlated(&mut self, count: usize) -> (r: (RCOTSenderOutput, RCOTReceiverOutput))
        requires
            old(self).spec_count() + count <= usize::MAX,
        ensures
            final(self).spec_delta() == old(self).spec_delta(),
            final(self).spec_count() == old(self).spec_count() + count,
            r.0.msgs@.len() == count,
            r.1.choices@.len() == count,
            r.1.msgs@.len() == count,
            r.0.id == r.1.id,
            r.0.id == old(self).spec_transfer_id(),
            final(self).spec_transfer_id().0 == old(self).spec_transfer_id().0.wrapping_add(1),
            forall|i: int| 0 <= i < count ==> (#[trigger] r.1.msgs@[i]).0 == correlate(r.0.msgs@[i].0, r.1.choices@[i], old(self).spec_delta().0),
    {
        let msgs = self.prg.random_blocks(count);
        let choices = self.prg.random_bools(count);
        let chosen = correlate_all(&msgs, &choices, self.delta);
        self.counter = self.counter + count;
        let id = self.transfer_id.next_id();
        (RCOTSenderOutput { id, msgs }, RCOTReceiverOutput { id, choices, msgs: chosen })
    }

    /// Executes correlated OTs on the sender's keys `msgs` and the receiver's `choices`.
    pub fn correlated(&mut self, msgs: Vec<Block>, choices: Vec<bool>) -> (r: (COTSenderOutput, COTReceiverOutput))
        requires
            msgs@.len() == choices@.len(),
            old(self).spec_count() + msgs@.len() <= usize::MAX,
        ensures
            final(self).spec_delta() == old(self).spec_delta(),
            final(self).spec_count() == old(self).spec_count() + msgs@.len(),
            r.0.msgs@ == msgs@,
            r.1.msgs@.len() == msgs@.len(),
            r.0.id == r.1.id,
            r.0.id == old(self).spec_transfer_id(),
            final(self).spec_transfer_id().0 == old(self).spec_transfer_id().0.wrapping_add(1),
            forall|i: int| 0 <= i < msgs@.len() ==> (#[trigger] r.1.msgs@[i]).0 == correlate(msgs@[i].0, choices@[i], old(self).spec_delta().0),
    {
        let received = correlate_all(&msgs, &choices, self.delta);
        self.counter = self.counter + msgs.len();
        let id = self.transfer_id.next_id();
        (COTSenderOutput { id, msgs }, COTReceiverOutput { id, msgs: received })
    }
}

impl Default for IdealCOT {
    fn default() -> (r: IdealCOT)
        ensures
            r.spec_count() == 0,
    {
        let mut prg = Prg::from_seed(Block(0));
        let seed = prg.random_block();
        let delta = prg.random_block();
        IdealCOT::new(seed, delta)
    }
}

/// The ideal VOPE functionality.
#[derive(Debug)]
pub struct IdealVOPE {
    delta: Block,
    transfer_id: TransferId,
    counter: usize,
    prg: Prg,
}

impl IdealVOPE {
    /// The correlation.
    pub closed spec fn spec_delta(&self) -> Block {
        self.delta
    }

    /// The number of evaluations executed.
    pub closed spec fn spec_count(&self) -> usize {
        self.counter
    }

    /// The id of the next transfer.
    pub closed spec fn spec_transfer_id(&self) -> TransferId {
        self.transfer_id
    }

    /// Creates the functionality with a generator seed and a correlation.
    pub fn new(seed: Block, delta: Block) -> (r: IdealVOPE)
        ensures
            r.spec_delta() == delta,
            r.spec_count() == 0,
            r.spec_transfer_id() == TransferId(0),
    {
        IdealVOPE { delta, transfer_id: TransferId(0), counter: 0, prg: Prg::from_seed(seed) }
    }

    /// Returns the correlation.
    pub fn delta(&self) -> (r: Block)
        ensures
            r == self.spec_delta(),
    {
        self.delta
    }

    /// Sets the correlation.
    pub fn set_delta(&mut self, delta: Block)
        ensures
            final(self).spec_delta() == delta,
            final(self).spec_count() == old(self).spec_count(),
            final(self).spec_transfer_id() == old(self).spec_transfer_id(),
    {
        self.delta = delta;
    }

    /// Returns the current transfer id.
    pub fn transfer_id(&self) -> (r: TransferId)
        ensures
            r == self.spec_transfer_id(),
    {
        self.transfer_id
    }

    /// Returns the number of evaluations executed.
    pub fn count(&self) -> (r: usize)
        ensures
            r == self.spec_count(),
    {
        self.counter
    }

    /// Deals a random polynomial of degree `degree`: its coefficients to the
    /// receiver, its evaluation at `Δ` to the sender.
    pub fn random_correlated(&mut self, degree: usize) -> (r: (VOPESenderOutput, VOPEReceiverOutput))
        requires
            degree < usize::MAX,
            old(self).spec_count() < usize::MAX,
        ensures
            final(self).spec_delta() == old(self).spec_delta(),
            final(self).spec_count() == old(self).spec_count() + 1,
            r.1.coeff@.len() == degree + 1,
            r.0.eval.0 == poly_eval(r.1.coeff@, old(self).spec_delta().0, (degree + 1) as nat),
            r.0.id == r.1.id,
            r.0.id == old(self).spec_transfer_id(),
            final(self).spec_transfer_id().0 == old(self).spec_transfer_id().0.wrapping_add(1),
    {
        let coeff = self.prg.random_blocks(degree + 1);
        let eval = evaluate_at(&coeff, self.delta);
        self.counter = self.counter + 1;
        let id = self.transfer_id.next_id();
        (VOPESenderOutput { id, eval }, VOPEReceiverOutput { id, coeff })
    }
}

impl Default for IdealVOPE {
    fn default() -> (r: IdealVOPE)
        ensures
            r.spec_count() == 0,
    {
        let mut prg = Prg::from_seed(Block(0));
        let seed = prg.random_block();
        let delta = prg.random_block();
        IdealVOPE::new(seed, delta)
    }
}

/// Returns `⊕_i c_i * Δ^i`.
pub fn evaluate_at(coeff: &Vec<Block>, delta: Block) -> (r: Block)
    ensures
        r.0 == poly_eval(coeff@, delta.0, coeff@.len()),
{
    let mut acc: u128 = 0;
    let mut pow = Block(1);
    let mut i: usize = 0;
    while i < coeff.len()
        invariant
            i <= coeff@.len(),
            pow.0 == gf_pow(delta.0, i as nat),
            acc == poly_eval(coeff@, delta.0, i as nat),
        decreases coeff@.len() - i,
    {
        acc = acc ^ coeff[i].gfmul(pow).0;
        pow = pow.gfmul(delta);
        i = i + 1;
    }
    Block(acc)
}

/// Horner evaluation `a_0 ^ Δ * (a_1 ^ Δ * (... ^ Δ * a_{n-1}))` of the last
/// `n - i` coefficients, from index `i` on.
pub open spec fn horner(a: Seq<Block>, delta: u128, i: nat) -> u128
    decreases a.len() - i,
{
    if i >= a.len() {
        0
    } else {
        a[i as int].0 ^ gf_mul(delta, horner(a, delta, i + 1))
    }
}

/// Checks that `b` is the evaluation at `delta` of the polynomial with coefficients `a`.
pub fn poly_check(a: &Vec<Block>, b: Block, delta: Block) -> (r: bool)
    ensures
        r == (b.0 == horner(a@, delta.0, 0)),
{
    let mut acc = Block(0);
    let mut i: usize = a.len();
    while i > 0
        invariant
            i <= a@.len(),
            acc.0 == horner(a@, delta.0, i as nat),
        decreases i,
    {
        i = i - 1;
        acc = a[i].xor(delta.gfmul(acc));
    }
    b.0 == acc.0
}

/// Checks the VOPE relation between a sender's and a receiver's outputs.
pub fn assert_vope(send: VOPESenderOutput, recv: VOPEReceiverOutput, delta: Block) -> (r: bool)
    ensures
        r == (send.eval.0 == horner(recv.coeff@, delta.0, 0)),
{
    poly_check(&recv.coeff, send.eval, delta)
}

/// A degree-one evaluation is `c_0 ^ Δ * c_1`: the masks of the AND-gate check balance.
pub proof fn lemma_vope_degree_one(coeff: Seq<Block>, delta: u128)
    requires
        coeff.len() == 2,
    ensures
        poly_eval(coeff, delta, 2) == coeff[0].0 ^ gf_mul(delta, coeff[1].0),
{
    crate::gf::lemma_one_mul(coeff[0].0);
    crate::gf::lemma_gf_mul_comm(coeff[0].0, 1);
    crate::gf::lemma_one_mul(delta);
    crate::gf::lemma_gf_mul_comm(coeff[1].0, delta);
    assert(gf_pow(delta, 0) == 1);
    assert(gf_pow(delta, 1) == gf_mul(1, delta));
    let c0 = coeff[0].0;
    assert(0u128 ^ c0 == c0) by (bit_vector);
    assert(poly_eval(coeff, delta, 0) == 0);
    assert(poly_eval(coeff, delta, 1) == 0u128 ^ gf_mul(c0, gf_pow(delta, 0)));
    assert(gf_mul(c0, 1) == c0);
    assert(poly_eval(coeff, delta, 1) == c0);
    assert(gf_pow(delta, 1) == delta);
    assert(poly_eval(coeff, delta, 2) == c0 ^ gf_mul(coeff[1].0, gf_pow(delta, 1)));
}

proof fn lemma_horner_push(s: Seq<Block>, x: Block, d: u128, i: nat)
    requires
        i <= s.len(),
    ensures
        horner(s.push(x), d, i) == horner(s, d, i) ^ gf_mul(x.0, gf_pow(d, (s.len() - i) as nat)),
    decreases s.len() - i,
{
    let t = s.push(x);
    if i == s.len() {
        assert(horner(t, d, i + 1) == 0);
        crate::gf::lemma_mul_zero(d);
        crate::gf::lemma_gf_mul_comm(x.0, 1);
        crate::gf::lemma_one_mul(x.0);
        let v = x.0;
        assert(v ^ 0u128 == v && 0u128 ^ v == v) by (bit_vector);
    } else {
        lemma_horner_push(s, x, d, i + 1);
        assert(t[i as int] == s[i as int]);
        let k = (s.len() - i - 1) as nat;
        let p = gf_pow(d, k);
        let h = horner(s, d, i + 1);
        let e = gf_mul(x.0, p);
        crate::gf::lemma_gf_mul_distrib_right(d, h, e);
        crate::gf::lemma_gf_mul_assoc(d, x.0, p);
        crate::gf::lemma_gf_mul_comm(d, x.0);
        crate::gf::lemma_gf_mul_assoc(x.0, d, p);
        crate::gf::lemma_gf_mul_comm(d, p);
        assert(gf_pow(d, k + 1) == gf_mul(p, d));
        let si = s[i as int].0;
        let a = gf_mul(d, h);
        let c = gf_mul(d, e);
        assert(si ^ (a ^ c) == (si ^ a) ^ c) by (bit_vector);
    }
}

/// Horner evaluation equals the sum of the coefficients times the powers of `Δ`.
pub proof fn lemma_horner_eval(a: Seq<Block>, d: u128, n: nat)
    requires
        n <= a.len(),
    ensures
        horner(a.subrange(0, n as int), d, 0) == poly_eval(a, d, n),
    decreases n,
{
    if n == 0 {
        assert(horner(a.subrange(0, 0), d, 0) == 0);
    } else {
        let k = (n - 1) as nat;
        lemma_horner_eval(a, d, k);
        assert(a.subrange(0, n as int) =~= a.subrange(0, k as int).push(a[k as int]));
        lemma_horner_push(a.subrange(0, k as int), a[k as int], d, 0);
    }
}

/// The ideal VOPE is correct: the evaluation it deals passes `poly_check` against
/// the coefficients it deals.
pub proof fn lemma_vope_correct(coeff: Seq<Block>, delta: u128)
    ensures
        horner(coeff, delta, 0) == poly_eval(coeff, delta, coeff.len()),
{
    lemma_horner_eval(coeff, delta, coeff.len());
    assert(coeff.subrange(0, coeff.len() as int) =~= coeff);
}

} // verus!
