//! Memory of the two parties of the zero-knowledge protocol: the prover holds
//! MACs from random correlations with their choice bits (masks), the verifier
//! holds keys and `Δ`.
//!
//! A value is assigned by derandomization: for a MAC `M = K ^ (r * Δ)` on the
//! mask `r`, the prover sends `d = x ^ r` for its value `x` and sets the MAC's
//! pointer bit to `x`; the verifier replaces `K` by `K ^ (d * Δ)` with its
//! pointer bit cleared. The MAC then authenticates `x`.
use vstd::prelude::*;

use crate::block::Block;
use crate::correlated::{Delta, KeyStore, KeyStoreError, MacStore, MacStoreError};
use crate::decode::{DecodeFuture, DecodeOp};
use crate::garble::{decode_pending, decode_ready, deliveries, lemma_filter_push, lemma_indices_push, op_slices, pairwise_disjoint, slices_fit, slices_indices, MacPayload};
use crate::memory::{AssignKind, AssignOp, Slice};
use crate::range::{lemma_flatten, range_set, RangeSet};
use crate::store::{Store, StoreError};

verus! {

/// Adjustment bits for the assigned ranges, sent by the prover.
#[derive(Debug)]
pub struct AssignPayload {
    /// The assigned ranges.
    pub idx: RangeSet,
    /// `x ^ r` for each assigned index, in range order.
    pub adjust: Vec<bool>,
}

/// Error of a [`ProverStore`].
#[derive(Clone, Copy, Debug, PartialEq, Eq, Structural)]
pub enum ProverStoreError {
    /// From the MAC store.
    MacStore(MacStoreError),
    /// From a bit store.
    Store(StoreError),
}

/// Error of a [`VerifierStore`].
#[derive(Clone, Copy, Debug, PartialEq, Eq, Structural)]
pub enum VerifierStoreError {
    /// From the key store.
    KeyStore(KeyStoreError),
    /// From the data store.
    Store(StoreError),
    /// A payload from the prover does not fit what the verifier expects.
    Protocol,
}

/// A prover's decode can resolve: its MACs are set, its data inside the store and set.
pub open spec fn prover_decode_ready(macs: Store<Block>, data: Store<bool>) -> spec_fn(Slice) -> bool {
    |s: Slice| macs.spec_is_set(s) && data.in_bounds(s) && data.spec_is_set(s)
}

/// A prover's decode cannot resolve yet.
pub open spec fn prover_decode_pending(macs: Store<Block>, data: Store<bool>) -> spec_fn(Slice) -> bool {
    |s: Slice| !(macs.spec_is_set(s) && data.in_bounds(s) && data.spec_is_set(s))
}

/// Collects the indices of the slices of `ops`, failing on a slice that overlaps
/// an earlier one or does not fit in a `usize`.
fn collect_slices(ops: &Vec<AssignOp>) -> (r: Option<RangeSet>)
    ensures
        r.is_some() == (pairwise_disjoint(op_slices(ops@)) && slices_fit(ops@)),
        r.is_some() ==> r.unwrap().wf() && r.unwrap()@ == slices_indices(op_slices(ops@)),
{
    let mut idx = RangeSet::new();
    let mut i: usize = 0;
    proof {
        assert(ops@.subrange(0, 0) =~= Seq::<AssignOp>::empty());
        assert(op_slices(Seq::<AssignOp>::empty()) =~= Seq::<Slice>::empty());
        assert(slices_indices(Seq::<Slice>::empty()) =~= Set::<int>::empty());
    }
    while i < ops.len()
        invariant
            i <= ops@.len(),
            idx.wf(),
            idx@ == slices_indices(op_slices(ops@.subrange(0, i as int))),
            pairwise_disjoint(op_slices(ops@.subrange(0, i as int))),
            slices_fit(ops@.subrange(0, i as int)),
        decreases ops@.len() - i,
    {
        let op = ops[i];
        let ghost pre = ops@.subrange(0, i as int);
        proof {
            assert(ops@.subrange(0, i + 1) =~= pre.push(op));
            crate::garble::lemma_slices_push(pre, op);
        }
        if op.slice.ptr.0 > usize::MAX - op.slice.size {
            assert(ops@[i as int] == op);
            return None;
        }
        proof {
            assert forall|j: int| 0 <= j < i + 1 implies (#[trigger] ops@.subrange(0, i + 1)[j]).slice.end() <= usize::MAX by {
                if j < i {
                    assert(ops@.subrange(0, i + 1)[j] == pre[j]);
                }
            }
        }
        let (a, b) = op.slice.to_range();
        assert(op.slice.indices() =~= range_set(a as int, b as int));
        if !idx.is_disjoint_range(a, b) {
            proof {
                let k = choose|k: int| range_set(a as int, b as int).contains(k) && idx@.contains(k);
                assert(!op.slice.indices().disjoint(slices_indices(op_slices(pre))));
                let p = op_slices(pre).push(op.slice);
                let full = op_slices(ops@);
                let (x, y) = choose|x: int, y: int| 0 <= x < y < p.len() && !(#[trigger] p[x]).indices().disjoint((#[trigger] p[y]).indices());
                assert(p[x] == full[x] && p[y] == full[y]);
            }
            return None;
        }
        idx = idx.union_range(a, b);
        i = i + 1;
    }
    assert(ops@.subrange(0, i as int) =~= ops@);
    Some(idx)
}

/// The prover's memory: MACs, masks, plaintext data and buffered operations.
pub struct ProverStore {
    mac_store: MacStore,
    mask_store: Store<bool>,
    data_store: Store<bool>,
    buffer_assign: Vec<AssignOp>,
    buffer_decode: Vec<DecodeOp<Vec<bool>>>,
    sent: Ghost<Seq<(Slice, Seq<bool>)>>,
}

impl ProverStore {
    /// The MAC store.
    pub closed spec fn macs(&self) -> MacStore {
        self.mac_store
    }

    /// The masks: the choice bits of the random correlations.
    pub closed spec fn masks(&self) -> Store<bool> {
        self.mask_store
    }

    /// The plaintext store.
    pub closed spec fn data(&self) -> Store<bool> {
        self.data_store
    }

    /// Buffered assignments.
    pub closed spec fn assign_ops(&self) -> Seq<AssignOp> {
        self.buffer_assign@
    }

    /// Slices of the buffered decodes.
    pub closed spec fn decode_queue(&self) -> Seq<Slice> {
        self.buffer_decode@.map_values(|op: DecodeOp<Vec<bool>>| op.slice)
    }

    /// Each decode resolved so far, with the value sent to its waiter.
    pub closed spec fn sent_log(&self) -> Seq<(Slice, Seq<bool>)> {
        self.sent@
    }

    /// The store's invariant.
    pub closed spec fn wf(&self) -> bool {
        &&& self.mac_store.wf()
        &&& self.mask_store.wf()
        &&& self.data_store.wf()
        &&& self.mac_store.arena().values().len() == self.data_store.values().len()
        &&& self.mask_store.values().len() == self.data_store.values().len()
        &&& forall|i: int| 0 <= i < self.buffer_decode@.len() ==> (#[trigger] self.buffer_decode@[i]).chan.is_some()
    }

    /// The number of allocated indices.
    pub open spec fn spec_len(&self) -> int {
        self.data().values().len() as int
    }

    /// Creates an empty prover store.
    pub fn new() -> (r: ProverStore)
        ensures
            r.wf(),
            r.spec_len() == 0,
            r.assign_ops().len() == 0,
    {
        ProverStore {
            mac_store: MacStore::new(),
            mask_store: Store::new(),
            data_store: Store::new(),
            buffer_assign: Vec::new(),
            buffer_decode: Vec::new(),
            sent: Ghost(Seq::empty()),
        }
    }

    /// Allocates values holding random correlations: choice bits `masks` and MACs `macs`.
    pub fn alloc_with(&mut self, masks: &[bool], macs: &[Block]) -> (r: Slice)
        requires
            old(self).wf(),
            masks@.len() == macs@.len(),
            old(self).spec_len() + macs@.len() <= usize::MAX,
        ensures
            final(self).wf(),
            r.start() == old(self).spec_len(),
            r.size == macs@.len(),
            final(self).macs().arena().values() == old(self).macs().arena().values() + macs@,
            final(self).masks().values() == old(self).masks().values() + masks@,
            final(self).data().initialized() == old(self).data().initialized(),
            final(self).assign_ops() == old(self).assign_ops(),
    {
        let _ = self.mac_store.alloc_with(macs);
        let _ = self.mask_store.alloc_with(masks);
        self.data_store.alloc_filled(macs.len(), false)
    }

    /// Allocates values whose MACs are set later, such as circuit outputs.
    pub fn alloc_output(&mut self, len: usize) -> (r: Slice)
        requires
            old(self).wf(),
            old(self).spec_len() + len <= usize::MAX,
        ensures
            final(self).wf(),
            r.start() == old(self).spec_len(),
            r.size == len,
            final(self).macs().arena().initialized() == old(self).macs().arena().initialized(),
            final(self).data().initialized() == old(self).data().initialized(),
            final(self).assign_ops() == old(self).assign_ops(),
    {
        let _ = self.mac_store.allocate(len);
        let _ = self.mask_store.alloc_filled(len, false);
        self.data_store.alloc_filled(len, false)
    }

    /// Returns whether the MACs of `slice` are all set.
    pub fn is_set_macs(&self, slice: Slice) -> (r: bool)
        requires
            self.wf(),
        ensures
            r == self.macs().arena().spec_is_set(slice),
    {
        self.mac_store.is_set(slice)
    }

    /// Returns whether the masks of `slice` are all set.
    pub fn is_set_masks(&self, slice: Slice) -> (r: bool)
        requires
            self.wf(),
        ensures
            r == self.masks().spec_is_set(slice),
    {
        self.mask_store.is_set(slice)
    }

    /// Returns whether the data of `slice` is all set.
    pub fn is_set_data(&self, slice: Slice) -> (r: bool)
        requires
            self.wf(),
        ensures
            r == self.data().spec_is_set(slice),
    {
        self.data_store.is_set(slice)
    }

    /// Returns whether assignments are buffered.
    pub fn wants_assign(&self) -> (r: bool)
        ensures
            r == (self.assign_ops().len() > 0),
    {
        self.buffer_assign.len() > 0
    }

    /// Returns whether some buffered decode has its MACs set.
    pub fn wants_decode(&self) -> (r: bool)
        requires
            self.wf(),
        ensures
            r == exists|i: int| 0 <= i < self.decode_queue().len() && self.macs().arena().spec_is_set(#[trigger] self.decode_queue()[i]),
    {
        let mut i: usize = 0;
        while i < self.buffer_decode.len()
            invariant
                self.wf(),
                i <= self.decode_queue().len(),
                self.decode_queue().len() == self.buffer_decode@.len(),
                forall|j: int| 0 <= j < i ==> !self.macs().arena().spec_is_set(#[trigger] self.decode_queue()[j]),
            decreases self.decode_queue().len() - i,
        {
            let slice = self.buffer_decode[i].slice;
            assert(self.decode_queue()[i as int] == slice);
            if self.mac_store.is_set(slice) {
                return true;
            }
            i = i + 1;
        }
        false
    }

    /// Returns the MACs of `slice` if they are all set.
    pub fn try_get_macs(&self, slice: Slice) -> (r: Result<Vec<Block>, ProverStoreError>)
        requires
            self.wf(),
        ensures
            r.is_ok() == (self.macs().arena().in_bounds(slice) && self.macs().arena().spec_is_set(slice)),
            r.is_ok() ==> r.unwrap()@ == self.macs().arena().spec_get(slice),
    {
        match self.mac_store.try_get(slice) {
            Ok(v) => Ok(v),
            Err(e) => Err(ProverStoreError::MacStore(e)),
        }
    }

    /// Sets the MACs of `slice`, such as the outputs of a circuit.
    pub fn set_macs(&mut self, slice: Slice, macs: &[Block]) -> (r: Result<(), ProverStoreError>)
        requires
            old(self).wf(),
            macs@.len() == slice.size,
        ensures
            final(self).wf(),
            final(self).data() == old(self).data(),
            final(self).assign_ops() == old(self).assign_ops(),
            r.is_ok() == (old(self).macs().arena().in_bounds(slice) && slice.indices().disjoint(old(self).macs().arena().initialized())),
            r.is_ok() ==> final(self).macs().arena().values() == old(self).macs().arena().values().update_subrange_with(slice.start(), macs@),
    {
        match self.mac_store.try_set(slice, macs) {
            Ok(()) => Ok(()),
            Err(e) => Err(ProverStoreError::MacStore(e)),
        }
    }

    fn assign_data(&mut self, slice: Slice, data: &[bool], kind: AssignKind) -> (r: Result<(), ProverStoreError>)
        requires
            old(self).wf(),
            data@.len() == slice.size,
        ensures
            final(self).wf(),
            final(self).macs() == old(self).macs(),
            final(self).masks() == old(self).masks(),
            final(self).decode_queue() == old(self).decode_queue(),
            r.is_ok() == (old(self).data().in_bounds(slice) && slice.indices().disjoint(old(self).data().initialized())),
            r.is_ok() ==> final(self).data().values() == old(self).data().values().update_subrange_with(slice.start(), data@),
            r.is_ok() ==> final(self).assign_ops() == old(self).assign_ops().push(AssignOp { slice, kind }),
            r.is_err() ==> final(self).data() == old(self).data() && final(self).assign_ops() == old(self).assign_ops(),
    {
        match self.data_store.try_set(slice, data) {
            Ok(()) => {},
            Err(e) => {
                return Err(ProverStoreError::Store(e));
            },
        }
        self.buffer_assign.push(AssignOp { slice, kind });
        Ok(())
    }

    /// Sets public data of `slice` and buffers its assignment.
    pub fn assign_public(&mut self, slice: Slice, data: &[bool]) -> (r: Result<(), ProverStoreError>)
        requires
            old(self).wf(),
            data@.len() == slice.size,
        ensures
            final(self).wf(),
            r.is_ok() == (old(self).data().in_bounds(slice) && slice.indices().disjoint(old(self).data().initialized())),
            r.is_ok() ==> final(self).assign_ops() == old(self).assign_ops().push(AssignOp { slice, kind: AssignKind::Public }),
    {
        self.assign_data(slice, data, AssignKind::Public)
    }

    /// Sets private data of `slice` and buffers its assignment.
    pub fn assign_private(&mut self, slice: Slice, data: &[bool]) -> (r: Result<(), ProverStoreError>)
        requires
            old(self).wf(),
            data@.len() == slice.size,
        ensures
            final(self).wf(),
            r.is_ok() == (old(self).data().in_bounds(slice) && slice.indices().disjoint(old(self).data().initialized())),
            r.is_ok() ==> final(self).assign_ops() == old(self).assign_ops().push(AssignOp { slice, kind: AssignKind::Private }),
    {
        self.assign_data(slice, data, AssignKind::Private)
    }

    /// Buffers a decode of `slice`, returning the future that resolves to its value.
    pub fn decode(&mut self, slice: Slice) -> (r: Result<DecodeFuture<Vec<bool>>, ProverStoreError>)
        requires
            old(self).wf(),
        ensures
            final(self).wf(),
            r.is_ok(),
            final(self).decode_queue() == old(self).decode_queue().push(slice),
            final(self).assign_ops() == old(self).assign_ops(),
    {
        let (fut, op) = DecodeFuture::new(slice);
        self.buffer_decode.push(op);
        assert(self.decode_queue() =~= old(self).decode_queue().push(slice));
        Ok(fut)
    }

    /// Executes all buffered assignments: returns the adjustment bits `x ^ r`, in
    /// range order, and sets each assigned MAC's pointer bit to its value `x`.
    pub fn execute_assign(&mut self) -> (r: Result<AssignPayload, ProverStoreError>)
        requires
            old(self).wf(),
        ensures
            final(self).wf(),
            final(self).assign_ops().len() == 0,
            final(self).data() == old(self).data(),
            final(self).masks() == old(self).masks(),
            r.is_ok() == (pairwise_disjoint(op_slices(old(self).assign_ops())) && slices_fit(old(self).assign_ops())
                && slices_indices(op_slices(old(self).assign_ops())).subset_of(old(self).data().initialized())
                && slices_indices(op_slices(old(self).assign_ops())).subset_of(old(self).masks().initialized())
                && slices_indices(op_slices(old(self).assign_ops())).subset_of(old(self).macs().arena().initialized())),
            r.is_ok() ==> {
                let p = r.unwrap();
                &&& p.idx.wf()
                &&& p.idx@ == slices_indices(op_slices(old(self).assign_ops()))
                &&& pairwise_disjoint(op_slices(old(self).assign_ops()))
                &&& p.adjust@.len() == old(self).data().spec_get_ranges(&p.idx).len()
                &&& forall|j: int| 0 <= j < p.adjust@.len() ==> #[trigger] p.adjust@[j]
                    == (old(self).data().spec_get_ranges(&p.idx)[j] != old(self).masks().spec_get_ranges(&p.idx)[j])
                &&& forall|j: int| 0 <= j < p.adjust@.len() ==> (#[trigger] final(self).macs().macs_in(&p.idx)[j]).0
                    == (old(self).macs().macs_in(&p.idx)[j].0 & crate::block::MINUS_ONE) ^ (if old(self).data().spec_get_ranges(&p.idx)[j] { 1u128 } else { 0u128 })
            },
    {
        let mut ops: Vec<AssignOp> = Vec::new();
        std::mem::swap(&mut self.buffer_assign, &mut ops);
        let idx = match collect_slices(&ops) {
            Some(idx) => idx,
            None => {
                return Err(ProverStoreError::MacStore(MacStoreError::AlreadyAssigned(Slice::new_unchecked(crate::memory::Ptr::new(0), 0))));
            },
        };
        let data = match self.data_store.try_get_ranges(&idx) {
            Ok(d) => d,
            Err(e) => {
                return Err(ProverStoreError::Store(e));
            },
        };
        let masks = match self.mask_store.try_get_ranges(&idx) {
            Ok(m) => m,
            Err(e) => {
                return Err(ProverStoreError::Store(e));
            },
        };
        proof {
            lemma_flatten(idx.spec_ranges());
        }
        let mut adjust: Vec<bool> = Vec::with_capacity(data.len());
        let mut i: usize = 0;
        while i < data.len()
            invariant
                i <= data@.len(),
                data@.len() == masks@.len(),
                adjust@.len() == i,
                forall|j: int| 0 <= j < i ==> #[trigger] adjust@[j] == (data@[j] != masks@[j]),
            decreases data@.len() - i,
        {
            adjust.push(data[i] != masks[i]);
            i = i + 1;
        }
        match self.mac_store.set_pointer_bits_ranges(&idx, &data) {
            Ok(()) => {},
            Err(e) => {
                return Err(ProverStoreError::MacStore(e));
            },
        }
        Ok(AssignPayload { idx, adjust })
    }

    /// The decodes this round resolves: MACs set, data inside the store and set.
    pub open spec fn ready_decodes(&self) -> Seq<Slice> {
        self.decode_queue().filter(prover_decode_ready(self.macs().arena(), self.data()))
    }

    /// Proves the MACs of the buffered decodes whose MACs and data are set, and
    /// sends each of their waiters the slice's data; the others stay buffered.
    pub fn execute_decode(&mut self) -> (r: Result<MacPayload, ProverStoreError>)
        requires
            old(self).wf(),
        ensures
            final(self).wf(),
            r.is_ok(),
            final(self).macs() == old(self).macs(),
            final(self).data() == old(self).data(),
            final(self).masks() == old(self).masks(),
            final(self).assign_ops() == old(self).assign_ops(),
            final(self).decode_queue() == old(self).decode_queue().filter(prover_decode_pending(old(self).macs().arena(), old(self).data())),
            final(self).sent_log() == old(self).sent_log() + deliveries(old(self).ready_decodes(), old(self).data()),
            r.is_ok() ==> {
                let p = r.unwrap();
                &&& p.idx.wf()
                &&& p.idx@ == slices_indices(old(self).ready_decodes())
                &&& p.proof@ == crate::hash::blake3_digest(crate::hash::blocks_bytes(old(self).macs().macs_in(&p.idx)))
                &&& p.bits@.len() == old(self).macs().macs_in(&p.idx).len()
                &&& forall|j: int| 0 <= j < p.bits@.len() ==> p.bits@[j] == crate::correlated::lsb(#[trigger] old(self).macs().macs_in(&p.idx)[j].0)
            },
    {
        let ghost all = self.decode_queue();
        let ghost macs0 = self.mac_store.arena();
        let ghost data = self.data_store;
        let ghost p_ready = prover_decode_ready(macs0, data);
        let ghost p_pending = prover_decode_pending(macs0, data);
        let mut pending: Vec<DecodeOp<Vec<bool>>> = Vec::new();
        std::mem::swap(&mut self.buffer_decode, &mut pending);
        let ghost n = pending@.len();
        let n_data = self.data_store.len();
        let mut idx = RangeSet::new();
        proof {
            reveal(Seq::filter);
            assert(all.subrange(0, 0) =~= Seq::<Slice>::empty());
            assert(self.decode_queue() =~= Seq::<Slice>::empty());
            assert(deliveries(Seq::<Slice>::empty(), data) =~= Seq::empty());
            assert(self.sent@ =~= old(self).sent@ + Seq::empty());
            assert(slices_indices(Seq::<Slice>::empty()) =~= Set::<int>::empty());
        }
        while pending.len() > 0
            invariant
                self.wf(),
                self.mac_store == old(self).mac_store,
                self.data_store == data,
                self.mask_store == old(self).mask_store,
                self.buffer_assign == old(self).buffer_assign,
                macs0 == self.mac_store.arena(),
                p_ready == prover_decode_ready(macs0, data),
                p_pending == prover_decode_pending(macs0, data),
                n_data == data.values().len(),
                all.len() == n,
                pending@.len() <= n,
                idx.wf(),
                forall|j: int| 0 <= j < pending@.len() ==> (#[trigger] pending@[j]).slice == all[n - pending@.len() + j],
                forall|j: int| 0 <= j < pending@.len() ==> (#[trigger] pending@[j]).chan.is_some(),
                self.decode_queue() == all.subrange(0, n - pending@.len()).filter(p_pending),
                self.sent@ == old(self).sent@ + deliveries(all.subrange(0, n - pending@.len()).filter(p_ready), data),
                idx@ == slices_indices(all.subrange(0, n - pending@.len()).filter(p_ready)),
                idx@.subset_of(macs0.initialized()),
            decreases pending@.len(),
        {
            let ghost i = n - pending@.len();
            let ghost pre = all.subrange(0, i);
            let mut op = pending.remove(0);
            proof {
                assert(op.slice == all[i]);
                assert(all.subrange(0, i + 1) =~= pre.push(op.slice));
                assert(p_ready(op.slice) == (macs0.spec_is_set(op.slice) && data.in_bounds(op.slice) && data.spec_is_set(op.slice)));
                assert(p_pending(op.slice) == !p_ready(op.slice));
                lemma_filter_push(pre, op.slice, p_ready);
                lemma_filter_push(pre, op.slice, p_pending);
                lemma_indices_push(pre.filter(p_ready), op.slice);
                assert(deliveries(pre.filter(p_ready).push(op.slice), data) =~= deliveries(pre.filter(p_ready), data).push((op.slice, data.spec_get(op.slice))));
            }
            if self.mac_store.is_set(op.slice) && op.slice.ptr.0 <= n_data && op.slice.size <= n_data - op.slice.ptr.0 && self.data_store.is_set(op.slice) {
                let (a, b) = op.slice.to_range();
                assert(op.slice.indices() =~= range_set(a as int, b as int));
                idx = idx.union_range(a, b);
                let v = match self.data_store.try_get(op.slice) {
                    Ok(v) => v,
                    Err(_) => {
                        assert(false);
                        Vec::new()
                    },
                };
                let ghost vv = v@;
                let sent = op.send(v);
                assert(sent.is_ok());
                proof {
                    self.sent = Ghost(self.sent@.push((op.slice, op.sent@.unwrap()@)));
                    assert(op.sent@.unwrap()@ == vv);
                }
            } else {
                let ghost before = self.buffer_decode@;
                self.buffer_decode.push(op);
                assert(self.decode_queue() =~= before.map_values(|o: DecodeOp<Vec<bool>>| o.slice).push(op.slice));
            }
        }
        proof {
            assert(all.subrange(0, n as int) =~= all);
        }
        let (bits, proof) = match self.mac_store.prove(&idx) {
            Ok(p) => p,
            Err(e) => {
                assert(false);
                return Err(ProverStoreError::MacStore(e));
            },
        };
        Ok(MacPayload { idx, bits, proof })
    }
}

impl Default for ProverStore {
    fn default() -> (r: ProverStore)
        ensures
            r.wf(),
            r.spec_len() == 0,
    {
        ProverStore::new()
    }
}

/// The verifier's memory: keys, plaintext data and buffered operations.
pub struct VerifierStore {
    key_store: KeyStore,
    data_store: Store<bool>,
    buffer_assign: Vec<AssignOp>,
    buffer_decode: Vec<DecodeOp<Vec<bool>>>,
    sent: Ghost<Seq<(Slice, Seq<bool>)>>,
}

impl VerifierStore {
    /// The key store.
    pub closed spec fn keys(&self) -> KeyStore {
        self.key_store
    }

    /// The plaintext store.
    pub closed spec fn data(&self) -> Store<bool> {
        self.data_store
    }

    /// Buffered assignments.
    pub closed spec fn assign_ops(&self) -> Seq<AssignOp> {
        self.buffer_assign@
    }

    /// Slices of the buffered decodes.
    pub closed spec fn decode_queue(&self) -> Seq<Slice> {
        self.buffer_decode@.map_values(|op: DecodeOp<Vec<bool>>| op.slice)
    }

    /// Each decode resolved so far, with the value sent to its waiter.
    pub closed spec fn sent_log(&self) -> Seq<(Slice, Seq<bool>)> {
        self.sent@
    }

    /// The store's invariant.
    pub closed spec fn wf(&self) -> bool {
        &&& self.key_store.wf()
        &&& self.data_store.wf()
        &&& self.key_store.arena().values().len() == self.data_store.values().len()
        &&& forall|i: int| 0 <= i < self.buffer_decode@.len() ==> (#[trigger] self.buffer_decode@[i]).chan.is_some()
    }

    /// The number of allocated indices.
    pub open spec fn spec_len(&self) -> int {
        self.data().values().len() as int
    }

    /// Creates an empty verifier store with correlation `delta`.
    pub fn new(delta: Delta) -> (r: VerifierStore)
        ensures
            r.wf(),
            r.keys().spec_delta() == delta,
            r.spec_len() == 0,
            r.assign_ops().len() == 0,
    {
        VerifierStore { key_store: KeyStore::new(delta), data_store: Store::new(), buffer_assign: Vec::new(), buffer_decode: Vec::new(), sent: Ghost(Seq::empty()) }
    }

    /// Returns `Δ`.
    pub fn delta(&self) -> (r: Delta)
        ensures
            r == self.keys().spec_delta(),
    {
        self.key_store.delta()
    }

    /// Returns whether the keys of `slice` are all set.
    pub fn is_set_keys(&self, slice: Slice) -> (r: bool)
        requires
            self.wf(),
        ensures
            r == self.keys().arena().spec_is_set(slice),
    {
        self.key_store.is_set(slice)
    }

    /// Returns whether any key of `slice` has been used.
    pub fn is_assigned_keys(&self, slice: Slice) -> (r: bool)
        requires
            self.wf(),
            slice.end() <= usize::MAX,
        ensures
            r == !slice.indices().disjoint(self.keys().used()),
    {
        self.key_store.is_used(slice)
    }

    /// Returns whether the data of `slice` is all set.
    pub fn is_set_data(&self, slice: Slice) -> (r: bool)
        requires
            self.wf(),
        ensures
            r == self.data().spec_is_set(slice),
    {
        self.data_store.is_set(slice)
    }

    /// Returns whether assignments are buffered.
    pub fn wants_assign(&self) -> (r: bool)
        ensures
            r == (self.assign_ops().len() > 0),
    {
        self.buffer_assign.len() > 0
    }

    /// Returns whether some buffered decode has its keys set.
    pub fn wants_verify_data(&self) -> (r: bool)
        requires
            self.wf(),
        ensures
            r == exists|i: int| 0 <= i < self.decode_queue().len() && self.keys().arena().spec_is_set(#[trigger] self.decode_queue()[i]),
    {
        let mut i: usize = 0;
        while i < self.buffer_decode.len()
            invariant
                self.wf(),
                i <= self.decode_queue().len(),
                self.decode_queue().len() == self.buffer_decode@.len(),
                forall|j: int| 0 <= j < i ==> !self.keys().arena().spec_is_set(#[trigger] self.decode_queue()[j]),
            decreases self.decode_queue().len() - i,
        {
            let slice = self.buffer_decode[i].slice;
            assert(self.decode_queue()[i as int] == slice);
            if self.key_store.is_set(slice) {
                return true;
            }
            i = i + 1;
        }
        false
    }

    /// Returns the keys of `slice` if they are all set.
    pub fn try_get_keys(&self, slice: Slice) -> (r: Result<Vec<Block>, VerifierStoreError>)
        requires
            self.wf(),
        ensures
            r.is_ok() == (self.keys().arena().in_bounds(slice) && self.keys().arena().spec_is_set(slice)),
            r.is_ok() ==> r.unwrap()@ == self.keys().arena().spec_get(slice),
    {
        match self.key_store.try_get(slice) {
            Ok(v) => Ok(v),
            Err(e) => Err(VerifierStoreError::KeyStore(e)),
        }
    }

    /// Allocates values holding the random correlations' keys.
    pub fn alloc_with(&mut self, keys: &[Block]) -> (r: Slice)
        requires
            old(self).wf(),
            old(self).spec_len() + keys@.len() <= usize::MAX,
        ensures
            final(self).wf(),
            r.start() == old(self).spec_len(),
            r.size == keys@.len(),
            final(self).keys().arena().values() == old(self).keys().arena().values() + keys@,
            final(self).keys().spec_delta() == old(self).keys().spec_delta(),
            final(self).data().initialized() == old(self).data().initialized(),
            final(self).assign_ops() == old(self).assign_ops(),
    {
        let _ = self.key_store.alloc_with(keys);
        self.data_store.alloc_filled(keys.len(), false)
    }

    /// Allocates values whose keys are set later, such as circuit outputs.
    pub fn alloc_output(&mut self, len: usize) -> (r: Slice)
        requires
            old(self).wf(),
            old(self).spec_len() + len <= usize::MAX,
        ensures
            final(self).wf(),
            r.start() == old(self).spec_len(),
            r.size == len,
            final(self).keys().spec_delta() == old(self).keys().spec_delta(),
            final(self).assign_ops() == old(self).assign_ops(),
    {
        let _ = self.key_store.allocate(len);
        self.data_store.alloc_filled(len, false)
    }

    /// Sets the keys of an output slice.
    pub fn set_output(&mut self, slice: Slice, keys: &[Block]) -> (r: Result<(), VerifierStoreError>)
        requires
            old(self).wf(),
            keys@.len() == slice.size,
        ensures
            final(self).wf(),
            final(self).keys().spec_delta() == old(self).keys().spec_delta(),
            r.is_ok() == (old(self).keys().arena().in_bounds(slice) && slice.indices().disjoint(old(self).keys().arena().initialized())),
    {
        match self.key_store.try_set(slice, keys) {
            Ok(()) => Ok(()),
            Err(e) => Err(VerifierStoreError::KeyStore(e)),
        }
    }

    /// Sets public data of `slice` and buffers its assignment.
    pub fn assign_public(&mut self, slice: Slice, data: &[bool]) -> (r: Result<(), VerifierStoreError>)
        requires
            old(self).wf(),
            data@.len() == slice.size,
        ensures
            final(self).wf(),
            final(self).keys() == old(self).keys(),
            r.is_ok() == (old(self).data().in_bounds(slice) && slice.indices().disjoint(old(self).data().initialized())),
            r.is_ok() ==> final(self).assign_ops() == old(self).assign_ops().push(AssignOp { slice, kind: AssignKind::Public }),
    {
        match self.data_store.try_set(slice, data) {
            Ok(()) => {},
            Err(e) => {
                return Err(VerifierStoreError::Store(e));
            },
        }
        self.buffer_assign.push(AssignOp { slice, kind: AssignKind::Public });
        Ok(())
    }

    /// Buffers the assignment of `slice` with data that only the prover knows.
    pub fn assign_blind(&mut self, slice: Slice) -> (r: Result<(), VerifierStoreError>)
        requires
            old(self).wf(),
        ensures
            final(self).wf(),
            r.is_ok(),
            final(self).keys() == old(self).keys(),
            final(self).assign_ops() == old(self).assign_ops().push(AssignOp { slice, kind: AssignKind::Blind }),
    {
        self.buffer_assign.push(AssignOp { slice, kind: AssignKind::Blind });
        Ok(())
    }

    /// Buffers a decode of `slice`, returning the future that resolves to its value.
    pub fn decode(&mut self, slice: Slice) -> (r: Result<DecodeFuture<Vec<bool>>, VerifierStoreError>)
        requires
            old(self).wf(),
        ensures
            final(self).wf(),
            r.is_ok(),
            final(self).decode_queue() == old(self).decode_queue().push(slice),
            final(self).assign_ops() == old(self).assign_ops(),
    {
        let (fut, op) = DecodeFuture::new(slice);
        self.buffer_decode.push(op);
        assert(self.decode_queue() =~= old(self).decode_queue().push(slice));
        Ok(fut)
    }

    /// Executes all buffered assignments with the prover's adjustment bits: each
    /// key `K` of the assigned ranges becomes `K ^ (d * Δ)` with its pointer bit
    /// cleared. The payload's ranges must be exactly the buffered ones.
    pub fn execute_assign(&mut self, payload: AssignPayload) -> (r: Result<(), VerifierStoreError>)
        requires
            old(self).wf(),
            payload.idx.wf(),
        ensures
            final(self).wf(),
            final(self).assign_ops().len() == 0,
            final(self).data() == old(self).data(),
            r.is_ok() == (pairwise_disjoint(op_slices(old(self).assign_ops())) && slices_fit(old(self).assign_ops())
                && payload.idx@ == slices_indices(op_slices(old(self).assign_ops()))
                && payload.adjust@.len() == payload.idx.spec_len()
                && payload.idx@.subset_of(old(self).keys().arena().initialized())
                && payload.idx@.disjoint(old(self).keys().used())),
            r.is_ok() ==> final(self).keys().used() == old(self).keys().used().union(payload.idx@),
            r.is_ok() ==> {
                &&& payload.idx@ == slices_indices(op_slices(old(self).assign_ops()))
                &&& payload.adjust@.len() == payload.idx.spec_len()
                &&& forall|j: int| 0 <= j < payload.adjust@.len() ==> (#[trigger] final(self).keys().keys_in(&payload.idx)[j]).0
                    == (if payload.adjust@[j] { old(self).keys().keys_in(&payload.idx)[j].0 ^ old(self).keys().spec_delta().value() } else { old(self).keys().keys_in(&payload.idx)[j].0 }) & crate::block::MINUS_ONE
            },
    {
        let mut ops: Vec<AssignOp> = Vec::new();
        std::mem::swap(&mut self.buffer_assign, &mut ops);
        let expected = match collect_slices(&ops) {
            Some(idx) => idx,
            None => {
                return Err(VerifierStoreError::Protocol);
            },
        };
        let AssignPayload { idx, adjust } = payload;
        if !idx.set_eq(&expected) || adjust.len() != idx.len() {
            return Err(VerifierStoreError::Protocol);
        }
        match self.key_store.derandomize_ranges(&idx, &adjust) {
            Ok(()) => Ok(()),
            Err(e) => Err(VerifierStoreError::KeyStore(e)),
        }
    }

    /// Checks the prover's proof of its MACs and stores the decoded data.
    pub fn verify_data(&mut self, payload: MacPayload) -> (r: Result<(), VerifierStoreError>)
        requires
            old(self).wf(),
            payload.idx.wf(),
        ensures
            final(self).wf(),
            final(self).keys() == old(self).keys(),
            final(self).assign_ops() == old(self).assign_ops(),
            final(self).decode_queue() == old(self).decode_queue(),
            final(self).sent_log() == old(self).sent_log(),
            r.is_err() ==> final(self).data() == old(self).data(),
            r is Err && payload.bits@.len() == payload.idx.spec_len() && payload.idx@.subset_of(old(self).keys().arena().initialized())
                && payload.proof@ == crate::hash::blake3_digest(crate::hash::blocks_bytes(old(self).keys().expected_macs(&payload.idx, payload.bits@)))
                ==> !old(self).data().agrees(&payload.idx, old(self).keys().recovered_bits(&payload.idx, payload.bits@)),
            r.is_ok() ==> {
                &&& payload.bits@.len() == payload.idx.spec_len()
                &&& payload.idx@.subset_of(old(self).keys().arena().initialized())
                &&& payload.proof@ == crate::hash::blake3_digest(crate::hash::blocks_bytes(old(self).keys().expected_macs(&payload.idx, payload.bits@)))
                &&& old(self).data().agrees(&payload.idx, old(self).keys().recovered_bits(&payload.idx, payload.bits@))
                &&& final(self).data().initialized() == old(self).data().initialized().union(payload.idx@)
                &&& final(self).data().spec_get_ranges(&payload.idx) == old(self).keys().recovered_bits(&payload.idx, payload.bits@)
            },
    {
        let MacPayload { idx, mut bits, proof } = payload;
        if bits.len() != idx.len() {
            return Err(VerifierStoreError::Protocol);
        }
        match self.key_store.verify(&idx, &mut bits, proof) {
            Ok(()) => {},
            Err(e) => {
                return Err(VerifierStoreError::KeyStore(e));
            },
        }
        proof {
            lemma_flatten(idx.spec_ranges());
            self.key_store.lemma_arena_wf();
            assert forall|k: int| idx@.contains(k) implies range_set(0, self.data_store.values().len() as int).contains(k) by {
                self.key_store.arena().lemma_initialized_in_bounds(k);
            }
        }
        match self.data_store.try_fill_ranges(&idx, &bits) {
            Ok(()) => Ok(()),
            Err(_) => Err(VerifierStoreError::Protocol),
        }
    }

    /// Resolves the buffered decodes whose data is inside the store and set, sending
    /// each waiter the slice's data; the others stay buffered.
    pub fn execute_decode(&mut self) -> (r: Result<(), VerifierStoreError>)
        requires
            old(self).wf(),
        ensures
            final(self).wf(),
            r.is_ok(),
            final(self).keys() == old(self).keys(),
            final(self).data() == old(self).data(),
            final(self).assign_ops() == old(self).assign_ops(),
            final(self).decode_queue() == old(self).decode_queue().filter(decode_pending(old(self).data())),
            final(self).sent_log() == old(self).sent_log()
                + deliveries(old(self).decode_queue().filter(decode_ready(old(self).data())), old(self).data()),
    {
        let ghost all = self.decode_queue();
        let ghost data = self.data_store;
        let ghost p_ready = decode_ready(data);
        let ghost p_pending = decode_pending(data);
        let mut pending: Vec<DecodeOp<Vec<bool>>> = Vec::new();
        std::mem::swap(&mut self.buffer_decode, &mut pending);
        let ghost n = pending@.len();
        let n_data = self.data_store.len();
        proof {
            reveal(Seq::filter);
            assert(all.subrange(0, 0) =~= Seq::<Slice>::empty());
            assert(self.decode_queue() =~= Seq::<Slice>::empty());
            assert(deliveries(Seq::<Slice>::empty(), data) =~= Seq::empty());
            assert(self.sent@ =~= old(self).sent@ + Seq::empty());
        }
        while pending.len() > 0
            invariant
                self.wf(),
                self.data_store == data,
                self.key_store == old(self).key_store,
                self.buffer_assign == old(self).buffer_assign,
                p_ready == decode_ready(data),
                p_pending == decode_pending(data),
                n_data == data.values().len(),
                all.len() == n,
                pending@.len() <= n,
                forall|j: int| 0 <= j < pending@.len() ==> (#[trigger] pending@[j]).slice == all[n - pending@.len() + j],
                forall|j: int| 0 <= j < pending@.len() ==> (#[trigger] pending@[j]).chan.is_some(),
                self.decode_queue() == all.subrange(0, n - pending@.len()).filter(p_pending),
                self.sent@ == old(self).sent@ + deliveries(all.subrange(0, n - pending@.len()).filter(p_ready), data),
            decreases pending@.len(),
        {
            let ghost i = n - pending@.len();
            let ghost pre = all.subrange(0, i);
            let mut op = pending.remove(0);
            proof {
                assert(op.slice == all[i]);
                assert(all.subrange(0, i + 1) =~= pre.push(op.slice));
                assert(p_ready(op.slice) == (data.in_bounds(op.slice) && data.spec_is_set(op.slice)));
                assert(p_pending(op.slice) == !p_ready(op.slice));
                lemma_filter_push(pre, op.slice, p_ready);
                lemma_filter_push(pre, op.slice, p_pending);
                assert(deliveries(pre.filter(p_ready).push(op.slice), data) =~= deliveries(pre.filter(p_ready), data).push((op.slice, data.spec_get(op.slice))));
            }
            if op.slice.ptr.0 <= n_data && op.slice.size <= n_data - op.slice.ptr.0 && self.data_store.is_set(op.slice) {
                let v = match self.data_store.try_get(op.slice) {
                    Ok(v) => v,
                    Err(_) => {
                        assert(false);
                        Vec::new()
                    },
                };
                let ghost vv = v@;
                let sent = op.send(v);
                assert(sent.is_ok());
                proof {
                    self.sent = Ghost(self.sent@.push((op.slice, op.sent@.unwrap()@)));
                    assert(op.sent@.unwrap()@ == vv);
                }
            } else {
                let ghost before = self.buffer_decode@;
                self.buffer_decode.push(op);
                assert(self.decode_queue() =~= before.map_values(|o: DecodeOp<Vec<bool>>| o.slice).push(op.slice));
            }
        }
        proof {
            assert(all.subrange(0, n as int) =~= all);
        }
        Ok(())
    }
}

} // verus!
