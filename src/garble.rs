//! Memory of the two parties of a garbled-circuit protocol: the generator holds
//! keys and `Δ`, the evaluator holds MACs (its wire labels).
use vstd::prelude::*;

use crate::block::Block;
use crate::correlated::{lsb, mac_of, Delta, KeyStore, KeyStoreError, MacStore, MacStoreError};
use crate::decode::{DecodeFuture, DecodeOp};
use crate::hash::{blake3_digest, blocks_bytes};
use crate::memory::{AssignKind, AssignOp, Slice};
use crate::prg::Prg;
use crate::range::{covers, flatten, lemma_flatten, lemma_interval_ranges, range_set, RangeSet};
use crate::store::{Store, StoreError};

verus! {

/// Assignment round from the generator: MACs sent directly, and the ranges
/// whose MACs come by oblivious transfer.
#[derive(Debug)]
pub struct AssignPayload {
    /// Ranges whose MACs are in `macs`.
    pub idx_direct: RangeSet,
    /// Ranges whose MACs come by oblivious transfer.
    pub idx_oblivious: RangeSet,
    /// MACs of `idx_direct`, in range order.
    pub macs: Vec<Block>,
}

/// Key pointer bits sent by the generator for decoding.
#[derive(Debug)]
pub struct DecodePayload {
    /// Ranges that the bits cover.
    pub idx: RangeSet,
    /// Key pointer bits, in range order.
    pub key_bits: Vec<bool>,
}

/// MAC pointer bits and a proof of knowledge of the MACs, sent by the evaluator.
#[derive(Debug)]
pub struct MacPayload {
    /// Ranges that the bits cover.
    pub idx: RangeSet,
    /// MAC pointer bits, in range order.
    pub bits: Vec<bool>,
    /// BLAKE3 digest of the MACs' encodings, in range order.
    pub proof: [u8; 32],
}

/// Error of a [`GeneratorStore`].
#[derive(Clone, Copy, Debug, PartialEq, Eq, Structural)]
pub enum GeneratorStoreError {
    /// From the key store.
    KeyStore(KeyStoreError),
    /// From the data store.
    Store(StoreError),
    /// A payload from the peer does not fit what this party expects.
    Protocol,
}

/// The indices of the slices of `slices`.
pub open spec fn slices_indices(slices: Seq<Slice>) -> Set<int> {
    Set::new(|k: int| exists|i: int| 0 <= i < slices.len() && (#[trigger] slices[i]).indices().contains(k))
}

/// Each slice of `slices` is disjoint from the ones before it.
pub open spec fn pairwise_disjoint(slices: Seq<Slice>) -> bool {
    forall|i: int, j: int| 0 <= i < j < slices.len() ==> (#[trigger] slices[i]).indices().disjoint((#[trigger] slices[j]).indices())
}

/// The slices of the operations of `ops`.
pub open spec fn op_slices(ops: Seq<AssignOp>) -> Seq<Slice> {
    ops.map_values(|op: AssignOp| op.slice)
}


/// The assignment's keys are set.
pub open spec fn keys_ready(store: Store<Block>) -> spec_fn(AssignOp) -> bool {
    |op: AssignOp| op.slice.indices().subset_of(store.initialized())
}

/// The assignment's keys are not all set yet.
pub open spec fn keys_pending(store: Store<Block>) -> spec_fn(AssignOp) -> bool {
    |op: AssignOp| !op.slice.indices().subset_of(store.initialized())
}

/// The assignment is ready and its MACs are sent directly.
pub open spec fn ready_direct(store: Store<Block>) -> spec_fn(AssignOp) -> bool {
    |op: AssignOp| store.spec_is_set(op.slice) && op.kind != AssignKind::Blind
}

/// The assignment is ready and its MACs go by oblivious transfer.
pub open spec fn ready_oblivious(store: Store<Block>) -> spec_fn(AssignOp) -> bool {
    |op: AssignOp| store.spec_is_set(op.slice) && op.kind == AssignKind::Blind
}

/// The indices of a pushed slice sequence.
pub proof fn lemma_indices_push(t: Seq<Slice>, x: Slice)
    ensures
        slices_indices(t.push(x)) == slices_indices(t).union(x.indices()),
{
    let u = t.push(x);
    assert forall|k: int| slices_indices(u).contains(k) <==> slices_indices(t).union(x.indices()).contains(k) by {
        if slices_indices(u).contains(k) {
            let i = choose|i: int| 0 <= i < u.len() && (#[trigger] u[i]).indices().contains(k);
            if i < t.len() {
                assert(u[i] == t[i]);
            }
        }
        if slices_indices(t).contains(k) {
            let i = choose|i: int| 0 <= i < t.len() && (#[trigger] t[i]).indices().contains(k);
            assert(u[i] == t[i]);
        }
        if x.indices().contains(k) {
            assert(u[t.len() as int] == x);
        }
    }
    assert(slices_indices(u) =~= slices_indices(t).union(x.indices()));
}

/// The slice's values are all set in `store`.
pub open spec fn slice_set<T: Copy>(store: Store<T>) -> spec_fn(Slice) -> bool {
    |s: Slice| s.indices().subset_of(store.initialized())
}

/// The slice's values are not all set in `store`.
pub open spec fn slice_unset<T: Copy>(store: Store<T>) -> spec_fn(Slice) -> bool {
    |s: Slice| !s.indices().subset_of(store.initialized())
}

/// Every slice of `ops` ends within the `usize` range.
pub open spec fn slices_fit(ops: Seq<AssignOp>) -> bool {
    forall|i: int| 0 <= i < ops.len() ==> (#[trigger] ops[i]).slice.end() <= usize::MAX
}

/// The evaluator receives the assignment's MACs directly.
pub open spec fn ev_direct() -> spec_fn(AssignOp) -> bool {
    |op: AssignOp| op.kind != AssignKind::Private
}

/// The evaluator receives the assignment's MACs by oblivious transfer.
pub open spec fn ev_oblivious() -> spec_fn(AssignOp) -> bool {
    |op: AssignOp| op.kind == AssignKind::Private
}

/// The decode can be resolved from the evaluator's own memory: its MACs are set,
/// and so are its data or the generator's key bits.
pub open spec fn ev_decode_ready(macs: Store<Block>, key_bits: Store<bool>, data: Store<bool>) -> spec_fn(Slice) -> bool {
    |s: Slice| macs.spec_is_set(s) && (data.spec_is_set(s) || key_bits.spec_is_set(s))
}

/// The decode cannot be resolved yet.
pub open spec fn ev_decode_pending(macs: Store<Block>, key_bits: Store<bool>, data: Store<bool>) -> spec_fn(Slice) -> bool {
    |s: Slice| !(macs.spec_is_set(s) && (data.spec_is_set(s) || key_bits.spec_is_set(s)))
}

/// The slice is inside the store and all set: a decode of it can resolve.
pub open spec fn decode_ready<T: Copy>(store: Store<T>) -> spec_fn(Slice) -> bool {
    |s: Slice| store.in_bounds(s) && store.spec_is_set(s)
}

/// A decode of the slice cannot resolve yet.
pub open spec fn decode_pending<T: Copy>(store: Store<T>) -> spec_fn(Slice) -> bool {
    |s: Slice| !(store.in_bounds(s) && store.spec_is_set(s))
}

/// The deliveries of decodes of `slices`: each slice with its data in `data`.
pub open spec fn deliveries(slices: Seq<Slice>, data: Store<bool>) -> Seq<(Slice, Seq<bool>)> {
    slices.map_values(|s: Slice| (s, data.spec_get(s)))
}

pub proof fn lemma_filter_push<A>(s: Seq<A>, x: A, p: spec_fn(A) -> bool)
    ensures
        s.push(x).filter(p) == if p(x) { s.filter(p).push(x) } else { s.filter(p) },
{
    reveal(Seq::filter);
    assert(s.push(x).drop_last() =~= s);
}

pub proof fn lemma_slices_push(s: Seq<AssignOp>, x: AssignOp)
    ensures
        op_slices(s.push(x)) == op_slices(s).push(x.slice),
        slices_indices(op_slices(s).push(x.slice)) == slices_indices(op_slices(s)).union(x.slice.indices()),
        pairwise_disjoint(op_slices(s)) && x.slice.indices().disjoint(slices_indices(op_slices(s))) ==> pairwise_disjoint(op_slices(s).push(x.slice)),
        !x.slice.indices().disjoint(slices_indices(op_slices(s))) ==> !pairwise_disjoint(op_slices(s).push(x.slice)),
{
    let t = op_slices(s);
    let u = t.push(x.slice);
    assert(op_slices(s.push(x)) =~= u);
    assert forall|k: int| slices_indices(u).contains(k) <==> slices_indices(t).union(x.slice.indices()).contains(k) by {
        if slices_indices(u).contains(k) {
            let i = choose|i: int| 0 <= i < u.len() && (#[trigger] u[i]).indices().contains(k);
            if i < t.len() {
                assert(u[i] == t[i]);
            }
        }
        if slices_indices(t).contains(k) {
            let i = choose|i: int| 0 <= i < t.len() && (#[trigger] t[i]).indices().contains(k);
            assert(u[i] == t[i]);
        }
        if x.slice.indices().contains(k) {
            assert(u[t.len() as int] == x.slice);
        }
    }
    assert(slices_indices(u) =~= slices_indices(t).union(x.slice.indices()));
    if pairwise_disjoint(t) && x.slice.indices().disjoint(slices_indices(t)) {
        assert forall|i: int, j: int| 0 <= i < j < u.len() implies (#[trigger] u[i]).indices().disjoint((#[trigger] u[j]).indices()) by {
            if j < t.len() {
                assert(u[i] == t[i] && u[j] == t[j]);
            } else {
                assert(u[i] == t[i]);
                assert forall|k: int| u[i].indices().contains(k) implies !u[j].indices().contains(k) by {
                    assert(slices_indices(t).contains(k));
                }
            }
        }
    }
    if !x.slice.indices().disjoint(slices_indices(t)) {
        let k = choose|k: int| x.slice.indices().contains(k) && slices_indices(t).contains(k);
        let i = choose|i: int| 0 <= i < t.len() && (#[trigger] t[i]).indices().contains(k);
        assert(u[i] == t[i]);
        assert(u[t.len() as int] == x.slice);
        assert(u[i].indices().contains(k) && u[t.len() as int].indices().contains(k));
    }
}

/// A garbled-circuit generator's memory: keys, plaintext data and buffered operations.
pub struct GeneratorStore {
    prg: Prg,
    key_store: KeyStore,
    data_store: Store<bool>,
    buffer_assign: Vec<AssignOp>,
    buffer_send_key_bits: Vec<Slice>,
    buffer_decode: Vec<DecodeOp<Vec<bool>>>,
    sent: Ghost<Seq<(Slice, Seq<bool>)>>,
}

impl GeneratorStore {
    /// The key store.
    pub closed spec fn keys(&self) -> KeyStore {
        self.key_store
    }

    /// The plaintext store.
    pub closed spec fn data(&self) -> Store<bool> {
        self.data_store
    }

    /// Buffered assignments.
    pub closed spec fn assign_ops(&self) -> Seq<AssignOp> {
        self.buffer_assign@
    }

    /// Slices whose key bits are yet to be sent.
    pub closed spec fn key_bit_queue(&self) -> Seq<Slice> {
        self.buffer_send_key_bits@
    }

    /// Slices of the buffered decodes.
    pub closed spec fn decode_queue(&self) -> Seq<Slice> {
        self.buffer_decode@.map_values(|op: DecodeOp<Vec<bool>>| op.slice)
    }

    /// Each decode resolved so far, with the value sent to its waiter.
    pub closed spec fn sent_log(&self) -> Seq<(Slice, Seq<bool>)> {
        self.sent@
    }

    /// The store's invariant.
    pub closed spec fn wf(&self) -> bool {
        &&& self.key_store.wf()
        &&& self.data_store.wf()
        &&& self.key_store.arena().values().len() == self.data_store.values().len()
        &&& forall|i: int| 0 <= i < self.buffer_decode@.len() ==> (#[trigger] self.buffer_decode@[i]).chan.is_some()
    }

    /// The number of allocated indices.
    pub open spec fn spec_len(&self) -> int {
        self.keys().arena().values().len() as int
    }

    /// Creates a generator store whose fresh keys come from a generator seeded with `seed`.
    pub fn new(seed: [u8; 16], delta: Delta) -> (r: GeneratorStore)
        ensures
            r.wf(),
            r.keys().spec_delta() == delta,
            r.spec_len() == 0,
            r.keys().used() == Set::<int>::empty(),
            r.keys().arena().initialized() == Set::<int>::empty(),
            r.data().initialized() == Set::<int>::empty(),
            r.assign_ops().len() == 0,
            r.key_bit_queue().len() == 0,
            r.decode_queue().len() == 0,
    {
        let r = GeneratorStore {
            prg: Prg::new_with_seed(seed),
            key_store: KeyStore::new(delta),
            data_store: Store::new(),
            buffer_assign: Vec::new(),
            buffer_send_key_bits: Vec::new(),
            buffer_decode: Vec::new(),
            sent: Ghost(Seq::empty()),
        };
        assert(r.decode_queue() =~= Seq::<Slice>::empty());
        r
    }

    /// Returns `Δ`.
    pub fn delta(&self) -> (r: Delta)
        ensures
            r == self.keys().spec_delta(),
    {
        self.key_store.delta()
    }

    /// Returns whether the keys of `slice` are all set.
    pub fn is_set_keys(&self, slice: Slice) -> (r: bool)
        requires
            self.wf(),
        ensures
            r == self.keys().arena().spec_is_set(slice),
    {
        self.key_store.is_set(slice)
    }

    /// Returns whether any key of `slice` has been assigned.
    pub fn is_assigned_keys(&self, slice: Slice) -> (r: bool)
        requires
            self.wf(),
            slice.end() <= usize::MAX,
        ensures
            r == !slice.indices().disjoint(self.keys().used()),
    {
        self.key_store.is_used(slice)
    }

    /// Returns whether the data of `slice` is all set.
    pub fn is_set_data(&self, slice: Slice) -> (r: bool)
        requires
            self.wf(),
        ensures
            r == self.data().spec_is_set(slice),
    {
        self.data_store.is_set(slice)
    }

    /// Returns whether assignments are buffered.
    pub fn wants_assign(&self) -> (r: bool)
        ensures
            r == (self.assign_ops().len() > 0),
    {
        self.buffer_assign.len() > 0
    }

    /// Returns whether some slice awaiting its key bits has its keys set.
    pub fn wants_send_key_bits(&self) -> (r: bool)
        requires
            self.wf(),
        ensures
            r == exists|i: int| 0 <= i < self.key_bit_queue().len() && self.keys().arena().spec_is_set(#[trigger] self.key_bit_queue()[i]),
    {
        let mut i: usize = 0;
        while i < self.buffer_send_key_bits.len()
            invariant
                self.wf(),
                i <= self.key_bit_queue().len(),
                forall|j: int| 0 <= j < i ==> !self.keys().arena().spec_is_set(#[trigger] self.key_bit_queue()[j]),
            decreases self.key_bit_queue().len() - i,
        {
            if self.key_store.is_set(self.buffer_send_key_bits[i]) {
                return true;
            }
            i = i + 1;
        }
        false
    }

    /// Returns whether some buffered decode has its keys set.
    pub fn wants_verify_data(&self) -> (r: bool)
        requires
            self.wf(),
        ensures
            r == exists|i: int| 0 <= i < self.decode_queue().len() && self.keys().arena().spec_is_set(#[trigger] self.decode_queue()[i]),
    {
        let mut i: usize = 0;
        while i < self.buffer_decode.len()
            invariant
                self.wf(),
                i <= self.decode_queue().len(),
                self.decode_queue().len() == self.buffer_decode@.len(),
                forall|j: int| 0 <= j < i ==> !self.keys().arena().spec_is_set(#[trigger] self.decode_queue()[j]),
            decreases self.decode_queue().len() - i,
        {
            if self.key_store.is_set(self.buffer_decode[i].slice) {
                assert(self.decode_queue()[i as int] == self.buffer_decode@[i as int].slice);
                return true;
            }
            i = i + 1;
        }
        false
    }

    /// Returns the keys of `slice` if they are all set.
    pub fn try_get_keys(&self, slice: Slice) -> (r: Result<Vec<Block>, GeneratorStoreError>)
        requires
            self.wf(),
        ensures
            match r {
                Ok(v) => self.keys().arena().in_bounds(slice) && self.keys().arena().spec_is_set(slice) && v@ == self.keys().arena().spec_get(slice),
                Err(GeneratorStoreError::KeyStore(KeyStoreError::InvalidSlice(s))) => s == slice && !self.keys().arena().in_bounds(slice),
                Err(GeneratorStoreError::KeyStore(KeyStoreError::Uninit(s))) => s == slice && self.keys().arena().in_bounds(slice) && !self.keys().arena().spec_is_set(slice),
                _ => false,
            },
    {
        match self.key_store.try_get(slice) {
            Ok(v) => Ok(v),
            Err(e) => Err(GeneratorStoreError::KeyStore(e)),
        }
    }

    /// Allocates `len` values with fresh random keys.
    pub fn allocate(&mut self, len: usize) -> (r: Slice)
        requires
            old(self).wf(),
            old(self).spec_len() + len <= usize::MAX,
        ensures
            final(self).wf(),
            r.start() == old(self).spec_len(),
            r.size == len,
            final(self).spec_len() == old(self).spec_len() + len,
            final(self).keys().arena().values().subrange(0, r.start()) == old(self).keys().arena().values(),
            final(self).keys().arena().initialized() == old(self).keys().arena().initialized().union(r.indices()),
            final(self).keys().used() == old(self).keys().used(),
            final(self).keys().spec_delta() == old(self).keys().spec_delta(),
            final(self).data().initialized() == old(self).data().initialized(),
            final(self).assign_ops() == old(self).assign_ops(),
            final(self).key_bit_queue() == old(self).key_bit_queue(),
            final(self).decode_queue() == old(self).decode_queue(),
    {
        let keys = self.prg.random_blocks(len);
        let r = self.key_store.alloc_with(keys.as_slice());
        let _ = self.data_store.alloc_filled(len, false);
        assert(self.key_store.arena().values().subrange(0, r.start()) =~= old(self).key_store.arena().values());
        r
    }

    /// Allocates `len` values whose keys are set later, by [`set_output`](Self::set_output).
    pub fn alloc_output(&mut self, len: usize) -> (r: Slice)
        requires
            old(self).wf(),
            old(self).spec_len() + len <= usize::MAX,
        ensures
            final(self).wf(),
            r.start() == old(self).spec_len(),
            r.size == len,
            final(self).spec_len() == old(self).spec_len() + len,
            final(self).keys().arena().values().subrange(0, r.start()) == old(self).keys().arena().values(),
            final(self).keys().arena().initialized() == old(self).keys().arena().initialized(),
            final(self).keys().used() == old(self).keys().used(),
            final(self).keys().spec_delta() == old(self).keys().spec_delta(),
            final(self).data().initialized() == old(self).data().initialized(),
            final(self).assign_ops() == old(self).assign_ops(),
            final(self).key_bit_queue() == old(self).key_bit_queue(),
            final(self).decode_queue() == old(self).decode_queue(),
    {
        let r = self.key_store.allocate(len);
        let _ = self.data_store.alloc_filled(len, false);
        r
    }

    /// Sets the keys of an output slice.
    pub fn set_output(&mut self, slice: Slice, keys: &[Block]) -> (r: Result<(), GeneratorStoreError>)
        requires
            old(self).wf(),
            keys@.len() == slice.size,
        ensures
            final(self).wf(),
            final(self).data() == old(self).data(),
            final(self).assign_ops() == old(self).assign_ops(),
            final(self).keys().used() == old(self).keys().used(),
            final(self).keys().spec_delta() == old(self).keys().spec_delta(),
            r.is_ok() == (old(self).keys().arena().in_bounds(slice) && slice.indices().disjoint(old(self).keys().arena().initialized())),
            r.is_ok() ==> final(self).keys().arena().values() == old(self).keys().arena().values().update_subrange_with(slice.start(), keys@),
            r.is_ok() ==> final(self).keys().arena().initialized() == old(self).keys().arena().initialized().union(slice.indices()),
    {
        match self.key_store.try_set(slice, keys) {
            Ok(()) => Ok(()),
            Err(e) => Err(GeneratorStoreError::KeyStore(e)),
        }
    }

    fn assign_data(&mut self, slice: Slice, data: &[bool], kind: AssignKind) -> (r: Result<(), GeneratorStoreError>)
        requires
            old(self).wf(),
            data@.len() == slice.size,
        ensures
            final(self).wf(),
            final(self).keys() == old(self).keys(),
            final(self).key_bit_queue() == old(self).key_bit_queue(),
            final(self).decode_queue() == old(self).decode_queue(),
            r.is_ok() == (old(self).data().in_bounds(slice) && slice.indices().disjoint(old(self).data().initialized())),
            r.is_ok() ==> final(self).data().values() == old(self).data().values().update_subrange_with(slice.start(), data@),
            r.is_ok() ==> final(self).data().initialized() == old(self).data().initialized().union(slice.indices()),
            r.is_ok() ==> final(self).assign_ops() == old(self).assign_ops().push(AssignOp { slice, kind }),
            r.is_err() ==> final(self).data() == old(self).data() && final(self).assign_ops() == old(self).assign_ops(),
    {
        match self.data_store.try_set(slice, data) {
            Ok(()) => {},
            Err(e) => {
                return Err(GeneratorStoreError::Store(e));
            },
        }
        self.buffer_assign.push(AssignOp { slice, kind });
        Ok(())
    }

    /// Sets public data of `slice` and buffers its assignment.
    pub fn assign_public(&mut self, slice: Slice, data: &[bool]) -> (r: Result<(), GeneratorStoreError>)
        requires
            old(self).wf(),
            data@.len() == slice.size,
        ensures
            final(self).wf(),
            final(self).keys() == old(self).keys(),
            r.is_ok() == (old(self).data().in_bounds(slice) && slice.indices().disjoint(old(self).data().initialized())),
            r.is_ok() ==> final(self).data().values() == old(self).data().values().update_subrange_with(slice.start(), data@),
            r.is_ok() ==> final(self).data().initialized() == old(self).data().initialized().union(slice.indices()),
            r.is_ok() ==> final(self).assign_ops() == old(self).assign_ops().push(AssignOp { slice, kind: AssignKind::Public }),
            r.is_err() ==> final(self).data() == old(self).data() && final(self).assign_ops() == old(self).assign_ops(),
    {
        self.assign_data(slice, data, AssignKind::Public)
    }

    /// Sets private data of `slice` and buffers its assignment.
    pub fn assign_private(&mut self, slice: Slice, data: &[bool]) -> (r: Result<(), GeneratorStoreError>)
        requires
            old(self).wf(),
            data@.len() == slice.size,
        ensures
            final(self).wf(),
            final(self).keys() == old(self).keys(),
            r.is_ok() == (old(self).data().in_bounds(slice) && slice.indices().disjoint(old(self).data().initialized())),
            r.is_ok() ==> final(self).data().values() == old(self).data().values().update_subrange_with(slice.start(), data@),
            r.is_ok() ==> final(self).data().initialized() == old(self).data().initialized().union(slice.indices()),
            r.is_ok() ==> final(self).assign_ops() == old(self).assign_ops().push(AssignOp { slice, kind: AssignKind::Private }),
            r.is_err() ==> final(self).data() == old(self).data() && final(self).assign_ops() == old(self).assign_ops(),
    {
        self.assign_data(slice, data, AssignKind::Private)
    }

    /// Buffers the assignment of `slice` with data that only the evaluator knows.
    pub fn assign_blind(&mut self, slice: Slice) -> (r: Result<(), GeneratorStoreError>)
        requires
            old(self).wf(),
        ensures
            final(self).wf(),
            r.is_ok(),
            final(self).keys() == old(self).keys(),
            final(self).data() == old(self).data(),
            final(self).assign_ops() == old(self).assign_ops().push(AssignOp { slice, kind: AssignKind::Blind }),
    {
        self.buffer_assign.push(AssignOp { slice, kind: AssignKind::Blind });
        Ok(())
    }

    /// Buffers a decode of `slice`, returning the future that resolves to its value.
    pub fn decode(&mut self, slice: Slice) -> (r: Result<DecodeFuture<Vec<bool>>, GeneratorStoreError>)
        requires
            old(self).wf(),
        ensures
            final(self).wf(),
            r.is_ok(),
            final(self).keys() == old(self).keys(),
            final(self).data() == old(self).data(),
            final(self).assign_ops() == old(self).assign_ops(),
            final(self).key_bit_queue() == old(self).key_bit_queue().push(slice),
            final(self).decode_queue() == old(self).decode_queue().push(slice),
    {
        let (fut, op) = DecodeFuture::new(slice);
        self.buffer_send_key_bits.push(slice);
        self.buffer_decode.push(op);
        assert(self.decode_queue() =~= old(self).decode_queue().push(slice));
        Ok(fut)
    }

    /// The buffered assignments whose keys are set: the ones a round executes.
    pub open spec fn ready_ops(&self) -> Seq<AssignOp> {
        self.assign_ops().filter(keys_ready(self.keys().arena()))
    }

    /// The ready assignments whose MACs are sent directly.
    pub open spec fn direct_ops(&self) -> Seq<AssignOp> {
        self.assign_ops().filter(ready_direct(self.keys().arena()))
    }

    /// The ready assignments whose MACs go by oblivious transfer.
    pub open spec fn oblivious_ops(&self) -> Seq<AssignOp> {
        self.assign_ops().filter(ready_oblivious(self.keys().arena()))
    }

    /// Whether an assignment round can succeed: the ready slices do not overlap,
    /// their keys are unused, and the directly sent ones have their data set.
    pub open spec fn assign_ready(&self) -> bool {
        &&& pairwise_disjoint(op_slices(self.ready_ops()))
        &&& slices_indices(op_slices(self.ready_ops())).disjoint(self.keys().used())
        &&& slices_indices(op_slices(self.direct_ops())).subset_of(self.data().initialized())
    }

    /// Executes the assignments whose keys are set.
    ///
    /// Public and private values get MACs sent directly; blind values are
    /// assigned by a correlated oblivious transfer of the returned keys. The
    /// other assignments stay buffered.
    pub fn execute_assign(&mut self) -> (r: Result<(AssignPayload, Vec<Block>), GeneratorStoreError>)
        requires
            old(self).wf(),
        ensures
            final(self).wf(),
            final(self).assign_ops() == old(self).assign_ops().filter(keys_pending(old(self).keys().arena())),
            final(self).data() == old(self).data(),
            final(self).keys().arena() == old(self).keys().arena(),
            final(self).keys().spec_delta() == old(self).keys().spec_delta(),
            final(self).key_bit_queue() == old(self).key_bit_queue(),
            final(self).decode_queue() == old(self).decode_queue(),
            r.is_ok() == old(self).assign_ready(),
            match r {
                Ok((payload, ot_keys)) => {
                    &&& payload.idx_direct.wf()
                    &&& payload.idx_oblivious.wf()
                    &&& payload.idx_direct@ == slices_indices(op_slices(old(self).direct_ops()))
                    &&& payload.idx_oblivious@ == slices_indices(op_slices(old(self).oblivious_ops()))
                    &&& payload.macs@ == old(self).keys().macs_on(&payload.idx_direct, old(self).data().spec_get_ranges(&payload.idx_direct))
                    &&& ot_keys@ == old(self).keys().keys_in(&payload.idx_oblivious)
                    &&& final(self).keys().used() == old(self).keys().used().union(payload.idx_direct@).union(payload.idx_oblivious@)
                },
                Err(_) => true,
            },
    {
        let ghost ops = self.buffer_assign@;
        let ghost store = self.key_store.arena();
        let ghost p_ready = keys_ready(store);
        let ghost p_keep = keys_pending(store);
        let ghost p_dir = ready_direct(store);
        let ghost p_obl = ready_oblivious(store);
        let mut kept: Vec<AssignOp> = Vec::new();
        let mut direct = RangeSet::new();
        let mut oblivious = RangeSet::new();
        let mut overlap: Option<Slice> = None;
        let mut i: usize = 0;
        proof {
            assert(ops.subrange(0, 0) =~= Seq::<AssignOp>::empty());
            reveal(Seq::filter);
            assert(Seq::<AssignOp>::empty().filter(p_ready) =~= Seq::<AssignOp>::empty());
            assert(slices_indices(op_slices(Seq::<AssignOp>::empty())) =~= Set::<int>::empty());
        }
        while i < self.buffer_assign.len()
            invariant
                self.wf(),
                self.key_store.arena() == store,
                p_ready == keys_ready(store),
                p_keep == keys_pending(store),
                p_dir == ready_direct(store),
                p_obl == ready_oblivious(store),
                ops == self.buffer_assign@,
                i <= ops.len(),
                direct.wf(),
                oblivious.wf(),
                kept@ == ops.subrange(0, i as int).filter(p_keep),
                overlap.is_none() ==> pairwise_disjoint(op_slices(ops.subrange(0, i as int).filter(p_ready))),
                overlap.is_some() ==> !pairwise_disjoint(op_slices(ops.subrange(0, i as int).filter(p_ready))),
                direct@ == slices_indices(op_slices(ops.subrange(0, i as int).filter(p_dir))),
                oblivious@ == slices_indices(op_slices(ops.subrange(0, i as int).filter(p_obl))),
                slices_indices(op_slices(ops.subrange(0, i as int).filter(p_ready))) == direct@.union(oblivious@),
                overlap.is_none() ==> direct@.disjoint(oblivious@),
                forall|k: int| #[trigger] slices_indices(op_slices(ops.subrange(0, i as int).filter(p_ready))).contains(k) ==> store.initialized().contains(k),
            decreases ops.len() - i,
        {
            let op = self.buffer_assign[i];
            let ghost pre = ops.subrange(0, i as int);
            proof {
                assert(ops.subrange(0, i + 1) =~= pre.push(op));
                assert(p_ready(op) == store.spec_is_set(op.slice));
                assert(p_keep(op) == !store.spec_is_set(op.slice));
                assert(p_dir(op) == (store.spec_is_set(op.slice) && op.kind != AssignKind::Blind));
                assert(p_obl(op) == (store.spec_is_set(op.slice) && op.kind == AssignKind::Blind));
                lemma_filter_push(pre, op, p_ready);
                lemma_filter_push(pre, op, p_keep);
                lemma_filter_push(pre, op, p_dir);
                lemma_filter_push(pre, op, p_obl);
                lemma_slices_push(pre.filter(p_ready), op);
                lemma_slices_push(pre.filter(p_dir), op);
                lemma_slices_push(pre.filter(p_obl), op);
                if overlap.is_some() && p_ready(op) {
                    let a = op_slices(pre.filter(p_ready));
                    let b = a.push(op.slice);
                    let (x, y) = choose|x: int, y: int| 0 <= x < y < a.len() && !(#[trigger] a[x]).indices().disjoint((#[trigger] a[y]).indices());
                    assert(b[x] == a[x] && b[y] == a[y]);
                }
            }
            if self.key_store.is_set(op.slice) {
                proof {
                    if op.slice.size > 0 {
                        assert(op.slice.indices().contains(op.slice.end() - 1));
                    }
                    assert forall|k: int| #[trigger] slices_indices(op_slices(ops.subrange(0, i + 1).filter(p_ready))).contains(k) implies store.initialized().contains(k) by {
                        if op.slice.indices().contains(k) {
                        } else {
                            assert(slices_indices(op_slices(pre.filter(p_ready))).contains(k));
                        }
                    }
                }
                assert(op.slice.end() <= usize::MAX) by {
                    self.key_store.lemma_arena_wf();
                    store.lemma_len_bound();
                    if op.slice.size > 0 {
                        assert(store.initialized().contains(op.slice.end() - 1));
                        store.lemma_initialized_in_bounds(op.slice.end() - 1);
                    }
                }
                let (a, b) = op.slice.to_range();
                if overlap.is_none() && (!direct.is_disjoint_range(a, b) || !oblivious.is_disjoint_range(a, b)) {
                    assert(op.slice.indices() =~= range_set(a as int, b as int));
                    overlap = Some(op.slice);
                }
                match op.kind {
                    AssignKind::Blind => {
                        oblivious = oblivious.union_range(a, b);
                        assert(op.slice.indices() =~= range_set(a as int, b as int));
                    },
                    _ => {
                        direct = direct.union_range(a, b);
                        assert(op.slice.indices() =~= range_set(a as int, b as int));
                    },
                }
                assert(slices_indices(op_slices(ops.subrange(0, i + 1).filter(p_ready))) =~= direct@.union(oblivious@));
            } else {
                kept.push(op);
            }
            assert(kept@ == ops.subrange(0, i + 1).filter(p_keep));
            i = i + 1;
        }
        proof {
            assert(ops.subrange(0, ops.len() as int) =~= ops);
        }
        self.buffer_assign = kept;
        if let Some(slice) = overlap {
            return Err(GeneratorStoreError::KeyStore(KeyStoreError::AlreadyAssigned(slice)));
        }
        let data = match self.data_store.try_get_ranges(&direct) {
            Ok(d) => d,
            Err(e) => {
                return Err(GeneratorStoreError::Store(e));
            },
        };
        proof {
            lemma_flatten(direct.spec_ranges());
        }
        let ghost used0 = self.key_store.used();
        let macs = match self.key_store.authenticate_ranges(&direct, &data) {
            Ok(m) => m,
            Err(e) => {
                proof {
                    if !direct@.disjoint(used0) {
                        let k = choose|k: int| direct@.contains(k) && used0.contains(k);
                        assert(direct@.union(oblivious@).contains(k));
                    }
                }
                return Err(GeneratorStoreError::KeyStore(e));
            },
        };
        let ot_keys = match self.key_store.oblivious_transfer_ranges(&oblivious) {
            Ok(k) => k,
            Err(e) => {
                proof {
                    if !oblivious@.disjoint(used0.union(direct@)) {
                        let k = choose|k: int| oblivious@.contains(k) && used0.union(direct@).contains(k);
                        assert(direct@.union(oblivious@).contains(k));
                    }
                }
                return Err(GeneratorStoreError::KeyStore(e));
            },
        };
        assert(direct@.union(oblivious@).disjoint(used0));
        Ok((AssignPayload { idx_direct: direct, idx_oblivious: oblivious, macs }, ot_keys))
    }

    /// Sends the key pointer bits of the slices awaiting them whose keys are set.
    pub fn send_key_bits(&mut self) -> (r: Result<DecodePayload, GeneratorStoreError>)
        requires
            old(self).wf(),
        ensures
            final(self).wf(),
            final(self).keys() == old(self).keys(),
            final(self).data() == old(self).data(),
            final(self).assign_ops() == old(self).assign_ops(),
            final(self).decode_queue() == old(self).decode_queue(),
            final(self).key_bit_queue() == old(self).key_bit_queue().filter(slice_unset(old(self).keys().arena())),
            match r {
                Ok(payload) => {
                    &&& payload.idx.wf()
                    &&& payload.idx@ == slices_indices(old(self).key_bit_queue().filter(slice_set(old(self).keys().arena())))
                    &&& payload.key_bits@.len() == old(self).keys().keys_in(&payload.idx).len()
                    &&& forall|j: int| 0 <= j < payload.key_bits@.len() ==> payload.key_bits@[j] == lsb(#[trigger] old(self).keys().keys_in(&payload.idx)[j].0)
                },
                Err(_) => false,
            },
    {
        let ghost q = self.buffer_send_key_bits@;
        let ghost store = self.key_store.arena();
        let ghost p_set = slice_set(store);
        let ghost p_unset = slice_unset(store);
        let mut kept: Vec<Slice> = Vec::new();
        let mut idx = RangeSet::new();
        let mut i: usize = 0;
        proof {
            reveal(Seq::filter);
            assert(q.subrange(0, 0) =~= Seq::<Slice>::empty());
            assert(slices_indices(Seq::<Slice>::empty()) =~= Set::<int>::empty());
        }
        while i < self.buffer_send_key_bits.len()
            invariant
                self.wf(),
                self.key_store.arena() == store,
                p_set == slice_set(store),
                p_unset == slice_unset(store),
                q == self.buffer_send_key_bits@,
                i <= q.len(),
                idx.wf(),
                kept@ == q.subrange(0, i as int).filter(p_unset),
                idx@ == slices_indices(q.subrange(0, i as int).filter(p_set)),
                idx@.subset_of(store.initialized()),
            decreases q.len() - i,
        {
            let slice = self.buffer_send_key_bits[i];
            let ghost pre = q.subrange(0, i as int);
            proof {
                assert(q.subrange(0, i + 1) =~= pre.push(slice));
                assert(p_set(slice) == store.spec_is_set(slice));
                assert(p_unset(slice) == !store.spec_is_set(slice));
                lemma_filter_push(pre, slice, p_set);
                lemma_filter_push(pre, slice, p_unset);
                lemma_indices_push(pre.filter(p_set), slice);
            }
            if self.key_store.is_set(slice) {
                assert(slice.end() <= usize::MAX) by {
                    self.key_store.lemma_arena_wf();
                    store.lemma_len_bound();
                    if slice.size > 0 {
                        assert(slice.indices().contains(slice.end() - 1));
                        store.lemma_initialized_in_bounds(slice.end() - 1);
                    }
                }
                let (a, b) = slice.to_range();
                assert(slice.indices() =~= range_set(a as int, b as int));
                idx = idx.union_range(a, b);
            } else {
                kept.push(slice);
            }
            i = i + 1;
        }
        proof {
            assert(q.subrange(0, q.len() as int) =~= q);
        }
        self.buffer_send_key_bits = kept;
        let keys = match self.key_store.try_get_ranges(&idx) {
            Ok(k) => k,
            Err(_) => {
                assert(false);
                return Err(GeneratorStoreError::Protocol);
            },
        };
        let key_bits = crate::correlated::pointer_bits(&keys);
        Ok(DecodePayload { idx, key_bits })
    }

    /// Checks the evaluator's proof of its MACs and stores the decoded data.
    ///
    /// Data that was already set must agree with what the proof decodes.
    pub fn verify_data(&mut self, payload: MacPayload) -> (r: Result<(), GeneratorStoreError>)
        requires
            old(self).wf(),
            payload.idx.wf(),
        ensures
            final(self).wf(),
            final(self).keys() == old(self).keys(),
            final(self).assign_ops() == old(self).assign_ops(),
            final(self).key_bit_queue() == old(self).key_bit_queue(),
            final(self).decode_queue() == old(self).decode_queue(),
            r.is_err() ==> final(self).data() == old(self).data(),
            r is Err && payload.bits@.len() == payload.idx.spec_len() && payload.idx@.subset_of(old(self).keys().arena().initialized())
                && payload.proof@ == blake3_digest(blocks_bytes(old(self).keys().expected_macs(&payload.idx, payload.bits@)))
                ==> !old(self).decoded_agrees(&payload.idx, old(self).keys().recovered_bits(&payload.idx, payload.bits@)),
            r.is_ok() ==> {
                &&& payload.bits@.len() == payload.idx.spec_len()
                &&& payload.idx@.subset_of(old(self).keys().arena().initialized())
                &&& payload.proof@ == blake3_digest(blocks_bytes(old(self).keys().expected_macs(&payload.idx, payload.bits@)))
                &&& old(self).decoded_agrees(&payload.idx, old(self).keys().recovered_bits(&payload.idx, payload.bits@))
                &&& final(self).data().initialized() == old(self).data().initialized().union(payload.idx@)
                &&& final(self).data().spec_get_ranges(&payload.idx) == old(self).keys().recovered_bits(&payload.idx, payload.bits@)
            },
    {
        let MacPayload { idx, mut bits, proof } = payload;
        if bits.len() != idx.len() {
            return Err(GeneratorStoreError::Protocol);
        }
        match self.key_store.verify(&idx, &mut bits, proof) {
            Ok(()) => {},
            Err(e) => {
                return Err(GeneratorStoreError::KeyStore(e));
            },
        }
        proof {
            lemma_flatten(idx.spec_ranges());
            self.key_store.lemma_arena_wf();
            assert forall|k: int| idx@.contains(k) implies range_set(0, self.data_store.values().len() as int).contains(k) by {
                self.key_store.arena().lemma_initialized_in_bounds(k);
            }
        }
        match self.data_store.try_fill_ranges(&idx, &bits) {
            Ok(()) => Ok(()),
            Err(_) => Err(GeneratorStoreError::Protocol),
        }
    }

    /// Whether the decoded bits agree with the data already set at the indices of `ranges`.
    pub open spec fn decoded_agrees(&self, ranges: &RangeSet, bits: Seq<bool>) -> bool {
        self.data().agrees(ranges, bits)
    }

    /// Resolves the buffered decodes whose data is inside the store and set, sending
    /// each waiter the slice's data; the others stay buffered.
    pub fn execute_decode(&mut self) -> (r: Result<(), GeneratorStoreError>)
        requires
            old(self).wf(),
        ensures
            final(self).wf(),
            r.is_ok(),
            final(self).keys() == old(self).keys(),
            final(self).data() == old(self).data(),
            final(self).assign_ops() == old(self).assign_ops(),
            final(self).key_bit_queue() == old(self).key_bit_queue(),
            final(self).decode_queue() == old(self).decode_queue().filter(decode_pending(old(self).data())),
            final(self).sent_log() == old(self).sent_log()
                + deliveries(old(self).decode_queue().filter(decode_ready(old(self).data())), old(self).data()),
    {
        let ghost all = self.decode_queue();
        let ghost data = self.data_store;
        let ghost p_ready = decode_ready(data);
        let ghost p_pending = decode_pending(data);
        let mut pending: Vec<DecodeOp<Vec<bool>>> = Vec::new();
        std::mem::swap(&mut self.buffer_decode, &mut pending);
        let ghost n = pending@.len();
        let n_data = self.data_store.len();
        proof {
            reveal(Seq::filter);
            assert(all.subrange(0, 0) =~= Seq::<Slice>::empty());
            assert(self.decode_queue() =~= Seq::<Slice>::empty());
            assert(deliveries(Seq::<Slice>::empty(), data) =~= Seq::empty());
            assert(self.sent@ =~= old(self).sent@ + Seq::empty());
        }
        while pending.len() > 0
            invariant
                self.wf(),
                self.data_store == data,
                self.key_store == old(self).key_store,
                self.buffer_assign == old(self).buffer_assign,
                self.buffer_send_key_bits == old(self).buffer_send_key_bits,
                p_ready == decode_ready(data),
                p_pending == decode_pending(data),
                n_data == data.values().len(),
                all.len() == n,
                pending@.len() <= n,
                forall|j: int| 0 <= j < pending@.len() ==> (#[trigger] pending@[j]).slice == all[n - pending@.len() + j],
                forall|j: int| 0 <= j < pending@.len() ==> (#[trigger] pending@[j]).chan.is_some(),
                self.decode_queue() == all.subrange(0, n - pending@.len()).filter(p_pending),
                self.sent@ == old(self).sent@ + deliveries(all.subrange(0, n - pending@.len()).filter(p_ready), data),
            decreases pending@.len(),
        {
            let ghost i = n - pending@.len();
            let ghost pre = all.subrange(0, i);
            let mut op = pending.remove(0);
            proof {
                assert(op.slice == all[i]);
                assert(all.subrange(0, i + 1) =~= pre.push(op.slice));
                assert(p_ready(op.slice) == (data.in_bounds(op.slice) && data.spec_is_set(op.slice)));
                assert(p_pending(op.slice) == !p_ready(op.slice));
                lemma_filter_push(pre, op.slice, p_ready);
                lemma_filter_push(pre, op.slice, p_pending);
                assert(deliveries(pre.filter(p_ready).push(op.slice), data) =~= deliveries(pre.filter(p_ready), data).push((op.slice, data.spec_get(op.slice))));
            }
            if op.slice.ptr.0 <= n_data && op.slice.size <= n_data - op.slice.ptr.0 && self.data_store.is_set(op.slice) {
                let v = match self.data_store.try_get(op.slice) {
                    Ok(v) => v,
                    Err(_) => {
                        assert(false);
                        Vec::new()
                    },
                };
                let ghost vv = v@;
                let sent = op.send(v);
                assert(sent.is_ok());
                proof {
                    self.sent = Ghost(self.sent@.push((op.slice, op.sent@.unwrap()@)));
                    assert(op.sent@.unwrap()@ == vv);
                }
            } else {
                let ghost before = self.buffer_decode@;
                self.buffer_decode.push(op);
                assert(self.decode_queue() =~= before.map_values(|o: DecodeOp<Vec<bool>>| o.slice).push(op.slice));
            }
        }
        proof {
            assert(all.subrange(0, n as int) =~= all);
        }
        Ok(())
    }
}

/// Error of an [`EvaluatorStore`].
#[derive(Clone, Copy, Debug, PartialEq, Eq, Structural)]
pub enum EvaluatorStoreError {
    /// From the MAC store.
    MacStore(MacStoreError),
    /// From a bit store.
    Store(StoreError),
    /// A payload from the peer does not fit what this party expects.
    Protocol,
}

/// The ranges an evaluator expects MACs for in an assignment round.
#[derive(Debug)]
pub struct ReceiveAssign {
    /// Ranges whose MACs come in the payload.
    pub direct: RangeSet,
    /// Ranges whose MACs come by oblivious transfer.
    pub oblivious: RangeSet,
}

/// A garbled-circuit evaluator's memory: MACs, the generator's key bits,
/// plaintext data and buffered operations.
pub struct EvaluatorStore {
    mac_store: MacStore,
    key_bit_store: Store<bool>,
    data_store: Store<bool>,
    buffer_assign: Vec<AssignOp>,
    buffer_decode: Vec<DecodeOp<Vec<bool>>>,
    sent: Ghost<Seq<(Slice, Seq<bool>)>>,
}

impl EvaluatorStore {
    /// The MAC store.
    pub closed spec fn macs(&self) -> MacStore {
        self.mac_store
    }

    /// The generator's key pointer bits.
    pub closed spec fn key_bits(&self) -> Store<bool> {
        self.key_bit_store
    }

    /// The plaintext store.
    pub closed spec fn data(&self) -> Store<bool> {
        self.data_store
    }

    /// Buffered assignments.
    pub closed spec fn assign_ops(&self) -> Seq<AssignOp> {
        self.buffer_assign@
    }

    /// Slices of the buffered decodes.
    pub closed spec fn decode_queue(&self) -> Seq<Slice> {
        self.buffer_decode@.map_values(|op: DecodeOp<Vec<bool>>| op.slice)
    }

    /// Each decode resolved so far, with the value sent to its waiter.
    pub closed spec fn sent_log(&self) -> Seq<(Slice, Seq<bool>)> {
        self.sent@
    }

    /// The store's invariant.
    pub closed spec fn wf(&self) -> bool {
        &&& self.mac_store.wf()
        &&& self.key_bit_store.wf()
        &&& self.data_store.wf()
        &&& self.mac_store.arena().values().len() == self.data_store.values().len()
        &&& self.key_bit_store.values().len() == self.data_store.values().len()
        &&& forall|i: int| 0 <= i < self.buffer_decode@.len() ==> (#[trigger] self.buffer_decode@[i]).chan.is_some()
    }

    /// The number of allocated indices.
    pub open spec fn spec_len(&self) -> int {
        self.data().values().len() as int
    }

    /// Creates an empty evaluator store.
    pub fn new() -> (r: EvaluatorStore)
        ensures
            r.wf(),
            r.spec_len() == 0,
            r.assign_ops().len() == 0,
            r.decode_queue().len() == 0,
    {
        let r = EvaluatorStore {
            mac_store: MacStore::new(),
            key_bit_store: Store::new(),
            data_store: Store::new(),
            buffer_assign: Vec::new(),
            buffer_decode: Vec::new(),
            sent: Ghost(Seq::empty()),
        };
        assert(r.decode_queue() =~= Seq::<Slice>::empty());
        r
    }

    /// Allocates `len` values with nothing set.
    pub fn allocate(&mut self, len: usize) -> (r: Slice)
        requires
            old(self).wf(),
            old(self).spec_len() + len <= usize::MAX,
        ensures
            final(self).wf(),
            r.start() == old(self).spec_len(),
            r.size == len,
            final(self).spec_len() == old(self).spec_len() + len,
            final(self).macs().arena().initialized() == old(self).macs().arena().initialized(),
            final(self).key_bits().initialized() == old(self).key_bits().initialized(),
            final(self).data().initialized() == old(self).data().initialized(),
            final(self).assign_ops() == old(self).assign_ops(),
            final(self).decode_queue() == old(self).decode_queue(),
    {
        let _ = self.mac_store.allocate(len);
        let _ = self.key_bit_store.alloc_filled(len, false);
        self.data_store.alloc_filled(len, false)
    }

    /// Returns whether the MACs of `slice` are all set.
    pub fn is_set_macs(&self, slice: Slice) -> (r: bool)
        requires
            self.wf(),
        ensures
            r == self.macs().arena().spec_is_set(slice),
    {
        self.mac_store.is_set(slice)
    }

    /// Returns whether the key bits of `slice` are all set.
    pub fn is_set_key_bits(&self, slice: Slice) -> (r: bool)
        requires
            self.wf(),
        ensures
            r == self.key_bits().spec_is_set(slice),
    {
        self.key_bit_store.is_set(slice)
    }

    /// Returns whether the data of `slice` is all set.
    pub fn is_set_data(&self, slice: Slice) -> (r: bool)
        requires
            self.wf(),
        ensures
            r == self.data().spec_is_set(slice),
    {
        self.data_store.is_set(slice)
    }

    /// Returns whether assignments are buffered.
    pub fn wants_assign(&self) -> (r: bool)
        ensures
            r == (self.assign_ops().len() > 0),
    {
        self.buffer_assign.len() > 0
    }

    /// Returns whether some buffered decode has its MACs but not yet its key bits.
    pub fn wants_key_bits(&self) -> (r: bool)
        requires
            self.wf(),
        ensures
            r == exists|i: int| 0 <= i < self.decode_queue().len() && !self.key_bits().spec_is_set(#[trigger] self.decode_queue()[i]) && self.macs().arena().spec_is_set(self.decode_queue()[i]),
    {
        let mut i: usize = 0;
        while i < self.buffer_decode.len()
            invariant
                self.wf(),
                i <= self.decode_queue().len(),
                self.decode_queue().len() == self.buffer_decode@.len(),
                forall|j: int| 0 <= j < i ==> !(!self.key_bits().spec_is_set(#[trigger] self.decode_queue()[j]) && self.macs().arena().spec_is_set(self.decode_queue()[j])),
            decreases self.decode_queue().len() - i,
        {
            let slice = self.buffer_decode[i].slice;
            assert(self.decode_queue()[i as int] == slice);
            if !self.key_bit_store.is_set(slice) && self.mac_store.is_set(slice) {
                return true;
            }
            i = i + 1;
        }
        false
    }

    /// Returns whether some buffered decode has both its MACs and its key bits.
    pub fn wants_decode(&self) -> (r: bool)
        requires
            self.wf(),
        ensures
            r == exists|i: int| 0 <= i < self.decode_queue().len() && self.key_bits().spec_is_set(#[trigger] self.decode_queue()[i]) && self.macs().arena().spec_is_set(self.decode_queue()[i]),
    {
        let mut i: usize = 0;
        while i < self.buffer_decode.len()
            invariant
                self.wf(),
                i <= self.decode_queue().len(),
                self.decode_queue().len() == self.buffer_decode@.len(),
                forall|j: int| 0 <= j < i ==> !(self.key_bits().spec_is_set(#[trigger] self.decode_queue()[j]) && self.macs().arena().spec_is_set(self.decode_queue()[j])),
            decreases self.decode_queue().len() - i,
        {
            let slice = self.buffer_decode[i].slice;
            assert(self.decode_queue()[i as int] == slice);
            if self.key_bit_store.is_set(slice) && self.mac_store.is_set(slice) {
                return true;
            }
            i = i + 1;
        }
        false
    }

    /// Returns the MACs of `slice` if they are all set.
    pub fn try_get_macs(&self, slice: Slice) -> (r: Result<Vec<Block>, EvaluatorStoreError>)
        requires
            self.wf(),
        ensures
            match r {
                Ok(v) => self.macs().arena().in_bounds(slice) && self.macs().arena().spec_is_set(slice) && v@ == self.macs().arena().spec_get(slice),
                Err(EvaluatorStoreError::MacStore(MacStoreError::InvalidSlice(s))) => s == slice && !self.macs().arena().in_bounds(slice),
                Err(EvaluatorStoreError::MacStore(MacStoreError::Uninit(s))) => s == slice && self.macs().arena().in_bounds(slice) && !self.macs().arena().spec_is_set(slice),
                _ => false,
            },
    {
        match self.mac_store.try_get(slice) {
            Ok(v) => Ok(v),
            Err(e) => Err(EvaluatorStoreError::MacStore(e)),
        }
    }

    /// Sets the MACs of `slice` if none of them is set.
    pub fn try_set_macs(&mut self, slice: Slice, macs: &[Block]) -> (r: Result<(), EvaluatorStoreError>)
        requires
            old(self).wf(),
            macs@.len() == slice.size,
        ensures
            final(self).wf(),
            final(self).key_bits() == old(self).key_bits(),
            final(self).data() == old(self).data(),
            final(self).assign_ops() == old(self).assign_ops(),
            final(self).decode_queue() == old(self).decode_queue(),
            final(self).sent_log() == old(self).sent_log(),
            r.is_ok() == (old(self).macs().arena().in_bounds(slice) && slice.indices().disjoint(old(self).macs().arena().initialized())),
            r.is_ok() ==> final(self).macs().arena().values() == old(self).macs().arena().values().update_subrange_with(slice.start(), macs@),
            r.is_ok() ==> final(self).macs().arena().initialized() == old(self).macs().arena().initialized().union(slice.indices()),
    {
        match self.mac_store.try_set(slice, macs) {
            Ok(()) => Ok(()),
            Err(e) => Err(EvaluatorStoreError::MacStore(e)),
        }
    }

    fn assign_data(&mut self, slice: Slice, data: &[bool], kind: AssignKind) -> (r: Result<(), EvaluatorStoreError>)
        requires
            old(self).wf(),
            data@.len() == slice.size,
        ensures
            final(self).wf(),
            final(self).macs() == old(self).macs(),
            final(self).key_bits() == old(self).key_bits(),
            final(self).decode_queue() == old(self).decode_queue(),
            r.is_ok() == (old(self).data().in_bounds(slice) && slice.indices().disjoint(old(self).data().initialized())),
            r.is_ok() ==> final(self).data().values() == old(self).data().values().update_subrange_with(slice.start(), data@),
            r.is_ok() ==> final(self).data().initialized() == old(self).data().initialized().union(slice.indices()),
            r.is_ok() ==> final(self).assign_ops() == old(self).assign_ops().push(AssignOp { slice, kind }),
            r.is_err() ==> final(self).data() == old(self).data() && final(self).assign_ops() == old(self).assign_ops(),
    {
        match self.data_store.try_set(slice, data) {
            Ok(()) => {},
            Err(e) => {
                return Err(EvaluatorStoreError::Store(e));
            },
        }
        self.buffer_assign.push(AssignOp { slice, kind });
        Ok(())
    }

    /// Sets public data of `slice` and buffers its assignment.
    pub fn assign_public(&mut self, slice: Slice, data: &[bool]) -> (r: Result<(), EvaluatorStoreError>)
        requires
            old(self).wf(),
            data@.len() == slice.size,
        ensures
            final(self).wf(),
            final(self).macs() == old(self).macs(),
            r.is_ok() == (old(self).data().in_bounds(slice) && slice.indices().disjoint(old(self).data().initialized())),
            r.is_ok() ==> final(self).data().values() == old(self).data().values().update_subrange_with(slice.start(), data@),
            r.is_ok() ==> final(self).assign_ops() == old(self).assign_ops().push(AssignOp { slice, kind: AssignKind::Public }),
            r.is_err() ==> final(self).data() == old(self).data() && final(self).assign_ops() == old(self).assign_ops(),
    {
        self.assign_data(slice, data, AssignKind::Public)
    }

    /// Sets private data of `slice` and buffers its assignment.
    pub fn assign_private(&mut self, slice: Slice, data: &[bool]) -> (r: Result<(), EvaluatorStoreError>)
        requires
            old(self).wf(),
            data@.len() == slice.size,
        ensures
            final(self).wf(),
            final(self).macs() == old(self).macs(),
            r.is_ok() == (old(self).data().in_bounds(slice) && slice.indices().disjoint(old(self).data().initialized())),
            r.is_ok() ==> final(self).data().values() == old(self).data().values().update_subrange_with(slice.start(), data@),
            r.is_ok() ==> final(self).assign_ops() == old(self).assign_ops().push(AssignOp { slice, kind: AssignKind::Private }),
            r.is_err() ==> final(self).data() == old(self).data() && final(self).assign_ops() == old(self).assign_ops(),
    {
        self.assign_data(slice, data, AssignKind::Private)
    }

    /// Buffers the assignment of `slice` with data that only the generator knows.
    pub fn assign_blind(&mut self, slice: Slice) -> (r: Result<(), EvaluatorStoreError>)
        requires
            old(self).wf(),
        ensures
            final(self).wf(),
            r.is_ok(),
            final(self).macs() == old(self).macs(),
            final(self).data() == old(self).data(),
            final(self).assign_ops() == old(self).assign_ops().push(AssignOp { slice, kind: AssignKind::Blind }),
    {
        self.buffer_assign.push(AssignOp { slice, kind: AssignKind::Blind });
        Ok(())
    }

    /// Buffers a decode of `slice`, returning the future that resolves to its value.
    pub fn decode(&mut self, slice: Slice) -> (r: Result<DecodeFuture<Vec<bool>>, EvaluatorStoreError>)
        requires
            old(self).wf(),
        ensures
            final(self).wf(),
            r.is_ok(),
            final(self).macs() == old(self).macs(),
            final(self).data() == old(self).data(),
            final(self).assign_ops() == old(self).assign_ops(),
            final(self).decode_queue() == old(self).decode_queue().push(slice),
    {
        let (fut, op) = DecodeFuture::new(slice);
        self.buffer_decode.push(op);
        assert(self.decode_queue() =~= old(self).decode_queue().push(slice));
        Ok(fut)
    }

    /// Executes all buffered assignments.
    ///
    /// Public and blind values get their MACs in the generator's payload; for
    /// private values the returned choice bits, in range order, drive a
    /// correlated oblivious transfer.
    pub fn execute_assign(&mut self) -> (r: Result<(ReceiveAssign, Vec<bool>), EvaluatorStoreError>)
        requires
            old(self).wf(),
        ensures
            final(self).wf(),
            final(self).assign_ops().len() == 0,
            final(self).macs() == old(self).macs(),
            final(self).key_bits() == old(self).key_bits(),
            final(self).data() == old(self).data(),
            final(self).decode_queue() == old(self).decode_queue(),
            r.is_ok() == (pairwise_disjoint(op_slices(old(self).assign_ops())) && slices_fit(old(self).assign_ops())
                && slices_indices(op_slices(old(self).assign_ops().filter(ev_oblivious()))).subset_of(old(self).data().initialized())),
            match r {
                Ok((recv, choices)) => {
                    &&& recv.direct.wf()
                    &&& recv.oblivious.wf()
                    &&& recv.direct@ == slices_indices(op_slices(old(self).assign_ops().filter(ev_direct())))
                    &&& recv.oblivious@ == slices_indices(op_slices(old(self).assign_ops().filter(ev_oblivious())))
                    &&& choices@ == old(self).data().spec_get_ranges(&recv.oblivious)
                },
                Err(_) => true,
            },
    {
        let ghost ops = self.buffer_assign@;
        let ghost p_dir = ev_direct();
        let ghost p_obl = ev_oblivious();
        let mut direct = RangeSet::new();
        let mut oblivious = RangeSet::new();
        let mut overlap: Option<Slice> = None;
        let mut i: usize = 0;
        proof {
            reveal(Seq::filter);
            assert(ops.subrange(0, 0) =~= Seq::<AssignOp>::empty());
            assert(op_slices(Seq::<AssignOp>::empty()) =~= Seq::<Slice>::empty());
            assert(slices_indices(Seq::<Slice>::empty()) =~= Set::<int>::empty());
        }
        while i < self.buffer_assign.len()
            invariant
                self.wf(),
                self.data_store == old(self).data_store,
                p_dir == ev_direct(),
                p_obl == ev_oblivious(),
                ops == self.buffer_assign@,
                i <= ops.len(),
                direct.wf(),
                oblivious.wf(),
                overlap.is_none() ==> pairwise_disjoint(op_slices(ops.subrange(0, i as int))) && slices_fit(ops.subrange(0, i as int)),
                overlap.is_some() ==> !(pairwise_disjoint(op_slices(ops.subrange(0, i as int))) && slices_fit(ops.subrange(0, i as int))),
                overlap.is_none() ==> direct@ == slices_indices(op_slices(ops.subrange(0, i as int).filter(p_dir))),
                overlap.is_none() ==> oblivious@ == slices_indices(op_slices(ops.subrange(0, i as int).filter(p_obl))),
                overlap.is_none() ==> slices_indices(op_slices(ops.subrange(0, i as int))) == direct@.union(oblivious@),
            decreases ops.len() - i,
        {
            let op = self.buffer_assign[i];
            let ghost pre = ops.subrange(0, i as int);
            proof {
                assert(ops.subrange(0, i + 1) =~= pre.push(op));
                assert(p_dir(op) == (op.kind != AssignKind::Private));
                assert(p_obl(op) == (op.kind == AssignKind::Private));
                lemma_filter_push(pre, op, p_dir);
                lemma_filter_push(pre, op, p_obl);
                lemma_slices_push(pre, op);
                lemma_slices_push(pre.filter(p_dir), op);
                lemma_slices_push(pre.filter(p_obl), op);
                if overlap.is_some() {
                    if !pairwise_disjoint(op_slices(pre)) {
                        let a = op_slices(pre);
                        let b = a.push(op.slice);
                        let (x, y) = choose|x: int, y: int| 0 <= x < y < a.len() && !(#[trigger] a[x]).indices().disjoint((#[trigger] a[y]).indices());
                        assert(b[x] == a[x] && b[y] == a[y]);
                    } else {
                        let x = choose|x: int| 0 <= x < pre.len() && (#[trigger] pre[x]).slice.end() > usize::MAX;
                        assert(pre.push(op)[x] == pre[x]);
                    }
                }
            }
            if op.slice.ptr.0 > usize::MAX - op.slice.size {
                assert(ops.subrange(0, i + 1)[i as int] == op);
                if overlap.is_none() {
                    overlap = Some(op.slice);
                }
            } else {
                let (a, b) = op.slice.to_range();
                assert(op.slice.indices() =~= range_set(a as int, b as int));
                if overlap.is_none() && (!direct.is_disjoint_range(a, b) || !oblivious.is_disjoint_range(a, b)) {
                    proof {
                        let k = choose|k: int| range_set(a as int, b as int).contains(k) && (direct@.contains(k) || oblivious@.contains(k));
                        assert(slices_indices(op_slices(pre)).contains(k));
                        assert(!op.slice.indices().disjoint(slices_indices(op_slices(pre))));
                    }
                    overlap = Some(op.slice);
                }
                match op.kind {
                    AssignKind::Private => {
                        oblivious = oblivious.union_range(a, b);
                    },
                    _ => {
                        direct = direct.union_range(a, b);
                    },
                }
                proof {
                    if overlap.is_none() {
                        assert(slices_indices(op_slices(ops.subrange(0, i + 1))) =~= direct@.union(oblivious@));
                        assert forall|x: int| 0 <= x < i + 1 implies (#[trigger] ops.subrange(0, i + 1)[x]).slice.end() <= usize::MAX by {
                            if x < i {
                                assert(ops.subrange(0, i + 1)[x] == pre[x]);
                            }
                        }
                    }
                }
            }
            i = i + 1;
        }
        proof {
            assert(ops.subrange(0, ops.len() as int) =~= ops);
        }
        self.buffer_assign = Vec::new();
        if let Some(slice) = overlap {
            return Err(EvaluatorStoreError::MacStore(MacStoreError::AlreadyAssigned(slice)));
        }
        let choices = match self.data_store.try_get_ranges(&oblivious) {
            Ok(c) => c,
            Err(e) => {
                return Err(EvaluatorStoreError::Store(e));
            },
        };
        Ok((ReceiveAssign { direct, oblivious }, choices))
    }

    /// Stores the generator's key pointer bits for decoding.
    pub fn receive_key_bits(&mut self, payload: DecodePayload) -> (r: Result<(), EvaluatorStoreError>)
        requires
            old(self).wf(),
            payload.idx.wf(),
        ensures
            final(self).wf(),
            final(self).macs() == old(self).macs(),
            final(self).data() == old(self).data(),
            final(self).assign_ops() == old(self).assign_ops(),
            final(self).decode_queue() == old(self).decode_queue(),
            r.is_ok() == (payload.key_bits@.len() == payload.idx.spec_len()
                && payload.idx@.subset_of(range_set(0, old(self).spec_len()))
                && payload.idx@.disjoint(old(self).key_bits().initialized())),
            r.is_ok() ==> final(self).key_bits().initialized() == old(self).key_bits().initialized().union(payload.idx@),
            r.is_ok() ==> final(self).key_bits().spec_get_ranges(&payload.idx) == payload.key_bits@,
            r.is_err() ==> final(self).key_bits() == old(self).key_bits(),
    {
        let DecodePayload { idx, key_bits } = payload;
        if key_bits.len() != idx.len() {
            return Err(EvaluatorStoreError::Protocol);
        }
        match self.key_bit_store.try_set_ranges(&idx, &key_bits) {
            Ok(()) => Ok(()),
            Err(e) => Err(EvaluatorStoreError::Store(e)),
        }
    }

    /// The buffered decodes that this round resolves.
    pub open spec fn ready_decodes(&self) -> Seq<Slice> {
        self.decode_queue().filter(ev_decode_ready(self.macs().arena(), self.key_bits(), self.data()))
    }

    /// Resolves the decodes whose MACs are set and whose data is set or can be
    /// recovered from the generator's key bits, and proves their MACs.
    ///
    /// The recovered data is `LSB(M) ^ key bit`. The other decodes stay buffered.
    pub fn execute_decode(&mut self) -> (r: Result<MacPayload, EvaluatorStoreError>)
        requires
            old(self).wf(),
        ensures
            final(self).wf(),
            final(self).macs() == old(self).macs(),
            final(self).key_bits() == old(self).key_bits(),
            final(self).assign_ops() == old(self).assign_ops(),
            final(self).decode_queue() == old(self).decode_queue().filter(ev_decode_pending(old(self).macs().arena(), old(self).key_bits(), old(self).data())),
            final(self).sent_log() == old(self).sent_log()
                + deliveries(old(self).ready_decodes().filter(decode_ready(final(self).data())), final(self).data()),
            match r {
                Ok(payload) => {
                    &&& payload.idx.wf()
                    &&& payload.idx@ == slices_indices(old(self).ready_decodes())
                    &&& payload.bits@.len() == old(self).macs().macs_in(&payload.idx).len()
                    &&& forall|j: int| 0 <= j < payload.bits@.len() ==> payload.bits@[j] == lsb(#[trigger] old(self).macs().macs_in(&payload.idx)[j].0)
                    &&& payload.proof@ == blake3_digest(blocks_bytes(old(self).macs().macs_in(&payload.idx)))
                },
                Err(_) => false,
            },
    {
        let ghost all = self.decode_queue();
        let ghost macs0 = self.mac_store.arena();
        let ghost kb0 = self.key_bit_store;
        let ghost data0 = self.data_store;
        let ghost p_ready = ev_decode_ready(macs0, kb0, data0);
        let ghost p_pending = ev_decode_pending(macs0, kb0, data0);
        let mut pending: Vec<DecodeOp<Vec<bool>>> = Vec::new();
        std::mem::swap(&mut self.buffer_decode, &mut pending);
        let ghost n = pending@.len();
        let mut ready: Vec<DecodeOp<Vec<bool>>> = Vec::new();
        let mut idx = RangeSet::new();
        proof {
            reveal(Seq::filter);
            assert(all.subrange(0, 0) =~= Seq::<Slice>::empty());
            assert(self.decode_queue() =~= Seq::<Slice>::empty());
            assert(slices_indices(Seq::<Slice>::empty()) =~= Set::<int>::empty());
            assert(ready@.map_values(|o: DecodeOp<Vec<bool>>| o.slice) =~= Seq::<Slice>::empty());
        }
        while pending.len() > 0
            invariant
                self.wf(),
                self.mac_store == old(self).mac_store,
                self.key_bit_store == old(self).key_bit_store,
                self.data_store == old(self).data_store,
                self.buffer_assign == old(self).buffer_assign,
                macs0 == self.mac_store.arena(),
                kb0 == self.key_bit_store,
                data0 == self.data_store,
                p_ready == ev_decode_ready(macs0, kb0, data0),
                p_pending == ev_decode_pending(macs0, kb0, data0),
                all.len() == n,
                pending@.len() <= n,
                idx.wf(),
                forall|j: int| 0 <= j < pending@.len() ==> (#[trigger] pending@[j]).slice == all[n - pending@.len() + j],
                forall|j: int| 0 <= j < pending@.len() ==> (#[trigger] pending@[j]).chan.is_some(),
                forall|j: int| 0 <= j < ready@.len() ==> (#[trigger] ready@[j]).chan.is_some(),
                self.sent == old(self).sent,
                ready@.map_values(|o: DecodeOp<Vec<bool>>| o.slice) == all.subrange(0, n - pending@.len()).filter(p_ready),
                self.decode_queue() == all.subrange(0, n - pending@.len()).filter(p_pending),
                idx@ == slices_indices(all.subrange(0, n - pending@.len()).filter(p_ready)),
                idx@.subset_of(macs0.initialized()),
            decreases pending@.len(),
        {
            let ghost i = n - pending@.len();
            let ghost pre = all.subrange(0, i);
            let op = pending.remove(0);
            proof {
                assert(op.slice == all[i]);
                assert(all.subrange(0, i + 1) =~= pre.push(op.slice));
                assert(p_ready(op.slice) == (macs0.spec_is_set(op.slice) && (data0.spec_is_set(op.slice) || kb0.spec_is_set(op.slice))));
                assert(p_pending(op.slice) == !p_ready(op.slice));
                lemma_filter_push(pre, op.slice, p_ready);
                lemma_filter_push(pre, op.slice, p_pending);
                lemma_indices_push(pre.filter(p_ready), op.slice);
            }
            if self.mac_store.is_set(op.slice) && (self.data_store.is_set(op.slice) || self.key_bit_store.is_set(op.slice)) {
                assert(op.slice.end() <= usize::MAX) by {
                    self.mac_store.lemma_arena_wf();
                    macs0.lemma_len_bound();
                    if op.slice.size > 0 {
                        assert(op.slice.indices().contains(op.slice.end() - 1));
                        macs0.lemma_initialized_in_bounds(op.slice.end() - 1);
                    }
                }
                let (a, b) = op.slice.to_range();
                assert(op.slice.indices() =~= range_set(a as int, b as int));
                idx = idx.union_range(a, b);
                let ghost rb = ready@;
                ready.push(op);
                assert(ready@.map_values(|o: DecodeOp<Vec<bool>>| o.slice) =~= rb.map_values(|o: DecodeOp<Vec<bool>>| o.slice).push(op.slice));
            } else {
                let ghost before = self.buffer_decode@;
                self.buffer_decode.push(op);
                assert(self.decode_queue() =~= before.map_values(|o: DecodeOp<Vec<bool>>| o.slice).push(op.slice));
            }
        }
        proof {
            assert(all.subrange(0, n as int) =~= all);
        }
        let (bits, proof) = match self.mac_store.prove(&idx) {
            Ok(p) => p,
            Err(_) => {
                assert(false);
                return Err(EvaluatorStoreError::Protocol);
            },
        };
        self.resolve(ready);
        Ok(MacPayload { idx, bits, proof })
    }

    /// Recovers the data of each operation's slice where needed, then sends each
    /// waiter whose slice's data is inside the store and set that data.
    fn resolve(&mut self, ops: Vec<DecodeOp<Vec<bool>>>)
        requires
            old(self).wf(),
            forall|j: int| 0 <= j < ops@.len() ==> (#[trigger] ops@[j]).chan.is_some(),
        ensures
            final(self).wf(),
            final(self).macs() == old(self).macs(),
            final(self).key_bits() == old(self).key_bits(),
            final(self).assign_ops() == old(self).assign_ops(),
            final(self).decode_queue() == old(self).decode_queue(),
            final(self).sent_log() == old(self).sent_log()
                + deliveries(ops@.map_values(|o: DecodeOp<Vec<bool>>| o.slice).filter(decode_ready(final(self).data())), final(self).data()),
    {
        let mut i: usize = 0;
        while i < ops.len()
            invariant
                self.wf(),
                i <= ops@.len(),
                self.mac_store == old(self).mac_store,
                self.key_bit_store == old(self).key_bit_store,
                self.assign_ops() == old(self).assign_ops(),
                self.decode_queue() == old(self).decode_queue(),
                self.sent == old(self).sent,
            decreases ops@.len() - i,
        {
            let slice = ops[i].slice;
            if !self.data_store.is_set(slice) {
                let _ = self.recover(slice);
            }
            i = i + 1;
        }
        let mut ops = ops;
        let ghost all = ops@.map_values(|o: DecodeOp<Vec<bool>>| o.slice);
        let ghost n = ops@.len();
        let ghost data = self.data_store;
        let ghost p_ready = decode_ready(data);
        let ghost sent0 = self.sent@;
        let n_data = self.data_store.len();
        proof {
            reveal(Seq::filter);
            assert(all.subrange(0, 0) =~= Seq::<Slice>::empty());
            assert(deliveries(Seq::<Slice>::empty(), data) =~= Seq::empty());
            assert(self.sent@ =~= sent0 + Seq::empty());
        }
        while ops.len() > 0
            invariant
                self.wf(),
                self.data_store == data,
                self.mac_store == old(self).mac_store,
                self.key_bit_store == old(self).key_bit_store,
                self.assign_ops() == old(self).assign_ops(),
                self.decode_queue() == old(self).decode_queue(),
                sent0 == old(self).sent@,
                p_ready == decode_ready(data),
                n_data == data.values().len(),
                all.len() == n,
                ops@.len() <= n,
                forall|j: int| 0 <= j < ops@.len() ==> (#[trigger] ops@[j]).slice == all[n - ops@.len() + j],
                forall|j: int| 0 <= j < ops@.len() ==> (#[trigger] ops@[j]).chan.is_some(),
                self.sent@ == sent0 + deliveries(all.subrange(0, n - ops@.len()).filter(p_ready), data),
            decreases ops@.len(),
        {
            let ghost k = n - ops@.len();
            let ghost pre = all.subrange(0, k);
            let mut op = ops.remove(0);
            proof {
                assert(op.slice == all[k]);
                assert(all.subrange(0, k + 1) =~= pre.push(op.slice));
                assert(p_ready(op.slice) == (data.in_bounds(op.slice) && data.spec_is_set(op.slice)));
                lemma_filter_push(pre, op.slice, p_ready);
                assert(deliveries(pre.filter(p_ready).push(op.slice), data) =~= deliveries(pre.filter(p_ready), data).push((op.slice, data.spec_get(op.slice))));
            }
            if op.slice.ptr.0 <= n_data && op.slice.size <= n_data - op.slice.ptr.0 && self.data_store.is_set(op.slice) {
                let v = match self.data_store.try_get(op.slice) {
                    Ok(v) => v,
                    Err(_) => {
                        assert(false);
                        Vec::new()
                    },
                };
                let ghost vv = v@;
                let sent = op.send(v);
                assert(sent.is_ok());
                proof {
                    self.sent = Ghost(self.sent@.push((op.slice, op.sent@.unwrap()@)));
                    assert(op.sent@.unwrap()@ == vv);
                }
            }
        }
        proof {
            assert(all.subrange(0, n as int) =~= all);
        }
    }

    /// Whether the data already set in `slice` agrees with `LSB(M) ^ key bit`.
    pub open spec fn recover_agrees(&self, slice: Slice) -> bool {
        forall|i: int| slice.start() <= i < slice.end() && #[trigger] self.data().initialized().contains(i)
            ==> self.data().values()[i] == (lsb(self.macs().mac(i)) != self.key_bits().values()[i])
    }

    /// Sets the data of `slice` to `LSB(M) ^ key bit` where it is not yet set, if
    /// the data already set there agrees.
    pub fn recover(&mut self, slice: Slice) -> (r: Result<(), EvaluatorStoreError>)
        requires
            old(self).wf(),
        ensures
            final(self).wf(),
            final(self).macs() == old(self).macs(),
            final(self).key_bits() == old(self).key_bits(),
            final(self).assign_ops() == old(self).assign_ops(),
            final(self).decode_queue() == old(self).decode_queue(),
            final(self).sent_log() == old(self).sent_log(),
            r.is_ok() == (old(self).macs().arena().in_bounds(slice) && old(self).macs().arena().spec_is_set(slice)
                && old(self).key_bits().spec_is_set(slice) && old(self).recover_agrees(slice)),
            r.is_ok() ==> {
                &&& old(self).macs().arena().spec_is_set(slice)
                &&& old(self).key_bits().spec_is_set(slice)
                &&& final(self).data().initialized() == old(self).data().initialized().union(slice.indices())
                &&& forall|i: int| #![trigger final(self).data().values()[i]] slice.start() <= i < slice.end() ==>
                    final(self).data().values()[i] == (lsb(old(self).macs().mac(i)) != old(self).key_bits().values()[i])
            },
            r.is_err() ==> final(self).data() == old(self).data(),
    {
        let macs = match self.mac_store.try_get(slice) {
            Ok(m) => m,
            Err(e) => {
                return Err(EvaluatorStoreError::MacStore(e));
            },
        };
        let kb = match self.key_bit_store.try_get(slice) {
            Ok(k) => k,
            Err(e) => {
                proof {
                    self.mac_store.lemma_arena_wf();
                }
                return Err(EvaluatorStoreError::Store(e));
            },
        };
        let mut data: Vec<bool> = Vec::with_capacity(macs.len());
        let mut i: usize = 0;
        while i < macs.len()
            invariant
                i <= macs@.len(),
                macs@.len() == kb@.len(),
                data@.len() == i,
                forall|j: int| 0 <= j < i ==> data@[j] == (lsb(#[trigger] macs@[j].0) != kb@[j]),
            decreases macs@.len() - i,
        {
            data.push(macs[i].lsb() != kb[i]);
            i = i + 1;
        }
        proof {
            self.mac_store.lemma_arena_wf();
            self.mac_store.arena().lemma_len_bound();
        }
        let (a, b) = slice.to_range();
        let unit = RangeSet::new().union_range(a, b);
        proof {
            assert forall|k: int| covers(unit.spec_ranges(), k) <==> a <= k < b by {
                assert(unit@.contains(k) == covers(unit.spec_ranges(), k));
            }
            lemma_interval_ranges(unit.spec_ranges(), a, b);
            assert(data@.len() == unit.spec_len());
        }
        proof {
            assert forall|j: int| 0 <= j < data@.len() implies flatten(unit.spec_ranges())[j] == slice.start() + j
                && #[trigger] data@[j] == (lsb(old(self).macs().mac(slice.start() + j)) != old(self).key_bits().values()[slice.start() + j]) by {
                assert(macs@[j] == old(self).macs().arena().values()[slice.start() + j]);
                assert(kb@[j] == old(self).key_bits().values()[slice.start() + j]);
            }
            assert forall|k: int| unit@.contains(k) implies range_set(0, self.data_store.values().len() as int).contains(k) by {}
            if old(self).recover_agrees(slice) {
                assert forall|j: int| 0 <= j < flatten(unit.spec_ranges()).len() && #[trigger] self.data_store.initialized().contains(flatten(unit.spec_ranges())[j])
                    implies self.data_store.values()[flatten(unit.spec_ranges())[j]] == data@[j] by {
                    let i = slice.start() + j;
                    assert(flatten(unit.spec_ranges())[j] == i);
                    assert(self.data_store == old(self).data_store);
                    assert(old(self).data().initialized().contains(i));
                    assert(old(self).data().values()[i] == (lsb(old(self).macs().mac(i)) != old(self).key_bits().values()[i]));
                    assert(data@[j] == (lsb(old(self).macs().mac(slice.start() + j)) != old(self).key_bits().values()[slice.start() + j]));
                }
            }
        }
        match self.data_store.try_fill_ranges(&unit, &data) {
            Ok(()) => {},
            Err(e) => {
                proof {
                    if !old(self).data_store.agrees(&unit, data@) {
                        let j = choose|j: int| 0 <= j < flatten(unit.spec_ranges()).len() && #[trigger] old(self).data_store.initialized().contains(flatten(unit.spec_ranges())[j])
                            && !(old(self).data_store.values()[flatten(unit.spec_ranges())[j]] == data@[j]);
                        let i = slice.start() + j;
                        assert(flatten(unit.spec_ranges())[j] == i);
                        assert(!old(self).recover_agrees(slice));
                    }
                }
                return Err(EvaluatorStoreError::Store(e));
            },
        }
        proof {
            assert forall|i: int| slice.start() <= i < slice.end() && old(self).data().initialized().contains(i) implies
                old(self).data().values()[i] == (lsb(old(self).macs().mac(i)) != old(self).key_bits().values()[i]) by {
                let j = i - slice.start();
                assert(flatten(unit.spec_ranges())[j] == i);
                assert(old(self).data_store.initialized().contains(flatten(unit.spec_ranges())[j]));
            }
            assert(unit@ =~= slice.indices());
            assert forall|i: int| #![trigger self.data().values()[i]] slice.start() <= i < slice.end() implies
                self.data().values()[i] == (lsb(old(self).macs().mac(i)) != old(self).key_bits().values()[i]) by {
                let j = i - slice.start();
                assert(flatten(unit.spec_ranges())[j] == i);
                assert(self.data().spec_get_ranges(&unit)[j] == self.data().values()[i]);
                assert(macs@[j] == old(self).macs().arena().values()[i]);
                assert(kb@[j] == old(self).key_bits().values()[i]);
            }
        }
        Ok(())
    }
}

impl Default for EvaluatorStore {
    fn default() -> (r: EvaluatorStore)
        ensures
            r.wf(),
            r.spec_len() == 0,
    {
        EvaluatorStore::new()
    }
}

impl ReceiveAssign {
    /// Stores the MACs of an assignment round: those sent in `payload` and those
    /// received by oblivious transfer, each in range order.
    pub fn receive(self, store: &mut EvaluatorStore, payload: AssignPayload, oblivious_macs: Vec<Block>) -> (r: Result<(), EvaluatorStoreError>)
        requires
            old(store).wf(),
            self.direct.wf(),
            self.oblivious.wf(),
            payload.idx_direct.wf(),
            payload.idx_oblivious.wf(),
        ensures
            final(store).wf(),
            final(store).key_bits() == old(store).key_bits(),
            final(store).data() == old(store).data(),
            final(store).assign_ops() == old(store).assign_ops(),
            final(store).decode_queue() == old(store).decode_queue(),
            (payload.idx_direct@ != self.direct@ || payload.idx_oblivious@ != self.oblivious@
                || payload.macs@.len() != self.direct.spec_len() || oblivious_macs@.len() != self.oblivious.spec_len())
                ==> r == Err::<(), EvaluatorStoreError>(EvaluatorStoreError::Protocol),
            r.is_ok() == (payload.idx_direct@ == self.direct@ && payload.idx_oblivious@ == self.oblivious@
                && payload.macs@.len() == self.direct.spec_len() && oblivious_macs@.len() == self.oblivious.spec_len()
                && self.direct@.disjoint(self.oblivious@)
                && self.direct@.union(self.oblivious@).subset_of(range_set(0, old(store).macs().arena().values().len() as int))
                && self.direct@.union(self.oblivious@).disjoint(old(store).macs().arena().initialized())),
            r.is_err() ==> final(store).macs() == old(store).macs(),
            r.is_ok() ==> {
                &&& final(store).macs().arena().initialized() == old(store).macs().arena().initialized().union(self.direct@).union(self.oblivious@)
                &&& final(store).macs().arena().spec_get_ranges(&self.direct) == payload.macs@
                &&& final(store).macs().arena().spec_get_ranges(&self.oblivious) == oblivious_macs@
            },
    {
        if !payload.idx_direct.set_eq(&self.direct) || !payload.idx_oblivious.set_eq(&self.oblivious) {
            return Err(EvaluatorStoreError::Protocol);
        }
        if payload.macs.len() != self.direct.len() || oblivious_macs.len() != self.oblivious.len() {
            return Err(EvaluatorStoreError::Protocol);
        }
        if !self.direct.is_disjoint(&self.oblivious) {
            return Err(EvaluatorStoreError::Protocol);
        }
        match store.mac_store.check_unset_ranges(&self.direct) {
            Ok(()) => {},
            Err(e) => {
                proof {
                    if !self.direct@.disjoint(old(store).macs().arena().initialized()) {
                        let k = choose|k: int| self.direct@.contains(k) && old(store).macs().arena().initialized().contains(k);
                        assert(self.direct@.union(self.oblivious@).contains(k));
                    } else {
                        let k = choose|k: int| self.direct@.contains(k) && !range_set(0, old(store).macs().arena().values().len() as int).contains(k);
                        assert(self.direct@.union(self.oblivious@).contains(k));
                    }
                }
                return Err(EvaluatorStoreError::MacStore(e));
            },
        }
        match store.mac_store.check_unset_ranges(&self.oblivious) {
            Ok(()) => {},
            Err(e) => {
                proof {
                    if !self.oblivious@.disjoint(old(store).macs().arena().initialized()) {
                        let k = choose|k: int| self.oblivious@.contains(k) && old(store).macs().arena().initialized().contains(k);
                        assert(self.direct@.union(self.oblivious@).contains(k));
                    } else {
                        let k = choose|k: int| self.oblivious@.contains(k) && !range_set(0, old(store).macs().arena().values().len() as int).contains(k);
                        assert(self.direct@.union(self.oblivious@).contains(k));
                    }
                }
                return Err(EvaluatorStoreError::MacStore(e));
            },
        }
        let res = store.mac_store.try_set_ranges(&self.direct, &payload.macs);
        assert(res.is_ok());
        let ghost mid = store.mac_store.arena();
        proof {
            assert forall|k: int| self.oblivious@.contains(k) implies !mid.initialized().contains(k) by {
                assert(!self.direct@.contains(k));
            }
        }
        let res = store.mac_store.try_set_ranges(&self.oblivious, &oblivious_macs);
        assert(res.is_ok());
        proof {
            store.mac_store.lemma_arena_wf();
            Store::<Block>::lemma_get_ranges_frame(mid, store.mac_store.arena(), &self.direct, &self.oblivious);
        }
        Ok(())
    }
}

} // verus!
