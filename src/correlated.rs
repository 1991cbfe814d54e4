//! Correlated memory: MAC keys on one side, MACs on the other.
//!
//! For a key `K` and a bit `x`, the MAC is `M = K ^ (x * Δ)`, where `Δ` is the
//! key holder's global correlation. The pointer bit of `Δ` is one, so
//! `LSB(M) = LSB(K) ^ x`: the two pointer bits are an additive sharing of `x`.
use vstd::prelude::*;

use crate::block::{Block, le_bytes, MINUS_ONE};
use crate::hash::{blake3_digest, blocks_bytes, hash, push_block_bytes};
use crate::memory::Slice;
use crate::range::{flatten, lemma_flatten, range_set, RangeSet};
use crate::store::{Store, StoreError};

verus! {

/// The MAC on bit `x` under key `k`: `k ^ (x * Δ)`.
pub open spec fn mac_of(k: u128, x: bool, delta: u128) -> u128 {
    if x {
        k ^ delta
    } else {
        k
    }
}

/// The pointer bit of a 128-bit value.
pub open spec fn lsb(v: u128) -> bool {
    v & 1u128 == 1u128
}

/// With an odd `Δ`, the pointer bits of a key and of its MAC on `x` differ by `x`.
pub proof fn lemma_authenticate_pointer_bit(k: u128, x: bool, delta: u128)
    requires
        lsb(delta),
    ensures
        lsb(mac_of(k, x, delta)) == (lsb(k) != x),
{
    assert(delta & 1u128 == 1u128 ==> (((k ^ delta) & 1u128 == 1u128) == !(k & 1u128 == 1u128))) by (bit_vector);
}

/// The global correlation `Δ`, a block whose pointer bit is one.
#[derive(Clone, Copy, Debug, PartialEq, Eq, Structural)]
pub struct Delta(Block);

impl Delta {
    #[verifier::type_invariant]
    spec fn inv(self) -> bool {
        self.0.lsb_spec()
    }

    /// The block value of `Δ`.
    pub closed spec fn value(self) -> u128 {
        self.0.0
    }

    /// Creates `Δ` from `value` with its pointer bit set to one; a value whose
    /// pointer bit is already one is kept as it is.
    pub fn new(value: Block) -> (r: Delta)
        ensures
            lsb(r.value()),
            r.value() >> 1u128 == value.0 >> 1u128,
            value.lsb_spec() ==> r.value() == value.0,
    {
        if value.lsb() {
            Delta(value)
        } else {
            let mut v = value;
            v.set_lsb(true);
            Delta(v)
        }
    }

    /// A `Δ` is determined by its value: so `Delta::new` of `into_inner()` gives
    /// back the same `Δ`, as `new` keeps a value whose pointer bit is already one.
    pub proof fn lemma_value_determines(a: Delta, b: Delta)
        requires
            a.value() == b.value(),
        ensures
            a == b,
    {
    }

    /// Returns the block value.
    pub fn as_block(&self) -> (r: Block)
        ensures
            r.0 == self.value(),
            lsb(r.0),
    {
        proof {
            use_type_invariant(self);
        }
        self.0
    }

    /// Returns the block value.
    pub fn into_inner(self) -> (r: Block)
        ensures
            r.0 == self.value(),
            lsb(r.0),
            r.lsb_spec(),
    {
        proof {
            use_type_invariant(self);
        }
        self.0
    }
}

/// Error of a [`KeyStore`].
#[derive(Clone, Copy, Debug, PartialEq, Eq, Structural)]
pub enum KeyStoreError {
    /// The slice reaches past the end of the store.
    InvalidSlice(Slice),
    /// Some key of the slice is not set.
    Uninit(Slice),
    /// Some key of the slice is already set.
    AlreadySet(Slice),
    /// Some key of the slice is already used.
    AlreadyAssigned(Slice),
    /// The MAC proof does not match.
    Verify,
}

impl KeyStoreError {
    /// Maps an arena error to the same kind of key-store error.
    pub fn from_store(err: StoreError) -> (r: KeyStoreError)
        ensures
            r == match err {
                StoreError::InvalidSlice(s) => KeyStoreError::InvalidSlice(s),
                StoreError::Uninit(s) => KeyStoreError::Uninit(s),
                StoreError::AlreadySet(s) => KeyStoreError::AlreadySet(s),
            },
    {
        match err {
            StoreError::InvalidSlice(s) => KeyStoreError::InvalidSlice(s),
            StoreError::Uninit(s) => KeyStoreError::Uninit(s),
            StoreError::AlreadySet(s) => KeyStoreError::AlreadySet(s),
        }
    }
}

/// A linear store of MAC keys, with `Δ` and a record of which keys were used.
#[derive(Debug)]
pub struct KeyStore {
    keys: Store<Block>,
    delta: Delta,
    used: RangeSet,
}

impl KeyStore {
    /// The key arena.
    pub closed spec fn arena(&self) -> Store<Block> {
        self.keys
    }

    /// The global correlation.
    pub closed spec fn spec_delta(&self) -> Delta {
        self.delta
    }

    /// Keys handed out by `authenticate` or `oblivious_transfer`.
    pub closed spec fn used(&self) -> Set<int> {
        self.used@
    }

    /// The store's invariant.
    pub closed spec fn wf(&self) -> bool {
        self.keys.wf() && self.used.wf()
    }

    /// A well-formed key store has a well-formed arena.
    pub proof fn lemma_arena_wf(&self)
        requires
            self.wf(),
        ensures
            self.arena().wf(),
    {
    }

    /// The key at index `i`.
    pub open spec fn key(&self, i: int) -> u128 {
        self.arena().values()[i].0
    }

    /// Creates an empty key store.
    pub fn new(delta: Delta) -> (r: KeyStore)
        ensures
            r.wf(),
            r.spec_delta() == delta,
            r.arena().values().len() == 0,
            r.arena().initialized() == Set::<int>::empty(),
            r.used() == Set::<int>::empty(),
    {
        KeyStore { keys: Store::new(), delta, used: RangeSet::new() }
    }

    /// Creates an empty key store with room for `capacity` keys.
    pub fn with_capacity(capacity: usize, delta: Delta) -> (r: KeyStore)
        ensures
            r.wf(),
            r.spec_delta() == delta,
            r.arena().values().len() == 0,
            r.arena().initialized() == Set::<int>::empty(),
            r.used() == Set::<int>::empty(),
    {
        KeyStore { keys: Store::with_capacity(capacity), delta, used: RangeSet::new() }
    }

    /// Returns `Δ`.
    pub fn delta(&self) -> (r: Delta)
        ensures
            r == self.spec_delta(),
    {
        self.delta
    }

    /// Returns whether all the keys of `slice` are set.
    pub fn is_set(&self, slice: Slice) -> (r: bool)
        requires
            self.wf(),
        ensures
            r == self.arena().spec_is_set(slice),
    {
        self.keys.is_set(slice)
    }

    /// Returns whether any key of `slice` is used.
    pub fn is_used(&self, slice: Slice) -> (r: bool)
        requires
            self.wf(),
            slice.end() <= usize::MAX,
        ensures
            r == !slice.indices().disjoint(self.used()),
    {
        !self.used.is_disjoint_range(slice.ptr.0, slice.ptr.0 + slice.size)
    }

    /// Allocates `len` unset keys.
    pub fn allocate(&mut self, len: usize) -> (r: Slice)
        requires
            old(self).wf(),
            old(self).arena().values().len() + len <= usize::MAX,
        ensures
            final(self).wf(),
            r.start() == old(self).arena().values().len(),
            r.size == len,
            final(self).arena().values().len() == old(self).arena().values().len() + len,
            final(self).arena().values().subrange(0, r.start()) == old(self).arena().values(),
            final(self).arena().initialized() == old(self).arena().initialized(),
            final(self).used() == old(self).used(),
            final(self).spec_delta() == old(self).spec_delta(),
    {
        self.keys.alloc_filled(len, Block(0))
    }

    /// Allocates set keys holding `keys`.
    pub fn alloc_with(&mut self, keys: &[Block]) -> (r: Slice)
        requires
            old(self).wf(),
            old(self).arena().values().len() + keys@.len() <= usize::MAX,
        ensures
            final(self).wf(),
            r.start() == old(self).arena().values().len(),
            r.size == keys@.len(),
            final(self).arena().values() == old(self).arena().values() + keys@,
            final(self).arena().initialized() == old(self).arena().initialized().union(r.indices()),
            final(self).used() == old(self).used(),
            final(self).spec_delta() == old(self).spec_delta(),
    {
        self.keys.alloc_with(keys)
    }

    /// Returns the keys of `slice` if they are all set.
    ///
    /// The keys must never reach the MAC holder this way: `authenticate` and
    /// `oblivious_transfer` are the only conduits.
    pub fn try_get(&self, slice: Slice) -> (r: Result<Vec<Block>, KeyStoreError>)
        requires
            self.wf(),
        ensures
            match r {
                Ok(v) => self.arena().in_bounds(slice) && self.arena().spec_is_set(slice) && v@ == self.arena().spec_get(slice),
                Err(KeyStoreError::InvalidSlice(s)) => s == slice && !self.arena().in_bounds(slice),
                Err(KeyStoreError::Uninit(s)) => s == slice && self.arena().in_bounds(slice) && !self.arena().spec_is_set(slice),
                _ => false,
            },
    {
        match self.keys.try_get(slice) {
            Ok(v) => Ok(v),
            Err(e) => Err(KeyStoreError::from_store(e)),
        }
    }

    /// Sets the keys of `slice` if none of them is set.
    pub fn try_set(&mut self, slice: Slice, keys: &[Block]) -> (r: Result<(), KeyStoreError>)
        requires
            old(self).wf(),
            keys@.len() == slice.size,
        ensures
            final(self).wf(),
            final(self).used() == old(self).used(),
            final(self).spec_delta() == old(self).spec_delta(),
            final(self).arena().values().len() == old(self).arena().values().len(),
            match r {
                Ok(()) => {
                    &&& old(self).arena().in_bounds(slice)
                    &&& slice.indices().disjoint(old(self).arena().initialized())
                    &&& final(self).arena().values() == old(self).arena().values().update_subrange_with(slice.start(), keys@)
                    &&& final(self).arena().initialized() == old(self).arena().initialized().union(slice.indices())
                },
                Err(KeyStoreError::InvalidSlice(s)) => s == slice && !old(self).arena().in_bounds(slice) && final(self).arena() == old(self).arena(),
                Err(KeyStoreError::AlreadySet(s)) => {
                    &&& s == slice
                    &&& old(self).arena().in_bounds(slice)
                    &&& !slice.indices().disjoint(old(self).arena().initialized())
                    &&& final(self).arena() == old(self).arena()
                },
                _ => false,
            },
    {
        match self.keys.try_set(slice, keys) {
            Ok(()) => Ok(()),
            Err(e) => Err(KeyStoreError::from_store(e)),
        }
    }

    /// Returns the pointer bits of the keys of `slice` if they are all set.
    pub fn try_get_bits(&self, slice: Slice) -> (r: Result<Vec<bool>, KeyStoreError>)
        requires
            self.wf(),
        ensures
            match r {
                Ok(v) => {
                    &&& self.arena().in_bounds(slice)
                    &&& self.arena().spec_is_set(slice)
                    &&& v@.len() == slice.size
                    &&& forall|i: int| 0 <= i < slice.size ==> v@[i] == lsb(#[trigger] self.key(slice.start() + i))
                },
                Err(KeyStoreError::InvalidSlice(s)) => s == slice && !self.arena().in_bounds(slice),
                Err(KeyStoreError::Uninit(s)) => s == slice && self.arena().in_bounds(slice) && !self.arena().spec_is_set(slice),
                _ => false,
            },
    {
        let keys = self.try_get(slice)?;
        let bits = pointer_bits(&keys);
        assert forall|i: int| 0 <= i < slice.size implies bits@[i] == lsb(#[trigger] self.key(slice.start() + i)) by {
            assert(keys@[i] == self.arena().values()[slice.start() + i]);
        }
        Ok(bits)
    }

    /// Returns the MACs `K ^ (x * Δ)` on `bits` under the keys of `slice`, and marks the keys used.
    pub fn authenticate(&mut self, slice: Slice, bits: &[bool]) -> (r: Result<Vec<Block>, KeyStoreError>)
        requires
            old(self).wf(),
            bits@.len() == slice.size,
        ensures
            final(self).wf(),
            final(self).arena() == old(self).arena(),
            final(self).spec_delta() == old(self).spec_delta(),
            match r {
                Ok(macs) => {
                    &&& old(self).arena().in_bounds(slice)
                    &&& old(self).arena().spec_is_set(slice)
                    &&& slice.indices().disjoint(old(self).used())
                    &&& final(self).used() == old(self).used().union(slice.indices())
                    &&& macs@.len() == slice.size
                    &&& forall|i: int| 0 <= i < slice.size ==> (#[trigger] macs@[i]).0 == mac_of(
                        old(self).key(slice.start() + i),
                        bits@[i],
                        old(self).spec_delta().value(),
                    )
                },
                Err(e) => final(self).used() == old(self).used() && old(self).assign_error(slice, e),
            },
    {
        let keys = self.take_keys(slice)?;
        let d = self.delta.as_block();
        let mut macs: Vec<Block> = Vec::with_capacity(keys.len());
        let mut i: usize = 0;
        while i < keys.len()
            invariant
                i <= keys@.len(),
                keys@.len() == bits@.len(),
                d.0 == self.delta.value(),
                macs@.len() == i,
                forall|j: int| 0 <= j < i ==> (#[trigger] macs@[j]).0 == mac_of(keys@[j].0, bits@[j], d.0),
            decreases keys@.len() - i,
        {
            let k = keys[i];
            let m = if bits[i] { k.xor(d) } else { k };
            macs.push(m);
            i = i + 1;
        }
        Ok(macs)
    }

    /// The MACs on `data` under the keys of `ranges`, in the order of `ranges`.
    pub open spec fn macs_on(&self, ranges: &RangeSet, data: Seq<bool>) -> Seq<Block> {
        let flat = flatten(ranges.spec_ranges());
        Seq::new(flat.len(), |j: int| Block(mac_of(self.key(flat[j]), data[j], self.spec_delta().value())))
    }

    /// The keys of `ranges`, in the order of `ranges`.
    pub open spec fn keys_in(&self, ranges: &RangeSet) -> Seq<Block> {
        self.arena().spec_get_ranges(ranges)
    }

    /// Returns the MACs on `data` under the keys of `ranges`, in the order of
    /// `ranges`, and marks the keys used.
    pub fn authenticate_ranges(&mut self, ranges: &RangeSet, data: &Vec<bool>) -> (r: Result<Vec<Block>, KeyStoreError>)
        requires
            old(self).wf(),
            ranges.wf(),
            data@.len() == ranges.spec_len(),
        ensures
            final(self).wf(),
            final(self).arena() == old(self).arena(),
            final(self).spec_delta() == old(self).spec_delta(),
            match r {
                Ok(macs) => {
                    &&& ranges@.subset_of(old(self).arena().initialized())
                    &&& ranges@.disjoint(old(self).used())
                    &&& final(self).used() == old(self).used().union(ranges@)
                    &&& macs@ == old(self).macs_on(ranges, data@)
                },
                Err(KeyStoreError::AlreadyAssigned(_)) => !ranges@.disjoint(old(self).used()) && final(self).used() == old(self).used(),
                Err(KeyStoreError::InvalidSlice(_)) => !ranges@.subset_of(old(self).arena().initialized()) && final(self).used() == old(self).used(),
                Err(KeyStoreError::Uninit(_)) => !ranges@.subset_of(old(self).arena().initialized()) && final(self).used() == old(self).used(),
                _ => false,
            },
    {
        let keys = self.take_ranges(ranges)?;
        proof {
            lemma_flatten(ranges.spec_ranges());
        }
        let d = self.delta.as_block();
        let mut macs: Vec<Block> = Vec::with_capacity(keys.len());
        let mut i: usize = 0;
        while i < keys.len()
            invariant
                i <= keys@.len(),
                keys@ == old(self).keys_in(ranges),
                keys@.len() == data@.len(),
                d.0 == old(self).spec_delta().value(),
                macs@ == old(self).macs_on(ranges, data@).subrange(0, i as int),
            decreases keys@.len() - i,
        {
            let k = keys[i];
            let m = if data[i] { k.xor(d) } else { k };
            macs.push(m);
            assert(macs@ =~= old(self).macs_on(ranges, data@).subrange(0, i + 1));
            i = i + 1;
        }
        assert(old(self).macs_on(ranges, data@).subrange(0, i as int) =~= old(self).macs_on(ranges, data@));
        Ok(macs)
    }

    /// Returns the keys of `ranges`, in the order of `ranges`, if they are all set.
    pub fn try_get_ranges(&self, ranges: &RangeSet) -> (r: Result<Vec<Block>, KeyStoreError>)
        requires
            self.wf(),
            ranges.wf(),
        ensures
            match r {
                Ok(v) => ranges@.subset_of(self.arena().initialized()) && v@ == self.keys_in(ranges),
                Err(KeyStoreError::InvalidSlice(_)) => !ranges@.subset_of(self.arena().initialized()),
                Err(KeyStoreError::Uninit(_)) => !ranges@.subset_of(self.arena().initialized()),
                _ => false,
            },
    {
        match self.keys.try_get_ranges(ranges) {
            Ok(v) => Ok(v),
            Err(e) => Err(KeyStoreError::from_store(e)),
        }
    }

    /// Returns the keys of `ranges`, in the order of `ranges`, for a correlated
    /// oblivious transfer, and marks them used.
    pub fn oblivious_transfer_ranges(&mut self, ranges: &RangeSet) -> (r: Result<Vec<Block>, KeyStoreError>)
        requires
            old(self).wf(),
            ranges.wf(),
        ensures
            final(self).wf(),
            final(self).arena() == old(self).arena(),
            final(self).spec_delta() == old(self).spec_delta(),
            match r {
                Ok(keys) => {
                    &&& ranges@.subset_of(old(self).arena().initialized())
                    &&& ranges@.disjoint(old(self).used())
                    &&& final(self).used() == old(self).used().union(ranges@)
                    &&& keys@ == old(self).keys_in(ranges)
                },
                Err(KeyStoreError::AlreadyAssigned(_)) => !ranges@.disjoint(old(self).used()) && final(self).used() == old(self).used(),
                Err(KeyStoreError::InvalidSlice(_)) => !ranges@.subset_of(old(self).arena().initialized()) && final(self).used() == old(self).used(),
                Err(KeyStoreError::Uninit(_)) => !ranges@.subset_of(old(self).arena().initialized()) && final(self).used() == old(self).used(),
                _ => false,
            },
    {
        self.take_ranges(ranges)
    }

    /// Derandomizes the keys of `ranges`, which must be set and unused: each key
    /// `K` with adjustment bit `d` becomes `K ^ (d * Δ)` with its pointer bit
    /// cleared, and the keys are marked used.
    pub fn derandomize_ranges(&mut self, ranges: &RangeSet, bits: &Vec<bool>) -> (r: Result<(), KeyStoreError>)
        requires
            old(self).wf(),
            ranges.wf(),
            bits@.len() == ranges.spec_len(),
        ensures
            final(self).wf(),
            final(self).spec_delta() == old(self).spec_delta(),
            final(self).arena().initialized() == old(self).arena().initialized(),
            final(self).arena().values().len() == old(self).arena().values().len(),
            r.is_ok() == (ranges@.subset_of(old(self).arena().initialized()) && ranges@.disjoint(old(self).used())),
            r.is_ok() ==> final(self).used() == old(self).used().union(ranges@),
            r.is_err() ==> final(self).used() == old(self).used(),
            r.is_ok() ==> forall|j: int| 0 <= j < bits@.len() ==> (#[trigger] final(self).keys_in(ranges)[j]).0
                == (if bits@[j] { old(self).keys_in(ranges)[j].0 ^ old(self).spec_delta().value() } else { old(self).keys_in(ranges)[j].0 }) & MINUS_ONE,
    {
        let keys = match self.take_ranges(ranges) {
            Ok(k) => k,
            Err(e) => {
                return Err(e);
            },
        };
        proof {
            lemma_flatten(ranges.spec_ranges());
        }
        let d = self.delta.as_block();
        let mut new: Vec<Block> = Vec::with_capacity(keys.len());
        let mut i: usize = 0;
        while i < keys.len()
            invariant
                i <= keys@.len(),
                keys@.len() == bits@.len(),
                new@.len() == i,
                forall|j: int| 0 <= j < i ==> (#[trigger] new@[j]).0 == (if bits@[j] { keys@[j].0 ^ d.0 } else { keys@[j].0 }) & MINUS_ONE,
            decreases keys@.len() - i,
        {
            let k = if bits[i] { keys[i].xor(d) } else { keys[i] };
            new.push(Block(k.0 & MINUS_ONE));
            i = i + 1;
        }
        let res = self.keys.try_replace_ranges(ranges, &new);
        assert(res.is_ok());
        Ok(())
    }

    fn take_ranges(&mut self, ranges: &RangeSet) -> (r: Result<Vec<Block>, KeyStoreError>)
        requires
            old(self).wf(),
            ranges.wf(),
        ensures
            final(self).wf(),
            final(self).keys == old(self).keys,
            final(self).delta == old(self).delta,
            match r {
                Ok(keys) => {
                    &&& ranges@.subset_of(old(self).arena().initialized())
                    &&& ranges@.disjoint(old(self).used())
                    &&& final(self).used() == old(self).used().union(ranges@)
                    &&& keys@ == old(self).keys_in(ranges)
                    &&& keys@.len() == ranges.spec_len()
                },
                Err(KeyStoreError::AlreadyAssigned(_)) => !ranges@.disjoint(old(self).used()) && final(self).used() == old(self).used(),
                Err(KeyStoreError::InvalidSlice(_)) => !ranges@.subset_of(old(self).arena().initialized()) && final(self).used() == old(self).used(),
                Err(KeyStoreError::Uninit(_)) => !ranges@.subset_of(old(self).arena().initialized()) && final(self).used() == old(self).used(),
                _ => false,
            },
    {
        let keys = match self.keys.try_get_ranges(ranges) {
            Ok(k) => k,
            Err(e) => {
                return Err(KeyStoreError::from_store(e));
            },
        };
        let rs = ranges.iter_ranges();
        let ghost s = ranges.spec_ranges();
        let mut i: usize = 0;
        while i < rs.len()
            invariant
                i <= s.len(),
                rs@ == s,
                s == ranges.spec_ranges(),
                ranges.wf(),
                self.wf(),
                forall|j: int| 0 <= j < i ==> range_set((#[trigger] s[j]).0 as int, s[j].1 as int).disjoint(self.used()),
            decreases s.len() - i,
        {
            let (a, b) = rs[i];
            let slice = Slice::from_range_unchecked(a, b);
            assert(slice.indices() =~= range_set(a as int, b as int));
            if self.is_used(slice) {
                proof {
                    let k = choose|k: int| slice.indices().contains(k) && self.used().contains(k);
                    assert(s[i as int].0 <= k < s[i as int].1);
                    assert(ranges@.contains(k));
                }
                return Err(KeyStoreError::AlreadyAssigned(slice));
            }
            i = i + 1;
        }
        assert(ranges@.disjoint(self.used())) by {
            assert forall|k: int| ranges@.contains(k) implies !self.used().contains(k) by {
                let j = choose|j: int| 0 <= j < s.len() && (#[trigger] s[j]).0 <= k < s[j].1;
                assert(range_set(s[j].0 as int, s[j].1 as int).contains(k));
            }
        }
        proof {
            lemma_flatten(ranges.spec_ranges());
        }
        self.used = self.used.union(ranges);
        Ok(keys)
    }

    /// Returns the keys of `slice` for a correlated oblivious transfer, and marks them used.
    pub fn oblivious_transfer(&mut self, slice: Slice) -> (r: Result<Vec<Block>, KeyStoreError>)
        requires
            old(self).wf(),
        ensures
            final(self).wf(),
            final(self).arena() == old(self).arena(),
            final(self).spec_delta() == old(self).spec_delta(),
            match r {
                Ok(keys) => {
                    &&& old(self).arena().in_bounds(slice)
                    &&& old(self).arena().spec_is_set(slice)
                    &&& slice.indices().disjoint(old(self).used())
                    &&& final(self).used() == old(self).used().union(slice.indices())
                    &&& keys@ == old(self).arena().spec_get(slice)
                },
                Err(e) => final(self).used() == old(self).used() && old(self).assign_error(slice, e),
            },
    {
        self.take_keys(slice)
    }

    /// Why assigning `slice` fails with `e`: the first of bounds, use and initialization that fails.
    pub open spec fn assign_error(&self, slice: Slice, e: KeyStoreError) -> bool {
        match e {
            KeyStoreError::InvalidSlice(s) => s == slice && !self.arena().in_bounds(slice),
            KeyStoreError::AlreadyAssigned(s) => {
                &&& s == slice
                &&& self.arena().in_bounds(slice)
                &&& !slice.indices().disjoint(self.used())
            },
            KeyStoreError::Uninit(s) => {
                &&& s == slice
                &&& self.arena().in_bounds(slice)
                &&& slice.indices().disjoint(self.used())
                &&& !self.arena().spec_is_set(slice)
            },
            _ => false,
        }
    }

    fn take_keys(&mut self, slice: Slice) -> (r: Result<Vec<Block>, KeyStoreError>)
        requires
            old(self).wf(),
        ensures
            final(self).wf(),
            final(self).keys == old(self).keys,
            final(self).delta == old(self).delta,
            match r {
                Ok(keys) => {
                    &&& old(self).arena().in_bounds(slice)
                    &&& old(self).arena().spec_is_set(slice)
                    &&& slice.indices().disjoint(old(self).used())
                    &&& final(self).used() == old(self).used().union(slice.indices())
                    &&& keys@ == old(self).arena().spec_get(slice)
                },
                Err(e) => final(self).used() == old(self).used() && old(self).assign_error(slice, e),
            },
    {
        if slice.ptr.0 > self.keys.len() || slice.size > self.keys.len() - slice.ptr.0 {
            return Err(KeyStoreError::InvalidSlice(slice));
        }
        if self.is_used(slice) {
            return Err(KeyStoreError::AlreadyAssigned(slice));
        }
        let keys = match self.keys.try_get(slice) {
            Ok(k) => k,
            Err(_) => {
                return Err(KeyStoreError::Uninit(slice));
            },
        };
        self.used = self.used.union_range(slice.ptr.0, slice.ptr.0 + slice.size);
        Ok(keys)
    }

    /// XORs `adjust[i]` into the pointer bit of the `i`-th key of `slice`.
    pub fn adjust(&mut self, slice: Slice, adjust: &[bool]) -> (r: Result<(), KeyStoreError>)
        requires
            old(self).wf(),
            adjust@.len() == slice.size,
        ensures
            final(self).wf(),
            final(self).used() == old(self).used(),
            final(self).spec_delta() == old(self).spec_delta(),
            final(self).arena().initialized() == old(self).arena().initialized(),
            match r {
                Ok(()) => {
                    &&& old(self).arena().in_bounds(slice)
                    &&& old(self).arena().spec_is_set(slice)
                    &&& final(self).arena().values().len() == old(self).arena().values().len()
                    &&& forall|i: int| 0 <= i < old(self).arena().values().len() ==> (#[trigger] final(self).key(i)) == if slice.start() <= i < slice.end() {
                        old(self).key(i) ^ (if adjust@[i - slice.start()] { 1u128 } else { 0u128 })
                    } else {
                        old(self).key(i)
                    }
                },
                Err(KeyStoreError::InvalidSlice(s)) => s == slice && !old(self).arena().in_bounds(slice) && final(self).arena() == old(self).arena(),
                Err(KeyStoreError::Uninit(s)) => {
                    &&& s == slice
                    &&& old(self).arena().in_bounds(slice)
                    &&& !old(self).arena().spec_is_set(slice)
                    &&& final(self).arena() == old(self).arena()
                },
                _ => false,
            },
    {
        let keys = match self.keys.try_get(slice) {
            Ok(k) => k,
            Err(e) => {
                return Err(KeyStoreError::from_store(e));
            },
        };
        let adjusted = xor_pointer_bits(&keys, adjust);
        let res = self.keys.try_replace(slice, &adjusted);
        assert(res.is_ok());
        proof {
            assert forall|i: int| 0 <= i < old(self).arena().values().len() implies (#[trigger] self.key(i)) == if slice.start() <= i < slice.end() {
                old(self).key(i) ^ (if adjust@[i - slice.start()] { 1u128 } else { 0u128 })
            } else {
                old(self).key(i)
            } by {
                if slice.start() <= i < slice.end() {
                    assert(keys@[i - slice.start()] == old(self).arena().values()[i]);
                }
            }
        }
        Ok(())
    }

    /// Checks a proof of knowledge of MACs, and recovers the authenticated bits.
    ///
    /// `bits` holds the MAC pointer bits `m_i`, in the order of `ranges`. For each
    /// key `K_i` the bit is `x_i = LSB(K_i) ^ m_i` and the MAC is `K_i ^ (x_i * Δ)`.
    /// The proof must be the BLAKE3 digest of those MACs' encodings. On success
    /// `bits` is overwritten with the `x_i`.
    pub fn verify(&self, ranges: &RangeSet, bits: &mut Vec<bool>, proof: [u8; 32]) -> (r: Result<(), KeyStoreError>)
        requires
            self.wf(),
            ranges.wf(),
            old(bits)@.len() == ranges.spec_len(),
        ensures
            match r {
                Ok(()) => {
                    &&& ranges@.subset_of(self.arena().initialized())
                    &&& proof@ == blake3_digest(blocks_bytes(self.expected_macs(ranges, old(bits)@)))
                    &&& final(bits)@ == self.recovered_bits(ranges, old(bits)@)
                },
                Err(KeyStoreError::Verify) => {
                    &&& ranges@.subset_of(self.arena().initialized())
                    &&& proof@ != blake3_digest(blocks_bytes(self.expected_macs(ranges, old(bits)@)))
                    &&& final(bits)@ == old(bits)@
                },
                Err(KeyStoreError::InvalidSlice(_)) => !ranges@.subset_of(self.arena().initialized()) && final(bits)@ == old(bits)@,
                Err(KeyStoreError::Uninit(_)) => !ranges@.subset_of(self.arena().initialized()) && final(bits)@ == old(bits)@,
                _ => false,
            },
    {
        match self.keys.check_ranges(ranges) {
            Ok(()) => {},
            Err(e) => {
                return Err(KeyStoreError::from_store(e));
            },
        }
        let idx = ranges.indices();
        let ghost flat = flatten(ranges.spec_ranges());
        proof {
            lemma_flatten(ranges.spec_ranges());
        }
        let d = self.delta.as_block();
        let mut data: Vec<bool> = Vec::with_capacity(idx.len());
        let mut bytes: Vec<u8> = Vec::new();
        let mut i: usize = 0;
        while i < idx.len()
            invariant
                self.wf(),
                ranges.wf(),
                i <= idx@.len(),
                idx@.len() == flat.len(),
                flat == flatten(ranges.spec_ranges()),
                flat.len() == bits@.len(),
                bits@ == old(bits)@,
                forall|j: int| 0 <= j < idx@.len() ==> idx@[j] as int == #[trigger] flat[j],
                forall|j: int| 0 <= j < flat.len() ==> ranges@.contains(#[trigger] flat[j]),
                ranges@.subset_of(self.arena().initialized()),
                d.0 == self.spec_delta().value(),
                data@ == self.recovered_bits(ranges, old(bits)@).subrange(0, i as int),
                bytes@ == blocks_bytes(self.expected_macs(ranges, old(bits)@).subrange(0, i as int)),
            decreases idx@.len() - i,
        {
            let k_idx = idx[i];
            proof {
                assert(ranges@.contains(flat[i as int]));
                self.keys.lemma_initialized_in_bounds(k_idx as int);
            }
            let key = self.keys.get(k_idx);
            let value = key.lsb() != bits[i];
            let expected = if value { key.xor(d) } else { key };
            data.push(value);
            push_block_bytes(&mut bytes, expected);
            proof {
                let em = self.expected_macs(ranges, old(bits)@);
                assert(em[i as int].0 == expected.0);
                assert(em.subrange(0, i + 1).drop_last() =~= em.subrange(0, i as int));
                assert(em.subrange(0, i + 1).last() == em[i as int]);
                assert(data@ =~= self.recovered_bits(ranges, old(bits)@).subrange(0, i + 1));
            }
            i = i + 1;
        }
        proof {
            assert(self.recovered_bits(ranges, old(bits)@).subrange(0, i as int) =~= self.recovered_bits(ranges, old(bits)@));
            assert(self.expected_macs(ranges, old(bits)@).subrange(0, i as int) =~= self.expected_macs(ranges, old(bits)@));
        }
        let digest = hash(bytes.as_slice());
        if !bytes_eq32(&digest, &proof) {
            return Err(KeyStoreError::Verify);
        }
        *bits = data;
        Ok(())
    }

    /// The MACs that the claimed pointer bits `bits` stand for, in the order of `ranges`.
    pub open spec fn expected_macs(&self, ranges: &RangeSet, bits: Seq<bool>) -> Seq<Block> {
        let flat = flatten(ranges.spec_ranges());
        Seq::new(flat.len(), |j: int| {
            let k = self.key(flat[j]);
            Block(mac_of(k, lsb(k) != bits[j], self.spec_delta().value()))
        })
    }

    /// The bits `LSB(K_i) ^ m_i` that the claimed pointer bits `bits` stand for.
    pub open spec fn recovered_bits(&self, ranges: &RangeSet, bits: Seq<bool>) -> Seq<bool> {
        let flat = flatten(ranges.spec_ranges());
        Seq::new(flat.len(), |j: int| lsb(self.key(flat[j])) != bits[j])
    }
}

/// Error of a [`MacStore`].
#[derive(Clone, Copy, Debug, PartialEq, Eq, Structural)]
pub enum MacStoreError {
    /// The slice reaches past the end of the store.
    InvalidSlice(Slice),
    /// Some MAC of the slice is not set.
    Uninit(Slice),
    /// Some MAC of the slice is already set.
    AlreadySet(Slice),
    /// Some MAC of the slice is already assigned.
    AlreadyAssigned(Slice),
    /// A MAC proof does not match.
    Verify,
}

impl MacStoreError {
    /// Maps an arena error to the same kind of MAC-store error.
    pub fn from_store(err: StoreError) -> (r: MacStoreError)
        ensures
            r == match err {
                StoreError::InvalidSlice(s) => MacStoreError::InvalidSlice(s),
                StoreError::Uninit(s) => MacStoreError::Uninit(s),
                StoreError::AlreadySet(s) => MacStoreError::AlreadySet(s),
            },
    {
        match err {
            StoreError::InvalidSlice(s) => MacStoreError::InvalidSlice(s),
            StoreError::Uninit(s) => MacStoreError::Uninit(s),
            StoreError::AlreadySet(s) => MacStoreError::AlreadySet(s),
        }
    }
}

/// A linear store of MACs.
#[derive(Debug)]
pub struct MacStore {
    macs: Store<Block>,
}

impl MacStore {
    /// The MAC arena.
    pub closed spec fn arena(&self) -> Store<Block> {
        self.macs
    }

    /// The store's invariant.
    pub closed spec fn wf(&self) -> bool {
        self.macs.wf()
    }

    /// A well-formed MAC store has a well-formed arena.
    pub proof fn lemma_arena_wf(&self)
        requires
            self.wf(),
        ensures
            self.arena().wf(),
    {
    }

    /// The MAC at index `i`.
    pub open spec fn mac(&self, i: int) -> u128 {
        self.arena().values()[i].0
    }

    /// Creates an empty MAC store.
    pub fn new() -> (r: MacStore)
        ensures
            r.wf(),
            r.arena().values().len() == 0,
            r.arena().initialized() == Set::<int>::empty(),
    {
        MacStore { macs: Store::new() }
    }

    /// Creates an empty MAC store with room for `capacity` MACs.
    pub fn with_capacity(capacity: usize) -> (r: MacStore)
        ensures
            r.wf(),
            r.arena().values().len() == 0,
            r.arena().initialized() == Set::<int>::empty(),
    {
        MacStore { macs: Store::with_capacity(capacity) }
    }

    /// Returns whether all the MACs of `slice` are set.
    pub fn is_set(&self, slice: Slice) -> (r: bool)
        requires
            self.wf(),
        ensures
            r == self.arena().spec_is_set(slice),
    {
        self.macs.is_set(slice)
    }

    /// Allocates `len` unset MACs.
    pub fn allocate(&mut self, len: usize) -> (r: Slice)
        requires
            old(self).wf(),
            old(self).arena().values().len() + len <= usize::MAX,
        ensures
            final(self).wf(),
            r.start() == old(self).arena().values().len(),
            r.size == len,
            final(self).arena().values().len() == old(self).arena().values().len() + len,
            final(self).arena().values().subrange(0, r.start()) == old(self).arena().values(),
            final(self).arena().initialized() == old(self).arena().initialized(),
    {
        self.macs.alloc_filled(len, Block(0))
    }

    /// Allocates set MACs holding `macs`.
    pub fn alloc_with(&mut self, macs: &[Block]) -> (r: Slice)
        requires
            old(self).wf(),
            old(self).arena().values().len() + macs@.len() <= usize::MAX,
        ensures
            final(self).wf(),
            r.start() == old(self).arena().values().len(),
            r.size == macs@.len(),
            final(self).arena().values() == old(self).arena().values() + macs@,
            final(self).arena().initialized() == old(self).arena().initialized().union(r.indices()),
    {
        self.macs.alloc_with(macs)
    }

    /// Returns the MACs of `slice` if they are all set.
    pub fn try_get(&self, slice: Slice) -> (r: Result<Vec<Block>, MacStoreError>)
        requires
            self.wf(),
        ensures
            match r {
                Ok(v) => self.arena().in_bounds(slice) && self.arena().spec_is_set(slice) && v@ == self.arena().spec_get(slice),
                Err(MacStoreError::InvalidSlice(s)) => s == slice && !self.arena().in_bounds(slice),
                Err(MacStoreError::Uninit(s)) => s == slice && self.arena().in_bounds(slice) && !self.arena().spec_is_set(slice),
                _ => false,
            },
    {
        match self.macs.try_get(slice) {
            Ok(v) => Ok(v),
            Err(e) => Err(MacStoreError::from_store(e)),
        }
    }

    /// Sets the MACs of `slice` if none of them is set.
    pub fn try_set(&mut self, slice: Slice, macs: &[Block]) -> (r: Result<(), MacStoreError>)
        requires
            old(self).wf(),
            macs@.len() == slice.size,
        ensures
            final(self).wf(),
            final(self).arena().values().len() == old(self).arena().values().len(),
            match r {
                Ok(()) => {
                    &&& old(self).arena().in_bounds(slice)
                    &&& slice.indices().disjoint(old(self).arena().initialized())
                    &&& final(self).arena().values() == old(self).arena().values().update_subrange_with(slice.start(), macs@)
                    &&& final(self).arena().initialized() == old(self).arena().initialized().union(slice.indices())
                },
                Err(MacStoreError::InvalidSlice(s)) => s == slice && !old(self).arena().in_bounds(slice) && final(self).arena() == old(self).arena(),
                Err(MacStoreError::AlreadySet(s)) => {
                    &&& s == slice
                    &&& old(self).arena().in_bounds(slice)
                    &&& !slice.indices().disjoint(old(self).arena().initialized())
                    &&& final(self).arena() == old(self).arena()
                },
                _ => false,
            },
    {
        match self.macs.try_set(slice, macs) {
            Ok(()) => Ok(()),
            Err(e) => Err(MacStoreError::from_store(e)),
        }
    }

    /// Returns the pointer bits of the MACs of `slice` if they are all set.
    pub fn try_get_bits(&self, slice: Slice) -> (r: Result<Vec<bool>, MacStoreError>)
        requires
            self.wf(),
        ensures
            match r {
                Ok(v) => {
                    &&& self.arena().in_bounds(slice)
                    &&& self.arena().spec_is_set(slice)
                    &&& v@.len() == slice.size
                    &&& forall|i: int| 0 <= i < slice.size ==> v@[i] == lsb(#[trigger] self.mac(slice.start() + i))
                },
                Err(MacStoreError::InvalidSlice(s)) => s == slice && !self.arena().in_bounds(slice),
                Err(MacStoreError::Uninit(s)) => s == slice && self.arena().in_bounds(slice) && !self.arena().spec_is_set(slice),
                _ => false,
            },
    {
        let macs = self.try_get(slice)?;
        let bits = pointer_bits(&macs);
        assert forall|i: int| 0 <= i < slice.size implies bits@[i] == lsb(#[trigger] self.mac(slice.start() + i)) by {
            assert(macs@[i] == self.arena().values()[slice.start() + i]);
        }
        Ok(bits)
    }

    /// XORs `adjust[i]` into the pointer bit of the `i`-th MAC of `slice`.
    pub fn try_adjust(&mut self, slice: Slice, adjust: &[bool]) -> (r: Result<(), MacStoreError>)
        requires
            old(self).wf(),
            adjust@.len() == slice.size,
        ensures
            final(self).wf(),
            final(self).arena().initialized() == old(self).arena().initialized(),
            match r {
                Ok(()) => {
                    &&& old(self).arena().in_bounds(slice)
                    &&& old(self).arena().spec_is_set(slice)
                    &&& final(self).arena().values().len() == old(self).arena().values().len()
                    &&& forall|i: int| 0 <= i < old(self).arena().values().len() ==> (#[trigger] final(self).mac(i)) == if slice.start() <= i < slice.end() {
                        old(self).mac(i) ^ (if adjust@[i - slice.start()] { 1u128 } else { 0u128 })
                    } else {
                        old(self).mac(i)
                    }
                },
                Err(MacStoreError::InvalidSlice(s)) => s == slice && !old(self).arena().in_bounds(slice) && final(self).arena() == old(self).arena(),
                Err(MacStoreError::Uninit(s)) => {
                    &&& s == slice
                    &&& old(self).arena().in_bounds(slice)
                    &&& !old(self).arena().spec_is_set(slice)
                    &&& final(self).arena() == old(self).arena()
                },
                _ => false,
            },
    {
        let macs = match self.macs.try_get(slice) {
            Ok(m) => m,
            Err(e) => {
                return Err(MacStoreError::from_store(e));
            },
        };
        let adjusted = xor_pointer_bits(&macs, adjust);
        let res = self.macs.try_replace(slice, &adjusted);
        assert(res.is_ok());
        proof {
            assert forall|i: int| 0 <= i < old(self).arena().values().len() implies (#[trigger] self.mac(i)) == if slice.start() <= i < slice.end() {
                old(self).mac(i) ^ (if adjust@[i - slice.start()] { 1u128 } else { 0u128 })
            } else {
                old(self).mac(i)
            } by {
                if slice.start() <= i < slice.end() {
                    assert(macs@[i - slice.start()] == old(self).arena().values()[i]);
                }
            }
        }
        Ok(())
    }

    /// Checks, without writing, that the indices of `ranges` are inside the store
    /// and none of their MACs is set.
    pub fn check_unset_ranges(&self, ranges: &RangeSet) -> (r: Result<(), MacStoreError>)
        requires
            self.wf(),
            ranges.wf(),
        ensures
            r.is_ok() == (ranges@.subset_of(range_set(0, self.arena().values().len() as int)) && ranges@.disjoint(self.arena().initialized())),
    {
        match self.macs.check_unset_ranges(ranges) {
            Ok(()) => Ok(()),
            Err(e) => Err(MacStoreError::from_store(e)),
        }
    }

    /// Sets `macs` at the indices of `ranges`, in the order of `ranges`, if they
    /// are inside the store and none of them is set.
    pub fn try_set_ranges(&mut self, ranges: &RangeSet, macs: &Vec<Block>) -> (r: Result<(), MacStoreError>)
        requires
            old(self).wf(),
            ranges.wf(),
            macs@.len() == ranges.spec_len(),
        ensures
            final(self).wf(),
            r.is_err() ==> final(self).arena() == old(self).arena(),
            r.is_ok() == (ranges@.subset_of(range_set(0, old(self).arena().values().len() as int)) && ranges@.disjoint(old(self).arena().initialized())),
            r.is_ok() ==> final(self).arena().initialized() == old(self).arena().initialized().union(ranges@),
            r.is_ok() ==> final(self).arena().spec_get_ranges(ranges) == macs@,
            r.is_ok() ==> final(self).arena().values().len() == old(self).arena().values().len(),
            r.is_ok() ==> forall|k: int| 0 <= k < old(self).arena().values().len() && !ranges@.contains(k) ==> #[trigger] final(self).arena().values()[k] == old(self).arena().values()[k],
    {
        match self.macs.try_set_ranges(ranges, macs) {
            Ok(()) => Ok(()),
            Err(e) => Err(MacStoreError::from_store(e)),
        }
    }

    /// Sets the pointer bit of each MAC of `ranges`, in the order of `ranges`, to
    /// the matching bit of `bits`.
    pub fn set_pointer_bits_ranges(&mut self, ranges: &RangeSet, bits: &Vec<bool>) -> (r: Result<(), MacStoreError>)
        requires
            old(self).wf(),
            ranges.wf(),
            bits@.len() == ranges.spec_len(),
        ensures
            final(self).wf(),
            final(self).arena().initialized() == old(self).arena().initialized(),
            final(self).arena().values().len() == old(self).arena().values().len(),
            r.is_ok() == ranges@.subset_of(old(self).arena().initialized()),
            r.is_ok() ==> forall|j: int| 0 <= j < bits@.len() ==> (#[trigger] final(self).macs_in(ranges)[j]).0
                == (old(self).macs_in(ranges)[j].0 & MINUS_ONE) ^ (if bits@[j] { 1u128 } else { 0u128 }),
    {
        let macs = match self.macs.try_get_ranges(ranges) {
            Ok(m) => m,
            Err(e) => {
                return Err(MacStoreError::from_store(e));
            },
        };
        proof {
            lemma_flatten(ranges.spec_ranges());
            assert(macs@ =~= self.macs_in(ranges));
        }
        let mut new: Vec<Block> = Vec::with_capacity(macs.len());
        let mut i: usize = 0;
        while i < macs.len()
            invariant
                i <= macs@.len(),
                macs@.len() == bits@.len(),
                new@.len() == i,
                forall|j: int| 0 <= j < i ==> (#[trigger] new@[j]).0 == (macs@[j].0 & MINUS_ONE) ^ (if bits@[j] { 1u128 } else { 0u128 }),
            decreases macs@.len() - i,
        {
            new.push(Block((macs[i].0 & MINUS_ONE) ^ (if bits[i] { 1u128 } else { 0u128 })));
            i = i + 1;
        }
        let res = self.macs.try_replace_ranges(ranges, &new);
        assert(res.is_ok());
        proof {
            assert forall|j: int| 0 <= j < bits@.len() implies (#[trigger] self.macs_in(ranges)[j]).0
                == (old(self).macs_in(ranges)[j].0 & MINUS_ONE) ^ (if bits@[j] { 1u128 } else { 0u128 }) by {
                assert(self.macs_in(ranges)[j] == self.macs.spec_get_ranges(ranges)[j]);
            }
        }
        Ok(())
    }

    /// The MACs that `ranges` covers, in the order of `ranges`.
    pub open spec fn macs_in(&self, ranges: &RangeSet) -> Seq<Block> {
        let flat = flatten(ranges.spec_ranges());
        Seq::new(flat.len(), |j: int| self.arena().values()[flat[j]])
    }

    /// Proves knowledge of the MACs that `ranges` covers: returns their pointer bits,
    /// in the order of `ranges`, and the BLAKE3 digest of their encodings.
    pub fn prove(&self, ranges: &RangeSet) -> (r: Result<(Vec<bool>, [u8; 32]), MacStoreError>)
        requires
            self.wf(),
            ranges.wf(),
        ensures
            match r {
                Ok((bits, digest)) => {
                    &&& ranges@.subset_of(self.arena().initialized())
                    &&& bits@.len() == self.macs_in(ranges).len()
                    &&& forall|j: int| 0 <= j < bits@.len() ==> bits@[j] == lsb(#[trigger] self.macs_in(ranges)[j].0)
                    &&& digest@ == blake3_digest(blocks_bytes(self.macs_in(ranges)))
                },
                Err(MacStoreError::InvalidSlice(_)) => !ranges@.subset_of(self.arena().initialized()),
                Err(MacStoreError::Uninit(_)) => !ranges@.subset_of(self.arena().initialized()),
                _ => false,
            },
    {
        match self.macs.check_ranges(ranges) {
            Ok(()) => {},
            Err(e) => {
                return Err(MacStoreError::from_store(e));
            },
        }
        let idx = ranges.indices();
        let ghost flat = flatten(ranges.spec_ranges());
        proof {
            lemma_flatten(ranges.spec_ranges());
        }
        let mut bits: Vec<bool> = Vec::with_capacity(idx.len());
        let mut bytes: Vec<u8> = Vec::new();
        let mut i: usize = 0;
        while i < idx.len()
            invariant
                self.wf(),
                ranges.wf(),
                i <= idx@.len(),
                idx@.len() == flat.len(),
                flat == flatten(ranges.spec_ranges()),
                forall|j: int| 0 <= j < idx@.len() ==> idx@[j] as int == #[trigger] flat[j],
                forall|j: int| 0 <= j < flat.len() ==> ranges@.contains(#[trigger] flat[j]),
                ranges@.subset_of(self.arena().initialized()),
                bits@.len() == i,
                forall|j: int| 0 <= j < i ==> bits@[j] == lsb(#[trigger] self.macs_in(ranges)[j].0),
                bytes@ == blocks_bytes(self.macs_in(ranges).subrange(0, i as int)),
            decreases idx@.len() - i,
        {
            let k_idx = idx[i];
            proof {
                assert(ranges@.contains(flat[i as int]));
                self.macs.lemma_initialized_in_bounds(k_idx as int);
            }
            let mac = self.macs.get(k_idx);
            bits.push(mac.lsb());
            push_block_bytes(&mut bytes, mac);
            proof {
                let ms = self.macs_in(ranges);
                assert(ms[i as int] == mac);
                assert(ms.subrange(0, i + 1).drop_last() =~= ms.subrange(0, i as int));
                assert(ms.subrange(0, i + 1).last() == ms[i as int]);
            }
            i = i + 1;
        }
        assert(self.macs_in(ranges).subrange(0, i as int) =~= self.macs_in(ranges));
        let digest = hash(bytes.as_slice());
        Ok((bits, digest))
    }
}

/// The pointer bits of the MACs that `ranges` covers, in the order of `ranges`.
pub open spec fn mac_pointer_bits(macs: &MacStore, ranges: &RangeSet) -> Seq<bool> {
    Seq::new(macs.macs_in(ranges).len(), |j: int| lsb(macs.macs_in(ranges)[j].0))
}

/// A proof made over MACs that match the keys passes verification and recovers
/// the authenticated bits: when each MAC that `ranges` covers is `K ^ (x * Δ)`
/// for its key `K` and bit `x`, the MACs the key holder expects from the MAC
/// pointer bits are exactly those MACs, and the bits it recovers are the `x`.
pub proof fn lemma_prove_verify(keys: &KeyStore, macs: &MacStore, ranges: &RangeSet, x: Seq<bool>)
    requires
        lsb(keys.spec_delta().value()),
        ranges.wf(),
        x.len() == flatten(ranges.spec_ranges()).len(),
        forall|j: int| 0 <= j < x.len() ==> #[trigger] macs.mac(flatten(ranges.spec_ranges())[j]) == mac_of(
            keys.key(flatten(ranges.spec_ranges())[j]),
            x[j],
            keys.spec_delta().value(),
        ),
    ensures
        keys.expected_macs(ranges, mac_pointer_bits(macs, ranges)) == macs.macs_in(ranges),
        keys.recovered_bits(ranges, mac_pointer_bits(macs, ranges)) == x,
{
    let flat = flatten(ranges.spec_ranges());
    let d = keys.spec_delta().value();
    let bits = mac_pointer_bits(macs, ranges);
    assert forall|j: int| 0 <= j < flat.len() implies #[trigger] keys.expected_macs(ranges, bits)[j] == macs.macs_in(ranges)[j]
        && keys.recovered_bits(ranges, bits)[j] == x[j] by {
        let k = keys.key(flat[j]);
        assert(macs.mac(flat[j]) == mac_of(k, x[j], d));
        lemma_authenticate_pointer_bit(k, x[j], d);
        assert(bits[j] == lsb(mac_of(k, x[j], d)));
    }
    assert(keys.expected_macs(ranges, bits) =~= macs.macs_in(ranges));
    assert(keys.recovered_bits(ranges, bits) =~= x);
}

/// Decoding does not depend on how indices are grouped: an index decodes to the
/// same bit whichever set of ranges it is decoded with.
pub proof fn lemma_decode_pointwise(keys: &KeyStore, macs: &MacStore, a: &RangeSet, b: &RangeSet, i: int, j: int)
    requires
        a.wf(),
        b.wf(),
        0 <= i < flatten(a.spec_ranges()).len(),
        0 <= j < flatten(b.spec_ranges()).len(),
        flatten(a.spec_ranges())[i] == flatten(b.spec_ranges())[j],
    ensures
        keys.recovered_bits(a, mac_pointer_bits(macs, a))[i] == keys.recovered_bits(b, mac_pointer_bits(macs, b))[j],
        keys.expected_macs(a, mac_pointer_bits(macs, a))[i] == keys.expected_macs(b, mac_pointer_bits(macs, b))[j],
{
}

/// Returns whether two digests are equal.
pub fn bytes_eq32(a: &[u8; 32], b: &[u8; 32]) -> (r: bool)
    ensures
        r == (a@ == b@),
{
    let mut i: usize = 0;
    while i < 32
        invariant
            i <= 32,
            a@.len() == 32,
            b@.len() == 32,
            forall|j: int| 0 <= j < i ==> a@[j] == b@[j],
        decreases 32 - i,
    {
        if a[i] != b[i] {
            return false;
        }
        i = i + 1;
    }
    assert(a@ =~= b@);
    true
}

/// Returns the pointer bits of `blocks`.
pub fn pointer_bits(blocks: &Vec<Block>) -> (r: Vec<bool>)
    ensures
        r@.len() == blocks@.len(),
        forall|i: int| 0 <= i < blocks@.len() ==> r@[i] == lsb(#[trigger] blocks@[i].0),
{
    let mut r: Vec<bool> = Vec::with_capacity(blocks.len());
    let mut i: usize = 0;
    while i < blocks.len()
        invariant
            i <= blocks@.len(),
            r@.len() == i,
            forall|j: int| 0 <= j < i ==> r@[j] == lsb(#[trigger] blocks@[j].0),
        decreases blocks@.len() - i,
    {
        r.push(blocks[i].lsb());
        i = i + 1;
    }
    r
}

/// Returns `blocks` with `bits[i]` XORed into the pointer bit of `blocks[i]`.
pub fn xor_pointer_bits(blocks: &Vec<Block>, bits: &[bool]) -> (r: Vec<Block>)
    requires
        blocks@.len() == bits@.len(),
    ensures
        r@.len() == blocks@.len(),
        forall|i: int| 0 <= i < blocks@.len() ==> (#[trigger] r@[i]).0 == blocks@[i].0 ^ (if bits@[i] { 1u128 } else { 0u128 }),
{
    let mut r: Vec<Block> = Vec::with_capacity(blocks.len());
    let mut i: usize = 0;
    while i < blocks.len()
        invariant
            i <= blocks@.len(),
            blocks@.len() == bits@.len(),
            r@.len() == i,
            forall|j: int| 0 <= j < i ==> (#[trigger] r@[j]).0 == blocks@[j].0 ^ (if bits@[j] { 1u128 } else { 0u128 }),
        decreases blocks@.len() - i,
    {
        let mut b = blocks[i];
        b.xor_lsb(bits[i]);
        r.push(b);
        i = i + 1;
    }
    r
}

} // verus!
