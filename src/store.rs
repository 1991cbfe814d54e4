//! A linear arena of values with a record of which indices are initialized.
use vstd::prelude::*;

use crate::memory::{Ptr, Slice};
use crate::range::{flatten, lemma_flatten, lemma_flatten_complete, lemma_flatten_covered, lemma_flatten_distinct, range_set, RangeSet};

verus! {

/// Error of a [`Store`].
#[derive(Clone, Copy, Debug, PartialEq, Eq, Structural)]
pub enum StoreError {
    /// The slice reaches past the end of the arena.
    InvalidSlice(Slice),
    /// Some index of the slice has not been set.
    Uninit(Slice),
    /// Some index of the slice is already set.
    AlreadySet(Slice),
}

/// A linear arena of values. Indices are allocated in order and set at most once.
#[derive(Debug)]
pub struct Store<T> {
    data: Vec<T>,
    init: RangeSet,
}

impl<T: Copy> Store<T> {
    /// The values of the arena, initialized or not.
    pub closed spec fn values(&self) -> Seq<T> {
        self.data@
    }

    /// The initialized indices.
    pub closed spec fn initialized(&self) -> Set<int> {
        self.init@
    }

    /// The arena's invariant: initialized indices lie inside it.
    pub closed spec fn wf(&self) -> bool {
        &&& self.init.wf()
        &&& self.data@.len() <= usize::MAX
        &&& forall|k: int| #[trigger] self.init@.contains(k) ==> 0 <= k < self.data@.len()
    }

    /// Whether every index of `slice` is inside the arena.
    pub open spec fn in_bounds(&self, slice: Slice) -> bool {
        slice.end() <= self.values().len()
    }

    /// Whether every index of `slice` is initialized.
    pub open spec fn spec_is_set(&self, slice: Slice) -> bool {
        slice.indices().subset_of(self.initialized())
    }

    /// The values that `slice` covers.
    pub open spec fn spec_get(&self, slice: Slice) -> Seq<T> {
        self.values().subrange(slice.start(), slice.end())
    }

    /// Creates an empty arena.
    pub fn new() -> (r: Store<T>)
        ensures
            r.wf(),
            r.values().len() == 0,
            r.initialized() == Set::<int>::empty(),
    {
        Store { data: Vec::new(), init: RangeSet::new() }
    }

    /// Creates an empty arena with room for `capacity` values.
    pub fn with_capacity(capacity: usize) -> (r: Store<T>)
        ensures
            r.wf(),
            r.values().len() == 0,
            r.initialized() == Set::<int>::empty(),
    {
        Store { data: Vec::with_capacity(capacity), init: RangeSet::new() }
    }

    /// Returns the number of allocated indices.
    pub fn len(&self) -> (r: usize)
        ensures
            r == self.values().len(),
    {
        self.data.len()
    }

    /// Returns whether every index of `slice` is initialized.
    pub fn is_set(&self, slice: Slice) -> (r: bool)
        requires
            self.wf(),
        ensures
            r == self.spec_is_set(slice),
    {
        if slice.size == 0 {
            assert(slice.indices() =~= Set::<int>::empty());
            return true;
        }
        if slice.ptr.0 > self.data.len() || slice.size > self.data.len() - slice.ptr.0 {
            assert(slice.indices().contains(slice.end() - 1));
            return false;
        }
        self.init.contains_range(slice.ptr.0, slice.ptr.0 + slice.size)
    }

    /// Returns whether no index of `slice` is initialized.
    pub fn is_unset(&self, slice: Slice) -> (r: bool)
        requires
            self.wf(),
            self.in_bounds(slice),
        ensures
            r == slice.indices().disjoint(self.initialized()),
    {
        let _n = self.data.len();
        self.init.is_disjoint_range(slice.ptr.0, slice.ptr.0 + slice.size)
    }

    /// Appends `len` uninitialized indices.
    pub fn alloc_filled(&mut self, len: usize, fill: T) -> (r: Slice)
        requires
            old(self).wf(),
            old(self).values().len() + len <= usize::MAX,
        ensures
            final(self).wf(),
            r.start() == old(self).values().len(),
            r.size == len,
            final(self).values().len() == old(self).values().len() + len,
            final(self).values().subrange(0, r.start()) == old(self).values(),
            final(self).initialized() == old(self).initialized(),
    {
        let start = self.data.len();
        let mut i: usize = 0;
        while i < len
            invariant
                i <= len,
                self.data@.len() == start + i,
                self.data@.subrange(0, start as int) == old(self).data@,
                self.init == old(self).init,
                start == old(self).data@.len(),
                start + len <= usize::MAX,
            decreases len - i,
        {
            let ghost before = self.data@;
            self.data.push(fill);
            assert(self.data@.subrange(0, start as int) =~= before.subrange(0, start as int));
            i = i + 1;
        }
        Slice { ptr: Ptr(start), size: len }
    }

    /// Appends `values` as initialized indices.
    pub fn alloc_with(&mut self, values: &[T]) -> (r: Slice)
        requires
            old(self).wf(),
            old(self).values().len() + values@.len() <= usize::MAX,
        ensures
            final(self).wf(),
            r.start() == old(self).values().len(),
            r.size == values@.len(),
            final(self).values() == old(self).values() + values@,
            final(self).initialized() == old(self).initialized().union(r.indices()),
    {
        let start = self.data.len();
        let mut i: usize = 0;
        while i < values.len()
            invariant
                i <= values@.len(),
                self.data@ == old(self).data@ + values@.subrange(0, i as int),
                self.init == old(self).init,
                start == old(self).data@.len(),
            decreases values@.len() - i,
        {
            self.data.push(values[i]);
            assert(self.data@ =~= old(self).data@ + values@.subrange(0, i + 1));
            i = i + 1;
        }
        assert(values@.subrange(0, values@.len() as int) =~= values@);
        let r = Slice { ptr: Ptr(start), size: values.len() };
        self.init = self.init.union_range(start, start + values.len());
        r
    }

    /// Returns the values of `slice` if all of them are initialized.
    pub fn try_get(&self, slice: Slice) -> (r: Result<Vec<T>, StoreError>)
        requires
            self.wf(),
        ensures
            match r {
                Ok(v) => self.in_bounds(slice) && self.spec_is_set(slice) && v@ == self.spec_get(slice),
                Err(StoreError::InvalidSlice(s)) => s == slice && !self.in_bounds(slice),
                Err(StoreError::Uninit(s)) => s == slice && self.in_bounds(slice) && !self.spec_is_set(slice),
                Err(StoreError::AlreadySet(_)) => false,
            },
    {
        if slice.ptr.0 > self.data.len() || slice.size > self.data.len() - slice.ptr.0 {
            return Err(StoreError::InvalidSlice(slice));
        }
        if !self.is_set(slice) {
            return Err(StoreError::Uninit(slice));
        }
        let start = slice.ptr.0;
        let mut v: Vec<T> = Vec::with_capacity(slice.size);
        let mut i: usize = 0;
        while i < slice.size
            invariant
                i <= slice.size,
                start + slice.size <= self.data@.len(),
                self.data@.len() <= usize::MAX,
                start == slice.ptr.0,
                v@ == self.data@.subrange(start as int, start + i),
            decreases slice.size - i,
        {
            v.push(self.data[start + i]);
            assert(v@ =~= self.data@.subrange(start as int, start + i + 1));
            i = i + 1;
        }
        Ok(v)
    }

    /// Sets the values of `slice` if none of them is initialized.
    pub fn try_set(&mut self, slice: Slice, values: &[T]) -> (r: Result<(), StoreError>)
        requires
            old(self).wf(),
            values@.len() == slice.size,
        ensures
            final(self).wf(),
            final(self).values().len() == old(self).values().len(),
            match r {
                Ok(()) => {
                    &&& old(self).in_bounds(slice)
                    &&& slice.indices().disjoint(old(self).initialized())
                    &&& final(self).values() == old(self).values().update_subrange_with(slice.start(), values@)
                    &&& final(self).initialized() == old(self).initialized().union(slice.indices())
                },
                Err(StoreError::InvalidSlice(s)) => s == slice && !old(self).in_bounds(slice) && *final(self) == *old(self),
                Err(StoreError::AlreadySet(s)) => {
                    &&& s == slice
                    &&& old(self).in_bounds(slice)
                    &&& !slice.indices().disjoint(old(self).initialized())
                    &&& *final(self) == *old(self)
                },
                Err(StoreError::Uninit(_)) => false,
            },
    {
        if slice.ptr.0 > self.data.len() || slice.size > self.data.len() - slice.ptr.0 {
            return Err(StoreError::InvalidSlice(slice));
        }
        if !self.is_unset(slice) {
            return Err(StoreError::AlreadySet(slice));
        }
        self.write(slice, values);
        self.init = self.init.union_range(slice.ptr.0, slice.ptr.0 + slice.size);
        Ok(())
    }

    /// Replaces the values of `slice` if all of them are initialized.
    pub fn try_replace(&mut self, slice: Slice, values: &[T]) -> (r: Result<(), StoreError>)
        requires
            old(self).wf(),
            values@.len() == slice.size,
        ensures
            final(self).wf(),
            final(self).initialized() == old(self).initialized(),
            match r {
                Ok(()) => {
                    &&& old(self).in_bounds(slice)
                    &&& old(self).spec_is_set(slice)
                    &&& final(self).values() == old(self).values().update_subrange_with(slice.start(), values@)
                },
                Err(StoreError::InvalidSlice(s)) => s == slice && !old(self).in_bounds(slice) && *final(self) == *old(self),
                Err(StoreError::Uninit(s)) => {
                    &&& s == slice
                    &&& old(self).in_bounds(slice)
                    &&& !old(self).spec_is_set(slice)
                    &&& *final(self) == *old(self)
                },
                Err(StoreError::AlreadySet(_)) => false,
            },
    {
        if slice.ptr.0 > self.data.len() || slice.size > self.data.len() - slice.ptr.0 {
            return Err(StoreError::InvalidSlice(slice));
        }
        if !self.is_set(slice) {
            return Err(StoreError::Uninit(slice));
        }
        self.write(slice, values);
        Ok(())
    }

    fn write(&mut self, slice: Slice, values: &[T])
        requires
            old(self).wf(),
            values@.len() == slice.size,
            slice.end() <= old(self).data@.len(),
        ensures
            final(self).wf(),
            final(self).init == old(self).init,
            final(self).data@ == old(self).data@.update_subrange_with(slice.start(), values@),
    {
        let start = slice.ptr.0;
        let _n = self.data.len();
        let mut i: usize = 0;
        while i < slice.size
            invariant
                i <= slice.size,
                old(self).data@.len() <= usize::MAX,
                values@.len() == slice.size,
                start == slice.ptr.0,
                start + slice.size <= self.data@.len(),
                self.data@.len() == old(self).data@.len(),
                self.init == old(self).init,
                self.data@ == old(self).data@.update_subrange_with(start as int, values@.subrange(0, i as int)),
            decreases slice.size - i,
        {
            self.data.set(start + i, values[i]);
            assert(self.data@ =~= old(self).data@.update_subrange_with(start as int, values@.subrange(0, i + 1)));
            i = i + 1;
        }
        assert(values@.subrange(0, values@.len() as int) =~= values@);
    }

    /// Returns the value at index `i`.
    pub fn get(&self, i: usize) -> (r: T)
        requires
            i < self.values().len(),
        ensures
            r == self.values()[i as int],
    {
        self.data[i]
    }

    /// Checks that every index of `ranges` is initialized, naming the first range that is not.
    pub fn check_ranges(&self, ranges: &RangeSet) -> (r: Result<(), StoreError>)
        requires
            self.wf(),
            ranges.wf(),
        ensures
            match r {
                Ok(()) => ranges@.subset_of(self.initialized()),
                Err(StoreError::InvalidSlice(_)) => !ranges@.subset_of(self.initialized()),
                Err(StoreError::Uninit(_)) => !ranges@.subset_of(self.initialized()),
                Err(StoreError::AlreadySet(_)) => false,
            },
    {
        let rs = ranges.iter_ranges();
        let ghost s = ranges.spec_ranges();
        let mut i: usize = 0;
        while i < rs.len()
            invariant
                i <= s.len(),
                rs@ == s,
                s == ranges.spec_ranges(),
                ranges.wf(),
                self.wf(),
                forall|j: int| 0 <= j < i ==> range_set((#[trigger] s[j]).0 as int, s[j].1 as int).subset_of(self.initialized()),
            decreases s.len() - i,
        {
            let (a, b) = rs[i];
            assert(a < b);
            let slice = Slice::from_range_unchecked(a, b);
            assert(slice.indices() =~= range_set(a as int, b as int));
            if slice.ptr.0 > self.data.len() || slice.size > self.data.len() - slice.ptr.0 {
                assert(ranges@.contains(b - 1));
                return Err(StoreError::InvalidSlice(slice));
            }
            if !self.is_set(slice) {
                proof {
                    let k = choose|k: int| slice.indices().contains(k) && !self.initialized().contains(k);
                    assert(ranges@.contains(k));
                }
                return Err(StoreError::Uninit(slice));
            }
            i = i + 1;
        }
        assert forall|k: int| ranges@.contains(k) implies self.initialized().contains(k) by {
            let j = choose|j: int| 0 <= j < s.len() && (#[trigger] s[j]).0 <= k < s[j].1;
            assert(range_set(s[j].0 as int, s[j].1 as int).contains(k));
        }
        Ok(())
    }

    /// The arena's length fits in a `usize`.
    pub proof fn lemma_len_bound(&self)
        requires
            self.wf(),
        ensures
            self.values().len() <= usize::MAX,
    {
    }

    /// Every initialized index lies inside the arena.
    pub proof fn lemma_initialized_in_bounds(&self, k: int)
        requires
            self.wf(),
            self.initialized().contains(k),
        ensures
            0 <= k < self.values().len(),
    {
    }

    /// The values at the indices of `ranges`, in the order of `ranges`.
    pub open spec fn spec_get_ranges(&self, ranges: &RangeSet) -> Seq<T> {
        let flat = flatten(ranges.spec_ranges());
        Seq::new(flat.len(), |j: int| self.values()[flat[j]])
    }

    /// Returns the values at the indices of `ranges`, in the order of `ranges`,
    /// if all of them are initialized.
    pub fn try_get_ranges(&self, ranges: &RangeSet) -> (r: Result<Vec<T>, StoreError>)
        requires
            self.wf(),
            ranges.wf(),
        ensures
            match r {
                Ok(v) => ranges@.subset_of(self.initialized()) && v@ == self.spec_get_ranges(ranges),
                Err(StoreError::InvalidSlice(_)) => !ranges@.subset_of(self.initialized()),
                Err(StoreError::Uninit(_)) => !ranges@.subset_of(self.initialized()),
                Err(StoreError::AlreadySet(_)) => false,
            },
    {
        self.check_ranges(ranges)?;
        let idx = ranges.indices();
        let ghost flat = flatten(ranges.spec_ranges());
        proof {
            lemma_flatten(ranges.spec_ranges());
        }
        let mut out: Vec<T> = Vec::with_capacity(idx.len());
        let mut i: usize = 0;
        while i < idx.len()
            invariant
                self.wf(),
                i <= idx@.len(),
                idx@.len() == flat.len(),
                flat == flatten(ranges.spec_ranges()),
                forall|j: int| 0 <= j < idx@.len() ==> idx@[j] as int == #[trigger] flat[j],
                forall|j: int| 0 <= j < flat.len() ==> ranges@.contains(#[trigger] flat[j]),
                ranges@.subset_of(self.initialized()),
                out@ == self.spec_get_ranges(ranges).subrange(0, i as int),
            decreases idx@.len() - i,
        {
            proof {
                assert(ranges@.contains(flat[i as int]));
            }
            out.push(self.data[idx[i]]);
            assert(out@ =~= self.spec_get_ranges(ranges).subrange(0, i + 1));
            i = i + 1;
        }
        assert(self.spec_get_ranges(ranges).subrange(0, i as int) =~= self.spec_get_ranges(ranges));
        Ok(out)
    }

    /// Checks, without writing, that the indices of `ranges` are inside the arena
    /// and none of them is initialized, naming the first range that is not.
    pub fn check_unset_ranges(&self, ranges: &RangeSet) -> (r: Result<(), StoreError>)
        requires
            self.wf(),
            ranges.wf(),
        ensures
            r.is_ok() == (ranges@.subset_of(range_set(0, self.values().len() as int)) && ranges@.disjoint(self.initialized())),
            r matches Err(StoreError::Uninit(_)) ==> false,
    {
        let rs = ranges.iter_ranges();
        let ghost s = ranges.spec_ranges();
        let n = self.data.len();
        let mut i: usize = 0;
        while i < rs.len()
            invariant
                i <= s.len(),
                rs@ == s,
                s == ranges.spec_ranges(),
                ranges.wf(),
                self.wf(),
                n == self.data@.len(),
                forall|j: int| 0 <= j < i ==> range_set((#[trigger] s[j]).0 as int, s[j].1 as int).subset_of(range_set(0, n as int)),
                forall|j: int| 0 <= j < i ==> range_set((#[trigger] s[j]).0 as int, s[j].1 as int).disjoint(self.initialized()),
            decreases s.len() - i,
        {
            let (a, b) = rs[i];
            assert(a < b);
            let slice = Slice::from_range_unchecked(a, b);
            assert(slice.indices() =~= range_set(a as int, b as int));
            if b > n {
                assert(ranges@.contains(b - 1));
                assert(!range_set(0, n as int).contains(b - 1));
                return Err(StoreError::InvalidSlice(slice));
            }
            if !self.is_unset(slice) {
                proof {
                    let k = choose|k: int| slice.indices().contains(k) && self.initialized().contains(k);
                    assert(ranges@.contains(k));
                }
                return Err(StoreError::AlreadySet(slice));
            }
            i = i + 1;
        }
        proof {
            assert forall|k: int| ranges@.contains(k) implies range_set(0, n as int).contains(k) && !self.initialized().contains(k) by {
                let j = choose|j: int| 0 <= j < s.len() && (#[trigger] s[j]).0 <= k < s[j].1;
                assert(range_set(s[j].0 as int, s[j].1 as int).contains(k));
            }
        }
        Ok(())
    }

    /// Sets `values` at the indices of `ranges`, in the order of `ranges`, if
    /// they are inside the arena and none of them is initialized.
    pub fn try_set_ranges(&mut self, ranges: &RangeSet, values: &Vec<T>) -> (r: Result<(), StoreError>)
        requires
            old(self).wf(),
            ranges.wf(),
            values@.len() == ranges.spec_len(),
        ensures
            final(self).wf(),
            r.is_err() ==> *final(self) == *old(self),
            r.is_ok() == (ranges@.subset_of(range_set(0, old(self).values().len() as int)) && ranges@.disjoint(old(self).initialized())),
            r.is_ok() ==> final(self).initialized() == old(self).initialized().union(ranges@),
            r.is_ok() ==> final(self).spec_get_ranges(ranges) == values@,
            r.is_ok() ==> final(self).values().len() == old(self).values().len(),
            r.is_ok() ==> forall|k: int| 0 <= k < old(self).values().len() && !ranges@.contains(k) ==> #[trigger] final(self).values()[k] == old(self).values()[k],
    {
        match self.check_unset_ranges(ranges) {
            Ok(()) => {},
            Err(e) => {
                return Err(e);
            },
        }
        self.write_ranges(ranges, values);
        Ok(())
    }

    fn write_ranges(&mut self, ranges: &RangeSet, values: &Vec<T>)
        requires
            old(self).wf(),
            ranges.wf(),
            values@.len() == ranges.spec_len(),
            ranges@.subset_of(range_set(0, old(self).values().len() as int)),
        ensures
            final(self).wf(),
            final(self).initialized() == old(self).initialized().union(ranges@),
            final(self).spec_get_ranges(ranges) == values@,
            final(self).values().len() == old(self).values().len(),
            forall|k: int| 0 <= k < old(self).values().len() && !ranges@.contains(k) ==> #[trigger] final(self).values()[k] == old(self).values()[k],
    {
        let idx = ranges.indices();
        let ghost flat = flatten(ranges.spec_ranges());
        proof {
            lemma_flatten(ranges.spec_ranges());
            lemma_flatten_distinct(ranges.spec_ranges());
            assert forall|a: int| 0 <= a < flat.len() implies 0 <= #[trigger] flat[a] < old(self).data@.len() by {
                lemma_flatten_covered(ranges.spec_ranges(), a);
                assert(ranges@.contains(flat[a]));
            }
        }
        let n = self.data.len();
        let ghost init0 = self.init@;
        let mut j: usize = 0;
        assert(flat.subrange(0, 0) =~= Seq::<int>::empty());
        while j < idx.len()
            invariant
                self.wf(),
                ranges.wf(),
                n == self.data@.len(),
                j <= idx@.len(),
                idx@.len() == flat.len(),
                flat.len() == values@.len(),
                flat == flatten(ranges.spec_ranges()),
                forall|a: int| 0 <= a < idx@.len() ==> idx@[a] as int == #[trigger] flat[a],
                forall|a: int| 0 <= a < idx@.len() ==> 0 <= #[trigger] flat[a] < n,
                forall|a: int, b: int| 0 <= a < b < flat.len() ==> flat[a] != flat[b],
                forall|k: int| #[trigger] self.init@.contains(k) <==> (init0.contains(k) || flat.subrange(0, j as int).contains(k)),
                forall|a: int| 0 <= a < j ==> self.data@[#[trigger] flat[a]] == values@[a],
                forall|k: int| 0 <= k < n && !flat.subrange(0, j as int).contains(k) ==> #[trigger] self.data@[k] == old(self).data@[k],
            decreases idx@.len() - j,
        {
            let k = idx[j];
            assert(k as int == flat[j as int]);
            assert(0 <= flat[j as int] < n);
            let ghost prev_data = self.data@;
            self.data.set(k, values[j]);
            let ghost prev_init = self.init@;
            self.init = self.init.union_range(k, k + 1);
            proof {
                assert forall|kk: int| 0 <= kk < n && !flat.subrange(0, j + 1).contains(kk) implies #[trigger] self.data@[kk] == old(self).data@[kk] by {
                    assert(flat.subrange(0, j + 1)[j as int] == k);
                    if flat.subrange(0, j as int).contains(kk) {
                        let a = choose|a: int| 0 <= a < j && #[trigger] flat.subrange(0, j as int)[a] == kk;
                        assert(flat.subrange(0, j + 1)[a] == kk);
                    }
                    assert(prev_data[kk] == old(self).data@[kk]);
                }
                assert forall|a: int| 0 <= a < j + 1 implies self.data@[#[trigger] flat[a]] == values@[a] by {
                    if a < j {
                        assert(flat[a] != flat[j as int]);
                    }
                }
                assert(flat.subrange(0, j + 1) =~= flat.subrange(0, j as int).push(k as int));
                assert forall|kk: int| #[trigger] self.init@.contains(kk) <==> (init0.contains(kk) || flat.subrange(0, j + 1).contains(kk)) by {
                    assert(prev_init.contains(kk) <==> (init0.contains(kk) || flat.subrange(0, j as int).contains(kk)));
                    assert(self.init@.contains(kk) <==> (prev_init.contains(kk) || kk == k));
                    if kk == k {
                        assert(flat.subrange(0, j + 1)[j as int] == kk);
                    }
                    if flat.subrange(0, j as int).contains(kk) {
                        let a = choose|a: int| 0 <= a < j && #[trigger] flat.subrange(0, j as int)[a] == kk;
                        assert(flat.subrange(0, j + 1)[a] == kk);
                    }
                    if flat.subrange(0, j + 1).contains(kk) {
                        let a = choose|a: int| 0 <= a < j + 1 && #[trigger] flat.subrange(0, j + 1)[a] == kk;
                        if a < j {
                            assert(flat.subrange(0, j as int)[a] == kk);
                        }
                    }
                }
            }
            j = j + 1;
        }
        proof {
            assert(flat.subrange(0, j as int) =~= flat);
            assert forall|k: int| flat.contains(k) <==> ranges@.contains(k) by {
                if flat.contains(k) {
                    let a = choose|a: int| 0 <= a < flat.len() && #[trigger] flat[a] == k;
                    lemma_flatten_covered(ranges.spec_ranges(), a);
                }
                if ranges@.contains(k) {
                    lemma_flatten_complete(ranges.spec_ranges(), k);
                }
            }
            assert(self.init@ =~= init0.union(ranges@));
            assert(self.spec_get_ranges(ranges) =~= values@);
        }
    }

    /// Values at the indices of `b` are the same in two arenas that agree outside `a`,
    /// when `a` and `b` are disjoint.
    pub proof fn lemma_get_ranges_frame(x: Store<T>, y: Store<T>, b: &RangeSet, a: &RangeSet)
        requires
            b.wf(),
            a@.disjoint(b@),
            b@.subset_of(range_set(0, x.values().len() as int)),
            x.values().len() == y.values().len(),
            forall|k: int| 0 <= k < x.values().len() && !a@.contains(k) ==> #[trigger] y.values()[k] == x.values()[k],
        ensures
            y.spec_get_ranges(b) == x.spec_get_ranges(b),
    {
        let flat = flatten(b.spec_ranges());
        assert forall|j: int| 0 <= j < flat.len() implies #[trigger] y.spec_get_ranges(b)[j] == x.spec_get_ranges(b)[j] by {
            lemma_flatten_covered(b.spec_ranges(), j);
            assert(b@.contains(flat[j]));
        }
        assert(y.spec_get_ranges(b) =~= x.spec_get_ranges(b));
    }

    /// Overwrites the values at the indices of `ranges`, in the order of `ranges`,
    /// if all of them are initialized.
    pub fn try_replace_ranges(&mut self, ranges: &RangeSet, values: &Vec<T>) -> (r: Result<(), StoreError>)
        requires
            old(self).wf(),
            ranges.wf(),
            values@.len() == ranges.spec_len(),
        ensures
            final(self).wf(),
            final(self).initialized() == old(self).initialized(),
            final(self).values().len() == old(self).values().len(),
            r.is_ok() == ranges@.subset_of(old(self).initialized()),
            r.is_ok() ==> final(self).spec_get_ranges(ranges) == values@,
            r.is_err() ==> *final(self) == *old(self),
    {
        match self.check_ranges(ranges) {
            Ok(()) => {},
            Err(e) => {
                return Err(e);
            },
        }
        proof {
            assert forall|k: int| ranges@.contains(k) implies range_set(0, self.data@.len() as int).contains(k) by {
                assert(self.init@.contains(k));
            }
        }
        let ghost init0 = self.init@;
        self.write_ranges(ranges, values);
        assert(self.init@ =~= init0);
        Ok(())
    }

    /// Whether `values` agrees, index by index in the order of `ranges`, with the
    /// values already initialized there.
    pub open spec fn agrees(&self, ranges: &RangeSet, values: Seq<T>) -> bool {
        let flat = flatten(ranges.spec_ranges());
        forall|j: int| 0 <= j < flat.len() && #[trigger] self.initialized().contains(flat[j]) ==> self.values()[flat[j]] == values[j]
    }

}

impl Store<bool> {
    /// Writes `values` at the indices of `ranges`, in the order of `ranges`. Indices
    /// already initialized must already hold the value given for them.
    pub fn try_fill_ranges(&mut self, ranges: &RangeSet, values: &Vec<bool>) -> (r: Result<(), StoreError>)
        requires
            old(self).wf(),
            ranges.wf(),
            values@.len() == ranges.spec_len(),
        ensures
            final(self).wf(),
            r.is_err() ==> *final(self) == *old(self),
            r.is_ok() == (ranges@.subset_of(range_set(0, old(self).values().len() as int)) && old(self).agrees(ranges, values@)),
            r.is_ok() ==> final(self).initialized() == old(self).initialized().union(ranges@),
            r.is_ok() ==> final(self).spec_get_ranges(ranges) == values@,
            r.is_ok() ==> final(self).values().len() == old(self).values().len(),
    {
        let idx = ranges.indices();
        let ghost flat = flatten(ranges.spec_ranges());
        proof {
            lemma_flatten(ranges.spec_ranges());
            lemma_flatten_distinct(ranges.spec_ranges());
        }
        let n = self.data.len();
        let mut i: usize = 0;
        while i < idx.len()
            invariant
                self.wf(),
                ranges.wf(),
                *self == *old(self),
                n == self.data@.len(),
                i <= idx@.len(),
                idx@.len() == flat.len(),
                flat.len() == values@.len(),
                flat == flatten(ranges.spec_ranges()),
                forall|j: int| 0 <= j < idx@.len() ==> idx@[j] as int == #[trigger] flat[j],
                forall|j: int| 0 <= j < i ==> 0 <= #[trigger] flat[j] < n,
                forall|j: int| 0 <= j < i && #[trigger] self.init@.contains(flat[j]) ==> self.data@[flat[j]] == values@[j],
            decreases idx@.len() - i,
        {
            let k = idx[i];
            if k >= n {
                proof {
                    lemma_flatten_covered(ranges.spec_ranges(), i as int);
                    assert(ranges@.contains(flat[i as int]));
                }
                return Err(StoreError::InvalidSlice(Slice { ptr: Ptr(k), size: 1 }));
            }
            let unit = Slice { ptr: Ptr(k), size: 1 };
            assert(unit.indices() =~= set![k as int]);
            if self.init.contains_range(k, k + 1) {
                assert(range_set(k as int, k + 1).contains(k as int));
                if self.data[k] != values[i] {
                    assert(self.initialized().contains(flat[i as int]));
                    return Err(StoreError::AlreadySet(unit));
                }
            }
            i = i + 1;
        }
        proof {
            assert forall|k: int| ranges@.contains(k) implies range_set(0, old(self).values().len() as int).contains(k) by {
                lemma_flatten_complete(ranges.spec_ranges(), k);
            }
        }
        let ghost init0 = self.init@;
        let mut j: usize = 0;
        assert(flat.subrange(0, 0) =~= Seq::<int>::empty());
        while j < idx.len()
            invariant
                self.wf(),
                ranges.wf(),
                n == self.data@.len(),
                j <= idx@.len(),
                idx@.len() == flat.len(),
                flat.len() == values@.len(),
                flat == flatten(ranges.spec_ranges()),
                forall|a: int| 0 <= a < idx@.len() ==> idx@[a] as int == #[trigger] flat[a],
                forall|a: int| 0 <= a < idx@.len() ==> 0 <= #[trigger] flat[a] < n,
                forall|a: int, b: int| 0 <= a < b < flat.len() ==> flat[a] != flat[b],
                forall|k: int| #[trigger] self.init@.contains(k) <==> (init0.contains(k) || flat.subrange(0, j as int).contains(k)),
                forall|a: int| 0 <= a < j ==> self.data@[#[trigger] flat[a]] == values@[a],
            decreases idx@.len() - j,
        {
            let k = idx[j];
            assert(k as int == flat[j as int]);
            assert(0 <= flat[j as int] < n);
            self.data.set(k, values[j]);
            let ghost prev_init = self.init@;
            self.init = self.init.union_range(k, k + 1);
            proof {
                assert forall|a: int| 0 <= a < j + 1 implies self.data@[#[trigger] flat[a]] == values@[a] by {
                    if a < j {
                        assert(flat[a] != flat[j as int]);
                    }
                }
                assert(flat.subrange(0, j + 1) =~= flat.subrange(0, j as int).push(k as int));
                assert forall|kk: int| #[trigger] self.init@.contains(kk) <==> (init0.contains(kk) || flat.subrange(0, j + 1).contains(kk)) by {
                    assert(prev_init.contains(kk) <==> (init0.contains(kk) || flat.subrange(0, j as int).contains(kk)));
                    assert(self.init@.contains(kk) <==> (prev_init.contains(kk) || kk == k));
                    if kk == k {
                        assert(flat.subrange(0, j + 1)[j as int] == kk);
                    }
                    if flat.subrange(0, j as int).contains(kk) {
                        let a = choose|a: int| 0 <= a < j && #[trigger] flat.subrange(0, j as int)[a] == kk;
                        assert(flat.subrange(0, j + 1)[a] == kk);
                    }
                    if flat.subrange(0, j + 1).contains(kk) {
                        let a = choose|a: int| 0 <= a < j + 1 && #[trigger] flat.subrange(0, j + 1)[a] == kk;
                        if a < j {
                            assert(flat.subrange(0, j as int)[a] == kk);
                        }
                    }
                }
            }
            j = j + 1;
        }
        proof {
            assert(flat.subrange(0, j as int) =~= flat);
            assert forall|k: int| flat.contains(k) <==> ranges@.contains(k) by {
                if flat.contains(k) {
                    let a = choose|a: int| 0 <= a < flat.len() && #[trigger] flat[a] == k;
                    lemma_flatten_covered(ranges.spec_ranges(), a);
                }
                if ranges@.contains(k) {
                    lemma_flatten_complete(ranges.spec_ranges(), k);
                }
            }
            assert(self.init@ =~= init0.union(ranges@));
            assert(self.spec_get_ranges(ranges) =~= values@);
        }
        Ok(())
    }
}

} // verus!
