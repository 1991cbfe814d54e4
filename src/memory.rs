//! Handles into linear memory arenas.
use vstd::prelude::*;

use crate::range::{range_set, RangeSet};

verus! {

/// How a value is assigned to the two parties' memories.
#[derive(Clone, Copy, Debug, PartialEq, Eq, Structural)]
pub enum AssignKind {
    /// Both parties know the value.
    Public,
    /// Only this party knows the value.
    Private,
    /// Only the other party knows the value.
    Blind,
}

/// A buffered assignment of a slice.
#[derive(Clone, Copy, Debug, PartialEq, Eq, Structural)]
pub struct AssignOp {
    /// The slice being assigned.
    pub slice: Slice,
    /// How it is assigned.
    pub kind: AssignKind,
}

/// Memory pointer.
#[derive(Clone, Copy, Debug, PartialEq, Eq, PartialOrd, Ord, Hash, Structural)]
pub struct Ptr(pub usize);

impl Ptr {
    /// Creates a pointer.
    pub fn new(ptr: usize) -> (r: Ptr)
        ensures
            r.0 == ptr,
    {
        Ptr(ptr)
    }

    /// Returns the pointer as a `usize`.
    pub fn as_usize(&self) -> (r: usize)
        ensures
            r == self.0,
    {
        self.0
    }
}

/// A slice of contiguous memory: the half-open range `[ptr, ptr + size)`.
#[derive(Clone, Copy, Debug, PartialEq, Eq, Hash, Structural)]
pub struct Slice {
    /// Start of the slice.
    pub ptr: Ptr,
    /// Number of elements.
    pub size: usize,
}

impl Slice {
    /// First index of the slice.
    pub open spec fn start(self) -> int {
        self.ptr.0 as int
    }

    /// One past the last index of the slice.
    pub open spec fn end(self) -> int {
        self.ptr.0 + self.size
    }

    /// The indices of the slice.
    pub open spec fn indices(self) -> Set<int> {
        range_set(self.start(), self.end())
    }

    /// Creates a new slice.
    pub fn new_unchecked(ptr: Ptr, size: usize) -> (r: Slice)
        ensures
            r.ptr == ptr,
            r.size == size,
    {
        Slice { ptr, size }
    }

    /// Creates a new slice from the range `[start, end)`.
    pub fn from_range_unchecked(start: usize, end: usize) -> (r: Slice)
        requires
            start <= end,
        ensures
            r.start() == start,
            r.end() == end,
    {
        Slice { ptr: Ptr(start), size: end - start }
    }

    /// Returns the pointer to the value.
    pub fn ptr(&self) -> (r: Ptr)
        ensures
            r == self.ptr,
    {
        self.ptr
    }

    /// Returns the number of elements.
    pub fn size(&self) -> (r: usize)
        ensures
            r == self.size,
    {
        self.size
    }

    /// Returns the memory range of the slice as `(start, end)`.
    pub fn to_range(&self) -> (r: (usize, usize))
        requires
            self.end() <= usize::MAX,
        ensures
            r.0 == self.start(),
            r.1 == self.end(),
    {
        (self.ptr.0, self.ptr.0 + self.size)
    }

    /// Returns the set of indices of `slices`.
    pub fn to_rangeset(slices: &Vec<Slice>) -> (r: RangeSet)
        requires
            forall|i: int| 0 <= i < slices@.len() ==> (#[trigger] slices@[i]).end() <= usize::MAX,
        ensures
            r.wf(),
            r@ == Set::new(|k: int| exists|i: int| 0 <= i < slices@.len() && (#[trigger] slices@[i]).indices().contains(k)),
    {
        let mut r = RangeSet::new();
        let mut i: usize = 0;
        while i < slices.len()
            invariant
                i <= slices@.len(),
                forall|j: int| 0 <= j < slices@.len() ==> (#[trigger] slices@[j]).end() <= usize::MAX,
                r.wf(),
                r@ == Set::new(|k: int| exists|j: int| 0 <= j < i && (#[trigger] slices@[j]).indices().contains(k)),
            decreases slices@.len() - i,
        {
            let s = slices[i];
            assert(s.end() <= usize::MAX);
            let (a, b) = s.to_range();
            let ghost prev = r@;
            r = r.union_range(a, b);
            assert(r@ =~= Set::new(|k: int| exists|j: int| 0 <= j < i + 1 && (#[trigger] slices@[j]).indices().contains(k))) by {
                assert forall|k: int| r@.contains(k) <==> exists|j: int| 0 <= j < i + 1 && (#[trigger] slices@[j]).indices().contains(k) by {
                    if exists|j: int| 0 <= j < i + 1 && (#[trigger] slices@[j]).indices().contains(k) {
                        let j = choose|j: int| 0 <= j < i + 1 && (#[trigger] slices@[j]).indices().contains(k);
                        if j < i {
                            assert(prev.contains(k));
                        }
                    }
                    if range_set(a as int, b as int).contains(k) {
                        assert(slices@[i as int].indices().contains(k));
                    }
                }
            }
            i = i + 1;
        }
        r
    }
}

/// Value that can be converted to a raw slice of memory.
pub trait ToRaw {
    /// Returns `self` as a raw slice.
    fn to_raw(&self) -> Slice;
}

/// Size of a value in memory.
pub trait Size {
    /// Returns the number of memory elements the value spans.
    fn size(&self) -> usize;
}

impl Size for Slice {
    fn size(&self) -> usize {
        self.size
    }
}

impl ToRaw for Slice {
    fn to_raw(&self) -> Slice {
        *self
    }
}

/// Type of a clear value.
#[derive(Clone, Copy, Debug, PartialEq, Eq, Hash, Structural)]
pub enum Type {
    U8,
    U16,
    U32,
    U64,
    U128,
}

impl Type {
    /// The number of bits of a value of this type.
    pub open spec fn spec_bit_len(self) -> usize {
        match self {
            Type::U8 => 8,
            Type::U16 => 16,
            Type::U32 => 32,
            Type::U64 => 64,
            Type::U128 => 128,
        }
    }

    /// Returns the number of bits of a value of this type.
    pub fn bit_len(&self) -> (r: usize)
        ensures
            r == self.spec_bit_len(),
    {
        match self {
            Type::U8 => 8,
            Type::U16 => 16,
            Type::U32 => 32,
            Type::U64 => 64,
            Type::U128 => 128,
        }
    }
}

/// A clear value.
#[derive(Clone, Copy, Debug, PartialEq, Eq, Structural)]
pub enum Value {
    U8(u8),
    U16(u16),
    U32(u32),
    U64(u64),
    U128(u128),
}

impl Value {
    /// The type of the value.
    pub open spec fn spec_type(self) -> Type {
        match self {
            Value::U8(_) => Type::U8,
            Value::U16(_) => Type::U16,
            Value::U32(_) => Type::U32,
            Value::U64(_) => Type::U64,
            Value::U128(_) => Type::U128,
        }
    }

    /// Returns the type of the value.
    pub fn value_type(&self) -> (r: Type)
        ensures
            r == self.spec_type(),
    {
        match self {
            Value::U8(_) => Type::U8,
            Value::U16(_) => Type::U16,
            Value::U32(_) => Type::U32,
            Value::U64(_) => Type::U64,
            Value::U128(_) => Type::U128,
        }
    }

    /// Returns the value's bits, least significant first.
    pub fn to_lsb0_bits(&self) -> (r: Vec<bool>)
        ensures
            r@.len() == self.spec_type().spec_bit_len(),
            forall|i: int| 0 <= i < r@.len() ==> r@[i] == (#[trigger] value_bits(*self, i)),
    {
        let (v, n): (u128, usize) = match self {
            Value::U8(x) => (*x as u128, 8),
            Value::U16(x) => (*x as u128, 16),
            Value::U32(x) => (*x as u128, 32),
            Value::U64(x) => (*x as u128, 64),
            Value::U128(x) => (*x, 128),
        };
        let mut r: Vec<bool> = Vec::with_capacity(n);
        let mut i: usize = 0;
        while i < n
            invariant
                i <= n,
                n <= 128,
                r@.len() == i,
                forall|j: int| 0 <= j < i ==> r@[j] == ((v >> (j as u128)) & 1u128 == 1u128),
            decreases n - i,
        {
            r.push((v >> (i as u128)) & 1 == 1);
            i = i + 1;
        }
        r
    }
}

/// Bit `i` (least significant first) of a clear value.
pub open spec fn value_bits(v: Value, i: int) -> bool {
    let x: u128 = match v {
        Value::U8(x) => x as u128,
        Value::U16(x) => x as u128,
        Value::U32(x) => x as u128,
        Value::U64(x) => x as u128,
        Value::U128(x) => x,
    };
    (x >> (i as u128)) & 1u128 == 1u128
}

/// An unsigned 8-bit integer in memory, at a pointer.
#[derive(Clone, Copy, Debug, PartialEq, Eq, Structural)]
pub struct U8(pub Ptr);

/// An unsigned 16-bit integer in memory, at a pointer.
#[derive(Clone, Copy, Debug, PartialEq, Eq, Structural)]
pub struct U16(pub Ptr);

/// An unsigned 32-bit integer in memory, at a pointer.
#[derive(Clone, Copy, Debug, PartialEq, Eq, Structural)]
pub struct U32(pub Ptr);

/// An unsigned 64-bit integer in memory, at a pointer.
#[derive(Clone, Copy, Debug, PartialEq, Eq, Structural)]
pub struct U64(pub Ptr);

/// An unsigned 128-bit integer in memory, at a pointer.
#[derive(Clone, Copy, Debug, PartialEq, Eq, Structural)]
pub struct U128(pub Ptr);

impl ToRaw for U8 {
    fn to_raw(&self) -> Slice {
        Slice { ptr: self.0, size: 8 }
    }
}

impl ToRaw for U16 {
    fn to_raw(&self) -> Slice {
        Slice { ptr: self.0, size: 16 }
    }
}

impl ToRaw for U32 {
    fn to_raw(&self) -> Slice {
        Slice { ptr: self.0, size: 32 }
    }
}

impl ToRaw for U64 {
    fn to_raw(&self) -> Slice {
        Slice { ptr: self.0, size: 64 }
    }
}

impl ToRaw for U128 {
    fn to_raw(&self) -> Slice {
        Slice { ptr: self.0, size: 128 }
    }
}

} // verus!
