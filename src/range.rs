//! Canonical sets of disjoint half-open index ranges.
use vstd::prelude::*;

verus! {

/// Whether some range of `s` holds `k`.
pub open spec fn covers(s: Seq<(usize, usize)>, k: int) -> bool {
    exists|i: int| 0 <= i < s.len() && (#[trigger] s[i]).0 <= k < s[i].1
}

/// Ranges that are non-empty, sorted, pairwise disjoint and not adjacent.
pub open spec fn canonical(s: Seq<(usize, usize)>) -> bool {
    &&& forall|i: int| 0 <= i < s.len() ==> (#[trigger] s[i]).0 < s[i].1
    &&& forall|i: int, j: int| 0 <= i < j < s.len() ==> (#[trigger] s[i]).1 < (#[trigger] s[j]).0
}

/// The total number of indices in the first `n` ranges.
pub open spec fn total(s: Seq<(usize, usize)>, n: nat) -> int
    decreases n,
{
    if n == 0 {
        0
    } else {
        total(s, (n - 1) as nat) + (s[n - 1].1 - s[n - 1].0)
    }
}

/// The indices covered by the ranges `s[a..b]`.
pub open spec fn span(s: Seq<(usize, usize)>, a: int, b: int) -> Set<int> {
    Set::new(|k: int| exists|j: int| a <= j < b && (#[trigger] s[j]).0 <= k < s[j].1)
}

/// The indices of the half-open range `[start, end)`.
pub open spec fn range_set(start: int, end: int) -> Set<int> {
    Set::new(|k: int| start <= k < end)
}

/// A set of indices held as its canonical list of ranges.
#[derive(Debug)]
pub struct RangeSet {
    ranges: Vec<(usize, usize)>,
}

impl View for RangeSet {
    type V = Set<int>;

    open spec fn view(&self) -> Set<int> {
        Set::new(|k: int| covers(self.spec_ranges(), k))
    }
}


/// The indices of `[start, end)` in ascending order.
pub open spec fn range_seq(start: int, end: int) -> Seq<int> {
    Seq::new((end - start) as nat, |j: int| start + j)
}

/// The indices of the ranges of `s`, range by range, each in ascending order.
pub open spec fn flatten(s: Seq<(usize, usize)>) -> Seq<int>
    decreases s.len(),
{
    if s.len() == 0 {
        Seq::empty()
    } else {
        flatten(s.drop_last()) + range_seq(s.last().0 as int, s.last().1 as int)
    }
}

/// The flattened indices number as many as the ranges hold, and each lies in a range.
pub proof fn lemma_flatten(s: Seq<(usize, usize)>)
    requires
        canonical(s),
    ensures
        flatten(s).len() == total(s, s.len()),
        forall|j: int| 0 <= j < flatten(s).len() ==> covers(s, #[trigger] flatten(s)[j]),
    decreases s.len(),
{
    if s.len() > 0 {
        let t = s.drop_last();
        assert(canonical(t)) by {
            assert forall|i: int, j: int| 0 <= i < j < t.len() implies (#[trigger] t[i]).1 < (#[trigger] t[j]).0 by {
                assert(t[i] == s[i] && t[j] == s[j]);
            }
            assert forall|i: int| 0 <= i < t.len() implies (#[trigger] t[i]).0 < t[i].1 by {
                assert(t[i] == s[i]);
            }
        }
        lemma_flatten(t);
        assert(total(t, t.len()) == total(s, (s.len() - 1) as nat)) by {
            lemma_total_prefix(s, t, t.len());
        }
        assert(s.last().0 < s.last().1);
        assert forall|j: int| 0 <= j < flatten(s).len() implies covers(s, #[trigger] flatten(s)[j]) by {
            if j < flatten(t).len() {
                assert(flatten(s)[j] == flatten(t)[j]);
                assert(covers(t, flatten(t)[j]));
                let i = choose|i: int| 0 <= i < t.len() && (#[trigger] t[i]).0 <= flatten(t)[j] < t[i].1;
                assert(t[i] == s[i]);
            } else {
                assert(s[s.len() - 1] == s.last());
            }
        }
    }
}

/// Each flattened index lies in some range.
pub proof fn lemma_flatten_covered(s: Seq<(usize, usize)>, j: int)
    requires
        canonical(s),
        0 <= j < flatten(s).len(),
    ensures
        covers(s, flatten(s)[j]),
        0 <= flatten(s)[j],
{
    lemma_flatten(s);
    let k = flatten(s)[j];
    let i = choose|i: int| 0 <= i < s.len() && (#[trigger] s[i]).0 <= k < s[i].1;
}

/// Each covered index is among the flattened ones.
pub proof fn lemma_flatten_complete(s: Seq<(usize, usize)>, k: int)
    requires
        canonical(s),
        covers(s, k),
    ensures
        exists|a: int| 0 <= a < flatten(s).len() && flatten(s)[a] == k,
    decreases s.len(),
{
    let t = s.drop_last();
    let i = choose|i: int| 0 <= i < s.len() && (#[trigger] s[i]).0 <= k < s[i].1;
    if i == s.len() - 1 {
        let a = flatten(t).len() + (k - s.last().0);
        assert(flatten(s)[a] == k);
    } else {
        assert(canonical(t)) by {
            assert forall|x: int, y: int| 0 <= x < y < t.len() implies (#[trigger] t[x]).1 < (#[trigger] t[y]).0 by {
                assert(t[x] == s[x] && t[y] == s[y]);
            }
            assert forall|x: int| 0 <= x < t.len() implies (#[trigger] t[x]).0 < t[x].1 by {
                assert(t[x] == s[x]);
            }
        }
        assert(t[i] == s[i]);
        lemma_flatten_complete(t, k);
        let a = choose|a: int| 0 <= a < flatten(t).len() && flatten(t)[a] == k;
        assert(flatten(s)[a] == k);
    }
}

/// The flattened indices of canonical ranges strictly increase.
pub proof fn lemma_flatten_distinct(s: Seq<(usize, usize)>)
    requires
        canonical(s),
    ensures
        forall|a: int, b: int| 0 <= a < b < flatten(s).len() ==> flatten(s)[a] < flatten(s)[b],
        forall|a: int, b: int| 0 <= a < b < flatten(s).len() ==> flatten(s)[a] != flatten(s)[b],
    decreases s.len(),
{
    if s.len() > 0 {
        let t = s.drop_last();
        assert(canonical(t)) by {
            assert forall|x: int, y: int| 0 <= x < y < t.len() implies (#[trigger] t[x]).1 < (#[trigger] t[y]).0 by {
                assert(t[x] == s[x] && t[y] == s[y]);
            }
            assert forall|x: int| 0 <= x < t.len() implies (#[trigger] t[x]).0 < t[x].1 by {
                assert(t[x] == s[x]);
            }
        }
        lemma_flatten_distinct(t);
        lemma_flatten(t);
        let ft = flatten(t);
        let fs = flatten(s);
        assert forall|a: int, b: int| 0 <= a < b < fs.len() implies fs[a] < fs[b] by {
            if b < ft.len() {
                assert(fs[a] == ft[a] && fs[b] == ft[b]);
            } else if a < ft.len() {
                assert(fs[a] == ft[a]);
                assert(covers(t, ft[a]));
                let i = choose|i: int| 0 <= i < t.len() && (#[trigger] t[i]).0 <= ft[a] < t[i].1;
                assert(t[i] == s[i]);
                assert(s[i].1 < s[s.len() - 1].0);
            }
        }
    }
}

/// A canonical list covering exactly `[a, b)` is that one range, or nothing when `a == b`.
pub proof fn lemma_interval_ranges(s: Seq<(usize, usize)>, a: usize, b: usize)
    requires
        canonical(s),
        a <= b,
        forall|k: int| covers(s, k) <==> a <= k < b,
    ensures
        flatten(s) == range_seq(a as int, b as int),
        total(s, s.len()) == b - a,
{
    if a < b {
        let t = seq![(a, b)];
        assert(canonical(t));
        assert forall|k: int| covers(s, k) <==> covers(t, k) by {
            if a <= k < b {
                assert(t[0].0 <= k < t[0].1);
            }
        }
        lemma_canonical_unique(s, t);
        assert(t.drop_last() =~= Seq::<(usize, usize)>::empty());
        assert(flatten(t.drop_last()) =~= Seq::<int>::empty());
        assert(flatten(t) =~= range_seq(a as int, b as int));
        assert(total(t.drop_last(), 0) == 0);
    } else {
        if s.len() > 0 {
            assert(s[0].0 < s[0].1);
            assert(covers(s, s[0].0 as int));
        }
        assert(flatten(s) =~= range_seq(a as int, b as int));
    }
    lemma_flatten(s);
}

proof fn lemma_total_prefix(s: Seq<(usize, usize)>, t: Seq<(usize, usize)>, n: nat)
    requires
        n <= t.len(),
        t.len() <= s.len(),
        forall|i: int| 0 <= i < t.len() ==> t[i] == s[i],
    ensures
        total(t, n) == total(s, n),
    decreases n,
{
    if n > 0 {
        lemma_total_prefix(s, t, (n - 1) as nat);
    }
}

proof fn lemma_merge_step(
    s: Seq<(usize, usize)>,
    i0: int,
    i: int,
    start: int,
    end: int,
    lo: int,
    hi: int,
    nlo: int,
    nhi: int,
)
    requires
        canonical(s),
        0 <= i0 <= i < s.len(),
        s[i].0 <= end,
        s[i].1 >= start,
        lo <= start < end <= hi,
        i > i0 ==> hi >= s[i - 1].1,
        range_set(lo, hi) == range_set(start, end).union(span(s, i0, i)),
        nlo == if s[i].0 < lo { s[i].0 as int } else { lo },
        nhi == if s[i].1 > hi { s[i].1 as int } else { hi },
    ensures
        range_set(nlo, nhi) == range_set(start, end).union(span(s, i0, i + 1)),
{
    assert forall|k: int| #[trigger] range_set(nlo, nhi).contains(k) <==> range_set(start, end).union(span(s, i0, i + 1)).contains(k) by {
        assert(range_set(lo, hi).contains(k) <==> range_set(start, end).union(span(s, i0, i)).contains(k));
        if nlo <= k < nhi {
            if s[i].0 <= k < s[i].1 {
                assert(span(s, i0, i + 1).contains(k));
            } else {
                assert(lo <= k < hi);
                if span(s, i0, i).contains(k) {
                    let j = choose|j: int| i0 <= j < i && (#[trigger] s[j]).0 <= k < s[j].1;
                    assert(span(s, i0, i + 1).contains(k));
                }
            }
        }
        if span(s, i0, i + 1).contains(k) {
            let j = choose|j: int| i0 <= j < i + 1 && (#[trigger] s[j]).0 <= k < s[j].1;
            if j < i {
                assert(span(s, i0, i).contains(k));
                assert(lo <= k < hi);
            }
        }
    }
    assert(range_set(nlo, nhi) =~= range_set(start, end).union(span(s, i0, i + 1)));
}

proof fn lemma_splice(
    s: Seq<(usize, usize)>,
    o: Seq<(usize, usize)>,
    i0: int,
    i1: int,
    start: int,
    end: int,
    lo: usize,
    hi: usize,
)
    requires
        canonical(s),
        0 <= i0 <= i1 <= s.len(),
        o == s.subrange(0, i0).push((lo, hi)) + s.subrange(i1, s.len() as int),
        lo < hi,
        lo <= start < end <= hi,
        forall|j: int| 0 <= j < i0 ==> (#[trigger] s[j]).1 < lo,
        i1 < s.len() ==> hi < s[i1].0,
        range_set(lo as int, hi as int) == range_set(start, end).union(span(s, i0, i1)),
    ensures
        canonical(o),
        forall|k: int| covers(o, k) <==> (covers(s, k) || start <= k < end),
{
    assert forall|p: int| 0 <= p < o.len() implies (#[trigger] o[p]).0 < o[p].1 by {
        if p > i0 {
            assert(o[p] == s[p - i0 - 1 + i1]);
        }
    }
    assert forall|p: int, q: int| 0 <= p < q < o.len() implies (#[trigger] o[p]).1 < (#[trigger] o[q]).0 by {
        if q < i0 {
        } else if q == i0 {
            assert(o[p] == s[p]);
        } else if p < i0 {
            assert(o[q] == s[q - i0 - 1 + i1]);
            assert(o[p] == s[p]);
            assert(s[p].1 < lo);
            if q - i0 - 1 + i1 > i1 {
                assert(s[i1].1 < s[q - i0 - 1 + i1].0);
                assert(s[i1].0 < s[i1].1);
            }
        } else if p == i0 {
            assert(o[q] == s[q - i0 - 1 + i1]);
            if q - i0 - 1 + i1 > i1 {
                assert(s[i1].1 < s[q - i0 - 1 + i1].0);
                assert(s[i1].0 < s[i1].1);
            }
        } else {
            assert(o[q] == s[q - i0 - 1 + i1]);
            assert(o[p] == s[p - i0 - 1 + i1]);
        }
    }
    assert forall|k: int| covers(o, k) <==> (covers(s, k) || start <= k < end) by {
        assert(range_set(lo as int, hi as int).contains(k) <==> range_set(start, end).union(span(s, i0, i1)).contains(k));
        if covers(o, k) {
            let p = choose|p: int| 0 <= p < o.len() && (#[trigger] o[p]).0 <= k < o[p].1;
            if p < i0 {
                assert(o[p] == s[p]);
                assert(covers(s, k));
            } else if p > i0 {
                assert(o[p] == s[p - i0 - 1 + i1]);
                assert(covers(s, k));
            } else {
                if span(s, i0, i1).contains(k) {
                    let j = choose|j: int| i0 <= j < i1 && (#[trigger] s[j]).0 <= k < s[j].1;
                    assert(covers(s, k));
                }
            }
        }
        if covers(s, k) {
            let j = choose|j: int| 0 <= j < s.len() && (#[trigger] s[j]).0 <= k < s[j].1;
            if j < i0 {
                assert(o[j] == s[j]);
            } else if j >= i1 {
                assert(o[j - i1 + i0 + 1] == s[j]);
            } else {
                assert(o[i0] == (lo, hi));
                assert(span(s, i0, i1).contains(k));
            }
            assert(covers(o, k));
        }
        if start <= k < end {
            assert(o[i0] == (lo, hi));
            assert(covers(o, k));
        }
    }
}


/// Drops the first range: what is left covers exactly the indices past it.
proof fn lemma_drop_first(s: Seq<(usize, usize)>, k: int)
    requires
        canonical(s),
        s.len() > 0,
    ensures
        canonical(s.drop_first()),
        covers(s.drop_first(), k) <==> (covers(s, k) && k >= s[0].1),
{
    let t = s.drop_first();
    assert forall|i: int, j: int| 0 <= i < j < t.len() implies (#[trigger] t[i]).1 < (#[trigger] t[j]).0 by {
        assert(t[i] == s[i + 1] && t[j] == s[j + 1]);
    }
    assert forall|i: int| 0 <= i < t.len() implies (#[trigger] t[i]).0 < t[i].1 by {
        assert(t[i] == s[i + 1]);
    }
    if covers(t, k) {
        let i = choose|i: int| 0 <= i < t.len() && (#[trigger] t[i]).0 <= k < t[i].1;
        assert(t[i] == s[i + 1]);
        assert(s[0].1 < s[i + 1].0);
        assert(covers(s, k));
    }
    if covers(s, k) && k >= s[0].1 {
        let i = choose|i: int| 0 <= i < s.len() && (#[trigger] s[i]).0 <= k < s[i].1;
        assert(i != 0);
        assert(t[i - 1] == s[i]);
        assert(covers(t, k));
    }
}

/// The smallest covered index starts the first range, and the first index
/// past it that is not covered ends it.
proof fn lemma_first_range(s: Seq<(usize, usize)>, k: int)
    requires
        canonical(s),
        s.len() > 0,
    ensures
        covers(s, k) ==> s[0].0 <= k,
        covers(s, s[0].0 as int),
        s[0].0 <= k < s[0].1 ==> covers(s, k),
        !covers(s, s[0].1 as int),
{
    assert(s[0].0 < s[0].1);
    if covers(s, k) {
        let i = choose|i: int| 0 <= i < s.len() && (#[trigger] s[i]).0 <= k < s[i].1;
        if i > 0 {
            assert(s[0].1 < s[i].0);
        }
    }
    if covers(s, s[0].1 as int) {
        let i = choose|i: int| 0 <= i < s.len() && (#[trigger] s[i]).0 <= s[0].1 < s[i].1;
        if i > 0 {
            assert(s[0].1 < s[i].0);
        }
    }
}

/// Two canonical range lists that cover the same indices are the same list.
pub proof fn lemma_canonical_unique(a: Seq<(usize, usize)>, b: Seq<(usize, usize)>)
    requires
        canonical(a),
        canonical(b),
        forall|k: int| covers(a, k) <==> covers(b, k),
    ensures
        a == b,
    decreases a.len(),
{
    if a.len() == 0 {
        if b.len() > 0 {
            lemma_first_range(b, b[0].0 as int);
            assert(covers(a, b[0].0 as int));
        }
        assert(a =~= b);
    } else if b.len() == 0 {
        lemma_first_range(a, a[0].0 as int);
        assert(covers(b, a[0].0 as int));
    } else {
        lemma_first_range(a, b[0].0 as int);
        lemma_first_range(b, a[0].0 as int);
        lemma_first_range(a, b[0].1 as int);
        lemma_first_range(b, a[0].1 as int);
        assert(a[0].0 == b[0].0);
        if a[0].1 < b[0].1 {
            lemma_first_range(b, a[0].1 as int);
            assert(covers(b, a[0].1 as int));
        }
        if b[0].1 < a[0].1 {
            lemma_first_range(a, b[0].1 as int);
            assert(covers(a, b[0].1 as int));
        }
        assert(a[0] == b[0]);
        assert forall|k: int| covers(a.drop_first(), k) <==> covers(b.drop_first(), k) by {
            lemma_drop_first(a, k);
            lemma_drop_first(b, k);
        }
        lemma_drop_first(a, 0);
        lemma_drop_first(b, 0);
        lemma_canonical_unique(a.drop_first(), b.drop_first());
        assert(a =~= b.drop_first().insert(0, b[0]));
        assert(b =~= b.drop_first().insert(0, b[0]));
    }
}

impl RangeSet {
    /// The canonical ranges, in ascending order.
    pub closed spec fn spec_ranges(&self) -> Seq<(usize, usize)> {
        self.ranges@
    }

    /// The set's ranges are in canonical form.
    pub open spec fn wf(&self) -> bool {
        canonical(self.spec_ranges())
    }

    /// The number of indices in the set.
    pub open spec fn spec_len(&self) -> int {
        total(self.spec_ranges(), self.spec_ranges().len())
    }

    /// Creates an empty set.
    pub fn new() -> (r: RangeSet)
        ensures
            r.wf(),
            r@ == Set::<int>::empty(),
            r.spec_ranges().len() == 0,
    {
        let r = RangeSet { ranges: Vec::new() };
        assert(r@ =~= Set::<int>::empty());
        r
    }

    /// Returns the canonical ranges, in ascending order.
    pub fn iter_ranges(&self) -> (r: &Vec<(usize, usize)>)
        ensures
            r@ == self.spec_ranges(),
    {
        &self.ranges
    }

    /// Returns whether the set is empty.
    pub fn is_empty(&self) -> (r: bool)
        requires
            self.wf(),
        ensures
            r == (self@ == Set::<int>::empty()),
    {
        if self.ranges.len() == 0 {
            assert(self@ =~= Set::<int>::empty());
            true
        } else {
            assert(self@.contains(self.ranges@[0].0 as int));
            false
        }
    }


    /// Returns the union of the set with the range `[start, end)`.
    pub fn union_range(&self, start: usize, end: usize) -> (r: RangeSet)
        requires
            self.wf(),
        ensures
            r.wf(),
            r@ == self@.union(range_set(start as int, end as int)),
    {
        if start >= end {
            let r = self.duplicate();
            assert(r.ranges@ =~= self.ranges@);
            assert(r@ =~= self@.union(range_set(start as int, end as int)));
            return r;
        }
        let ghost s = self.ranges@;
        let n = self.ranges.len();
        let mut out: Vec<(usize, usize)> = Vec::new();
        let mut i: usize = 0;
        while i < n && self.ranges[i].1 < start
            invariant
                i <= n,
                n == s.len(),
                s == self.ranges@,
                canonical(s),
                out@ == s.subrange(0, i as int),
                forall|j: int| 0 <= j < i ==> (#[trigger] s[j]).1 < start,
            decreases n - i,
        {
            out.push(self.ranges[i]);
            i = i + 1;
        }
        let i0 = i;
        let mut lo: usize = start;
        let mut hi: usize = end;
        assert(range_set(lo as int, hi as int) =~= range_set(start as int, end as int).union(span(s, i0 as int, i as int)));
        while i < n && self.ranges[i].0 <= end
            invariant
                i0 <= i <= n,
                n == s.len(),
                s == self.ranges@,
                canonical(s),
                out@ == s.subrange(0, i0 as int),
                forall|j: int| 0 <= j < i0 ==> (#[trigger] s[j]).1 < start,
                i0 < n ==> s[i0 as int].1 >= start,
                lo <= start < end <= hi,
                i > i0 ==> hi == if s[i - 1].1 > end { s[i - 1].1 } else { end },
                i > i0 ==> lo == if s[i0 as int].0 < start { s[i0 as int].0 } else { start },
                i == i0 ==> lo == start && hi == end,
                range_set(lo as int, hi as int) == range_set(start as int, end as int).union(span(s, i0 as int, i as int)),
            decreases n - i,
        {
            let (a, b) = self.ranges[i];
            proof {
                if i > i0 {
                    assert(s[i0 as int].1 < s[i as int].0);
                    assert(s[i0 as int].0 < s[i0 as int].1);
                    assert(s[i - 1].1 < s[i as int].0);
                    assert(s[i as int].0 < s[i as int].1);
                }
            }
            let nlo = if a < lo { a } else { lo };
            let nhi = if b > hi { b } else { hi };
            proof {
                lemma_merge_step(s, i0 as int, i as int, start as int, end as int, lo as int, hi as int, nlo as int, nhi as int);
            }
            lo = nlo;
            hi = nhi;
            i = i + 1;
        }
        let ghost i1 = i;
        proof {
            if i1 < n {
                if i1 > i0 {
                    assert(s[i1 - 1].1 < s[i1 as int].0);
                }
            }
            assert forall|j: int| 0 <= j < i0 implies (#[trigger] s[j]).1 < lo by {
                if i1 > i0 && lo != start {
                    assert(s[j].1 < s[i0 as int].0);
                }
            }
        }
        out.push((lo, hi));
        let ghost mid = out@;
        while i < n
            invariant
                i1 <= i <= n,
                n == s.len(),
                s == self.ranges@,
                out@ == mid + s.subrange(i1 as int, i as int),
            decreases n - i,
        {
            out.push(self.ranges[i]);
            i = i + 1;
        }
        let r = RangeSet { ranges: out };
        proof {
            assert(out@ =~= s.subrange(0, i0 as int).push((lo, hi)) + s.subrange(i1 as int, n as int));
            lemma_splice(s, out@, i0 as int, i1 as int, start as int, end as int, lo, hi);
            assert(r@ =~= self@.union(range_set(start as int, end as int)));
        }
        r
    }

    /// Returns a copy of the set.
    pub fn duplicate(&self) -> (r: RangeSet)
        ensures
            r.spec_ranges() == self.spec_ranges(),
            r@ == self@,
    {
        let mut v: Vec<(usize, usize)> = Vec::with_capacity(self.ranges.len());
        let mut i: usize = 0;
        while i < self.ranges.len()
            invariant
                i <= self.ranges@.len(),
                v@ == self.ranges@.subrange(0, i as int),
            decreases self.ranges@.len() - i,
        {
            v.push(self.ranges[i]);
            i = i + 1;
        }
        assert(v@ =~= self.ranges@);
        let r = RangeSet { ranges: v };
        assert(r@ =~= self@);
        r
    }

    /// Returns whether every index of `[start, end)` is in the set.
    pub fn contains_range(&self, start: usize, end: usize) -> (r: bool)
        requires
            self.wf(),
        ensures
            r == range_set(start as int, end as int).subset_of(self@),
    {
        if start >= end {
            assert(range_set(start as int, end as int) =~= Set::<int>::empty());
            return true;
        }
        let ghost s = self.ranges@;
        let mut i: usize = 0;
        while i < self.ranges.len()
            invariant
                i <= s.len(),
                s == self.ranges@,
                start < end,
                forall|j: int| 0 <= j < i ==> !((#[trigger] s[j]).0 <= start && end <= s[j].1),
            decreases s.len() - i,
        {
            let (a, b) = self.ranges[i];
            if a <= start && end <= b {
                assert(range_set(start as int, end as int).subset_of(self@)) by {
                    assert forall|k: int| #[trigger] range_set(start as int, end as int).contains(k) implies self@.contains(k) by {
                        assert(s[i as int].0 <= k < s[i as int].1);
                    }
                }
                return true;
            }
            i = i + 1;
        }
        proof {
            if range_set(start as int, end as int).subset_of(self@) {
                assert(range_set(start as int, end as int).contains(start as int));
                assert(self@.contains(start as int));
                let j = choose|j: int| 0 <= j < s.len() && (#[trigger] s[j]).0 <= start < s[j].1;
                let e = s[j].1 as int;
                assert(e < end);
                assert(range_set(start as int, end as int).contains(e));
                assert(self@.contains(e));
                let q = choose|q: int| 0 <= q < s.len() && (#[trigger] s[q]).0 <= e < s[q].1;
                if q < j {
                    assert(s[q].1 < s[j].0);
                } else if q > j {
                    assert(s[j].1 < s[q].0);
                }
                assert(false);
            }
        }
        false
    }

    /// Returns whether no index of `[start, end)` is in the set.
    pub fn is_disjoint_range(&self, start: usize, end: usize) -> (r: bool)
        requires
            self.wf(),
        ensures
            r == range_set(start as int, end as int).disjoint(self@),
    {
        let ghost s = self.ranges@;
        let mut i: usize = 0;
        while i < self.ranges.len()
            invariant
                i <= s.len(),
                s == self.ranges@,
                canonical(s),
                forall|j: int| 0 <= j < i ==> !((#[trigger] s[j]).0 < end && start < s[j].1 && start < end),
            decreases s.len() - i,
        {
            let (a, b) = self.ranges[i];
            if a < end && start < b && start < end {
                proof {
                    let k: int = if a < start { start as int } else { a as int };
                    assert(s[i as int].0 < s[i as int].1);
                    assert(range_set(start as int, end as int).contains(k));
                    assert(s[i as int].0 <= k < s[i as int].1);
                    assert(self@.contains(k));
                }
                return false;
            }
            i = i + 1;
        }
        assert forall|k: int| #[trigger] range_set(start as int, end as int).contains(k) implies !self@.contains(k) by {
            if covers(s, k) {
                let j = choose|j: int| 0 <= j < s.len() && (#[trigger] s[j]).0 <= k < s[j].1;
            }
        }
        true
    }

    /// Returns the number of indices in the set.
    pub fn len(&self) -> (r: usize)
        requires
            self.wf(),
        ensures
            r == self.spec_len(),
    {
        let ghost s = self.ranges@;
        let mut acc: usize = 0;
        let mut i: usize = 0;
        while i < self.ranges.len()
            invariant
                i <= s.len(),
                s == self.ranges@,
                canonical(s),
                acc == total(s, i as nat),
                i > 0 ==> acc <= s[i - 1].1,
            decreases s.len() - i,
        {
            let (a, b) = self.ranges[i];
            proof {
                if i > 0 {
                    assert(s[i - 1].1 < s[i as int].0);
                }
                assert(a < b);
            }
            acc = acc + (b - a);
            i = i + 1;
        }
        acc
    }

    /// Returns whether the two sets hold the same indices.
    pub fn set_eq(&self, other: &RangeSet) -> (r: bool)
        requires
            self.wf(),
            other.wf(),
        ensures
            r == (self@ == other@),
            r == (self.spec_ranges() == other.spec_ranges()),
    {
        let ghost a = self.ranges@;
        let ghost b = other.ranges@;
        let ok = if self.ranges.len() != other.ranges.len() {
            false
        } else {
            let mut i: usize = 0;
            let mut same = true;
            assert(a.subrange(0, 0) =~= b.subrange(0, 0));
            while i < self.ranges.len()
                invariant
                    i <= a.len(),
                    a.len() == b.len(),
                    a == self.ranges@,
                    b == other.ranges@,
                    same == (a.subrange(0, i as int) == b.subrange(0, i as int)),
                decreases a.len() - i,
            {
                let (x0, x1) = self.ranges[i];
                let (y0, y1) = other.ranges[i];
                proof {
                    assert(a.subrange(0, i + 1) == a.subrange(0, i as int).push(a[i as int]));
                    assert(b.subrange(0, i + 1) == b.subrange(0, i as int).push(b[i as int]));
                    if a.subrange(0, i + 1) == b.subrange(0, i + 1) {
                        assert(a.subrange(0, i + 1)[i as int] == b.subrange(0, i + 1)[i as int]);
                        assert(a.subrange(0, i as int) =~= a.subrange(0, i + 1).drop_last());
                        assert(b.subrange(0, i as int) =~= b.subrange(0, i + 1).drop_last());
                    }
                }
                same = same && x0 == y0 && x1 == y1;
                i = i + 1;
            }
            assert(a.subrange(0, a.len() as int) =~= a);
            assert(b.subrange(0, b.len() as int) =~= b);
            same
        };
        proof {
            if self@ == other@ {
                assert forall|k: int| covers(a, k) <==> covers(b, k) by {
                    assert(self@.contains(k) == other@.contains(k));
                }
                lemma_canonical_unique(a, b);
            }
            if a == b {
                assert(self@ =~= other@);
            }
        }
        ok
    }

    /// Builds the set of indices covered by a list of ranges, given in any order.
    pub fn from_ranges(ranges: &Vec<(usize, usize)>) -> (r: RangeSet)
        ensures
            r.wf(),
            r@ == Set::new(|k: int| exists|i: int| 0 <= i < ranges@.len() && (#[trigger] ranges@[i]).0 <= k < ranges@[i].1),
    {
        let mut r = RangeSet::new();
        let mut i: usize = 0;
        while i < ranges.len()
            invariant
                i <= ranges@.len(),
                r.wf(),
                r@ == Set::new(|k: int| exists|j: int| 0 <= j < i && (#[trigger] ranges@[j]).0 <= k < ranges@[j].1),
            decreases ranges@.len() - i,
        {
            let (a, b) = ranges[i];
            let ghost prev = r@;
            r = r.union_range(a, b);
            assert(r@ =~= Set::new(|k: int| exists|j: int| 0 <= j < i + 1 && (#[trigger] ranges@[j]).0 <= k < ranges@[j].1)) by {
                assert forall|k: int| r@.contains(k) <==> (exists|j: int| 0 <= j < i + 1 && (#[trigger] ranges@[j]).0 <= k < ranges@[j].1) by {
                    if exists|j: int| 0 <= j < i + 1 && (#[trigger] ranges@[j]).0 <= k < ranges@[j].1 {
                        let j = choose|j: int| 0 <= j < i + 1 && (#[trigger] ranges@[j]).0 <= k < ranges@[j].1;
                        if j < i {
                            assert(prev.contains(k));
                        }
                    }
                }
            }
            i = i + 1;
        }
        r
    }

    /// Returns the indices of the set, range by range in ascending order.
    pub fn indices(&self) -> (r: Vec<usize>)
        requires
            self.wf(),
        ensures
            r@.len() == flatten(self.spec_ranges()).len(),
            forall|j: int| 0 <= j < r@.len() ==> r@[j] as int == #[trigger] flatten(self.spec_ranges())[j],
    {
        let ghost s = self.ranges@;
        let mut out: Vec<usize> = Vec::new();
        let mut i: usize = 0;
        while i < self.ranges.len()
            invariant
                i <= s.len(),
                s == self.ranges@,
                canonical(s),
                out@.len() == flatten(s.subrange(0, i as int)).len(),
                forall|j: int| 0 <= j < out@.len() ==> out@[j] as int == #[trigger] flatten(s.subrange(0, i as int))[j],
            decreases s.len() - i,
        {
            let (a, b) = self.ranges[i];
            assert(s[i as int].0 < s[i as int].1);
            let ghost prev = flatten(s.subrange(0, i as int));
            assert(s.subrange(0, i + 1).drop_last() =~= s.subrange(0, i as int));
            assert(flatten(s.subrange(0, i + 1)) == prev + range_seq(a as int, b as int));
            let mut k: usize = a;
            while k < b
                invariant
                    a <= k <= b,
                    out@.len() == prev.len() + (k - a),
                    forall|j: int| 0 <= j < out@.len() ==> out@[j] as int == #[trigger] (prev + range_seq(a as int, b as int))[j],
                decreases b - k,
            {
                out.push(k);
                k = k + 1;
            }
            assert(out@.len() == (prev + range_seq(a as int, b as int)).len());
            i = i + 1;
        }
        assert(s.subrange(0, s.len() as int) =~= s);
        out
    }

    /// Returns the union of the two sets.
    pub fn union(&self, other: &RangeSet) -> (r: RangeSet)
        requires
            self.wf(),
            other.wf(),
        ensures
            r.wf(),
            r@ == self@.union(other@),
    {
        let mut r = self.duplicate();
        let ghost s = other.ranges@;
        let mut i: usize = 0;
        while i < other.ranges.len()
            invariant
                i <= s.len(),
                s == other.ranges@,
                r.wf(),
                r@ == self@.union(span(s, 0, i as int)),
            decreases s.len() - i,
        {
            let (a, b) = other.ranges[i];
            r = r.union_range(a, b);
            assert(r@ =~= self@.union(span(s, 0, i + 1))) by {
                assert forall|k: int| span(s, 0, i + 1).contains(k) <==> (span(s, 0, i as int).contains(k) || range_set(a as int, b as int).contains(k)) by {
                    if span(s, 0, i + 1).contains(k) {
                        let j = choose|j: int| 0 <= j < i + 1 && (#[trigger] s[j]).0 <= k < s[j].1;
                        if j < i {
                            assert(span(s, 0, i as int).contains(k));
                        }
                    }
                    if span(s, 0, i as int).contains(k) {
                        let j = choose|j: int| 0 <= j < i && (#[trigger] s[j]).0 <= k < s[j].1;
                        assert(span(s, 0, i + 1).contains(k));
                    }
                    if range_set(a as int, b as int).contains(k) {
                        assert(s[i as int].0 <= k < s[i as int].1);
                        assert(span(s, 0, i + 1).contains(k));
                    }
                }
            }
            i = i + 1;
        }
        assert(span(s, 0, s.len() as int) =~= other@);
        r
    }

    /// Returns whether the two sets share no index.
    pub fn is_disjoint(&self, other: &RangeSet) -> (r: bool)
        requires
            self.wf(),
            other.wf(),
        ensures
            r == self@.disjoint(other@),
    {
        let ghost s = other.ranges@;
        let mut i: usize = 0;
        while i < other.ranges.len()
            invariant
                i <= s.len(),
                s == other.ranges@,
                self.wf(),
                forall|j: int| 0 <= j < i ==> range_set((#[trigger] s[j]).0 as int, s[j].1 as int).disjoint(self@),
            decreases s.len() - i,
        {
            let (a, b) = other.ranges[i];
            if !self.is_disjoint_range(a, b) {
                proof {
                    let k = choose|k: int| range_set(a as int, b as int).contains(k) && self@.contains(k);
                    assert(s[i as int].0 <= k < s[i as int].1);
                    assert(other@.contains(k));
                }
                return false;
            }
            i = i + 1;
        }
        assert forall|k: int| self@.contains(k) implies !other@.contains(k) by {
            if covers(s, k) {
                let j = choose|j: int| 0 <= j < s.len() && (#[trigger] s[j]).0 <= k < s[j].1;
                assert(range_set(s[j].0 as int, s[j].1 as int).contains(k));
            }
        }
        true
    }
}

} // verus!
