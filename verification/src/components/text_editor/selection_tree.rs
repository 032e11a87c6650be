use vstd::prelude::*;
use vstd::std_specs::cmp::PartialOrdSpecImpl;
use vstd::std_specs::cmp::PartialEqSpecImpl;

verus! {

/// One end of a selection: a selection covers the positions from its
/// `Start` up to, not including, its `End`.
#[derive(Clone, Copy, Debug, PartialEq, Eq, Structural)]
pub enum SelectionBound {
    Start(usize),
    End(usize),
}

/// `n + delta`, clamped to the range of `usize`.
pub open spec fn saturating_add_signed(n: usize, delta: isize) -> usize {
    if n + delta < 0 {
        0
    } else if n + delta > usize::MAX {
        usize::MAX
    } else {
        (n + delta) as usize
    }
}

fn usize_saturating_add_signed(n: usize, delta: isize) -> (r: usize)
    ensures
        r == saturating_add_signed(n, delta),
{
    match n.checked_add_signed(delta) {
        Some(v) => v,
        None => {
            if delta < 0 {
                0
            } else {
                usize::MAX
            }
        },
    }
}

impl SelectionBound {
    /// The position this bound stands at.
    pub open spec fn key(self) -> usize {
        match self {
            SelectionBound::Start(n) => n,
            SelectionBound::End(n) => n,
        }
    }

    pub fn bound_val(&self) -> (v: &usize)
        ensures
            *v == self.key(),
    {
        match self {
            SelectionBound::Start(n) => n,
            SelectionBound::End(n) => n,
        }
    }

    pub fn is_start(&self) -> (b: bool)
        ensures
            b == (*self is Start),
    {
        match self {
            SelectionBound::Start(_) => true,
            SelectionBound::End(_) => false,
        }
    }

    pub fn is_end(&self) -> (b: bool)
        ensures
            b == (*self is End),
    {
        !self.is_start()
    }

    /// The same kind of bound, moved by `delta` and clamped to `usize`.
    pub fn translate(self, delta: isize) -> (b: SelectionBound)
        ensures
            b == (match self {
                SelectionBound::Start(n) => SelectionBound::Start(saturating_add_signed(n, delta)),
                SelectionBound::End(n) => SelectionBound::End(saturating_add_signed(n, delta)),
            }),
    {
        match self {
            SelectionBound::Start(n) => SelectionBound::Start(usize_saturating_add_signed(n, delta)),
            SelectionBound::End(n) => SelectionBound::End(usize_saturating_add_signed(n, delta)),
        }
    }
}

impl PartialOrd for SelectionBound {
    /// Bounds are ordered by position alone, whatever their kind.
    fn partial_cmp(&self, other: &SelectionBound) -> (r: Option<core::cmp::Ordering>) {
        let a = *self.bound_val();
        let b = *other.bound_val();
        if a < b {
            Some(core::cmp::Ordering::Less)
        } else if a > b {
            Some(core::cmp::Ordering::Greater)
        } else {
            Some(core::cmp::Ordering::Equal)
        }
    }
}

impl PartialOrdSpecImpl for SelectionBound {
    open spec fn obeys_partial_cmp_spec() -> bool {
        true
    }

    open spec fn partial_cmp_spec(&self, other: &SelectionBound) -> Option<core::cmp::Ordering> {
        if self.key() < other.key() {
            Some(core::cmp::Ordering::Less)
        } else if self.key() > other.key() {
            Some(core::cmp::Ordering::Greater)
        } else {
            Some(core::cmp::Ordering::Equal)
        }
    }
}

/// Positions strictly increase along `s`; in particular no two bounds share a
/// position.
pub open spec fn sorted_by_key(s: Seq<SelectionBound>) -> bool {
    forall|i: int, j: int| 0 <= i < j < s.len() ==> s[i].key() < s[j].key()
}

/// How many leading bounds of `s` stand before position `k`; for sorted `s`,
/// the number of bounds before `k`.
pub open spec fn count_below(s: Seq<SelectionBound>, k: int) -> nat
    decreases s.len(),
{
    if s.len() == 0 || s[0].key() >= k {
        0
    } else {
        1 + count_below(s.drop_first(), k)
    }
}

/// Adds `b` to the sorted `s` unless a bound already stands at its position,
/// in which case `s` is kept as it is.
pub open spec fn insert_if_absent(s: Seq<SelectionBound>, b: SelectionBound) -> Seq<SelectionBound> {
    let p = count_below(s, b.key() as int);
    if p < s.len() && s[p as int].key() == b.key() {
        s
    } else {
        s.insert(p as int, b)
    }
}

/// Merges the sorted `a` and `b`; where both hold a bound at one position,
/// the one from `b` is kept.
pub open spec fn merge_prefer_right(a: Seq<SelectionBound>, b: Seq<SelectionBound>) -> Seq<
    SelectionBound,
>
    decreases a.len() + b.len(),
{
    if a.len() == 0 {
        b
    } else if b.len() == 0 {
        a
    } else if a[0].key() < b[0].key() {
        seq![a[0]] + merge_prefer_right(a.drop_first(), b)
    } else if b[0].key() < a[0].key() {
        seq![b[0]] + merge_prefer_right(a, b.drop_first())
    } else {
        seq![b[0]] + merge_prefer_right(a.drop_first(), b.drop_first())
    }
}

/// The bounds after `insert(start, end)` on the bounds `s`, step by step:
/// the bounds from `start` up to `end + 1` are dropped; a `Start(start)` is
/// added unless the first dropped bound was an `End`; then, looking at the
/// first bound kept past `end + 1`: a `Start(end + 1)` there is removed (the
/// selections join), an `End` there is left alone (the new selection ends
/// inside it), and otherwise an `End(end + 1)` is added.
pub open spec fn insert_result(s: Seq<SelectionBound>, start: usize, end: usize) -> Seq<
    SelectionBound,
> {
    let e = end + 1;
    let lo = s.take(count_below(s, start as int) as int);
    let tail = s.skip(count_below(s, start as int) as int);
    let mid = tail.take(count_below(tail, e) as int);
    let hi = tail.skip(count_below(tail, e) as int);
    let lo1 = if mid.len() == 0 || mid[0] is Start {
        insert_if_absent(lo, SelectionBound::Start(start))
    } else {
        lo
    };
    if hi.len() > 0 && hi[0] is Start && hi[0].key() == e {
        merge_prefer_right(lo1, hi.drop_first())
    } else if hi.len() == 0 || hi[0] is Start {
        merge_prefer_right(insert_if_absent(lo1, SelectionBound::End(e as usize)), hi)
    } else {
        merge_prefer_right(lo1, hi)
    }
}

/// For sorted `s`, `count_below` splits `s` into the bounds before `k` and
/// the ones at or after it.
proof fn lemma_count_below(s: Seq<SelectionBound>, k: int)
    requires
        sorted_by_key(s),
    ensures
        count_below(s, k) <= s.len(),
        forall|i: int| 0 <= i < count_below(s, k) ==> s[i].key() < k,
        forall|i: int| count_below(s, k) <= i < s.len() ==> s[i].key() >= k,
    decreases s.len(),
{
    if s.len() > 0 && s[0].key() < k {
        let t = s.drop_first();
        lemma_count_below(t, k);
        assert forall|i: int| 0 <= i < count_below(s, k) implies s[i].key() < k by {
            if i > 0 {
                assert(s[i] == t[i - 1]);
            }
        }
        assert forall|i: int| count_below(s, k) <= i < s.len() implies s[i].key() >= k by {
            assert(s[i] == t[i - 1]);
        }
    }
}

/// A position `i` that splits the sorted `s` at `k` is `count_below(s, k)`.
proof fn lemma_count_below_unique(s: Seq<SelectionBound>, k: int, i: int)
    requires
        sorted_by_key(s),
        0 <= i <= s.len(),
        forall|j: int| 0 <= j < i ==> s[j].key() < k,
        i < s.len() ==> s[i].key() >= k,
    ensures
        count_below(s, k) == i,
    decreases s.len(),
{
    if s.len() > 0 && s[0].key() < k {
        let t = s.drop_first();
        assert forall|j: int| 0 <= j < i - 1 implies t[j].key() < k by {
            assert(t[j] == s[j + 1]);
        }
        if i - 1 < t.len() {
            assert(t[i - 1] == s[i]);
        }
        lemma_count_below_unique(t, k, i - 1);
    }
}

/// Finds `count_below(v, k)` for the sorted `v`.
fn find_split(v: &Vec<SelectionBound>, k: usize) -> (p: usize)
    requires
        sorted_by_key(v@),
    ensures
        p == count_below(v@, k as int),
{
    let mut i: usize = 0;
    while i < v.len() && *v[i].bound_val() < k
        invariant
            i <= v.len(),
            forall|j: int| 0 <= j < i ==> v@[j].key() < k,
        decreases v.len() - i,
    {
        i = i + 1;
    }
    proof {
        lemma_count_below_unique(v@, k as int, i as int);
    }
    i
}

/// Leaves the bounds before `k` in `v` and returns the others, as
/// `BTreeSet::split_off` does for a set ordered by position.
fn split_off_at(v: &mut Vec<SelectionBound>, k: usize) -> (tail: Vec<SelectionBound>)
    requires
        sorted_by_key(old(v)@),
    ensures
        final(v)@ == old(v)@.take(count_below(old(v)@, k as int) as int),
        tail@ == old(v)@.skip(count_below(old(v)@, k as int) as int),
        sorted_by_key(final(v)@),
        sorted_by_key(tail@),
{
    let p = find_split(v, k);
    proof {
        lemma_count_below(v@, k as int);
    }
    let tail = v.split_off(p);
    tail
}

/// Adds `b` unless a bound already stands at its position, as
/// `BTreeSet::insert` does for a set ordered by position.
fn add_if_absent(v: &mut Vec<SelectionBound>, b: SelectionBound)
    requires
        sorted_by_key(old(v)@),
    ensures
        final(v)@ == insert_if_absent(old(v)@, b),
        sorted_by_key(final(v)@),
{
    let p = find_split(v, *b.bound_val());
    proof {
        lemma_count_below(v@, b.key() as int);
    }
    if p < v.len() && *v[p].bound_val() == *b.bound_val() {
    } else {
        let ghost old_v = v@;
        v.insert(p, b);
        assert(sorted_by_key(v@)) by {
            assert forall|i: int, j: int| 0 <= i < j < v@.len() implies v@[i].key() < v@[j].key() by {
                if i < p {
                    assert(v@[i] == old_v[i]);
                } else if i > p {
                    assert(v@[i] == old_v[i - 1]);
                }
                if j < p {
                    assert(v@[j] == old_v[j]);
                } else if j > p {
                    assert(v@[j] == old_v[j - 1]);
                }
            }
        }
    }
}

/// The merge of two sorted sequences is sorted, and it starts at the smaller
/// of their first positions.
proof fn lemma_merge_sorted(a: Seq<SelectionBound>, b: Seq<SelectionBound>)
    requires
        sorted_by_key(a),
        sorted_by_key(b),
    ensures
        sorted_by_key(merge_prefer_right(a, b)),
        merge_prefer_right(a, b).len() > 0 ==> (a.len() > 0 && merge_prefer_right(a, b)[0].key() == a[0].key()) || (b.len() > 0 && merge_prefer_right(a, b)[0].key() == b[0].key()),
        merge_prefer_right(a, b).len() > 0 ==> (a.len() > 0 ==> merge_prefer_right(a, b)[0].key() <= a[0].key()) && (b.len() > 0 ==> merge_prefer_right(a, b)[0].key() <= b[0].key()),
        merge_prefer_right(a, b).len() <= a.len() + b.len(),
    decreases a.len() + b.len(),
{
    let m = merge_prefer_right(a, b);
    if a.len() == 0 || b.len() == 0 {
        return;
    }
    let (x, rest_a, rest_b) = if a[0].key() < b[0].key() {
        (a[0], a.drop_first(), b)
    } else if b[0].key() < a[0].key() {
        (b[0], a, b.drop_first())
    } else {
        (b[0], a.drop_first(), b.drop_first())
    };
    lemma_merge_sorted(rest_a, rest_b);
    let r = merge_prefer_right(rest_a, rest_b);
    assert(m == seq![x] + r);
    assert forall|i: int, j: int| 0 <= i < j < m.len() implies m[i].key() < m[j].key() by {
        if i == 0 {
            assert(m[j] == r[j - 1]);
            if r.len() > 0 {
                assert(r[0].key() <= r[j - 1].key());
                if rest_a.len() > 0 {
                    if rest_a == a {
                        assert(x.key() < a[0].key());
                    } else {
                        assert(rest_a[0] == a[1]);
                    }
                }
                if rest_b.len() > 0 {
                    if rest_b == b {
                        assert(x.key() < b[0].key());
                    } else {
                        assert(rest_b[0] == b[1]);
                    }
                }
            }
        } else {
            assert(m[i] == r[i - 1]);
            assert(m[j] == r[j - 1]);
        }
    }
}

/// Merges `b` into `a`, keeping `b`'s bound where both hold one at the same
/// position, and empties `b`, as `BTreeSet::append` does.
fn append_merge(a: &mut Vec<SelectionBound>, b: &mut Vec<SelectionBound>)
    requires
        sorted_by_key(old(a)@),
        sorted_by_key(old(b)@),
    ensures
        final(a)@ == merge_prefer_right(old(a)@, old(b)@),
        final(b)@ == Seq::<SelectionBound>::empty(),
        sorted_by_key(final(a)@),
{
    let ghost whole = merge_prefer_right(a@, b@);
    let mut res: Vec<SelectionBound> = Vec::new();
    let mut i: usize = 0;
    let mut j: usize = 0;
    proof {
        assert(a@.skip(0) == a@);
        assert(b@.skip(0) == b@);
    }
    while i < a.len() || j < b.len()
        invariant
            i <= a.len(),
            j <= b.len(),
            res@ + merge_prefer_right(a@.skip(i as int), b@.skip(j as int)) == whole,
        decreases a.len() - i + b.len() - j,
    {
        let ghost sa = a@.skip(i as int);
        let ghost sb = b@.skip(j as int);
        if j >= b.len() {
            proof {
                assert(sb.len() == 0);
                assert(sa == seq![a@[i as int]] + a@.skip(i + 1));
            }
            res.push(a[i]);
            i = i + 1;
        } else if i >= a.len() {
            proof {
                assert(sa.len() == 0);
                assert(sb == seq![b@[j as int]] + b@.skip(j + 1));
            }
            res.push(b[j]);
            j = j + 1;
        } else if *a[i].bound_val() < *b[j].bound_val() {
            proof {
                assert(sa.drop_first() == a@.skip(i + 1));
            }
            res.push(a[i]);
            i = i + 1;
        } else if *b[j].bound_val() < *a[i].bound_val() {
            proof {
                assert(sb.drop_first() == b@.skip(j + 1));
            }
            res.push(b[j]);
            j = j + 1;
        } else {
            proof {
                assert(sa.drop_first() == a@.skip(i + 1));
                assert(sb.drop_first() == b@.skip(j + 1));
            }
            res.push(b[j]);
            i = i + 1;
            j = j + 1;
        }
    }
    proof {
        assert(a@.skip(i as int).len() == 0);
        assert(b@.skip(j as int).len() == 0);
        assert(res@ == whole);
        lemma_merge_sorted(a@, b@);
    }
    *a = res;
    b.clear();
}

/// The bounds describe whole selections: they alternate `Start`, `End`,
/// `Start`, `End`, ... in strictly increasing position.
pub open spec fn canonical(s: Seq<SelectionBound>) -> bool {
    &&& sorted_by_key(s)
    &&& s.len() % 2 == 0
    &&& forall|i: int| 0 <= i < s.len() ==> (#[trigger] s[i] is Start <==> i % 2 == 0)
}

/// How many bounds of `s` stand at or before position `pos`.
pub open spec fn bounds_up_to(s: Seq<SelectionBound>, pos: int) -> nat
    decreases s.len(),
{
    if s.len() == 0 {
        0
    } else {
        bounds_up_to(s.drop_last(), pos) + (if s.last().key() <= pos { 1nat } else { 0nat })
    }
}

/// Whether position `pos` is selected: for canonical bounds, exactly when it
/// lies at or after a `Start` and before the `End` that follows it, that is,
/// when an odd number of bounds stand at or before it.
pub open spec fn is_selected(s: Seq<SelectionBound>, pos: int) -> bool {
    bounds_up_to(s, pos) % 2 == 1
}

/// Whether `start..=end` lies inside one selection of `s` without touching
/// that selection's `Start`: the one case in which `insert` adds a `Start`
/// where one is already in effect.
pub open spec fn strictly_inside(s: Seq<SelectionBound>, start: int, end: int) -> bool {
    exists|i: int|
        0 <= i && i + 1 < s.len() && i % 2 == 0 && #[trigger] s[i].key() < start && end + 1
            <= s[i + 1].key()
}

proof fn lemma_bounds_up_to_append(a: Seq<SelectionBound>, b: Seq<SelectionBound>, pos: int)
    ensures
        bounds_up_to(a + b, pos) == bounds_up_to(a, pos) + bounds_up_to(b, pos),
    decreases b.len(),
{
    if b.len() > 0 {
        assert((a + b).drop_last() == a + b.drop_last());
        lemma_bounds_up_to_append(a, b.drop_last(), pos);
    } else {
        assert(a + b == a);
    }
}

proof fn lemma_bounds_up_to_all(s: Seq<SelectionBound>, pos: int)
    requires
        forall|i: int| 0 <= i < s.len() ==> s[i].key() <= pos,
    ensures
        bounds_up_to(s, pos) == s.len(),
    decreases s.len(),
{
    if s.len() > 0 {
        lemma_bounds_up_to_all(s.drop_last(), pos);
    }
}

proof fn lemma_bounds_up_to_none(s: Seq<SelectionBound>, pos: int)
    requires
        forall|i: int| 0 <= i < s.len() ==> s[i].key() > pos,
    ensures
        bounds_up_to(s, pos) == 0,
    decreases s.len(),
{
    if s.len() > 0 {
        lemma_bounds_up_to_none(s.drop_last(), pos);
    }
}

/// Merging sequences that do not interleave puts one after the other.
proof fn lemma_merge_concat(a: Seq<SelectionBound>, b: Seq<SelectionBound>)
    requires
        forall|i: int, j: int| 0 <= i < a.len() && 0 <= j < b.len() ==> a[i].key() < b[j].key(),
    ensures
        merge_prefer_right(a, b) == a + b,
    decreases a.len(),
{
    if a.len() == 0 {
        assert(a + b == b);
    } else if b.len() == 0 {
        assert(a + b == a);
    } else {
        assert(a[0].key() < b[0].key());
        lemma_merge_concat(a.drop_first(), b);
        assert(a + b == seq![a[0]] + (a.drop_first() + b));
    }
}

/// Where no bound stands at `b`'s position or after it, `insert_if_absent`
/// appends `b`.
proof fn lemma_insert_if_absent_at_end(s: Seq<SelectionBound>, b: SelectionBound)
    requires
        sorted_by_key(s),
        forall|i: int| 0 <= i < s.len() ==> s[i].key() < b.key(),
    ensures
        insert_if_absent(s, b) == s.push(b),
{
    lemma_count_below_unique(s, b.key() as int, s.len() as int);
}

/// The bounds that `insert` adds: `Start(start)` when `with_start`, then
/// `End(e)` when `with_end`.
spec fn added_bounds(with_start: bool, with_end: bool, start: usize, e: int) -> Seq<SelectionBound> {
    (if with_start { seq![SelectionBound::Start(start)] } else { seq![] }) + (if with_end {
        seq![SelectionBound::End(e as usize)]
    } else {
        seq![]
    })
}

proof fn lemma_added_bounds(ws: bool, we: bool, start: usize, e: int)
    requires
        start < e <= usize::MAX,
    ensures
        ({
            let x = added_bounds(ws, we, start, e);
            &&& x.len() == (if ws { 1int } else { 0 }) + (if we { 1int } else { 0 })
            &&& sorted_by_key(x)
            &&& forall|i: int| 0 <= i < x.len() ==> start <= #[trigger] x[i].key() <= e
            &&& forall|i: int| 0 <= i < x.len() ==> (#[trigger] x[i] is Start <==> (ws && i == 0))
            &&& forall|i: int| 0 <= i < x.len() ==> (#[trigger] x[i].key() == start <==> (ws && i == 0))
        }),
{
}

/// On canonical bounds, `insert_result` keeps the bounds before `start`
/// (the first `p`), adds `added_bounds(..)`, drops the next `q + d`, and keeps
/// the rest.
proof fn lemma_insert_decompose(s: Seq<SelectionBound>, start: usize, end: usize) -> (res: (
    int,
    int,
    int,
    bool,
    bool,
))
    requires
        canonical(s),
        start <= end < usize::MAX,
        !strictly_inside(s, start as int, end as int),
    ensures
        ({
            let (p, q, d, ws, we) = res;
            let e = end + 1;
            &&& 0 <= p && 0 <= q && 0 <= d <= 1 && p + q + d <= s.len()
            &&& insert_result(s, start, end) == s.take(p) + added_bounds(ws, we, start, e) + s.skip(p + q + d)
            &&& (ws <==> p % 2 == 0)
            &&& (added_bounds(ws, we, start, e).len() % 2 == (q + d) % 2)
            &&& forall|i: int| 0 <= i < p ==> #[trigger] s[i].key() < start
            &&& forall|i: int| p <= i < p + q ==> start <= #[trigger] s[i].key() < e
            &&& forall|i: int| p + q <= i < s.len() ==> #[trigger] s[i].key() >= e
            &&& d == 1 ==> s[p + q].key() == e
            &&& we ==> (p + q + d == s.len() || s[p + q + d].key() > e)
        }),
{
    let e: int = end + 1;
    let p: int = count_below(s, start as int) as int;
    lemma_count_below(s, start as int);
    let tail = s.skip(p);
    assert(sorted_by_key(tail));
    let q: int = count_below(tail, e) as int;
    lemma_count_below(tail, e);
    assert forall|i: int| p <= i < p + q implies start <= #[trigger] s[i].key() < e by {
        assert(s[i] == tail[i - p]);
    }
    assert forall|i: int| p + q <= i < s.len() implies #[trigger] s[i].key() >= e by {
        assert(s[i] == tail[i - p]);
    }
    if p % 2 == 1 && q == 0 {
        assert(s[p - 1].key() < start);
        assert(e <= s[p].key());
        assert(strictly_inside(s, start as int, end as int));
    }
    let kp = p < s.len() && s[p] is Start;
    let kpq = p + q < s.len() && s[p + q] is Start;
    assert(p < s.len() ==> (kp <==> p % 2 == 0));
    assert(p + q < s.len() ==> (kpq <==> (p + q) % 2 == 0));
    assert forall|i: int| p + q < i < s.len() implies #[trigger] s[i].key() > s[p + q].key() by {}
    assert(sorted_by_key(s.take(p)));
    lemma_insert_assemble(s, start, end, p, q)
}

/// The steps of `insert_result`, given where `start` and `end + 1` split the
/// bounds and the kinds of the bounds found there.
#[verifier::rlimit(30)]
proof fn lemma_insert_assemble(s: Seq<SelectionBound>, start: usize, end: usize, p: int, q: int) -> (res: (
    int,
    int,
    int,
    bool,
    bool,
))
    requires
        start <= end < usize::MAX,
        p == count_below(s, start as int),
        q == count_below(s.skip(p), end + 1),
        0 <= p && 0 <= q && p + q <= s.len(),
        sorted_by_key(s.take(p)),
        forall|i: int| 0 <= i < p ==> #[trigger] s[i].key() < start,
        forall|i: int| p <= i < p + q ==> start <= #[trigger] s[i].key() < end + 1,
        forall|i: int| p + q <= i < s.len() ==> #[trigger] s[i].key() >= end + 1,
        p < s.len() ==> (s[p] is Start <==> p % 2 == 0),
        p + q < s.len() ==> (s[p + q] is Start <==> (p + q) % 2 == 0),
        p % 2 == 1 ==> q > 0,
        s.len() % 2 == 0,
        forall|i: int| p + q < i < s.len() ==> #[trigger] s[i].key() > s[p + q].key(),
    ensures
        ({
            let (p2, q2, d, ws, we) = res;
            let e = end + 1;
            &&& p2 == p && q2 == q
            &&& 0 <= d <= 1 && p + q + d <= s.len()
            &&& insert_result(s, start, end) == s.take(p) + added_bounds(ws, we, start, e) + s.skip(p + q + d)
            &&& (ws <==> p % 2 == 0)
            &&& (added_bounds(ws, we, start, e).len() % 2 == (q + d) % 2)
            &&& d == 1 ==> s[p + q].key() == e
            &&& we ==> (p + q + d == s.len() || s[p + q + d].key() > e)
        }),
{
    let e: int = end + 1;
    let lo = s.take(p);
    let tail = s.skip(p);
    let mid = tail.take(q);
    let hi = tail.skip(q);
    assert(hi == s.skip(p + q));
    let ws = mid.len() == 0 || mid[0] is Start;
    if mid.len() > 0 {
        assert(mid[0] == s[p]);
    }
    assert(ws <==> p % 2 == 0);
    let x_start: Seq<SelectionBound> = if ws { seq![SelectionBound::Start(start)] } else { seq![] };
    let lo1 = if ws { insert_if_absent(lo, SelectionBound::Start(start)) } else { lo };
    if ws {
        lemma_insert_if_absent_at_end(lo, SelectionBound::Start(start));
    }
    assert(lo1 == lo + x_start);
    let case_a = hi.len() > 0 && hi[0] is Start && hi[0].key() == e;
    let we = !case_a && (hi.len() == 0 || hi[0] is Start);
    let x_end: Seq<SelectionBound> = if we { seq![SelectionBound::End(e as usize)] } else { seq![] };
    let d: int = if case_a { 1 } else { 0 };
    let h = if case_a { hi.drop_first() } else { hi };
    assert(h == s.skip(p + q + d));
    if hi.len() > 0 {
        assert(hi[0] == s[p + q]);
    }
    let lo2 = if we { insert_if_absent(lo1, SelectionBound::End(e as usize)) } else { lo1 };
    if we {
        assert forall|i: int| 0 <= i < lo1.len() implies lo1[i].key() < e by {
            if i < lo.len() {
                assert(lo1[i] == lo[i]);
            }
        }
        assert(sorted_by_key(lo1)) by {
            assert forall|i: int, j: int| 0 <= i < j < lo1.len() implies lo1[i].key() < lo1[j].key() by {
                assert(lo1[i] == lo[i]);
                if j < lo.len() {
                    assert(lo1[j] == lo[j]);
                }
            }
        }
        lemma_insert_if_absent_at_end(lo1, SelectionBound::End(e as usize));
    }
    assert(lo2 == lo1 + x_end);
    let x = added_bounds(ws, we, start, e);
    assert(x == x_start + x_end);
    assert(lo2 == lo + x);
    lemma_added_bounds(ws, we, start, e);
    if we && p + q + d < s.len() {
        assert(hi[0].key() != e);
    }
    assert forall|i: int, j: int| 0 <= i < lo2.len() && 0 <= j < h.len() implies lo2[i].key() < h[j].key() by {
        assert(h[j] == s[p + q + d + j]);
        if i < lo.len() {
            assert(lo2[i] == s[i]);
        } else {
            assert(lo2[i] == x[i - lo.len()]);
            if we && j > 0 {
                assert(s[p + q + j].key() > s[p + q].key());
            }
        }
    }
    lemma_merge_concat(lo2, h);
    (p, q, d, ws, we)
}

/// Under the shape described by `lemma_insert_decompose`, the result is
/// canonical.
proof fn lemma_decomposed_canonical(
    s: Seq<SelectionBound>,
    start: usize,
    e: int,
    p: int,
    q: int,
    d: int,
    ws: bool,
    we: bool,
)
    requires
        canonical(s),
        start < e <= usize::MAX,
        0 <= p && 0 <= q && 0 <= d <= 1 && p + q + d <= s.len(),
        ws <==> p % 2 == 0,
        added_bounds(ws, we, start, e).len() % 2 == (q + d) % 2,
        forall|i: int| 0 <= i < p ==> #[trigger] s[i].key() < start,
        forall|i: int| p + q <= i < s.len() ==> #[trigger] s[i].key() >= e,
        we ==> (p + q + d == s.len() || s[p + q + d].key() > e),
        d == 1 ==> s[p + q].key() == e,
    ensures
        canonical(s.take(p) + added_bounds(ws, we, start, e) + s.skip(p + q + d)),
{
    let x = added_bounds(ws, we, start, e);
    lemma_added_bounds(ws, we, start, e);
    let r = s.take(p) + x + s.skip(p + q + d);
    assert forall|i: int| 0 <= i < r.len() implies (#[trigger] r[i] is Start <==> i % 2 == 0) by {
        if i < p {
            assert(r[i] == s[i]);
        } else if i < p + x.len() {
            assert(r[i] == x[i - p]);
        } else {
            assert(r[i] == s[p + q + d + (i - p - x.len())]);
        }
    }
    assert forall|i: int, j: int| 0 <= i < j < r.len() implies r[i].key() < r[j].key() by {
        if j < p {
            assert(r[i] == s[i] && r[j] == s[j]);
        } else if j < p + x.len() {
            assert(r[j] == x[j - p]);
            if i < p {
                assert(r[i] == s[i]);
            } else {
                assert(r[i] == x[i - p]);
            }
        } else {
            assert(r[j] == s[p + q + d + (j - p - x.len())]);
            if i < p {
                assert(r[i] == s[i]);
            } else if i < p + x.len() {
                assert(r[i] == x[i - p]);
            } else {
                assert(r[i] == s[p + q + d + (i - p - x.len())]);
            }
        }
    }
}

/// Under the shape described by `lemma_insert_decompose`, a position is
/// selected in the result exactly when it was selected before or lies in
/// `start..e`.
proof fn lemma_decomposed_selected(
    s: Seq<SelectionBound>,
    start: usize,
    e: int,
    p: int,
    q: int,
    d: int,
    ws: bool,
    we: bool,
    pos: int,
)
    requires
        start < e <= usize::MAX,
        0 <= p && 0 <= q && 0 <= d <= 1 && p + q + d <= s.len(),
        ws <==> p % 2 == 0,
        added_bounds(ws, we, start, e).len() % 2 == (q + d) % 2,
        forall|i: int| 0 <= i < p ==> #[trigger] s[i].key() < start,
        forall|i: int| p <= i < p + q ==> start <= #[trigger] s[i].key() < e,
        forall|i: int| p + q <= i < s.len() ==> #[trigger] s[i].key() >= e,
        d == 1 ==> s[p + q].key() == e,
    ensures
        is_selected(s.take(p) + added_bounds(ws, we, start, e) + s.skip(p + q + d), pos) <==> (
        is_selected(s, pos) || start <= pos < e),
{
    let x = added_bounds(ws, we, start, e);
    lemma_added_bounds(ws, we, start, e);
    lemma_split_count(s, p, q, d, pos);
    lemma_join_count(s.take(p), x, s.skip(p + q + d), pos);
    let lo = s.take(p);
    let mid = s.subrange(p, p + q);
    let cut = s.subrange(p + q, p + q + d);
    let h = s.skip(p + q + d);
    if pos < start {
        assert forall|i: int| 0 <= i < mid.len() implies mid[i].key() > pos by {
            assert(mid[i] == s[p + i]);
        }
        assert forall|i: int| 0 <= i < cut.len() implies cut[i].key() > pos by {
            assert(cut[i] == s[p + q + i]);
        }
        assert forall|i: int| 0 <= i < h.len() implies h[i].key() > pos by {
            assert(h[i] == s[p + q + d + i]);
        }
        lemma_bounds_up_to_none(mid, pos);
        lemma_bounds_up_to_none(cut, pos);
        lemma_bounds_up_to_none(h, pos);
        lemma_bounds_up_to_none(x, pos);
    } else if pos < e {
        assert forall|i: int| 0 <= i < lo.len() implies lo[i].key() <= pos by {
            assert(lo[i] == s[i]);
        }
        assert forall|i: int| 0 <= i < cut.len() implies cut[i].key() > pos by {
            assert(cut[i] == s[p + q + i]);
        }
        assert forall|i: int| 0 <= i < h.len() implies h[i].key() > pos by {
            assert(h[i] == s[p + q + d + i]);
        }
        lemma_bounds_up_to_all(lo, pos);
        lemma_bounds_up_to_none(cut, pos);
        lemma_bounds_up_to_none(h, pos);
        lemma_added_count_inside(ws, we, start, e, pos);
    } else {
        assert forall|i: int| 0 <= i < lo.len() implies lo[i].key() <= pos by {
            assert(lo[i] == s[i]);
        }
        assert forall|i: int| 0 <= i < mid.len() implies mid[i].key() <= pos by {
            assert(mid[i] == s[p + i]);
        }
        assert forall|i: int| 0 <= i < cut.len() implies cut[i].key() <= pos by {
            assert(cut[i] == s[p + q + i]);
        }
        lemma_bounds_up_to_all(lo, pos);
        lemma_bounds_up_to_all(mid, pos);
        lemma_bounds_up_to_all(cut, pos);
        lemma_bounds_up_to_all(x, pos);
    }
}

proof fn lemma_split_count(s: Seq<SelectionBound>, p: int, q: int, d: int, pos: int)
    requires
        0 <= p && 0 <= q && 0 <= d && p + q + d <= s.len(),
    ensures
        bounds_up_to(s, pos) == bounds_up_to(s.take(p), pos) + bounds_up_to(s.subrange(p, p + q), pos)
            + bounds_up_to(s.subrange(p + q, p + q + d), pos) + bounds_up_to(s.skip(p + q + d), pos),
{
    let lo = s.take(p);
    let mid = s.subrange(p, p + q);
    let cut = s.subrange(p + q, p + q + d);
    let h = s.skip(p + q + d);
    assert(s == lo + mid + cut + h);
    lemma_bounds_up_to_append(lo + mid + cut, h, pos);
    lemma_bounds_up_to_append(lo + mid, cut, pos);
    lemma_bounds_up_to_append(lo, mid, pos);
}

proof fn lemma_join_count(lo: Seq<SelectionBound>, x: Seq<SelectionBound>, h: Seq<SelectionBound>, pos: int)
    ensures
        bounds_up_to(lo + x + h, pos) == bounds_up_to(lo, pos) + bounds_up_to(x, pos) + bounds_up_to(h, pos),
{
    lemma_bounds_up_to_append(lo + x, h, pos);
    lemma_bounds_up_to_append(lo, x, pos);
}

proof fn lemma_added_count_inside(ws: bool, we: bool, start: usize, e: int, pos: int)
    requires
        start <= pos < e <= usize::MAX,
    ensures
        bounds_up_to(added_bounds(ws, we, start, e), pos) == (if ws { 1nat } else { 0nat }),
{
    let xs: Seq<SelectionBound> = if ws { seq![SelectionBound::Start(start)] } else { seq![] };
    let xe: Seq<SelectionBound> = if we { seq![SelectionBound::End(e as usize)] } else { seq![] };
    assert(added_bounds(ws, we, start, e) == xs + xe);
    lemma_bounds_up_to_append(xs, xe, pos);
    lemma_bounds_up_to_all(xs, pos);
    lemma_bounds_up_to_none(xe, pos);
}

/// Selecting `start..=end` on canonical bounds gives canonical bounds under
/// which exactly the positions selected before and the positions
/// `start..=end` are selected. It holds whenever `start <= end`, except when
/// `start..=end` lies strictly inside a selection (see `strictly_inside`).
pub proof fn lemma_insert_selects_range(s: Seq<SelectionBound>, start: usize, end: usize)
    requires
        canonical(s),
        start <= end < usize::MAX,
        !strictly_inside(s, start as int, end as int),
    ensures
        canonical(insert_result(s, start, end)),
        forall|pos: int|
            #![trigger is_selected(insert_result(s, start, end), pos)]
            is_selected(insert_result(s, start, end), pos) <==> (is_selected(s, pos) || start
                <= pos <= end),
{
    let (p, q, d, ws, we) = lemma_insert_decompose(s, start, end);
    let e: int = end + 1;
    lemma_decomposed_canonical(s, start, e, p, q, d, ws, we);
    assert forall|pos: int| #[trigger]
        is_selected(insert_result(s, start, end), pos) <==> (is_selected(s, pos) || start <= pos
            <= end) by {
        lemma_decomposed_selected(s, start, e, p, q, d, ws, we, pos);
    }
}

/// On sorted bounds, `insert_result` is the bounds before `start`, then at
/// most a `Start(start)` and an `End(end + 1)`, then the bounds after
/// `end + 1` together with, unless it is a `Start`, the one at `end + 1`.
proof fn lemma_insert_result_parts(s: Seq<SelectionBound>, start: usize, end: usize) -> (res: (
    int,
    int,
    Seq<SelectionBound>,
))
    requires
        sorted_by_key(s),
        start <= end < usize::MAX,
    ensures
        ({
            let (p, k, mid) = res;
            let e = end + 1;
            &&& 0 <= p <= k <= s.len()
            &&& insert_result(s, start, end) == s.take(p) + mid + s.skip(k)
            &&& forall|i: int| 0 <= i < p ==> #[trigger] s[i].key() < start
            &&& forall|i: int| p <= i < s.len() ==> #[trigger] s[i].key() >= start
            &&& forall|i: int| p <= i < k ==> #[trigger] s[i].key() <= e
            &&& forall|j: int| 0 <= j < mid.len() ==> #[trigger] mid[j] == SelectionBound::Start(
                start,
            ) || mid[j] == SelectionBound::End(e as usize)
        }),
{
    let e: int = end + 1;
    let p: int = count_below(s, start as int) as int;
    lemma_count_below(s, start as int);
    let lo = s.take(p);
    let tail = s.skip(p);
    assert(sorted_by_key(tail));
    let q: int = count_below(tail, e) as int;
    lemma_count_below(tail, e);
    let mid0 = tail.take(q);
    let hi = tail.skip(q);
    assert(sorted_by_key(lo));
    assert(sorted_by_key(hi));
    assert forall|i: int| 0 <= i < hi.len() implies #[trigger] hi[i].key() >= e by {
        assert(hi[i] == tail[q + i]);
    }
    assert(hi =~= s.skip(p + q));
    assert(lo.take(p) == lo);
    assert forall|i: int| p <= i < p + q implies #[trigger] s[i].key() < e by {
        assert(s[i] == tail[i - p]);
    }
    let with_start = mid0.len() == 0 || mid0[0] is Start;
    let lo1 = if with_start {
        insert_if_absent(lo, SelectionBound::Start(start))
    } else {
        lo
    };
    let added1: Seq<SelectionBound> = if with_start {
        seq![SelectionBound::Start(start)]
    } else {
        seq![]
    };
    if with_start {
        lemma_insert_if_absent_at_end(lo, SelectionBound::Start(start));
    }
    assert(lo1 == lo + added1);
    assert forall|i: int| 0 <= i < lo1.len() implies #[trigger] lo1[i].key() <= start by {
        if i < lo.len() {
            assert(lo1[i] == lo[i]);
        }
    }
    assert(sorted_by_key(lo1)) by {
        assert forall|i: int, j: int| 0 <= i < j < lo1.len() implies lo1[i].key() < lo1[j].key() by {
            if j < lo.len() {
                assert(lo1[i] == lo[i] && lo1[j] == lo[j]);
            } else {
                assert(lo1[i] == lo[i]);
            }
        }
    }
    if hi.len() > 0 && hi[0] is Start && hi[0].key() == e {
        let h2 = hi.drop_first();
        assert forall|i: int, j: int| 0 <= i < lo1.len() && 0 <= j < h2.len() implies lo1[i].key()
            < h2[j].key() by {
            assert(h2[j] == hi[j + 1]);
        }
        lemma_merge_concat(lo1, h2);
        assert(h2 =~= s.skip(p + q + 1));
        assert(insert_result(s, start, end) == lo + added1 + h2);
        assert(insert_result(s, start, end) == s.take(p) + added1 + s.skip(p + q + 1));
        assert(s[p + q] == hi[0]);
        return (p, p + q + 1, added1);
    } else if hi.len() == 0 || hi[0] is Start {
        let end_b = SelectionBound::End(e as usize);
        lemma_insert_if_absent_at_end(lo1, end_b);
        let lo2 = lo1.push(end_b);
        assert forall|i: int, j: int| 0 <= i < lo2.len() && 0 <= j < hi.len() implies lo2[i].key()
            < hi[j].key() by {
            if hi[0].key() == e {
                assert(false);
            }
            if j > 0 {
                assert(hi[0].key() < hi[j].key());
            }
        }
        lemma_merge_concat(lo2, hi);
        let added = added1.push(end_b);
        assert(lo2 == lo + added);
        assert(insert_result(s, start, end) == s.take(p) + added + s.skip(p + q));
        return (p, p + q, added);
    } else {
        assert forall|i: int, j: int| 0 <= i < lo1.len() && 0 <= j < hi.len() implies lo1[i].key()
            < hi[j].key() by {}
        lemma_merge_concat(lo1, hi);
        assert(insert_result(s, start, end) == s.take(p) + added1 + s.skip(p + q));
        return (p, p + q, added1);
    }
}

/// `insert` never touches a bound that lies outside `start..=end + 1`:
/// every bound before `start` or after `end + 1` is still there afterwards.
/// Every other bound of the result is `Start(start)`, `End(end + 1)`, or one
/// of the old bounds. So, for instance, the selection a new range lies in
/// keeps its `Start` and its `End`.
pub proof fn lemma_insert_keeps_outer_bounds(s: Seq<SelectionBound>, start: usize, end: usize)
    requires
        sorted_by_key(s),
        start <= end < usize::MAX,
    ensures
        forall|i: int|
            0 <= i < s.len() && (s[i].key() < start || s[i].key() > end + 1) ==> #[trigger] insert_result(
                s,
                start,
                end,
            ).contains(s[i]),
        forall|j: int|
            0 <= j < insert_result(s, start, end).len() ==> ({
                let b = #[trigger] insert_result(s, start, end)[j];
                ||| b == SelectionBound::Start(start)
                ||| b == SelectionBound::End((end + 1) as usize)
                ||| s.contains(b)
            }),
{
    let (p, k, mid) = lemma_insert_result_parts(s, start, end);
    let r = insert_result(s, start, end);
    assert forall|i: int|
        0 <= i < s.len() && (s[i].key() < start || s[i].key() > end + 1) implies #[trigger] r.contains(
        s[i],
    ) by {
        if i < p {
            assert(r[i] == s[i]);
        } else {
            assert(i >= k);
            assert(r[p + mid.len() + (i - k)] == s[i]);
        }
    }
    assert forall|j: int| 0 <= j < r.len() implies ({
        let b = #[trigger] r[j];
        ||| b == SelectionBound::Start(start)
        ||| b == SelectionBound::End((end + 1) as usize)
        ||| s.contains(b)
    }) by {
        if j < p {
            assert(r[j] == s[j]);
        } else if j < p + mid.len() {
            assert(r[j] == mid[j - p]);
        } else {
            assert(r[j] == s[k + (j - p - mid.len())]);
        }
    }
}

/// Starting from no selection, selecting `a..=b` and then `c..=d` selects
/// exactly the positions of the two ranges (unless the second lies strictly
/// inside the first). Adjacent ranges thus merge into exactly their union:
/// `7..=16` then `17..=20` selects `7..=20`, and `0..=0` then `1..=1`
/// selects `0..=1`.
pub proof fn lemma_two_inserts_select_union(a: usize, b: usize, c: usize, d: usize)
    requires
        a <= b < usize::MAX,
        c <= d < usize::MAX,
        !strictly_inside(
            insert_result(Seq::<SelectionBound>::empty(), a, b),
            c as int,
            d as int,
        ),
    ensures
        canonical(insert_result(insert_result(Seq::<SelectionBound>::empty(), a, b), c, d)),
        forall|pos: int|
            #![trigger is_selected(
                insert_result(insert_result(Seq::<SelectionBound>::empty(), a, b), c, d),
                pos,
            )]
            is_selected(
                insert_result(insert_result(Seq::<SelectionBound>::empty(), a, b), c, d),
                pos,
            ) <==> (a <= pos <= b || c <= pos <= d),
{
    let e = Seq::<SelectionBound>::empty();
    assert(canonical(e));
    assert(!strictly_inside(e, a as int, b as int));
    lemma_insert_selects_range(e, a, b);
    let s1 = insert_result(e, a, b);
    lemma_insert_selects_range(s1, c, d);
    assert forall|pos: int| #[trigger]
        is_selected(insert_result(s1, c, d), pos) <==> (a <= pos <= b || c <= pos <= d) by {
        assert(bounds_up_to(e, pos) == 0);
        assert(is_selected(s1, pos) <==> (is_selected(e, pos) || a <= pos <= b));
    }
}

/// The current selections of a text editor, as an ordered set of bounds,
/// together with an offset by which all of them are shifted when read.
#[derive(Debug)]
pub struct SelectionTree {
    tree: Vec<SelectionBound>,
    translation_offset: isize,
}

impl SelectionTree {
    /// The bounds held, in increasing position.
    pub closed spec fn bounds(&self) -> Seq<SelectionBound> {
        self.tree@
    }

    /// The shift applied to every bound when it is read.
    pub closed spec fn offset(&self) -> isize {
        self.translation_offset
    }

    /// The bounds are in strictly increasing position.
    #[verifier::type_invariant]
    pub closed spec fn wf(&self) -> bool {
        sorted_by_key(self.tree@)
    }

    pub fn new() -> (t: SelectionTree)
        ensures
            t.bounds() == Seq::<SelectionBound>::empty(),
            t.offset() == 0,
    {
        SelectionTree { tree: Vec::new(), translation_offset: 0 }
    }

    /// The first bound's position, shifted by the offset (clamped to
    /// `usize`); 0 when there is no bound.
    pub fn main_cursor(&self) -> (c: usize)
        ensures
            c == (if self.bounds().len() == 0 {
                0
            } else {
                saturating_add_signed(self.bounds()[0].key(), self.offset())
            }),
    {
        if self.tree.len() == 0 {
            0
        } else {
            usize_saturating_add_signed(*self.tree[0].bound_val(), self.translation_offset)
        }
    }

    /// Selects the positions `start..=end`, merging with the selections it
    /// touches or overlaps; see `insert_result` for the exact effect. What
    /// ends up selected is the union of the old selection and the new range
    /// (`lemma_insert_selects_range`, and `lemma_two_inserts_select_union`
    /// for two selections made one after the other).
    pub fn insert(&mut self, start_n: usize, end_n: usize)
        requires
            end_n < usize::MAX,
        ensures
            final(self).bounds() == insert_result(old(self).bounds(), start_n, end_n),
            start_n <= end_n ==> forall|i: int|
                0 <= i < old(self).bounds().len() && (old(self).bounds()[i].key() < start_n
                    || old(self).bounds()[i].key() > end_n + 1) ==> #[trigger] final(self).bounds().contains(old(self).bounds()[i]),
            final(self).offset() == old(self).offset(),
    {
        proof {
            use_type_invariant(&*self);
        }
        let mut tree: Vec<SelectionBound> = Vec::new();
        core::mem::swap(&mut self.tree, &mut tree);
        let ghost s = tree@;
        let end_n = end_n + 1;
        let mut tail = split_off_at(&mut tree, start_n);
        let mut to_keep = split_off_at(&mut tail, end_n);
        if tail.len() == 0 || tail[0].is_start() {
            add_if_absent(&mut tree, SelectionBound::Start(start_n));
        }
        if to_keep.len() > 0 && to_keep[0].is_start() && *to_keep[0].bound_val() == end_n {
            let ghost before = to_keep@;
            to_keep.remove(0);
            assert(to_keep@ == before.drop_first());
        } else if to_keep.len() == 0 || to_keep[0].is_start() {
            add_if_absent(&mut tree, SelectionBound::End(end_n));
        }
        append_merge(&mut tree, &mut to_keep);
        core::mem::swap(&mut self.tree, &mut tree);
        proof {
            if start_n <= (end_n - 1) as usize {
                lemma_insert_keeps_outer_bounds(s, start_n, (end_n - 1) as usize);
            }
        }
    }

    pub fn is_main_cursor(&self, offset: usize) -> (b: bool)
        ensures
            b == (offset == (if self.bounds().len() == 0 {
                0
            } else {
                saturating_add_signed(self.bounds()[0].key(), self.offset())
            })),
    {
        self.main_cursor() == offset
    }

    /// Whether some bound stands at the position `0 + (offset - start)`
    /// (clamped to `usize`); bounds of either kind count.
    pub fn contains(&self, start: usize) -> (b: bool)
        requires
            fits_isize_sub(self.offset(), start as isize),
        ensures
            b == (exists|i: int|
                0 <= i < self.bounds().len() && #[trigger] self.bounds()[i].key()
                    == saturating_add_signed(0, (self.offset() - (start as isize)) as isize)),
    {
        let k = usize_saturating_add_signed(0, self.translation_offset - start as isize);
        let mut i: usize = 0;
        while i < self.tree.len()
            invariant
                i <= self.tree@.len(),
                k == saturating_add_signed(0, (self.offset() - (start as isize)) as isize),
                forall|j: int| 0 <= j < i ==> self.tree@[j].key() != k,
            decreases self.tree.len() - i,
        {
            if *self.tree[i].bound_val() == k {
                assert(self.bounds()[i as int].key() == k);
                return true;
            }
            i = i + 1;
        }
        false
    }

    /// Shifts every selection by `delta`.
    pub fn translate(&mut self, delta: isize)
        requires
            isize::MIN <= old(self).offset() + delta <= isize::MAX,
        ensures
            final(self).bounds() == old(self).bounds(),
            final(self).offset() == old(self).offset() + delta,
    {
        proof {
            use_type_invariant(&*self);
        }
        self.translation_offset = self.translation_offset + delta;
    }
}

/// Whether `a - b` fits in an `isize`.
pub open spec fn fits_isize_sub(a: isize, b: isize) -> bool {
    isize::MIN <= a - b <= isize::MAX
}

impl PartialEq for SelectionTree {
    fn eq(&self, other: &SelectionTree) -> (r: bool) {
        if self.translation_offset != other.translation_offset || self.tree.len()
            != other.tree.len() {
            return false;
        }
        let mut i: usize = 0;
        while i < self.tree.len()
            invariant
                i <= self.tree@.len(),
                self.tree@.len() == other.tree@.len(),
                forall|j: int| 0 <= j < i ==> self.tree@[j] == other.tree@[j],
            decreases self.tree.len() - i,
        {
            if self.tree[i] != other.tree[i] {
                return false;
            }
            i = i + 1;
        }
        assert(self.tree@ == other.tree@);
        true
    }
}

impl PartialEqSpecImpl for SelectionTree {
    open spec fn obeys_eq_spec() -> bool {
        true
    }

    open spec fn eq_spec(&self, other: &SelectionTree) -> bool {
        self.bounds() == other.bounds() && self.offset() == other.offset()
    }
}

impl Eq for SelectionTree {

}

} // verus!
