//! Search requests, result pages and the compact selection of result indices.

use vstd::prelude::*;
use vstd::set_lib::*;

verus! {

/// The column a result list is ordered by.
#[derive(Debug, Clone, Copy, PartialEq, Eq, Structural)]
pub enum SortColumn {
    Name,
    Path,
    Extension,
    Size,
    Modified,
}

/// Ascending or descending order.
#[derive(Debug, Clone, Copy, PartialEq, Eq, Structural)]
pub enum SortDirection {
    Ascending,
    Descending,
}

impl SortDirection {
    /// The opposite direction.
    pub fn toggle(self) -> (r: Self)
        ensures
            r == (match self {
                SortDirection::Ascending => SortDirection::Descending,
                SortDirection::Descending => SortDirection::Ascending,
            }),
    {
        match self {
            SortDirection::Ascending => SortDirection::Descending,
            SortDirection::Descending => SortDirection::Ascending,
        }
    }
}

/// A sort column together with its direction.
#[derive(Debug, Clone, Copy, PartialEq, Eq, Structural)]
pub struct SortSpec {
    pub column: SortColumn,
    pub direction: SortDirection,
}

impl Default for SortSpec {
    /// Results are ordered by name, ascending, unless the user asks otherwise.
    fn default() -> (r: Self)
        ensures
            r.column == SortColumn::Name,
            r.direction == SortDirection::Ascending,
    {
        SortSpec { column: SortColumn::Name, direction: SortDirection::Ascending }
    }
}

/// One page of a search: `limit` results starting at `offset`.
#[derive(Debug, Clone)]
pub struct QueryRequest {
    pub query: String,
    pub offset: u32,
    pub limit: u32,
    pub sort: SortSpec,
    pub request_id: u32,
}

/// The ranges of results that a file operation is about, for one search.
#[derive(Debug, Clone)]
pub struct SelectionRequest {
    pub query: String,
    pub sort: SortSpec,
    pub request_id: u32,
    pub ranges: Vec<SelectionRange>,
}

/// A deletion that waits for the user's confirmation.
#[derive(Debug, Clone, PartialEq, Eq, Structural)]
pub struct TrashPreparation {
    pub snapshot_id: u64,
    pub count: usize,
}

/// What a confirmed deletion did.
#[derive(Debug, Clone, PartialEq, Eq)]
pub struct TrashOutcome {
    pub deleted: usize,
    pub deleted_paths: Vec<String>,
    pub failures: Vec<String>,
}

/// One file or folder found by the engine.
#[derive(Debug, Clone)]
pub struct SearchResult {
    pub id: String,
    pub name: String,
    pub parent_path: String,
    pub full_path: String,
    pub size: Option<u64>,
    pub modified_unix: Option<i64>,
    pub is_dir: bool,
}

/// One page of results, with the total number of matches.
#[derive(Debug, Clone)]
pub struct SearchPage {
    pub request_id: u32,
    pub offset: u32,
    pub total: u32,
    pub items: Vec<SearchResult>,
}

/// What the search engine reports about itself.
#[derive(Debug, Clone)]
pub struct EngineStatus {
    pub available: bool,
    pub indexing: bool,
    pub ready_volumes: u32,
    pub total_volumes: u32,
    pub message: String,
    pub version: Option<String>,
}

/// An inclusive range of result indices, `start <= end` once built by `new`.
#[derive(Debug, Clone, Copy, PartialEq, Eq, Structural)]
pub struct SelectionRange {
    pub start: u32,
    pub end: u32,
}

/// The indices that an inclusive range holds.
pub open spec fn range_holds(r: SelectionRange, i: int) -> bool {
    r.start <= i <= r.end
}

/// Some range of the sequence holds `i`.
pub open spec fn covers(rs: Seq<SelectionRange>, i: int) -> bool {
    exists|k: int| 0 <= k < rs.len() && #[trigger] range_holds(rs[k], i)
}

/// The set of indices that a sequence of ranges holds together.
pub open spec fn ranges_set(rs: Seq<SelectionRange>) -> Set<int> {
    Set::new(|i: int| covers(rs, i))
}

/// The canonical form of a selection: every range is well ordered, and the
/// ranges are sorted and separated by at least one unselected index.
pub open spec fn normalized(rs: Seq<SelectionRange>) -> bool {
    &&& forall|k: int| 0 <= k < rs.len() ==> (#[trigger] rs[k]).start <= rs[k].end
    &&& forall|a: int, b: int|
        0 <= a < b < rs.len() ==> (#[trigger] rs[a]).end + 1 < (#[trigger] rs[b]).start
}

/// The number of indices that a sequence of ranges holds, counted range by range.
pub open spec fn total_len(rs: Seq<SelectionRange>) -> int
    decreases rs.len(),
{
    if rs.len() == 0 {
        0
    } else {
        total_len(rs.drop_last()) + (rs.last().end - rs.last().start + 1)
    }
}

impl SelectionRange {
    /// The range between two indices, whichever comes first.
    pub fn new(start: u32, end: u32) -> (r: Self)
        ensures
            r.start == (if start <= end { start } else { end }),
            r.end == (if start <= end { end } else { start }),
    {
        if start <= end {
            SelectionRange { start, end }
        } else {
            SelectionRange { start: end, end: start }
        }
    }

    /// The number of indices in the range; a range always holds at least one.
    pub fn len(self) -> (n: u64)
        requires
            self.start <= self.end,
        ensures
            n == self.end - self.start + 1,
    {
        self.end as u64 - self.start as u64 + 1
    }
}


/// The indices of one range, as a set.
pub open spec fn range_set(r: SelectionRange) -> Set<int> {
    Set::new(|i: int| range_holds(r, i))
}

/// The range `[start, end]` in the order `new` gives it.
pub open spec fn ordered_range(a: u32, b: u32) -> Set<int> {
    if a <= b {
        set_int_range(a as int, b + 1)
    } else {
        set_int_range(b as int, a + 1)
    }
}

/// A set with one member flipped: removed when present, added when absent.
pub open spec fn toggled(s: Set<int>, i: int) -> Set<int> {
    if s.contains(i) {
        s.remove(i)
    } else {
        s.insert(i)
    }
}

/// Toggling the same index twice gives the selection back.
pub proof fn law_toggle_twice(s: Set<int>, i: int)
    ensures
        toggled(toggled(s, i), i) == s,
{
    assert(toggled(toggled(s, i), i) =~= s);
}

/// Appending a range to a sequence adds exactly its indices.
pub proof fn lemma_ranges_set_push(rs: Seq<SelectionRange>, x: SelectionRange)
    ensures
        ranges_set(rs.push(x)) == ranges_set(rs).union(range_set(x)),
{
    let s = rs.push(x);
    assert forall|i: int| covers(s, i) <==> (covers(rs, i) || range_holds(x, i)) by {
        if covers(s, i) {
            let k = choose|k: int| 0 <= k < s.len() && #[trigger] range_holds(s[k], i);
            if k < rs.len() {
                assert(s[k] == rs[k]);
                assert(range_holds(rs[k], i));
            }
        }
        if covers(rs, i) {
            let k = choose|k: int| 0 <= k < rs.len() && #[trigger] range_holds(rs[k], i);
            assert(s[k] == rs[k]);
            assert(range_holds(s[k], i));
        }
        if range_holds(x, i) {
            assert(s[rs.len() as int] == x);
            assert(range_holds(s[rs.len() as int], i));
        }
    }
    assert(ranges_set(s) =~= ranges_set(rs).union(range_set(x)));
}

/// No range at all holds no index.
pub proof fn lemma_ranges_set_empty(rs: Seq<SelectionRange>)
    requires
        rs.len() == 0,
    ensures
        ranges_set(rs) == Set::<int>::empty(),
{
    assert(ranges_set(rs) =~= Set::<int>::empty());
}

/// A one-range sequence holds that range.
pub proof fn lemma_ranges_set_single(x: SelectionRange)
    ensures
        ranges_set(seq![x]) == range_set(x),
{
    lemma_ranges_set_push(Seq::<SelectionRange>::empty(), x);
    lemma_ranges_set_empty(Seq::<SelectionRange>::empty());
    assert(seq![x] == Seq::<SelectionRange>::empty().push(x));
    assert(ranges_set(seq![x]) =~= range_set(x));
}

/// Every index of a normalized sequence lies at or before the end of its last range.
pub proof fn lemma_ranges_set_below(rs: Seq<SelectionRange>, i: int)
    requires
        normalized(rs),
        ranges_set(rs).contains(i),
    ensures
        rs.len() > 0,
        i <= rs.last().end,
        rs[0].start <= i,
{
    let k = choose|k: int| 0 <= k < rs.len() && #[trigger] range_holds(rs[k], i);
    if k < rs.len() - 1 {
        assert(rs[k].end + 1 < rs[rs.len() - 1].start);
    }
    if k > 0 {
        assert(rs[0].end + 1 < rs[k].start);
    }
}

/// Pushing a range that starts beyond the last one keeps the canonical form.
pub proof fn lemma_push_normalized(rs: Seq<SelectionRange>, x: SelectionRange)
    requires
        normalized(rs),
        x.start <= x.end,
        rs.len() > 0 ==> rs.last().end + 1 < x.start,
    ensures
        normalized(rs.push(x)),
{
    let s = rs.push(x);
    assert forall|a: int, b: int| 0 <= a < b < s.len() implies (#[trigger] s[a]).end + 1 < (
    #[trigger] s[b]).start by {
        if b == rs.len() {
            if a < rs.len() - 1 {
                assert(rs[a].end + 1 < rs[rs.len() - 1].start);
            }
        } else {
            assert(s[a] == rs[a] && s[b] == rs[b]);
        }
    }
}

/// A normalized sequence holds finitely many indices, exactly as many as its
/// ranges count together, and never more than the end of its last range allows.
pub proof fn lemma_ranges_set_len(rs: Seq<SelectionRange>)
    requires
        normalized(rs),
    ensures
        ranges_set(rs).finite(),
        ranges_set(rs).len() == total_len(rs),
        rs.len() > 0 ==> total_len(rs) <= rs.last().end + 1,
        total_len(rs) >= 0,
    decreases rs.len(),
{
    if rs.len() == 0 {
        lemma_ranges_set_empty(rs);
    } else {
        let d = rs.drop_last();
        let l = rs.last();
        assert(normalized(d)) by {
            assert forall|a: int, b: int| 0 <= a < b < d.len() implies (#[trigger] d[a]).end + 1 < (
            #[trigger] d[b]).start by {
                assert(d[a] == rs[a] && d[b] == rs[b]);
            }
        }
        lemma_ranges_set_len(d);
        assert(rs == d.push(l));
        lemma_ranges_set_push(d, l);
        assert(range_set(l) =~= set_int_range(l.start as int, l.end + 1));
        lemma_int_range(l.start as int, l.end + 1);
        assert(ranges_set(d).disjoint(range_set(l))) by {
            assert forall|i: int| ranges_set(d).contains(i) implies !range_set(l).contains(i) by {
                lemma_ranges_set_below(d, i);
                assert(d[d.len() - 1] == rs[rs.len() - 2]);
                assert(rs[rs.len() - 2].end + 1 < rs[rs.len() - 1].start);
            }
        }
        lemma_set_disjoint_lens(ranges_set(d), range_set(l));
        if d.len() > 0 {
            assert(d[d.len() - 1] == rs[rs.len() - 2]);
            assert(rs[rs.len() - 2].end + 1 < rs[rs.len() - 1].start);
        }
    }
}

/// Without its first range, a normalized sequence holds exactly the indices
/// that lie beyond that range.
proof fn lemma_ranges_set_rest(rs: Seq<SelectionRange>)
    requires
        normalized(rs),
        rs.len() > 0,
    ensures
        normalized(rs.drop_first()),
        ranges_set(rs.drop_first()) == ranges_set(rs).difference(range_set(rs[0])),
        forall|i: int| #[trigger] ranges_set(rs.drop_first()).contains(i) ==> rs[0].end + 1 < i,
{
    let d = rs.drop_first();
    assert(normalized(d)) by {
        assert forall|a: int, b: int| 0 <= a < b < d.len() implies (#[trigger] d[a]).end + 1 < (
        #[trigger] d[b]).start by {
            assert(d[a] == rs[a + 1] && d[b] == rs[b + 1]);
        }
    }
    assert forall|i: int| #[trigger] ranges_set(d).contains(i) implies rs[0].end + 1 < i by {
        let k = choose|k: int| 0 <= k < d.len() && #[trigger] range_holds(d[k], i);
        assert(d[k] == rs[k + 1]);
        assert(rs[0].end + 1 < rs[k + 1].start);
    }
    assert forall|i: int| ranges_set(d).contains(i) == ranges_set(rs).difference(range_set(rs[0])).contains(i) by {
        if ranges_set(d).contains(i) {
            let k = choose|k: int| 0 <= k < d.len() && #[trigger] range_holds(d[k], i);
            assert(d[k] == rs[k + 1]);
            assert(range_holds(rs[k + 1], i));
        }
        if ranges_set(rs).contains(i) && !range_set(rs[0]).contains(i) {
            let k = choose|k: int| 0 <= k < rs.len() && #[trigger] range_holds(rs[k], i);
            assert(k != 0);
            assert(d[k - 1] == rs[k]);
            assert(range_holds(d[k - 1], i));
        }
    }
    assert(ranges_set(d) =~= ranges_set(rs).difference(range_set(rs[0])));
}

/// A set of indices has exactly one canonical decomposition into ranges, so
/// two selections that hold the same indices keep the same ranges.
pub proof fn lemma_canonical_form_unique(a: Seq<SelectionRange>, b: Seq<SelectionRange>)
    requires
        normalized(a),
        normalized(b),
        ranges_set(a) == ranges_set(b),
    ensures
        a == b,
    decreases a.len(),
{
    if a.len() == 0 || b.len() == 0 {
        if a.len() > 0 {
            assert(range_holds(a[0], a[0].start as int));
            assert(ranges_set(a).contains(a[0].start as int));
            lemma_ranges_set_below(b, a[0].start as int);
        }
        if b.len() > 0 {
            assert(range_holds(b[0], b[0].start as int));
            assert(ranges_set(b).contains(b[0].start as int));
            lemma_ranges_set_below(a, b[0].start as int);
        }
        assert(a =~= b);
    } else {
        let x = a[0];
        let y = b[0];
        assert(range_holds(x, x.start as int));
        assert(ranges_set(a).contains(x.start as int));
        lemma_ranges_set_below(b, x.start as int);
        assert(range_holds(y, y.start as int));
        assert(ranges_set(b).contains(y.start as int));
        lemma_ranges_set_below(a, y.start as int);
        lemma_ranges_set_rest(a);
        lemma_ranges_set_rest(b);
        if x.end < y.end {
            let j = x.end + 1;
            assert(range_holds(y, j));
            assert(ranges_set(b).contains(j));
            assert(!range_set(x).contains(j));
            assert(ranges_set(a.drop_first()).contains(j));
        }
        if y.end < x.end {
            let j = y.end + 1;
            assert(range_holds(x, j));
            assert(ranges_set(a).contains(j));
            assert(!range_set(y).contains(j));
            assert(ranges_set(b.drop_first()).contains(j));
        }
        assert(x == y);
        lemma_canonical_form_unique(a.drop_first(), b.drop_first());
        assert(a =~= b) by {
            assert forall|k: int| 0 <= k < a.len() implies a[k] == b[k] by {
                if k > 0 {
                    assert(a[k] == a.drop_first()[k - 1]);
                    assert(b[k] == b.drop_first()[k - 1]);
                }
            }
        }
    }
}

/// A set of result indices, kept as sorted, separated, inclusive ranges so
/// that selecting every result of a large search costs a single range.
#[derive(Debug, PartialEq, Eq)]
pub struct IndexSelection {
    ranges: Vec<SelectionRange>,
}

impl View for IndexSelection {
    type V = Set<int>;

    closed spec fn view(&self) -> Set<int> {
        ranges_set(self.ranges@)
    }
}

impl IndexSelection {
    #[verifier::type_invariant]
    spec fn canonical(self) -> bool {
        normalized(self.ranges@)
    }

    /// The ranges of the selection, in their canonical order.
    pub closed spec fn range_seq(&self) -> Seq<SelectionRange> {
        self.ranges@
    }


    /// Forgets every selected index.
    pub fn clear(&mut self)
        ensures
            final(self)@ == Set::<int>::empty(),
            final(self).range_seq().len() == 0,
    {
        self.ranges = Vec::new();
        proof {
            lemma_ranges_set_empty(self.ranges@);
        }
    }

    /// Whether nothing is selected.
    pub fn is_empty(&self) -> (b: bool)
        ensures
            b == (self@ == Set::<int>::empty()),
    {
        proof {
            use_type_invariant(self);
        }
        let b = self.ranges.len() == 0;
        proof {
            if b {
                lemma_ranges_set_empty(self.ranges@);
            } else {
                assert(range_holds(self.ranges@[0], self.ranges@[0].start as int));
                assert(self@.contains(self.ranges@[0].start as int));
            }
        }
        b
    }

    /// Whether `index` is selected; a binary search over the ranges.
    pub fn contains(&self, index: u32) -> (b: bool)
        ensures
            b == self@.contains(index as int),
    {
        proof {
            use_type_invariant(self);
        }
        let n = self.ranges.len();
        let mut lo: usize = 0;
        let mut hi: usize = n;
        while lo < hi
            invariant
                0 <= lo <= hi <= n,
                n == self.ranges@.len(),
                normalized(self.ranges@),
                forall|k: int| 0 <= k < lo ==> (#[trigger] self.ranges@[k]).end < index,
                forall|k: int| hi <= k < n ==> (#[trigger] self.ranges@[k]).end >= index,
            decreases hi - lo,
        {
            let mid = lo + (hi - lo) / 2;
            if self.ranges[mid].end < index {
                lo = mid + 1;
            } else {
                hi = mid;
            }
        }
        let found = lo < n && self.ranges[lo].start <= index;
        proof {
            let rs = self.ranges@;
            if found {
                assert(range_holds(rs[lo as int], index as int));
            } else if covers(rs, index as int) {
                let k = choose|k: int| 0 <= k < rs.len() && #[trigger] range_holds(rs[k], index as int);
                if k > lo {
                    assert(rs[lo as int].end + 1 < rs[k].start);
                }
            }
        }
        found
    }

    /// How many indices are selected.
    pub fn count(&self) -> (c: u64)
        ensures
            self@.finite(),
            c == self@.len(),
    {
        proof {
            use_type_invariant(self);
            lemma_ranges_set_len(self.ranges@);
        }
        ranges_count(&self.ranges)
    }

    /// The smallest selected index, if any.
    pub fn first(&self) -> (f: Option<u32>)
        ensures
            f is None <==> self@ == Set::<int>::empty(),
            f matches Some(m) ==> self@.contains(m as int) && forall|i: int|
                #[trigger] self@.contains(i) ==> m <= i,
    {
        proof {
            use_type_invariant(self);
        }
        if self.ranges.len() == 0 {
            proof {
                lemma_ranges_set_empty(self.ranges@);
            }
            None
        } else {
            let m = self.ranges[0].start;
            proof {
                assert(range_holds(self.ranges@[0], m as int));
                assert(self@.contains(m as int));
                assert(!Set::<int>::empty().contains(m as int));
                assert forall|i: int| #[trigger] self@.contains(i) implies m <= i by {
                    lemma_ranges_set_below(self.ranges@, i);
                }
            }
            Some(m)
        }
    }

    /// The canonical ranges of the selection: sorted, separated, and holding
    /// exactly the selected indices (a set has one such decomposition).
    pub fn ranges(&self) -> (r: Vec<SelectionRange>)
        ensures
            r@ == self.range_seq(),
            normalized(r@),
            ranges_set(r@) == self@,
    {
        proof {
            use_type_invariant(self);
        }
        let n = self.ranges.len();
        let mut out: Vec<SelectionRange> = Vec::new();
        let mut i: usize = 0;
        while i < n
            invariant
                0 <= i <= n,
                n == self.ranges@.len(),
                out@ == self.ranges@.take(i as int),
            decreases n - i,
        {
            out.push(self.ranges[i]);
            i = i + 1;
            proof {
                assert(out@ == self.ranges@.take(i as int));
            }
        }
        proof {
            assert(out@ == self.ranges@);
        }
        out
    }

    /// Selects exactly one index.
    pub fn select_only(&mut self, index: u32)
        ensures
            final(self)@ == set_int_range(index as int, index + 1),
    {
        let r = SelectionRange::new(index, index);
        proof {
            lemma_ranges_set_single(r);
            assert(range_set(r) =~= set_int_range(index as int, index + 1));
        }
        self.ranges = vec![r];
    }

    /// Selects exactly the indices between `anchor` and `target`, both included.
    pub fn select_range(&mut self, anchor: u32, target: u32)
        ensures
            final(self)@ == ordered_range(anchor, target),
    {
        let r = SelectionRange::new(anchor, target);
        proof {
            lemma_ranges_set_single(r);
            assert(range_set(r) =~= ordered_range(anchor, target));
        }
        self.ranges = vec![r];
    }

    /// Selects every index below `total`, in a single range.
    pub fn select_all(&mut self, total: u32)
        ensures
            final(self)@ == set_int_range(0, total as int),
            final(self).range_seq().len() == (if total == 0 { 0int } else { 1int }),
    {
        if total == 0 {
            self.clear();
            proof {
                assert(set_int_range(0, 0) =~= Set::<int>::empty());
            }
        } else {
            let r = SelectionRange::new(0, total - 1);
            proof {
                lemma_ranges_set_single(r);
                assert(range_set(r) =~= set_int_range(0, total as int));
            }
            self.ranges = vec![r];
        }
    }
}

/// Merges one well-ordered range into canonical ranges: ranges that end well
/// before it and ranges that start well after it stay, the others are absorbed.
fn merge_range(rs: &Vec<SelectionRange>, added: SelectionRange) -> (merged: Vec<SelectionRange>)
    requires
        normalized(rs@),
        added.start <= added.end,
    ensures
        normalized(merged@),
        ranges_set(merged@) == ranges_set(rs@).union(range_set(added)),
{
        let ghost old_rs = rs@;
        let n = rs.len();
        let mut merged: Vec<SelectionRange> = Vec::new();
        let mut i: usize = 0;
        // Ranges that end well before the added one stay as they are.
        while i < n && (rs[i].end as u64) + 1 < added.start as u64
            invariant
                0 <= i <= n,
                n == old_rs.len(),
                old_rs == rs@,
                normalized(old_rs),
                merged@ == old_rs.take(i as int),
                forall|k: int| 0 <= k < i ==> (#[trigger] old_rs[k]).end + 1 < added.start,
            decreases n - i,
        {
            merged.push(rs[i]);
            i = i + 1;
            proof {
                assert(merged@ == old_rs.take(i as int));
            }
        }
        let ghost first_merged = i as int;
        proof {
            assert(normalized(merged@)) by {
                assert forall|a: int, b: int| 0 <= a < b < merged@.len() implies (
                #[trigger] merged@[a]).end + 1 < (#[trigger] merged@[b]).start by {
                    assert(merged@[a] == old_rs[a] && merged@[b] == old_rs[b]);
                }
            }
        }
        // Ranges that overlap or touch the added one are absorbed into it.
        let mut current = added;
        while i < n && rs[i].start as u64 <= (current.end as u64) + 1
            invariant
                first_merged <= i <= n,
                n == old_rs.len(),
                old_rs == rs@,
                normalized(old_rs),
                merged@ == old_rs.take(first_merged),
                current.start <= current.end,
                range_set(current).union(ranges_set(old_rs.take(first_merged))) == ranges_set(
                    old_rs.take(i as int),
                ).union(range_set(added)),
                forall|k: int| 0 <= k < first_merged ==> (#[trigger] old_rs[k]).end + 1 < current.start,
                i < n ==> old_rs[i as int].end + 1 >= current.start,
            decreases n - i,
        {
            let r = rs[i];
            let ghost before = current;
            let start = if r.start < current.start { r.start } else { current.start };
            let end = if r.end > current.end { r.end } else { current.end };
            current = SelectionRange { start, end };
            proof {
                assert(range_set(current) =~= range_set(before).union(range_set(r)));
                assert(old_rs.take(i as int + 1) == old_rs.take(i as int).push(r));
                lemma_ranges_set_push(old_rs.take(i as int), r);
                assert forall|k: int| 0 <= k < first_merged implies (#[trigger] old_rs[k]).end + 1
                    < current.start by {
                    assert(old_rs[k].end + 1 < old_rs[i as int].start);
                }
                if i + 1 < n {
                    assert(old_rs[i as int].end + 1 < old_rs[i + 1].start);
                }
                let r0 = ranges_set(old_rs.take(first_merged));
                let t0 = ranges_set(old_rs.take(i as int));
                let t1 = ranges_set(old_rs.take(i as int + 1));
                assert(range_set(before).union(r0) == t0.union(range_set(added)));
                assert(t1 == t0.union(range_set(r)));
                assert forall|x: int| range_set(current).union(r0).contains(x) == t1.union(
                    range_set(added),
                ).contains(x) by {
                    assert(range_set(before).union(r0).contains(x) == t0.union(range_set(added)).contains(x));
                    assert(t1.contains(x) == t0.union(range_set(r)).contains(x));
                }
                assert(range_set(current).union(r0) =~= t1.union(range_set(added)));
            }
            i = i + 1;
        }
        proof {
            if merged@.len() > 0 {
                assert(merged@.last() == old_rs[first_merged - 1]);
            }
            lemma_push_normalized(merged@, current);
            lemma_ranges_set_push(merged@, current);
        }
        merged.push(current);
        // Ranges that start well after the merged one stay as they are.
        while i < n
            invariant
                0 <= i <= n,
                n == old_rs.len(),
                old_rs == rs@,
                normalized(old_rs),
                normalized(merged@),
                merged@.len() > 0,
                ranges_set(merged@) == ranges_set(old_rs.take(i as int)).union(range_set(added)),
                i < n ==> merged@.last().end + 1 < old_rs[i as int].start,
            decreases n - i,
        {
            let r = rs[i];
            proof {
                lemma_push_normalized(merged@, r);
                lemma_ranges_set_push(merged@, r);
                assert(old_rs.take(i as int + 1) == old_rs.take(i as int).push(r));
                lemma_ranges_set_push(old_rs.take(i as int), r);
                if i + 1 < n {
                    assert(old_rs[i as int].end + 1 < old_rs[i + 1].start);
                }
            }
            merged.push(r);
            i = i + 1;
            proof {
                assert(ranges_set(merged@) =~= ranges_set(old_rs.take(i as int)).union(range_set(added)));
            }
        }
        proof {
            assert(old_rs.take(n as int) == old_rs);
        }
        merged
}


impl IndexSelection {
    /// Adds the indices between `anchor` and `target`, both included, merging
    /// the new range with every range it overlaps or touches.
    pub fn add_range(&mut self, anchor: u32, target: u32)
        ensures
            final(self)@ == old(self)@.union(ordered_range(anchor, target)),
    {
        proof {
            use_type_invariant(&*self);
        }
        let added = SelectionRange::new(anchor, target);
        proof {
            assert(range_set(added) =~= ordered_range(anchor, target));
        }
        self.ranges = merge_range(&self.ranges, added);
    }
}

impl IndexSelection {
    /// Flips one index: a selected index leaves the selection, splitting its
    /// range when needed; an unselected one joins it.
    pub fn toggle(&mut self, index: u32)
        ensures
            final(self)@ == toggled(old(self)@, index as int),
    {
        proof {
            use_type_invariant(&*self);
        }
        let ghost old_rs = self.ranges@;
        let n = self.ranges.len();
        let mut pos: usize = 0;
        while pos < n && !(self.ranges[pos].start <= index && index <= self.ranges[pos].end)
            invariant
                0 <= pos <= n,
                n == old_rs.len(),
                old_rs == self.ranges@,
                forall|k: int| 0 <= k < pos ==> !range_holds(#[trigger] old_rs[k], index as int),
            decreases n - pos,
        {
            pos = pos + 1;
        }
        if pos < n {
            let r = self.ranges[pos];
            let mut merged: Vec<SelectionRange> = Vec::new();
            let mut i: usize = 0;
            while i < pos
                invariant
                    0 <= i <= pos < n,
                    n == old_rs.len(),
                    old_rs == self.ranges@,
                    merged@ == old_rs.take(i as int),
                decreases pos - i,
            {
                merged.push(self.ranges[i]);
                i = i + 1;
                proof {
                    assert(merged@ == old_rs.take(i as int));
                }
            }
            proof {
                assert(normalized(merged@)) by {
                    assert forall|a: int, b: int| 0 <= a < b < merged@.len() implies (
                    #[trigger] merged@[a]).end + 1 < (#[trigger] merged@[b]).start by {
                        assert(merged@[a] == old_rs[a] && merged@[b] == old_rs[b]);
                    }
                }
                if pos > 0 {
                    assert(merged@.last() == old_rs[pos - 1]);
                    assert(old_rs[pos - 1].end + 1 < old_rs[pos as int].start);
                }
                assert(!ranges_set(merged@).contains(index as int)) by {
                    if covers(merged@, index as int) {
                        let k = choose|k: int|
                            0 <= k < merged@.len() && #[trigger] range_holds(merged@[k], index as int);
                        assert(merged@[k] == old_rs[k]);
                    }
                }
                assert(old_rs.take(pos as int + 1) == old_rs.take(pos as int).push(r));
                lemma_ranges_set_push(old_rs.take(pos as int), r);
            }
            let ghost head = ranges_set(merged@);
            if r.start < index {
                let left = SelectionRange::new(r.start, index - 1);
                proof {
                    lemma_push_normalized(merged@, left);
                    lemma_ranges_set_push(merged@, left);
                }
                merged.push(left);
            }
            if index < r.end {
                let right = SelectionRange::new(index + 1, r.end);
                proof {
                    lemma_push_normalized(merged@, right);
                    lemma_ranges_set_push(merged@, right);
                }
                merged.push(right);
            }
            proof {
                assert(ranges_set(merged@) =~= head.union(range_set(r).remove(index as int)));
                assert(ranges_set(merged@) =~= ranges_set(old_rs.take(pos as int + 1)).remove(
                    index as int,
                ));
                if pos + 1 < n {
                    assert(old_rs[pos as int].end + 1 < old_rs[pos + 1].start);
                }
            }
            i = pos + 1;
            while i < n
                invariant
                    pos < i <= n,
                    n == old_rs.len(),
                    old_rs == self.ranges@,
                    normalized(old_rs),
                    normalized(merged@),
                    range_holds(old_rs[pos as int], index as int),
                    ranges_set(merged@) == ranges_set(old_rs.take(i as int)).remove(index as int),
                    i < n && merged@.len() > 0 ==> merged@.last().end + 1 < old_rs[i as int].start,
                decreases n - i,
            {
                let next = self.ranges[i];
                proof {
                    assert(old_rs[pos as int].end + 1 < next.start);
                    lemma_push_normalized(merged@, next);
                    lemma_ranges_set_push(merged@, next);
                    assert(old_rs.take(i as int + 1) == old_rs.take(i as int).push(next));
                    lemma_ranges_set_push(old_rs.take(i as int), next);
                    if i + 1 < n {
                        assert(old_rs[i as int].end + 1 < old_rs[i + 1].start);
                    }
                }
                merged.push(next);
                i = i + 1;
                proof {
                    assert(ranges_set(merged@) =~= ranges_set(old_rs.take(i as int)).remove(
                        index as int,
                    ));
                }
            }
            proof {
                assert(old_rs.take(n as int) == old_rs);
                assert(range_holds(old_rs[pos as int], index as int));
            }
            self.ranges = merged;
        } else {
            proof {
                assert(!covers(old_rs, index as int));
            }
            self.add_range(index, index);
            proof {
                assert(ordered_range(index, index) =~= set![index as int]);
                assert(old_rs == old(self).ranges@);
            }
        }
    }
}

/// Some range of an arbitrary list holds `i`, whichever way round the range is written.
pub open spec fn loose_covers(rs: Seq<SelectionRange>, i: int) -> bool {
    exists|k: int| 0 <= k < rs.len() && #[trigger] ordered_range(rs[k].start, rs[k].end).contains(i)
}

/// The indices that an arbitrary list of ranges holds together.
pub open spec fn loose_set(rs: Seq<SelectionRange>) -> Set<int> {
    Set::new(|i: int| loose_covers(rs, i))
}

/// Appending a range to an arbitrary list adds exactly its indices.
pub proof fn lemma_loose_set_push(rs: Seq<SelectionRange>, x: SelectionRange)
    ensures
        loose_set(rs.push(x)) == loose_set(rs).union(ordered_range(x.start, x.end)),
{
    let s = rs.push(x);
    assert forall|i: int| loose_covers(s, i) <==> (loose_covers(rs, i) || ordered_range(
        x.start,
        x.end,
    ).contains(i)) by {
        if loose_covers(s, i) {
            let k = choose|k: int|
                0 <= k < s.len() && #[trigger] ordered_range(s[k].start, s[k].end).contains(i);
            if k < rs.len() {
                assert(s[k] == rs[k]);
                assert(ordered_range(rs[k].start, rs[k].end).contains(i));
            }
        }
        if loose_covers(rs, i) {
            let k = choose|k: int|
                0 <= k < rs.len() && #[trigger] ordered_range(rs[k].start, rs[k].end).contains(i);
            assert(s[k] == rs[k]);
            assert(ordered_range(s[k].start, s[k].end).contains(i));
        }
        if ordered_range(x.start, x.end).contains(i) {
            assert(s[rs.len() as int] == x);
            assert(ordered_range(s[rs.len() as int].start, s[rs.len() as int].end).contains(i));
        }
    }
    assert(loose_set(s) =~= loose_set(rs).union(ordered_range(x.start, x.end)));
}

/// Adds one well-ordered range to canonical ranges; a range that starts well
/// after the last one is simply appended.
fn absorb_range(acc: Vec<SelectionRange>, added: SelectionRange) -> (r: Vec<SelectionRange>)
    requires
        normalized(acc@),
        added.start <= added.end,
    ensures
        normalized(r@),
        ranges_set(r@) == ranges_set(acc@).union(range_set(added)),
{
    let n = acc.len();
    if n == 0 || (acc[n - 1].end as u64) + 1 < added.start as u64 {
        let mut acc = acc;
        proof {
            lemma_push_normalized(acc@, added);
            lemma_ranges_set_push(acc@, added);
        }
        acc.push(added);
        acc
    } else {
        merge_range(&acc, added)
    }
}

/// Adds the ranges of a list to canonical ranges, one by one.
fn absorb_all(acc: Vec<SelectionRange>, ranges: &Vec<SelectionRange>) -> (r: Vec<SelectionRange>)
    requires
        normalized(acc@),
    ensures
        normalized(r@),
        ranges_set(r@) == ranges_set(acc@).union(loose_set(ranges@)),
{
    let ghost start_set = ranges_set(acc@);
    let mut acc = acc;
    let mut i: usize = 0;
    proof {
        assert(loose_set(ranges@.take(0)) =~= Set::<int>::empty());
    }
    while i < ranges.len()
        invariant
            0 <= i <= ranges@.len(),
            normalized(acc@),
            ranges_set(acc@) == start_set.union(loose_set(ranges@.take(i as int))),
        decreases ranges@.len() - i,
    {
        let r = ranges[i];
        let ordered = SelectionRange::new(r.start, r.end);
        proof {
            assert(range_set(ordered) =~= ordered_range(r.start, r.end));
            assert(ranges@.take(i as int + 1) == ranges@.take(i as int).push(r));
            lemma_loose_set_push(ranges@.take(i as int), r);
        }
        acc = absorb_range(acc, ordered);
        i = i + 1;
        proof {
            assert(ranges_set(acc@) =~= start_set.union(loose_set(ranges@.take(i as int))));
        }
    }
    proof {
        assert(ranges@.take(ranges@.len() as int) == ranges@);
    }
    acc
}

/// Puts arbitrary ranges into canonical form: each range is ordered, then
/// overlapping or touching ranges are merged and the result is sorted.
pub fn normalize_selection_ranges(ranges: Vec<SelectionRange>) -> (r: Vec<SelectionRange>)
    ensures
        normalized(r@),
        ranges_set(r@) == loose_set(ranges@),
{
    proof {
        lemma_ranges_set_empty(Seq::<SelectionRange>::empty());
    }
    let r = absorb_all(Vec::new(), &ranges);
    proof {
        assert(ranges_set(r@) =~= loose_set(ranges@));
    }
    r
}

impl IndexSelection {
    /// Adds every range of a list, whichever way round each is written.
    pub fn add_ranges(&mut self, ranges: Vec<SelectionRange>)
        ensures
            final(self)@ == old(self)@.union(loose_set(ranges@)),
            ranges@.len() == 0 ==> final(self).range_seq() == old(self).range_seq(),
    {
        proof {
            use_type_invariant(&*self);
        }
        if ranges.len() == 0 {
            proof {
                assert(loose_set(ranges@) =~= Set::<int>::empty());
                assert(self@.union(loose_set(ranges@)) =~= self@);
            }
            return;
        }
        let current = self.ranges();
        self.ranges = absorb_all(current, &ranges);
    }
}

/// The indices after adding the ranges of a list one by one with
/// `add_range`, starting from `s`.
pub open spec fn added_in_turn(s: Set<int>, rs: Seq<SelectionRange>) -> Set<int>
    decreases rs.len(),
{
    if rs.len() == 0 {
        s
    } else {
        added_in_turn(s, rs.drop_last()).union(ordered_range(rs.last().start, rs.last().end))
    }
}

/// Adding a list of ranges at once with `add_ranges` selects what adding
/// them one by one with `add_range` selects; an empty list adds nothing.
pub proof fn law_add_ranges_is_add_range_in_turn(s: Set<int>, rs: Seq<SelectionRange>)
    ensures
        s.union(loose_set(rs)) == added_in_turn(s, rs),
        rs.len() == 0 ==> s.union(loose_set(rs)) == s,
    decreases rs.len(),
{
    if rs.len() == 0 {
        assert(loose_set(rs) =~= Set::<int>::empty());
        assert(s.union(loose_set(rs)) =~= s);
    } else {
        let front = rs.drop_last();
        law_add_ranges_is_add_range_in_turn(s, front);
        lemma_loose_set_push(front, rs.last());
        assert(front.push(rs.last()) =~= rs);
        assert(s.union(loose_set(rs)) =~= s.union(loose_set(front)).union(
            ordered_range(rs.last().start, rs.last().end),
        ));
    }
}

/// A selection is its indices: two selections in canonical form (which
/// `ranges` shows every selection is) that hold the same indices keep the
/// same ranges, so adding ranges one by one or all at once ends in the
/// same selection.
pub proof fn law_selection_is_its_indices(a: IndexSelection, b: IndexSelection)
    requires
        normalized(a.range_seq()),
        normalized(b.range_seq()),
        a@ == b@,
    ensures
        a.range_seq() == b.range_seq(),
{
    lemma_canonical_form_unique(a.range_seq(), b.range_seq());
}

/// How many indices canonical ranges hold.
pub fn ranges_count(ranges: &Vec<SelectionRange>) -> (c: u64)
    requires
        normalized(ranges@),
    ensures
        c == total_len(ranges@),
        c == ranges_set(ranges@).len(),
{
    proof {
        lemma_ranges_set_len(ranges@);
    }
    let n = ranges.len();
    let mut total: u64 = 0;
    let mut i: usize = 0;
    while i < n
        invariant
            0 <= i <= n,
            n == ranges@.len(),
            normalized(ranges@),
            total == total_len(ranges@.take(i as int)),
        decreases n - i,
    {
        let ghost prefix = ranges@.take(i as int + 1);
        proof {
            assert(normalized(prefix));
            lemma_ranges_set_len(prefix);
            assert(prefix.drop_last() == ranges@.take(i as int));
        }
        let r = ranges[i];
        total = total + r.len();
        i = i + 1;
    }
    proof {
        assert(ranges@.take(n as int) == ranges@);
    }
    total
}

impl Clone for IndexSelection {
    fn clone(&self) -> (c: Self)
        ensures
            c@ == self@,
            c.range_seq() == self.range_seq(),
    {
        IndexSelection { ranges: self.ranges() }
    }
}

impl Default for IndexSelection {
    /// The empty selection.
    fn default() -> (s: Self)
        ensures
            s@ == Set::<int>::empty(),
    {
        proof {
            lemma_ranges_set_empty(Seq::<SelectionRange>::empty());
        }
        IndexSelection { ranges: Vec::new() }
    }
}

} // verus!
