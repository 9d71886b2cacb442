//! The confirmation protocol of deletions, and the memory of deleted
//! paths: a selection is kept as a numbered snapshot until it is
//! confirmed, run at most once, and the paths it deleted are hidden from
//! later results until they exist again.

use std::collections::{HashMap, HashSet};
use vstd::prelude::*;
use vstd::utf8::{encode_utf8, encode_utf8_decode_utf8};
use crate::engine_config::strings_view;
use crate::model::{loose_set, normalized, ranges_set, SearchPage, SearchResult, SelectionRange, TrashPreparation};
use crate::sdk::{plan_selection, too_many_items_message, total_len_of_loose, EngineError};
use crate::text::{
    bytes_le, bytes_leq, chars_eq, chars_of, join_chars, join_with, lemma_bytes_leq_antisymmetric,
    lemma_bytes_leq_reflexive, lemma_bytes_leq_total, lemma_bytes_leq_transitive, lines_of,
    split_lines, string_of, to_lowercase, unicode_lowercase, lemma_join_lines_text, lemma_lines_final_newline,
    lemma_lines_of_lines_text, line_fits, lines_text,
};

verus! {

broadcast use {vstd::string::group_string_axioms, vstd::std_specs::hash::group_hash_axioms};

/// The most paths one deletion may act on.
pub const MAX_TRASH_ITEMS: usize = 10_000;

/// The ranges of a selection to delete, each item once and in order,
/// refused when they hold more than `MAX_TRASH_ITEMS` items.
pub fn plan_trash_selection(ranges: Vec<SelectionRange>) -> (r: Result<Vec<SelectionRange>, EngineError>)
    ensures
        total_len_of_loose(ranges@) <= MAX_TRASH_ITEMS ==> (r matches Ok(v) && normalized(v@)
            && ranges_set(v@) == loose_set(ranges@)),
        total_len_of_loose(ranges@) > MAX_TRASH_ITEMS ==> (r matches Err(EngineError::InvalidSelection(m))
            && m@ == too_many_items_message(MAX_TRASH_ITEMS)),
{
    plan_selection(ranges, MAX_TRASH_ITEMS)
}

/// Paths in the order `str` compares them, each once.
pub open spec fn strictly_increasing(s: Seq<Seq<char>>) -> bool {
    forall|i: int, j: int|
        0 <= i < j < s.len() ==> bytes_leq(encode_utf8(#[trigger] s[i]), encode_utf8(#[trigger] s[j]))
            && s[i] != s[j]
}

/// `a` comes strictly before `b` in the order of `str`.
pub open spec fn path_before(a: Seq<char>, b: Seq<char>) -> bool {
    bytes_leq(encode_utf8(a), encode_utf8(b)) && a != b
}

proof fn lemma_path_order_total(a: Seq<char>, b: Seq<char>)
    ensures
        bytes_leq(encode_utf8(a), encode_utf8(b)) || bytes_leq(encode_utf8(b), encode_utf8(a)),
        bytes_leq(encode_utf8(a), encode_utf8(b)) && bytes_leq(encode_utf8(b), encode_utf8(a))
            ==> a == b,
{
    lemma_bytes_leq_total(encode_utf8(a), encode_utf8(b));
    if bytes_leq(encode_utf8(a), encode_utf8(b)) && bytes_leq(encode_utf8(b), encode_utf8(a)) {
        lemma_bytes_leq_antisymmetric(encode_utf8(a), encode_utf8(b));
        encode_utf8_decode_utf8(a);
        encode_utf8_decode_utf8(b);
    }
}

/// The first position whose path is not before `x` in a strictly
/// increasing list.
fn lower_bound(v: &Vec<String>, x: &str) -> (k: usize)
    requires
        strictly_increasing(strings_view(v@)),
    ensures
        k <= v@.len(),
        forall|j: int| 0 <= j < k ==> path_before(#[trigger] v@[j]@, x@),
        forall|j: int| k <= j < v@.len() ==> bytes_leq(encode_utf8(x@), encode_utf8(#[trigger] v@[j]@)),
{
    let xb = x.as_bytes();
    let mut lo: usize = 0;
    let mut hi: usize = v.len();
    while lo < hi
        invariant
            0 <= lo <= hi <= v@.len(),
            xb@ == encode_utf8(x@),
            strictly_increasing(strings_view(v@)),
            forall|j: int| 0 <= j < lo ==> path_before(#[trigger] v@[j]@, x@),
            forall|j: int| hi <= j < v@.len() ==> bytes_leq(encode_utf8(x@), encode_utf8(#[trigger] v@[j]@)),
        decreases hi - lo,
    {
        let mid = lo + (hi - lo) / 2;
        let below = bytes_le(xb, v[mid].as_str().as_bytes());
        proof {
            assert(strings_view(v@)[mid as int] == v@[mid as int]@);
        }
        if below {
            proof {
                assert forall|j: int| mid <= j < v@.len() implies bytes_leq(
                    encode_utf8(x@),
                    encode_utf8(#[trigger] v@[j]@),
                ) by {
                    if j > mid {
                        assert(strings_view(v@)[j] == v@[j]@);
                        lemma_bytes_leq_transitive(
                            encode_utf8(x@),
                            encode_utf8(v@[mid as int]@),
                            encode_utf8(v@[j]@),
                        );
                    }
                }
            }
            hi = mid;
        } else {
            proof {
                lemma_path_order_total(x@, v@[mid as int]@);
                assert forall|j: int| 0 <= j < mid + 1 implies path_before(#[trigger] v@[j]@, x@) by {
                    if j < mid {
                        assert(strings_view(v@)[j] == v@[j]@);
                        lemma_bytes_leq_transitive(
                            encode_utf8(v@[j]@),
                            encode_utf8(v@[mid as int]@),
                            encode_utf8(x@),
                        );
                        if v@[j]@ == x@ {
                            lemma_path_order_total(v@[j]@, v@[mid as int]@);
                        }
                    } else {
                        lemma_bytes_leq_reflexive(encode_utf8(x@));
                    }
                }
            }
            lo = mid + 1;
        }
    }
    lo
}

/// Whether a strictly increasing list holds a path.
fn sorted_contains(v: &Vec<String>, x: &str) -> (r: bool)
    requires
        strictly_increasing(strings_view(v@)),
    ensures
        r == strings_view(v@).contains(x@),
{
    let k = lower_bound(v, x);
    let found = k < v.len() && chars_eq(&chars_of(v[k].as_str()), &chars_of(x));
    proof {
        if !found {
            assert forall|j: int| 0 <= j < v@.len() implies #[trigger] strings_view(v@)[j] != x@ by {
                assert(strings_view(v@)[j] == v@[j]@);
                if j > k && v@[j]@ == x@ {
                    assert(strings_view(v@)[k as int] == v@[k as int]@);
                    lemma_path_order_total(x@, v@[k as int]@);
                }
            }
        } else {
            assert(strings_view(v@)[k as int] == x@);
        }
    }
    found
}

/// Adds a path to a strictly increasing list, where it belongs, unless it
/// is there.
fn sorted_insert(v: &mut Vec<String>, x: String)
    requires
        strictly_increasing(strings_view(old(v)@)),
    ensures
        strictly_increasing(strings_view(final(v)@)),
        strings_view(final(v)@).to_set() == strings_view(old(v)@).to_set().insert(x@),
{
    let k = lower_bound(v, x.as_str());
    let present = k < v.len() && chars_eq(&chars_of(v[k].as_str()), &chars_of(x.as_str()));
    let ghost before = strings_view(v@);
    if present {
        proof {
            assert(before[k as int] == x@);
            assert(before.to_set().insert(x@) =~= before.to_set());
        }
        return;
    }
    v.insert(k, x);
    proof {
        let after = strings_view(v@);
        assert(after =~= before.insert(k as int, x@));
        assert forall|i: int, j: int| 0 <= i < j < after.len() implies bytes_leq(
            encode_utf8(#[trigger] after[i]),
            encode_utf8(#[trigger] after[j]),
        ) && after[i] != after[j] by {
            assert(before == strings_view(old(v)@));
            if j < k {
                assert(before[i] == after[i] && before[j] == after[j]);
            } else if i > k {
                assert(before[i - 1] == after[i] && before[j - 1] == after[j]);
            } else if i == k {
                assert(before[j - 1] == after[j]);
                assert(before[j - 1] == old(v)@[j - 1]@);
                if j - 1 == k {
                    lemma_path_order_total(x@, before[j - 1]);
                }
                if j - 1 > k {
                    assert(before[k as int] == old(v)@[k as int]@);
                    lemma_bytes_leq_transitive(
                        encode_utf8(x@),
                        encode_utf8(before[k as int]),
                        encode_utf8(before[j - 1]),
                    );
                    if x@ == before[j - 1] {
                        lemma_path_order_total(x@, before[k as int]);
                    }
                }
            } else {
                assert(before[i] == after[i]);
                assert(before[i] == old(v)@[i]@);
                if j == k {
                } else {
                    assert(before[j - 1] == after[j]);
                    assert(before[j - 1] == old(v)@[j - 1]@);
                    if k < before.len() {
                        assert(before[k as int] == old(v)@[k as int]@);
                    }
                    lemma_bytes_leq_transitive(
                        encode_utf8(before[i]),
                        encode_utf8(x@),
                        encode_utf8(before[j - 1]),
                    );
                }
            }
        }
        assert forall|p: Seq<char>| #[trigger] after.to_set().contains(p) <==> before.to_set().insert(
            x@,
        ).contains(p) by {
            if after.contains(p) {
                let i = choose|i: int| 0 <= i < after.len() && after[i] == p;
                if i < k {
                    assert(before[i] == p);
                } else if i > k {
                    assert(before[i - 1] == p);
                }
            }
            if before.contains(p) {
                let i = choose|i: int| 0 <= i < before.len() && before[i] == p;
                if i < k {
                    assert(after[i] == p);
                } else {
                    assert(after[i + 1] == p);
                }
            }
            if p == x@ {
                assert(after[k as int] == p);
            }
        }
        assert(after.to_set() =~= before.to_set().insert(x@));
    }
}

/// The answer to a confirmation that is still running.
pub open spec fn in_progress_message() -> Seq<char> {
    "This deletion is already in progress"@
}

/// The answer to a confirmation that is neither waiting nor running.
pub open spec fn expired_message() -> Seq<char> {
    "This confirmation has expired or was already used"@
}

/// What asking to run confirmation `id` answers, given the waiting
/// confirmations and the running ones: refused while it runs, refused as
/// expired when it is not waiting, else its paths.
pub open spec fn take_answer(snapshots: Map<u64, Seq<Seq<char>>>, running: Set<u64>, id: u64) -> Result<
    Seq<Seq<char>>,
    Seq<char>,
> {
    if running.contains(id) {
        Err(in_progress_message())
    } else if !snapshots.contains_key(id) {
        Err(expired_message())
    } else {
        Ok(snapshots[id])
    }
}

/// The waiting and running confirmations after asking to run `id`: a
/// waiting one that is not running moves to running, else nothing changes.
pub open spec fn after_take(snapshots: Map<u64, Seq<Seq<char>>>, running: Set<u64>, id: u64) -> (
    Map<u64, Seq<Seq<char>>>,
    Set<u64>,
) {
    if !running.contains(id) && snapshots.contains_key(id) {
        (snapshots.remove(id), running.insert(id))
    } else {
        (snapshots, running)
    }
}

/// The confirmations waiting to be run, the ones running, and the paths
/// known to be deleted.
pub struct TrashState {
    snapshots: HashMap<u64, Vec<String>>,
    in_flight: HashSet<u64>,
    deleted_paths: Vec<String>,
    next_snapshot: u64,
    wrapped: Ghost<bool>,
}

impl TrashState {
    /// The paths of each waiting confirmation, by number.
    pub closed spec fn snapshots(&self) -> Map<u64, Seq<Seq<char>>> {
        self.snapshots@.map_values(|v: Vec<String>| strings_view(v@))
    }

    /// The confirmations being run.
    pub closed spec fn running(&self) -> Set<u64> {
        self.in_flight@
    }

    /// The paths known to be deleted, in lower case, in the order of `str`.
    pub closed spec fn deleted_in_order(&self) -> Seq<Seq<char>> {
        strings_view(self.deleted_paths@)
    }

    /// The paths known to be deleted, in lower case.
    pub open spec fn deleted(&self) -> Set<Seq<char>> {
        self.deleted_in_order().to_set()
    }

    /// The number the next confirmation gets.
    pub closed spec fn next_snapshot(&self) -> u64 {
        self.next_snapshot
    }

    /// Whether the numbering of confirmations went past the largest number
    /// and started again.
    pub closed spec fn has_wrapped(&self) -> bool {
        self.wrapped@
    }

    /// Every number in use, waiting or running, was handed out before the
    /// next one.
    pub open spec fn numbers_below_next(&self) -> bool {
        &&& forall|x: u64| #[trigger] self.snapshots().contains_key(x) ==> x < self.next_snapshot()
        &&& forall|x: u64| #[trigger] self.running().contains(x) ==> x < self.next_snapshot()
    }

    /// The deleted paths are kept in the order of `str`, each once, and
    /// until the numbering wraps around, every number in use lies below the
    /// next one.
    pub open spec fn wf(&self) -> bool {
        &&& strictly_increasing(self.deleted_in_order())
        &&& !self.has_wrapped() ==> self.numbers_below_next()
    }

    /// The state of a fresh start, with no deleted path remembered.
    pub fn new() -> (s: TrashState)
        ensures
            s.wf(),
            s.snapshots() == Map::<u64, Seq<Seq<char>>>::empty(),
            s.running() == Set::<u64>::empty(),
            s.deleted() == Set::<Seq<char>>::empty(),
            s.next_snapshot() == 1,
            !s.has_wrapped(),
    {
        let s = TrashState {
            snapshots: HashMap::new(),
            in_flight: HashSet::new(),
            deleted_paths: Vec::new(),
            next_snapshot: 1,
            wrapped: Ghost(false),
        };
        proof {
            assert(s.snapshots() =~= Map::<u64, Seq<Seq<char>>>::empty());
            assert(s.deleted() =~= Set::<Seq<char>>::empty());
        }
        s
    }

    /// Keeps the paths of a selection until the deletion is confirmed, under
    /// the next number (numbers wrap around after the largest).
    pub fn store(&mut self, paths: Vec<String>) -> (p: TrashPreparation)
        ensures
            p.snapshot_id == old(self).next_snapshot(),
            p.count == paths@.len(),
            final(self).snapshots() == old(self).snapshots().insert(p.snapshot_id, strings_view(paths@)),
            final(self).next_snapshot() == old(self).next_snapshot().wrapping_add(1),
            final(self).running() == old(self).running(),
            final(self).deleted() == old(self).deleted(),
            final(self).has_wrapped() == (old(self).has_wrapped() || old(self).next_snapshot() == u64::MAX),
            old(self).wf() ==> final(self).wf(),
    {
        let snapshot_id = self.next_snapshot;
        proof {
            self.wrapped = Ghost(self.wrapped@ || snapshot_id == u64::MAX);
        }
        self.next_snapshot = self.next_snapshot.wrapping_add(1);
        let count = paths.len();
        let ghost view = strings_view(paths@);
        self.snapshots.insert(snapshot_id, paths);
        proof {
            assert(self.snapshots() =~= old(self).snapshots().insert(snapshot_id, view));
            if old(self).wf() && !self.has_wrapped() {
                assert forall|x: u64| #[trigger] self.snapshots().contains_key(x) implies x
                    < self.next_snapshot() by {
                    if x != snapshot_id {
                        assert(old(self).snapshots().contains_key(x));
                    }
                }
                assert forall|x: u64| #[trigger] self.running().contains(x) implies x
                    < self.next_snapshot() by {
                    assert(old(self).running().contains(x));
                }
            }
        }
        TrashPreparation { snapshot_id, count }
    }

    /// Forgets a confirmation that will not be run.
    pub fn cancel(&mut self, snapshot_id: u64)
        ensures
            final(self).snapshots() == old(self).snapshots().remove(snapshot_id),
            final(self).running() == old(self).running(),
            final(self).deleted() == old(self).deleted(),
            final(self).next_snapshot() == old(self).next_snapshot(),
            final(self).has_wrapped() == old(self).has_wrapped(),
            old(self).wf() ==> final(self).wf(),
    {
        self.snapshots.remove(&snapshot_id);
        proof {
            assert(self.snapshots() =~= old(self).snapshots().remove(snapshot_id));
            if old(self).wf() {
                lemma_fewer_numbers(*old(self), *self);
            }
        }
    }

    /// Hands out the paths of a confirmation to run it: refused while the
    /// same confirmation runs, and when it was cancelled or already run.
    pub fn take_for_execution(&mut self, snapshot_id: u64) -> (r: Result<Vec<String>, String>)
        ensures
            old(self).running().contains(snapshot_id) ==> (r matches Err(m)
                && m@ == "This deletion is already in progress"@ && final(self).snapshots()
                == old(self).snapshots() && final(self).running() == old(self).running()),
            !old(self).running().contains(snapshot_id) && !old(self).snapshots().contains_key(
                snapshot_id,
            ) ==> (r matches Err(m) && m@ == "This confirmation has expired or was already used"@
                && final(self).snapshots() == old(self).snapshots() && final(self).running()
                == old(self).running()),
            !old(self).running().contains(snapshot_id) && old(self).snapshots().contains_key(
                snapshot_id,
            ) ==> (r matches Ok(paths) && strings_view(paths@) == old(self).snapshots()[snapshot_id]
                && final(self).snapshots() == old(self).snapshots().remove(snapshot_id)
                && final(self).running() == old(self).running().insert(snapshot_id)),
            match r {
                Ok(paths) => take_answer(old(self).snapshots(), old(self).running(), snapshot_id) == Ok::<
                    Seq<Seq<char>>,
                    Seq<char>,
                >(strings_view(paths@)),
                Err(m) => take_answer(old(self).snapshots(), old(self).running(), snapshot_id) == Err::<
                    Seq<Seq<char>>,
                    Seq<char>,
                >(m@),
            },
            (final(self).snapshots(), final(self).running()) == after_take(
                old(self).snapshots(),
                old(self).running(),
                snapshot_id,
            ),
            final(self).deleted() == old(self).deleted(),
            final(self).next_snapshot() == old(self).next_snapshot(),
            final(self).has_wrapped() == old(self).has_wrapped(),
            old(self).wf() ==> final(self).wf(),
    {
        if !self.in_flight.insert(snapshot_id) {
            proof {
                assert(self.running() =~= old(self).running());
                if old(self).wf() {
                    lemma_fewer_numbers(*old(self), *self);
                }
            }
            return Err(string_of(&chars_of("This deletion is already in progress")));
        }
        let paths = self.snapshots.remove(&snapshot_id);
        proof {
            assert(self.snapshots() =~= old(self).snapshots().remove(snapshot_id));
        }
        match paths {
            None => {
                self.finish_execution(snapshot_id);
                proof {
                    assert(self.snapshots() =~= old(self).snapshots());
                    assert(self.running() =~= old(self).running());
                    if old(self).wf() {
                        lemma_fewer_numbers(*old(self), *self);
                    }
                }
                Err(string_of(&chars_of("This confirmation has expired or was already used")))
            },
            Some(paths) => {
                proof {
                    assert(old(self).snapshots().contains_key(snapshot_id));
                    if old(self).wf() && !self.has_wrapped() {
                        assert forall|x: u64| #[trigger] self.snapshots().contains_key(x) implies x
                            < self.next_snapshot() by {
                            assert(old(self).snapshots().contains_key(x));
                        }
                        assert forall|x: u64| #[trigger] self.running().contains(x) implies x
                            < self.next_snapshot() by {
                            if x != snapshot_id {
                                assert(old(self).running().contains(x));
                            }
                        }
                    }
                }
                Ok(paths)
            },
        }
    }

    /// Marks a confirmation as no longer running.
    pub fn finish_execution(&mut self, snapshot_id: u64)
        ensures
            final(self).running() == old(self).running().remove(snapshot_id),
            final(self).snapshots() == old(self).snapshots(),
            final(self).deleted_in_order() == old(self).deleted_in_order(),
            final(self).next_snapshot() == old(self).next_snapshot(),
            final(self).has_wrapped() == old(self).has_wrapped(),
            old(self).wf() ==> final(self).wf(),
    {
        self.in_flight.remove(&snapshot_id);
        proof {
            if old(self).wf() {
                lemma_fewer_numbers(*old(self), *self);
            }
        }
    }
}

/// A state with the same deleted paths and numbering as a well-formed one,
/// and no number in use that was not in use there, is well-formed.
proof fn lemma_fewer_numbers(before: TrashState, after: TrashState)
    requires
        before.wf(),
        after.deleted_in_order() == before.deleted_in_order(),
        after.has_wrapped() == before.has_wrapped(),
        after.next_snapshot() == before.next_snapshot(),
        forall|x: u64| #[trigger] after.snapshots().contains_key(x) ==> before.snapshots().contains_key(x),
        forall|x: u64| #[trigger] after.running().contains(x) ==> before.running().contains(x),
    ensures
        after.wf(),
{
}

/// Removes a path from a strictly increasing list, if it is there.
fn sorted_remove(v: &mut Vec<String>, x: &str)
    requires
        strictly_increasing(strings_view(old(v)@)),
    ensures
        strictly_increasing(strings_view(final(v)@)),
        strings_view(final(v)@).to_set() == strings_view(old(v)@).to_set().remove(x@),
{
    let k = lower_bound(v, x);
    let present = k < v.len() && chars_eq(&chars_of(v[k].as_str()), &chars_of(x));
    let ghost before = strings_view(v@);
    if !present {
        proof {
            assert forall|j: int| 0 <= j < before.len() implies #[trigger] before[j] != x@ by {
                assert(before[j] == old(v)@[j]@);
                if j > k && before[j] == x@ {
                    assert(before[k as int] == old(v)@[k as int]@);
                    lemma_path_order_total(x@, before[k as int]);
                }
            }
            assert(before.to_set().remove(x@) =~= before.to_set());
        }
        return;
    }
    v.remove(k);
    proof {
        let after = strings_view(v@);
        assert(before[k as int] == x@);
        assert(after =~= before.remove(k as int));
        assert forall|i: int, j: int| 0 <= i < j < after.len() implies bytes_leq(
            encode_utf8(#[trigger] after[i]),
            encode_utf8(#[trigger] after[j]),
        ) && after[i] != after[j] by {
            let bi = if i < k { i } else { i + 1 };
            let bj = if j < k { j } else { j + 1 };
            assert(after[i] == before[bi] && after[j] == before[bj]);
        }
        assert forall|p: Seq<char>| #[trigger] after.to_set().contains(p) <==> before.to_set().remove(
            x@,
        ).contains(p) by {
            if after.contains(p) {
                let i = choose|i: int| 0 <= i < after.len() && after[i] == p;
                let bi = if i < k { i } else { i + 1 };
                assert(before[bi] == p);
                assert(bi != k);
            }
            if before.contains(p) && p != x@ {
                let i = choose|i: int| 0 <= i < before.len() && before[i] == p;
                if i < k {
                    assert(after[i] == p);
                } else {
                    assert(i != k);
                    assert(after[i - 1] == p);
                }
            }
        }
        assert(after.to_set() =~= before.to_set().remove(x@));
    }
}

/// The paths remembered from the stored list: each line in lower case,
/// empty ones left out.
pub open spec fn stored_deleted_paths(contents: Seq<char>) -> Set<Seq<char>> {
    Set::new(
        |p: Seq<char>|
            p.len() > 0 && exists|i: int|
                0 <= i < lines_of(contents).len() && p == unicode_lowercase(
                    #[trigger] lines_of(contents)[i],
                ),
    )
}

/// What hiding the deleted paths does to a page, item by item: an item
/// whose path (in lower case) is not remembered stays; one that is
/// remembered stays if it exists again, and is forgotten; any other is
/// dropped and counted. The result: the items kept, the paths still
/// remembered, how many were dropped, and whether any path was forgotten.
pub open spec fn hide_deleted(items: Seq<SearchResult>, exists: Seq<bool>, deleted: Set<Seq<char>>) -> (
    Seq<SearchResult>,
    Set<Seq<char>>,
    nat,
    bool,
)
    decreases items.len(),
{
    if items.len() == 0 {
        (Seq::empty(), deleted, 0, false)
    } else {
        let prev = hide_deleted(items.drop_last(), exists, deleted);
        let item = items.last();
        let p = unicode_lowercase(item.full_path@);
        if !prev.1.contains(p) {
            (prev.0.push(item), prev.1, prev.2, prev.3)
        } else if exists[items.len() - 1] {
            (prev.0.push(item), prev.1.remove(p), prev.2, true)
        } else {
            (prev.0, prev.1, prev.2 + 1, prev.3)
        }
    }
}

/// A count that stops at `u32::MAX`.
pub open spec fn saturated_count(n: nat) -> u32 {
    if n > u32::MAX {
        u32::MAX
    } else {
        n as u32
    }
}

impl TrashState {
    /// The state of a start, with the deleted paths read back from their
    /// stored list (one per line).
    pub fn from_stored_paths(contents: &str) -> (s: TrashState)
        ensures
            s.wf(),
            s.snapshots() == Map::<u64, Seq<Seq<char>>>::empty(),
            s.running() == Set::<u64>::empty(),
            s.deleted() == stored_deleted_paths(contents@),
            s.next_snapshot() == 1,
            !s.has_wrapped(),
    {
        let mut s = TrashState::new();
        let lines = split_lines(&chars_of(contents));
        let ghost all = lines@.map_values(|l: Vec<char>| l@);
        let mut i: usize = 0;
        while i < lines.len()
            invariant
                0 <= i <= lines@.len(),
                all == lines@.map_values(|l: Vec<char>| l@),
                all == lines_of(contents@),
                s.wf(),
                s.snapshots() == Map::<u64, Seq<Seq<char>>>::empty(),
                s.running() == Set::<u64>::empty(),
                s.next_snapshot() == 1,
                !s.has_wrapped(),
                s.deleted() == Set::new(
                    |p: Seq<char>|
                        p.len() > 0 && exists|k: int|
                            0 <= k < i && p == unicode_lowercase(#[trigger] all[k]),
                ),
            decreases lines@.len() - i,
        {
            let path = to_lowercase(string_of(&lines[i]).as_str());
            let ghost before = s.deleted();
            proof {
                assert(all[i as int] == lines@[i as int]@);
            }
            if !path.as_str().is_empty() {
                sorted_insert(&mut s.deleted_paths, path);
            }
            proof {
                assert(s.deleted() =~= Set::new(
                    |p: Seq<char>|
                        p.len() > 0 && exists|k: int|
                            0 <= k < i + 1 && p == unicode_lowercase(#[trigger] all[k]),
                )) by {
                    assert forall|p: Seq<char>| #[trigger] s.deleted().contains(p) implies p.len() > 0
                        && exists|k: int| 0 <= k < i + 1 && p == unicode_lowercase(#[trigger] all[k]) by {
                        if !before.contains(p) {
                            assert(p == unicode_lowercase(all[i as int]));
                        }
                    }
                    assert forall|p: Seq<char>|
                        p.len() > 0 && (exists|k: int|
                            0 <= k < i + 1 && p == unicode_lowercase(#[trigger] all[k])) implies #[trigger] s.deleted().contains(p) by {
                        let k = choose|k: int| 0 <= k < i + 1 && p == unicode_lowercase(#[trigger] all[k]);
                        if k < i {
                            assert(before.contains(p));
                        }
                    }
                }
            }
            i = i + 1;
        }
        proof {
            assert(s.deleted() =~= stored_deleted_paths(contents@));
        }
        s
    }

    /// Remembers the paths a deletion removed, in lower case.
    pub fn remember_deleted(&mut self, paths: &[String])
        requires
            old(self).wf(),
        ensures
            final(self).wf(),
            final(self).deleted() == old(self).deleted().union(
                Set::new(
                    |p: Seq<char>|
                        exists|i: int|
                            0 <= i < paths@.len() && p == unicode_lowercase(#[trigger] paths@[i]@),
                ),
            ),
            final(self).snapshots() == old(self).snapshots(),
            final(self).running() == old(self).running(),
            final(self).next_snapshot() == old(self).next_snapshot(),
            final(self).has_wrapped() == old(self).has_wrapped(),
    {
        let mut i: usize = 0;
        while i < paths.len()
            invariant
                0 <= i <= paths@.len(),
                self.wf(),
                self.deleted() == old(self).deleted().union(
                    Set::new(
                        |p: Seq<char>|
                            exists|k: int|
                                0 <= k < i && p == unicode_lowercase(#[trigger] paths@[k]@),
                    ),
                ),
                self.snapshots() == old(self).snapshots(),
                self.running() == old(self).running(),
                self.next_snapshot() == old(self).next_snapshot(),
                self.has_wrapped() == old(self).has_wrapped(),
            decreases paths@.len() - i,
        {
            let path = to_lowercase(paths[i].as_str());
            sorted_insert(&mut self.deleted_paths, path);
            proof {
                assert(self.deleted() =~= old(self).deleted().union(
                    Set::new(
                        |p: Seq<char>|
                            exists|k: int|
                                0 <= k < i + 1 && p == unicode_lowercase(#[trigger] paths@[k]@),
                    ),
                ));
            }
            i = i + 1;
        }
    }

    /// The stored list of deleted paths: one per line, in the order of `str`.
    pub fn deleted_paths_text(&self) -> (text: String)
        ensures
            text@ == join_with(self.deleted_in_order(), "\n"@),
    {
        let mut parts: Vec<Vec<char>> = Vec::new();
        let mut i: usize = 0;
        while i < self.deleted_paths.len()
            invariant
                0 <= i <= self.deleted_paths@.len(),
                parts@.map_values(|l: Vec<char>| l@) == self.deleted_in_order().take(i as int),
            decreases self.deleted_paths@.len() - i,
        {
            let ghost before = parts@.map_values(|l: Vec<char>| l@);
            let line = chars_of(self.deleted_paths[i].as_str());
            parts.push(line);
            proof {
                assert(self.deleted_in_order()[i as int] == self.deleted_paths@[i as int]@);
                assert(parts@.map_values(|l: Vec<char>| l@) =~= before.push(line@));
                assert(parts@.map_values(|l: Vec<char>| l@) =~= self.deleted_in_order().take(i + 1));
            }
            i = i + 1;
        }
        proof {
            assert(self.deleted_in_order().take(i as int) =~= self.deleted_in_order());
        }
        string_of(&join_chars(&parts, &chars_of("\n")))
    }

    /// Which items of a page have a path (in lower case) known to be deleted.
    pub fn deleted_matches(&self, page: &SearchPage) -> (r: Vec<bool>)
        requires
            self.wf(),
        ensures
            r@.len() == page.items@.len(),
            forall|i: int|
                0 <= i < r@.len() ==> r@[i] == self.deleted().contains(
                    unicode_lowercase(#[trigger] page.items@[i].full_path@),
                ),
    {
        let mut r: Vec<bool> = Vec::new();
        let mut i: usize = 0;
        while i < page.items.len()
            invariant
                0 <= i <= page.items@.len(),
                self.wf(),
                r@.len() == i,
                forall|k: int|
                    0 <= k < i ==> r@[k] == self.deleted().contains(
                        unicode_lowercase(#[trigger] page.items@[k].full_path@),
                    ),
            decreases page.items@.len() - i,
        {
            let path = to_lowercase(page.items[i].full_path.as_str());
            r.push(sorted_contains(&self.deleted_paths, path.as_str()));
            i = i + 1;
        }
        r
    }

    /// Hides the deleted paths from a page, given whether each item exists
    /// on disk (consulted only for items whose path is remembered): see
    /// `hide_deleted`. The page total drops by the number of items dropped.
    /// Returns whether a remembered path was forgotten.
    pub fn filter_deleted(&mut self, page: &mut SearchPage, exists: &[bool]) -> (revived: bool)
        requires
            old(self).wf(),
            exists@.len() == old(page).items@.len(),
        ensures
            ({
                let r = hide_deleted(old(page).items@, exists@, old(self).deleted());
                &&& final(page).items@ == r.0
                &&& final(self).deleted() == r.1
                &&& revived == r.3
                &&& final(page).total == (if old(page).total >= saturated_count(r.2) {
                    (old(page).total - saturated_count(r.2)) as u32
                } else {
                    0
                })
            }),
            final(page).request_id == old(page).request_id,
            final(page).offset == old(page).offset,
            final(self).wf(),
            final(self).snapshots() == old(self).snapshots(),
            final(self).running() == old(self).running(),
            final(self).next_snapshot() == old(self).next_snapshot(),
            final(self).has_wrapped() == old(self).has_wrapped(),
    {
        let mut items: Vec<SearchResult> = Vec::new();
        std::mem::swap(&mut items, &mut page.items);
        let ghost all = items@;
        let mut kept: Vec<SearchResult> = Vec::new();
        let mut removed: u32 = 0;
        let mut revived = false;
        let mut i: usize = 0;
        while i < exists.len()
            invariant
                0 <= i <= exists@.len(),
                exists@.len() == all.len(),
                items@ == all.skip(i as int),
                self.wf(),
                self.snapshots() == old(self).snapshots(),
                self.running() == old(self).running(),
                self.next_snapshot() == old(self).next_snapshot(),
                self.has_wrapped() == old(self).has_wrapped(),
                ({
                    let r = hide_deleted(all.take(i as int), exists@, old(self).deleted());
                    &&& kept@ == r.0
                    &&& self.deleted() == r.1
                    &&& revived == r.3
                    &&& removed == saturated_count(r.2)
                }),
            decreases exists@.len() - i,
        {
            let item = items.remove(0);
            let path = to_lowercase(item.full_path.as_str());
            proof {
                assert(item == all[i as int]);
                assert(all.take(i + 1).drop_last() =~= all.take(i as int));
                assert(all.take(i + 1).last() == item);
                assert(items@ =~= all.skip(i + 1));
            }
            if !sorted_contains(&self.deleted_paths, path.as_str()) {
                kept.push(item);
            } else if exists[i] {
                sorted_remove(&mut self.deleted_paths, path.as_str());
                revived = true;
                kept.push(item);
            } else {
                removed = removed.saturating_add(1);
            }
            i = i + 1;
        }
        proof {
            assert(all.take(i as int) =~= all);
        }
        page.items = kept;
        page.total = page.total.saturating_sub(removed);
        revived
    }

    /// Whether the remembered deleted paths include a path (in lower case).
    pub fn remembers(&self, path: &str) -> (r: bool)
        requires
            self.wf(),
        ensures
            r == self.deleted().contains(unicode_lowercase(path@)),
    {
        let p = to_lowercase(path);
        sorted_contains(&self.deleted_paths, p.as_str())
    }
}

/// A confirmed deletion runs at most once: the first `take_for_execution`
/// of a waiting confirmation hands out its paths; asking again is refused
/// as already in progress while it runs (and changes nothing), and as
/// expired once `finish_execution` ran; after `cancel`, the first ask is
/// refused as expired.
pub proof fn law_confirmation_runs_once(snapshots: Map<u64, Seq<Seq<char>>>, running: Set<u64>, snapshot_id: u64)
    requires
        snapshots.contains_key(snapshot_id),
        !running.contains(snapshot_id),
    ensures
        take_answer(snapshots, running, snapshot_id) == Ok::<Seq<Seq<char>>, Seq<char>>(snapshots[snapshot_id]),
        ({
            let taken = after_take(snapshots, running, snapshot_id);
            &&& take_answer(taken.0, taken.1, snapshot_id) == Err::<Seq<Seq<char>>, Seq<char>>(
                in_progress_message(),
            )
            &&& after_take(taken.0, taken.1, snapshot_id) == taken
            &&& take_answer(taken.0, taken.1.remove(snapshot_id), snapshot_id) == Err::<
                Seq<Seq<char>>,
                Seq<char>,
            >(expired_message())
        }),
        take_answer(snapshots.remove(snapshot_id), running, snapshot_id) == Err::<Seq<Seq<char>>, Seq<char>>(
            expired_message(),
        ),
{
}

/// A confirmation that was just stored runs at most once: the number
/// `store` hands out is neither waiting nor running before, so the first
/// `take_for_execution` hands out exactly the stored paths, and the rest
/// of `law_confirmation_runs_once` follows. This holds of every state made
/// by `new` or `from_stored_paths` until the numbering wraps around.
pub proof fn law_stored_confirmation_runs_once(state: TrashState, paths: Seq<Seq<char>>)
    requires
        state.wf(),
        !state.has_wrapped(),
    ensures
        ({
            let id = state.next_snapshot();
            let stored = state.snapshots().insert(id, paths);
            let taken = after_take(stored, state.running(), id);
            &&& take_answer(stored, state.running(), id) == Ok::<Seq<Seq<char>>, Seq<char>>(paths)
            &&& take_answer(taken.0, taken.1, id) == Err::<Seq<Seq<char>>, Seq<char>>(in_progress_message())
            &&& after_take(taken.0, taken.1, id) == taken
            &&& take_answer(taken.0, taken.1.remove(id), id) == Err::<Seq<Seq<char>>, Seq<char>>(
                expired_message(),
            )
            &&& take_answer(stored.remove(id), state.running(), id) == Err::<Seq<Seq<char>>, Seq<char>>(
                expired_message(),
            )
        }),
{
    let id = state.next_snapshot();
    let stored = state.snapshots().insert(id, paths);
    assert(!state.running().contains(id));
    law_confirmation_runs_once(stored, state.running(), id);
}

/// `kept` is the items at the increasing positions `keep`.
pub open spec fn picked_in_order(kept: Seq<SearchResult>, items: Seq<SearchResult>, keep: Seq<int>) -> bool {
    &&& keep.len() == kept.len()
    &&& forall|a: int, b: int| 0 <= a < b < keep.len() ==> #[trigger] keep[a] < #[trigger] keep[b]
    &&& forall|a: int| 0 <= a < keep.len() ==> 0 <= #[trigger] keep[a] < items.len() && kept[a] == items[keep[a]]
}

/// Hiding deleted paths only ever drops items (each one counted), keeps
/// the order of the rest, and only forgets remembered paths.
pub proof fn law_hiding_keeps_order(items: Seq<SearchResult>, exists: Seq<bool>, deleted: Set<Seq<char>>)
    ensures
        ({
            let r = hide_deleted(items, exists, deleted);
            &&& r.0.len() + r.2 == items.len()
            &&& r.1.subset_of(deleted)
            &&& exists|keep: Seq<int>| #[trigger] picked_in_order(r.0, items, keep)
        }),
    decreases items.len(),
{
    if items.len() > 0 {
        law_hiding_keeps_order(items.drop_last(), exists, deleted);
        let prev = hide_deleted(items.drop_last(), exists, deleted);
        let keep0 = choose|keep: Seq<int>| #[trigger] picked_in_order(prev.0, items.drop_last(), keep);
        let r = hide_deleted(items, exists, deleted);
        let last = items.len() - 1;
        if r.0.len() == prev.0.len() + 1 {
            let keep = keep0.push(last);
            assert(r.0 == prev.0.push(items.last()));
            assert forall|a: int, b: int| 0 <= a < b < keep.len() implies #[trigger] keep[a] < #[trigger] keep[b] by {
                if b < keep0.len() {
                    assert(keep[a] == keep0[a] && keep[b] == keep0[b]);
                } else {
                    assert(keep[a] == keep0[a]);
                }
            }
            assert forall|a: int| 0 <= a < keep.len() implies 0 <= #[trigger] keep[a] < items.len() && r.0[a] == items[keep[a]] by {
                if a < keep0.len() {
                    assert(keep[a] == keep0[a]);
                    assert(items.drop_last()[keep0[a]] == items[keep0[a]]);
                }
            }
            assert(picked_in_order(r.0, items, keep));
        } else {
            assert forall|a: int| 0 <= a < keep0.len() implies 0 <= #[trigger] keep0[a] < items.len() && r.0[a] == items[keep0[a]] by {
                assert(items.drop_last()[keep0[a]] == items[keep0[a]]);
            }
            assert(picked_in_order(r.0, items, keep0));
        }
    } else {
        assert(picked_in_order(Seq::empty(), items, Seq::<int>::empty()));
    }
}

/// The remembered deleted paths survive a restart: the stored list, read
/// back, gives the same paths, for paths that are not empty, hold no line
/// break, and are their own lower case.
pub proof fn law_deleted_paths_survive_a_restart(state: TrashState)
    requires
        state.wf(),
        forall|p: Seq<char>|
            #[trigger] state.deleted().contains(p) ==> p.len() > 0 && line_fits(p, "\n"@) && unicode_lowercase(p)
                == p,
    ensures
        stored_deleted_paths(join_with(state.deleted_in_order(), "\n"@)) == state.deleted(),
{
    reveal_strlit("\n");
    let d = state.deleted_in_order();
    let text = join_with(d, "\n"@);
    assert forall|i: int| 0 <= i < d.len() implies line_fits(#[trigger] d[i], "\n"@) && d[i].len() > 0
        && unicode_lowercase(d[i]) == d[i] by {
        assert(state.deleted().contains(d[i]));
    }
    if d.len() == 0 {
        assert(text == Seq::<char>::empty());
        assert(lines_of(text) =~= Seq::<Seq<char>>::empty());
        assert(stored_deleted_paths(text) =~= state.deleted());
    } else {
        lemma_join_lines_text(d, "\n"@);
        lemma_lines_of_lines_text(d, "\n"@);
        assert(text + "\n"@ == lines_text(d, "\n"@));
        let last = d.last();
        assert(d[d.len() - 1] == last);
        if d.len() == 1 {
            assert(text == d[0]);
        } else {
            assert(text =~= join_with(d.drop_last(), "\n"@) + "\n"@ + last);
        }
        assert(text.len() > 0 && text.last() == last.last());
        assert(!(last.len() > 0 && last.last() == '\r'));
        assert(text.last() != '\n') by {
            if text.last() == '\n' {
                assert(last.contains(last.last()));
            }
        }
        lemma_lines_final_newline(text, 0);
        assert(lines_of(text) == d);
        assert forall|p: Seq<char>| stored_deleted_paths(text).contains(p) <==> #[trigger] state.deleted().contains(p) by {
            if state.deleted().contains(p) {
                let i = choose|i: int| 0 <= i < d.len() && d[i] == p;
                assert(p == unicode_lowercase(d[i]));
            }
            if stored_deleted_paths(text).contains(p) {
                let i = choose|i: int| 0 <= i < lines_of(text).len() && p == unicode_lowercase(#[trigger] lines_of(text)[i]);
                assert(d.contains(d[i]));
            }
        }
        assert(stored_deleted_paths(text) =~= state.deleted());
    }
}

/// One deletion acts on at most 10 000 paths.
pub proof fn law_deletion_limit()
    ensures
        MAX_TRASH_ITEMS == 10_000,
{
}

} // verus!
