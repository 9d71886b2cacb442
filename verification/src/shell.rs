//! The decisions behind the Windows shell operations: which paths a batch
//! acts on and in what order, what each failure reads, and the keys under
//! which icons and previews are cached.

use vstd::prelude::*;
use vstd::relations::{sorted_by, total_ordering};
use vstd::utf8::{encode_utf8, encode_utf8_decode_utf8};
use crate::engine_config::strings_view;
use crate::windows_name::{name_error, validate_windows_name};
use crate::text::{
    bytes_le, bytes_leq, lemma_bytes_leq_antisymmetric, lemma_bytes_leq_reflexive,
    lemma_bytes_leq_total, lemma_bytes_leq_transitive, to_lowercase, unicode_lowercase,
};
use crate::text::{
    chars_eq, chars_eq_ignore_case, chars_of, concat_str, contains_seq, eq_ignore_case, lower_chars,
    lower_seq, decimal, decimal_chars, push_chars, replace_char, replace_seq,
    starts_with, string_of, sub_chars, trim_chars, trimmed,
};

verus! {

broadcast use vstd::string::group_string_axioms;

/// Why a shell operation failed.
#[derive(Debug, Clone, PartialEq, Eq)]
pub enum ShellError {
    MissingPath(String),
    InvalidPath(String),
    InvalidName(String),
    AlreadyExists(String),
    Io(String),
    Clipboard(String),
    Visual(String),
}

/// The sentence that reports a shell error.
pub open spec fn shell_error_text(e: ShellError) -> Seq<char> {
    match e {
        ShellError::MissingPath(p) => "The file or folder no longer exists: "@ + p@,
        ShellError::InvalidPath(p) => "Invalid path: "@ + p@,
        ShellError::InvalidName(n) => "Invalid Windows file name: "@ + n@,
        ShellError::AlreadyExists(p) => "An item with this name already exists: "@ + p@,
        ShellError::Io(m) => "System operation failed: "@ + m@,
        ShellError::Clipboard(m) => "Unable to write to the clipboard: "@ + m@,
        ShellError::Visual(m) => "Unable to create the file preview: "@ + m@,
    }
}

impl ShellError {
    /// The sentence shown to the user.
    pub fn message(&self) -> (m: String)
        ensures
            m@ == shell_error_text(*self),
    {
        match self {
            ShellError::MissingPath(p) => concat_str("The file or folder no longer exists: ", p),
            ShellError::InvalidPath(p) => concat_str("Invalid path: ", p),
            ShellError::InvalidName(n) => concat_str("Invalid Windows file name: ", n),
            ShellError::AlreadyExists(p) => concat_str(
                "An item with this name already exists: ",
                p,
            ),
            ShellError::Io(m) => concat_str("System operation failed: ", m),
            ShellError::Clipboard(m) => concat_str("Unable to write to the clipboard: ", m),
            ShellError::Visual(m) => concat_str("Unable to create the file preview: ", m),
        }
    }
}

/// The raw argument that makes Explorer open a folder with one item
/// selected: `/select,"<path>"`, the path quoted as a whole.
pub open spec fn explorer_select_argument(path: Seq<char>) -> Seq<char> {
    "/select,\""@ + path + "\""@
}

/// The argument handed to `explorer.exe` to reveal a path.
pub fn explorer_legacy_select_raw_argument(path: &str) -> (arg: String)
    ensures
        arg@ == explorer_select_argument(path@),
{
    let mut v = chars_of("/select,\"");
    push_chars(&mut v, &chars_of(path));
    push_chars(&mut v, &chars_of("\""));
    string_of(&v)
}

/// Checks a path before an operation, given whether it exists on disk: a
/// blank path is invalid whatever the disk says, an absent one is missing.
pub fn check_existing_path(path: &str, exists: bool) -> (r: Result<(), ShellError>)
    ensures
        trimmed(path@).len() == 0 ==> (r matches Err(ShellError::InvalidPath(p)) && p@ == path@),
        trimmed(path@).len() != 0 && !exists ==> (r matches Err(ShellError::MissingPath(p)) && p@
            == path@),
        trimmed(path@).len() != 0 && exists ==> r is Ok,
{
    let chars = chars_of(path);
    let kept = trim_chars(&chars);
    if kept.len() == 0 {
        Err(ShellError::InvalidPath(string_of(&chars)))
    } else if !exists {
        Err(ShellError::MissingPath(string_of(&chars)))
    } else {
        Ok(())
    }
}

/// The outcome of one attempt to move a path to the Recycle Bin.
#[derive(Debug, Clone, PartialEq, Eq)]
pub enum TrashAttempt {
    /// The path was not checked out: blank or absent.
    Unavailable(ShellError),
    /// The path is in the Recycle Bin.
    Deleted,
    /// The Recycle Bin refused the path, for the given reason.
    Refused(String),
}

/// What a batch move to the Recycle Bin did.
#[derive(Debug, Clone, PartialEq, Eq)]
pub struct TrashReport {
    pub deleted: usize,
    pub deleted_paths: Vec<String>,
    pub failures: Vec<String>,
}

/// The failure line of an attempt that did not delete its path.
pub open spec fn trash_failure_text(path: Seq<char>, attempt: TrashAttempt) -> Seq<char> {
    match attempt {
        TrashAttempt::Unavailable(e) => shell_error_text(e),
        TrashAttempt::Refused(reason) => path + " : "@ + reason@,
        TrashAttempt::Deleted => Seq::empty(),
    }
}

impl TrashReport {
    /// A report of nothing yet.
    pub fn new() -> (r: TrashReport)
        ensures
            r.deleted == 0,
            r.deleted_paths@.len() == 0,
            r.failures@.len() == 0,
    {
        TrashReport { deleted: 0, deleted_paths: Vec::new(), failures: Vec::new() }
    }

    /// Adds the outcome of one path: a deleted path is listed and counted,
    /// any other outcome adds its failure line.
    pub fn record(&mut self, path: &str, attempt: TrashAttempt)
        ensures
            attempt is Deleted ==> final(self).deleted_paths@.map_values(|p: String| p@)
                == old(self).deleted_paths@.map_values(|p: String| p@).push(path@)
                && final(self).failures@ == old(self).failures@,
            !(attempt is Deleted) ==> final(self).deleted_paths@ == old(self).deleted_paths@
                && final(self).failures@.map_values(|p: String| p@)
                == old(self).failures@.map_values(|p: String| p@).push(
                trash_failure_text(path@, attempt),
            ),
            final(self).deleted == final(self).deleted_paths@.len(),
    {
        match attempt {
            TrashAttempt::Deleted => {
                self.deleted_paths.push(string_of(&chars_of(path)));
                proof {
                    assert(self.deleted_paths@.map_values(|p: String| p@) =~= old(
                        self,
                    ).deleted_paths@.map_values(|p: String| p@).push(path@));
                }
            },
            TrashAttempt::Unavailable(e) => {
                self.failures.push(e.message());
                proof {
                    assert(self.failures@.map_values(|p: String| p@) =~= old(
                        self,
                    ).failures@.map_values(|p: String| p@).push(trash_failure_text(path@, attempt)));
                }
            },
            TrashAttempt::Refused(reason) => {
                let mut line = chars_of(path);
                push_chars(&mut line, &chars_of(" : "));
                push_chars(&mut line, &chars_of(&reason));
                self.failures.push(string_of(&line));
                proof {
                    assert(self.failures@.map_values(|p: String| p@) =~= old(
                        self,
                    ).failures@.map_values(|p: String| p@).push(trash_failure_text(path@, attempt)));
                }
            },
        }
        self.deleted = self.deleted_paths.len();
    }
}

/// A path in the form the Windows Shell parses: forward slashes turned
/// into backslashes, and the verbatim prefixes `\\?\UNC\` and `\\?\`
/// taken back to the ordinary `\\` and nothing.
pub open spec fn shell_path(path: Seq<char>) -> Seq<char> {
    let n = replace_seq(path, '/', '\\');
    if starts_with(n, "\\\\?\\UNC\\"@) {
        "\\\\"@ + n.skip(8)
    } else if starts_with(n, "\\\\?\\"@) {
        n.skip(4)
    } else {
        n
    }
}

/// The path handed to the Shell when it makes a preview.
pub fn shell_compatible_path(path: &str) -> (r: String)
    ensures
        r@ == shell_path(path@),
{
    let n = replace_char(&chars_of(path), '/', '\\');
    let unc = chars_of("\\\\?\\UNC\\");
    let verbatim = chars_of("\\\\?\\");
    proof {
        reveal_strlit("\\\\?\\UNC\\");
        reveal_strlit("\\\\?\\");
        reveal_strlit("\\\\");
    }
    if crate::text::chars_start_with(&n, &unc) {
        let mut r = chars_of("\\\\");
        push_chars(&mut r, &sub_chars(&n, 8, n.len()));
        string_of(&r)
    } else if crate::text::chars_start_with(&n, &verbatim) {
        string_of(&sub_chars(&n, 4, n.len()))
    } else {
        string_of(&n)
    }
}

/// The order in which a batch acts on its paths, each given with its
/// number of components: deepest first, then longest (in bytes) first,
/// then in byte order.
pub open spec fn operation_leq(a: (Seq<char>, int), b: (Seq<char>, int)) -> bool {
    let la = encode_utf8(a.0).len();
    let lb = encode_utf8(b.0).len();
    if a.1 != b.1 {
        a.1 > b.1
    } else if la != lb {
        la > lb
    } else {
        bytes_leq(encode_utf8(a.0), encode_utf8(b.0))
    }
}

/// `operation_leq` as a relation.
pub open spec fn operation_order() -> spec_fn((Seq<char>, int), (Seq<char>, int)) -> bool {
    |a: (Seq<char>, int), b: (Seq<char>, int)| operation_leq(a, b)
}

proof fn lemma_operation_leq_transitive(a: (Seq<char>, int), b: (Seq<char>, int), c: (Seq<char>, int))
    requires
        operation_leq(a, b),
        operation_leq(b, c),
    ensures
        operation_leq(a, c),
{
    if a.1 == b.1 && b.1 == c.1 && encode_utf8(a.0).len() == encode_utf8(b.0).len()
        && encode_utf8(b.0).len() == encode_utf8(c.0).len() {
        lemma_bytes_leq_transitive(encode_utf8(a.0), encode_utf8(b.0), encode_utf8(c.0));
    }
}

proof fn lemma_operation_leq_total(a: (Seq<char>, int), b: (Seq<char>, int))
    ensures
        operation_leq(a, b) || operation_leq(b, a),
{
    lemma_bytes_leq_total(encode_utf8(a.0), encode_utf8(b.0));
}

proof fn lemma_operation_leq_antisymmetric(a: (Seq<char>, int), b: (Seq<char>, int))
    requires
        operation_leq(a, b),
        operation_leq(b, a),
    ensures
        a == b,
{
    lemma_bytes_leq_antisymmetric(encode_utf8(a.0), encode_utf8(b.0));
    encode_utf8_decode_utf8(a.0);
    encode_utf8_decode_utf8(b.0);
}

/// The batch order is a total order, so sorting by it has one outcome.
pub proof fn lemma_operation_order_total()
    ensures
        total_ordering(operation_order()),
{
    assert forall|a: (Seq<char>, int)| #[trigger] operation_order()(a, a) by {
        lemma_bytes_leq_reflexive(encode_utf8(a.0));
    }
    assert forall|a: (Seq<char>, int), b: (Seq<char>, int)|
        #[trigger] operation_order()(a, b) && #[trigger] operation_order()(b, a) implies a == b by {
        lemma_operation_leq_antisymmetric(a, b);
    }
    assert forall|a: (Seq<char>, int), b: (Seq<char>, int), c: (Seq<char>, int)|
        #[trigger] operation_order()(a, b) && #[trigger] operation_order()(b, c) implies operation_order()(
        a,
        c,
    ) by {
        lemma_operation_leq_transitive(a, b, c);
    }
    assert forall|a: (Seq<char>, int), b: (Seq<char>, int)|
        #[trigger] operation_order()(a, b) || #[trigger] operation_order()(b, a) by {
        lemma_operation_leq_total(a, b);
    }
}

/// Neighbours that are equal up to ASCII case are kept once, the first.
pub open spec fn dedup_ignore_case(s: Seq<Seq<char>>) -> Seq<Seq<char>>
    decreases s.len(),
{
    if s.len() <= 1 {
        s
    } else if eq_ignore_case(s[s.len() - 2], s.last()) {
        dedup_ignore_case(s.drop_last())
    } else {
        dedup_ignore_case(s.drop_last()).push(s.last())
    }
}

/// The paths paired with their numbers of components.
pub open spec fn operation_entries(paths: Seq<Seq<char>>, depths: Seq<int>) -> Seq<(Seq<char>, int)> {
    Seq::new(paths.len(), |i: int| (paths[i], depths[i]))
}

/// The paths a batch acts on, in the order it acts on them: sorted by
/// `operation_leq`, then neighbours that differ only in ASCII case dropped.
pub open spec fn operation_paths(paths: Seq<Seq<char>>, depths: Seq<int>) -> Seq<Seq<char>> {
    dedup_ignore_case(
        operation_entries(paths, depths).sort_by(operation_order()).map_values(
            |e: (Seq<char>, int)| e.0,
        ),
    )
}

/// A path with its number of components, as the sort sees it.
pub open spec fn entry_view(e: (String, usize)) -> (Seq<char>, int) {
    (e.0@, e.1 as int)
}

/// `entry_view` of each entry.
pub open spec fn entries_view(v: Seq<(String, usize)>) -> Seq<(Seq<char>, int)> {
    v.map_values(|e: (String, usize)| entry_view(e))
}

/// Compares two entries by `operation_leq`.
fn operation_le(a: &(String, usize), b: &(String, usize)) -> (r: bool)
    ensures
        r == operation_leq(entry_view(*a), entry_view(*b)),
{
    if a.1 != b.1 {
        return a.1 > b.1;
    }
    let ab = a.0.as_str().as_bytes();
    let bb = b.0.as_str().as_bytes();
    if ab.len() != bb.len() {
        return ab.len() > bb.len();
    }
    bytes_le(ab, bb)
}

/// Where an entry goes in a sorted list: after every entry that is not
/// greater, before every entry that is.
fn insertion_point(sorted: &Vec<(String, usize)>, x: &(String, usize)) -> (k: usize)
    requires
        sorted_by(entries_view(sorted@), operation_order()),
    ensures
        k <= sorted@.len(),
        forall|j: int| 0 <= j < k ==> operation_leq(#[trigger] entries_view(sorted@)[j], entry_view(*x)),
        forall|j: int| k <= j < sorted@.len() ==> operation_leq(entry_view(*x), #[trigger] entries_view(sorted@)[j]),
{
    let ghost s = entries_view(sorted@);
    let ghost v = entry_view(*x);
    let mut lo: usize = 0;
    let mut hi: usize = sorted.len();
    while lo < hi
        invariant
            0 <= lo <= hi <= sorted@.len(),
            s == entries_view(sorted@),
            v == entry_view(*x),
            sorted_by(s, operation_order()),
            forall|j: int| 0 <= j < lo ==> operation_leq(#[trigger] s[j], v),
            forall|j: int| hi <= j < sorted@.len() ==> operation_leq(v, #[trigger] s[j]),
        decreases hi - lo,
    {
        let mid = lo + (hi - lo) / 2;
        if operation_le(&sorted[mid], x) {
            proof {
                assert forall|j: int| 0 <= j < mid + 1 implies operation_leq(#[trigger] s[j], v) by {
                    if j < mid {
                        assert(operation_order()(s[j], s[mid as int]));
                        lemma_operation_leq_transitive(s[j], s[mid as int], v);
                    }
                }
            }
            lo = mid + 1;
        } else {
            proof {
                lemma_operation_leq_total(s[mid as int], v);
                assert forall|j: int| mid <= j < sorted@.len() implies operation_leq(v, #[trigger] s[j]) by {
                    if j > mid {
                        assert(operation_order()(s[mid as int], s[j]));
                        lemma_operation_leq_transitive(v, s[mid as int], s[j]);
                    }
                }
            }
            hi = mid;
        }
    }
    lo
}

proof fn lemma_insert_to_multiset<A>(s: Seq<A>, k: int, x: A)
    requires
        0 <= k <= s.len(),
    ensures
        s.insert(k, x).to_multiset() =~= s.to_multiset().insert(x),
{
    broadcast use vstd::seq_lib::group_to_multiset_ensures;
    broadcast use vstd::multiset::group_multiset_axioms;

    let t = s.insert(k, x);
    assert(t.remove(k) =~= s);
    assert(t[k] == x);
    assert(t.contains(x));
}

/// The paths a batch acts on, in order, given each path's number of
/// components: deepest first, then longest, then in byte order, and
/// paths that follow an equal one (up to ASCII case) left out.
pub fn order_operation_paths(paths: &[String], depths: &[usize]) -> (r: Vec<String>)
    requires
        paths@.len() == depths@.len(),
    ensures
        strings_view(r@) == operation_paths(
            strings_view(paths@),
            depths@.map_values(|d: usize| d as int),
        ),
{
    broadcast use vstd::seq_lib::group_to_multiset_ensures;

    let ghost entries = operation_entries(
        strings_view(paths@),
        depths@.map_values(|d: usize| d as int),
    );
    let mut sorted: Vec<(String, usize)> = Vec::new();
    let mut i: usize = 0;
    proof {
        assert(entries.take(0) =~= Seq::<(Seq<char>, int)>::empty());
        assert(entries_view(sorted@) =~= Seq::<(Seq<char>, int)>::empty());
    }
    while i < paths.len()
        invariant
            0 <= i <= paths@.len(),
            paths@.len() == depths@.len(),
            entries == operation_entries(
                strings_view(paths@),
                depths@.map_values(|d: usize| d as int),
            ),
            sorted_by(entries_view(sorted@), operation_order()),
            entries_view(sorted@).to_multiset() == entries.take(i as int).to_multiset(),
        decreases paths@.len() - i,
    {
        let x = (paths[i].clone(), depths[i]);
        let k = insertion_point(&sorted, &x);
        let ghost before = entries_view(sorted@);
        sorted.insert(k, x);
        proof {
            let after = entries_view(sorted@);
            assert(after =~= before.insert(k as int, entry_view(x)));
            assert forall|a: int, b: int| 0 <= a < b < after.len() implies #[trigger] operation_order()(
                after[a],
                after[b],
            ) by {
                if b < k {
                    assert(operation_order()(before[a], before[b]));
                } else if a < k && b == k {
                } else if a < k {
                    assert(operation_leq(before[a], entry_view(x)));
                    assert(operation_leq(entry_view(x), before[b - 1]));
                    lemma_operation_leq_transitive(before[a], entry_view(x), before[b - 1]);
                } else if a == k {
                } else {
                    assert(operation_order()(before[a - 1], before[b - 1]));
                }
            }
            lemma_insert_to_multiset(before, k as int, entry_view(x));
            assert(entry_view(x) == entries[i as int]);
            assert(entries.take(i + 1) =~= entries.take(i as int).push(entries[i as int]));
            vstd::seq_lib::to_multiset_build(entries.take(i as int), entries[i as int]);
            assert(after.to_multiset() == before.to_multiset().insert(entry_view(x)));
        }
        i = i + 1;
    }
    proof {
        assert(entries.take(i as int) =~= entries);
        lemma_operation_order_total();
        entries.lemma_sort_by_ensures(operation_order());
        vstd::seq_lib::lemma_sorted_unique(
            entries_view(sorted@),
            entries.sort_by(operation_order()),
            operation_order(),
        );
    }
    let ghost names = entries_view(sorted@).map_values(|e: (Seq<char>, int)| e.0);
    let mut r: Vec<String> = Vec::new();
    let mut j: usize = 0;
    proof {
        assert(names.take(0) =~= Seq::<Seq<char>>::empty());
        assert(strings_view(r@) =~= Seq::<Seq<char>>::empty());
    }
    while j < sorted.len()
        invariant
            0 <= j <= sorted@.len(),
            names == entries_view(sorted@).map_values(|e: (Seq<char>, int)| e.0),
            strings_view(r@) == dedup_ignore_case(names.take(j as int)),
        decreases sorted@.len() - j,
    {
        let keep = if j == 0 {
            true
        } else {
            !chars_eq_ignore_case(&chars_of(&sorted[j - 1].0), &chars_of(&sorted[j].0))
        };
        proof {
            let t = names.take(j + 1);
            assert(t.drop_last() =~= names.take(j as int));
            if j > 0 {
                assert(t[t.len() - 2] == sorted@[j - 1].0@);
                assert(t.last() == sorted@[j as int].0@);
            } else {
                assert(dedup_ignore_case(names.take(0)) =~= Seq::<Seq<char>>::empty());
            }
        }
        if keep {
            r.push(sorted[j].0.clone());
            proof {
                assert(strings_view(r@) =~= dedup_ignore_case(names.take(j as int)).push(
                    names[j as int],
                ));
            }
        }
        j = j + 1;
    }
    proof {
        assert(names.take(j as int) =~= names);
        assert(names =~= entries.sort_by(operation_order()).map_values(|e: (Seq<char>, int)| e.0));
    }
    r
}

/// Whether a path reads the same under Windows and Unix path syntax: only
/// `/` separates its components, and it has no drive prefix (`C:`) and no
/// network or device prefix (two leading separators).
pub open spec fn portable_path(p: Seq<char>) -> bool {
    &&& !p.contains('\\')
    &&& !(p.len() >= 2 && p[1] == ':')
    &&& !(p.len() >= 2 && p[0] == '/' && p[1] == '/')
}

/// Whether position `i` of a portable path ends a component other than the
/// root and `.`: a character that is no separator, with a separator or
/// the end after it, and not the `.` of a lone `.` between separators.
pub open spec fn ends_component(p: Seq<char>, i: int) -> bool {
    &&& 0 <= i < p.len()
    &&& p[i] != '/'
    &&& (i + 1 == p.len() || p[i + 1] == '/')
    &&& !(p[i] == '.' && (i == 0 || p[i - 1] == '/'))
}

/// How many named components (`..` included) end before position `n`.
pub open spec fn components_ending_before(p: Seq<char>, n: int) -> nat
    decreases n,
{
    if n <= 0 {
        0
    } else {
        components_ending_before(p, n - 1) + if ends_component(p, n - 1) {
            1nat
        } else {
            0nat
        }
    }
}

/// The number of components of a portable path, as `Path::components`
/// gives them: the root for a leading `/`, the leading `.` of a relative
/// path, and every component that is neither empty nor `.`.
pub open spec fn portable_component_count(p: Seq<char>) -> nat {
    (if p.len() > 0 && p[0] == '/' {
        1nat
    } else {
        0nat
    }) + (if p.len() > 0 && p[0] == '.' && (p.len() == 1 || p[1] == '/') {
        1nat
    } else {
        0nat
    }) + components_ending_before(p, p.len() as int)
}

/// How many components a path has (`Path::components().count()`). The
/// platform's path syntax decides it in general (`\` and prefixes such
/// as `C:` only separate on Windows), so only what holds under both Windows
/// and Unix syntax is claimed: for a portable path, the count of
/// `portable_component_count`.
#[verifier::external_body]
fn path_component_count(path: &str) -> (n: usize)
    ensures
        portable_path(path@) ==> n == portable_component_count(path@),
{
    std::path::Path::new(path).components().count()
}

/// Positions before `n` end the same components in two paths that agree
/// there, so as many components end before `n` in both.
proof fn lemma_components_ending_before_agree(p: Seq<char>, q: Seq<char>, n: int)
    requires
        forall|i: int| 0 <= i < n ==> ends_component(p, i) == ends_component(q, i),
    ensures
        components_ending_before(p, n) == components_ending_before(q, n),
    decreases n,
{
    if n > 0 {
        lemma_components_ending_before_agree(p, q, n - 1);
    }
}

/// No component ends in `[from, n)`, so as many end before `n` as before
/// `from`.
proof fn lemma_components_ending_none(p: Seq<char>, from: int, n: int)
    requires
        0 <= from <= n,
        forall|i: int| from <= i < n ==> !ends_component(p, i),
    ensures
        components_ending_before(p, n) == components_ending_before(p, from),
    decreases n - from,
{
    if n > from {
        lemma_components_ending_none(p, from, n - 1);
    }
}

/// A child is deeper than its parent: a portable path followed by `/` and
/// a name (not empty, not `.`, without separators) has more components.
pub proof fn law_child_has_more_components(parent: Seq<char>, name: Seq<char>)
    requires
        name.len() > 0,
        name != seq!['.'],
        !name.contains('/'),
        portable_path(parent + seq!['/'] + name),
    ensures
        portable_component_count(parent + seq!['/'] + name) > portable_component_count(parent),
{
    let q = parent + seq!['/'] + name;
    let l = parent.len() as int;
    assert forall|i: int| 0 <= i < l implies ends_component(parent, i) == ends_component(q, i) by {
        assert(q[i] == parent[i]);
        if i + 1 < l {
            assert(q[i + 1] == parent[i + 1]);
        } else {
            assert(q[i + 1] == '/');
        }
        if i > 0 {
            assert(q[i - 1] == parent[i - 1]);
        }
    }
    lemma_components_ending_before_agree(parent, q, l);
    assert forall|i: int| l <= i < q.len() - 1 implies !ends_component(q, i) by {
        if i > l {
            assert(q[i + 1] == name[i + 1 - l - 1]);
            assert(name.contains(name[i - l]));
        }
    }
    lemma_components_ending_none(q, l, q.len() - 1);
    let last = q.len() - 1;
    assert(q[last] == name[name.len() - 1]);
    assert(name.contains(name[name.len() - 1]));
    if q[last] == '.' && q[last - 1] == '/' {
        if name.len() == 1 {
            assert(name =~= seq!['.']);
        } else {
            assert(q[last - 1] == name[name.len() - 2]);
            assert(name.contains(name[name.len() - 2]));
        }
    }
    assert(ends_component(q, last));
    if l > 0 {
        assert(q[0] == parent[0]);
        if l > 1 {
            assert(q[1] == parent[1]);
        } else {
            assert(q[1] == '/');
        }
    }
}

/// No `q` comes after a `p` in `s`.
pub open spec fn never_after(s: Seq<Seq<char>>, p: Seq<char>, q: Seq<char>) -> bool {
    forall|i: int, j: int| 0 <= i < j < s.len() && #[trigger] s[i] == p ==> #[trigger] s[j] != q
}

/// Dropping neighbours keeps what never came after what.
proof fn lemma_dedup_never_after(s: Seq<Seq<char>>, p: Seq<char>, q: Seq<char>)
    requires
        never_after(s, p, q),
    ensures
        never_after(dedup_ignore_case(s), p, q),
    decreases s.len(),
{
    if s.len() > 1 {
        let rest = s.drop_last();
        assert(never_after(rest, p, q)) by {
            assert forall|i: int, j: int| 0 <= i < j < rest.len() && #[trigger] rest[i] == p implies #[trigger] rest[j]
                != q by {
                assert(s[i] == rest[i] && s[j] == rest[j]);
            }
        }
        lemma_dedup_never_after(rest, p, q);
        lemma_dedup_ignore_case(rest);
        let d = dedup_ignore_case(rest);
        if !eq_ignore_case(s[s.len() - 2], s.last()) {
            let t = d.push(s.last());
            assert forall|i: int, j: int| 0 <= i < j < t.len() && #[trigger] t[i] == p implies #[trigger] t[j]
                != q by {
                if j < d.len() {
                    assert(t[i] == d[i] && t[j] == d[j]);
                } else {
                    assert(t[i] == d[i]);
                    assert(d.contains(d[i]));
                    assert(rest.contains(p));
                    let k = choose|k: int| 0 <= k < rest.len() && rest[k] == p;
                    assert(s[k] == p);
                    assert(s[s.len() - 1] != q);
                }
            }
        }
    }
}

/// In the order of a batch, a path never comes after a path with fewer
/// components: when every copy of `shallow` has `ds` components and every
/// copy of `deep` has more, `dd`, the deeper one comes first.
pub proof fn law_deeper_paths_come_first(
    paths: Seq<Seq<char>>,
    depths: Seq<int>,
    shallow: Seq<char>,
    deep: Seq<char>,
    ds: int,
    dd: int,
)
    requires
        depths.len() == paths.len(),
        ds < dd,
        forall|i: int|
            0 <= i < paths.len() ==> (#[trigger] paths[i] == shallow ==> depths[i] == ds) && (paths[i] == deep
                ==> depths[i] == dd),
    ensures
        never_after(operation_paths(paths, depths), shallow, deep),
{
    let entries = operation_entries(paths, depths);
    lemma_operation_order_total();
    entries.lemma_sort_by_ensures(operation_order());
    let sorted = entries.sort_by(operation_order());
    let names = sorted.map_values(|e: (Seq<char>, int)| e.0);
    assert forall|k: int| 0 <= k < sorted.len() implies (sorted[k].0 == shallow ==> sorted[k].1 == ds) && (
    sorted[k].0 == deep ==> sorted[k].1 == dd) by {
        assert(sorted.contains(sorted[k]));
        assert(entries.contains(sorted[k]));
        let i = choose|i: int| 0 <= i < entries.len() && entries[i] == sorted[k];
        assert(paths[i] == entries[i].0 && depths[i] == entries[i].1);
    }
    assert forall|i: int, j: int| 0 <= i < j < names.len() && #[trigger] names[i] == shallow implies #[trigger] names[j]
        != deep by {
        assert(operation_order()(sorted[i], sorted[j]));
        assert(names[i] == sorted[i].0 && names[j] == sorted[j].0);
    }
    lemma_dedup_never_after(names, shallow, deep);
}

/// The order of a batch puts a child before its parent: with the number of
/// components of each portable path as `normalized_operation_paths` uses
/// it, a portable path followed by `/` and a name (not empty, not `.`,
/// without separators) never comes after that path.
pub proof fn law_children_before_parents(paths: Seq<Seq<char>>, depths: Seq<int>, parent: Seq<char>, name: Seq<char>)
    requires
        depths.len() == paths.len(),
        forall|i: int| 0 <= i < paths.len() && portable_path(#[trigger] paths[i]) ==> depths[i] == portable_component_count(paths[i]),
        name.len() > 0,
        name != seq!['.'],
        !name.contains('/'),
        portable_path(parent + seq!['/'] + name),
    ensures
        never_after(operation_paths(paths, depths), parent, parent + seq!['/'] + name),
{
    let child = parent + seq!['/'] + name;
    law_child_has_more_components(parent, name);
    assert(portable_path(parent)) by {
        if parent.contains('\\') {
            let k = choose|k: int| 0 <= k < parent.len() && parent[k] == '\\';
            assert(child[k] == '\\');
        }
        if parent.len() >= 2 {
            assert(child[0] == parent[0] && child[1] == parent[1]);
        }
    }
    let ds = portable_component_count(parent) as int;
    let dd = portable_component_count(child) as int;
    assert(forall|i: int|
        0 <= i < paths.len() ==> (#[trigger] paths[i] == parent ==> depths[i] == ds) && (paths[i] == child
            ==> depths[i] == dd));
    law_deeper_paths_come_first(paths, depths, parent, child, ds, dd);
}

/// The paths a batch of file operations acts on, in the order it acts on
/// them: deepest first (a portable path by its `portable_component_count`),
/// so a portable child never after its parent, each path once.
pub fn normalized_operation_paths(paths: &[String]) -> (r: Vec<String>)
    ensures
        exists|depths: Seq<int>|
            {
                &&& depths.len() == paths@.len()
                &&& forall|i: int|
                    0 <= i < paths@.len() && portable_path(#[trigger] paths@[i]@) ==> depths[i]
                        == portable_component_count(paths@[i]@)
                &&& #[trigger] operation_paths(strings_view(paths@), depths) == strings_view(r@)
            },
        forall|parent: Seq<char>, name: Seq<char>|
            name.len() > 0 && name != seq!['.'] && !name.contains('/') && portable_path(parent + seq!['/'] + name)
                ==> #[trigger] never_after(strings_view(r@), parent, parent + seq!['/'] + name),
{
    let mut depths: Vec<usize> = Vec::new();
    let mut i: usize = 0;
    while i < paths.len()
        invariant
            0 <= i <= paths@.len(),
            depths@.len() == i,
            forall|k: int|
                0 <= k < i && portable_path(#[trigger] paths@[k]@) ==> depths@[k] == portable_component_count(
                    paths@[k]@,
                ),
        decreases paths@.len() - i,
    {
        depths.push(path_component_count(&paths[i]));
        i = i + 1;
    }
    let r = order_operation_paths(paths, &depths);
    proof {
        let d = depths@.map_values(|d: usize| d as int);
        assert(operation_paths(strings_view(paths@), d) == strings_view(r@));
        assert(forall|k: int| 0 <= k < paths@.len() ==> d[k] == depths@[k] as int);
        assert forall|parent: Seq<char>, name: Seq<char>|
            name.len() > 0 && name != seq!['.'] && !name.contains('/') && portable_path(parent + seq!['/'] + name)
                implies #[trigger] never_after(strings_view(r@), parent, parent + seq!['/'] + name) by {
            law_children_before_parents(strings_view(paths@), d, parent, name);
        }
    }
    r
}

/// A path as cache keys hold it: backslashes only, in lower case (Windows
/// paths do not tell case apart).
pub open spec fn cache_path(path: Seq<char>) -> Seq<char> {
    unicode_lowercase(replace_seq(path, '/', '\\'))
}

fn cache_path_string(path: &str) -> (r: String)
    ensures
        r@ == cache_path(path@),
{
    let n = string_of(&replace_char(&chars_of(path), '/', '\\'));
    to_lowercase(n.as_str())
}

/// Extensions whose icon belongs to the file itself: shortcuts, icons,
/// programs and the like.
pub open spec fn path_specific_extension(ext: Seq<char>) -> bool {
    ||| ext == "lnk"@
    ||| ext == "url"@
    ||| ext == "ico"@
    ||| ext == "exe"@
    ||| ext == "dll"@
    ||| ext == "cpl"@
    ||| ext == "scr"@
    ||| ext == "msc"@
    ||| ext == "appref-ms"@
}

/// The key of a file's icon: folders and files with their own icon are
/// keyed by path, every other file shares the icon of its extension.
pub open spec fn icon_key(path: Seq<char>, extension: Seq<char>, is_dir: bool) -> Seq<char> {
    let ext = lower_seq(extension);
    if is_dir || path_specific_extension(ext) {
        "path:"@ + cache_path(path)
    } else {
        "extension:"@ + ext
    }
}

fn is_path_specific_extension(ext: &[char]) -> (r: bool)
    ensures
        r == path_specific_extension(ext@),
{
    chars_eq(ext, &chars_of("lnk")) || chars_eq(ext, &chars_of("url")) || chars_eq(
        ext,
        &chars_of("ico"),
    ) || chars_eq(ext, &chars_of("exe")) || chars_eq(ext, &chars_of("dll")) || chars_eq(
        ext,
        &chars_of("cpl"),
    ) || chars_eq(ext, &chars_of("scr")) || chars_eq(ext, &chars_of("msc")) || chars_eq(
        ext,
        &chars_of("appref-ms"),
    )
}

/// The icon cache key of a path, given its extension and whether it is a
/// folder.
pub fn icon_cache_key_for(path: &str, extension: &str, is_dir: bool) -> (key: String)
    ensures
        key@ == icon_key(path@, extension@, is_dir),
{
    let ext = lower_chars(&chars_of(extension));
    if is_dir || is_path_specific_extension(&ext) {
        let mut key = chars_of("path:");
        push_chars(&mut key, &chars_of(cache_path_string(path).as_str()));
        string_of(&key)
    } else {
        let mut key = chars_of("extension:");
        push_chars(&mut key, &ext);
        string_of(&key)
    }
}

/// Whether a character separates path components on some platform.
pub open spec fn is_any_separator(c: char) -> bool {
    c == '\\' || c == '/'
}

/// Whether the dot at `k` is the last dot of a path's last component and
/// ends a file name that does not start there: nothing after it is a dot
/// or a separator, the character before it is no separator and no drive
/// colon, and the path does not start with two separators (a network or
/// device prefix on Windows). Then the extension is what follows the dot,
/// whatever the platform's path syntax.
pub open spec fn final_dot_at(path: Seq<char>, k: int) -> bool {
    &&& 1 <= k < path.len()
    &&& path[k] == '.'
    &&& forall|j: int| k < j < path.len() ==> #[trigger] path[j] != '.' && !is_any_separator(path[j])
    &&& !is_any_separator(path[k - 1]) && path[k - 1] != ':'
    &&& !(is_any_separator(path[0]) && is_any_separator(path[1]))
}

/// The extension of a path (`Path::extension`, empty when there is none).
/// The platform's path syntax decides it in general; what holds on every
/// platform: it has no dot, it follows a dot somewhere in the path, and
/// after the final dot of a plain file name it is the rest of the path.
#[verifier::external_body]
fn path_extension(path: &str) -> (ext: String)
    ensures
        !ext@.contains('.'),
        ext@.len() > 0 ==> contains_seq(path@, "."@ + ext@),
        forall|k: int| #[trigger] final_dot_at(path@, k) ==> ext@ == path@.skip(k + 1),
{
    std::path::Path::new(path).extension().and_then(|value| value.to_str()).unwrap_or_default().to_string()
}

/// The icon cache key of a path, given whether it is a folder: keyed by
/// the text after the final dot of a plain file name, and in any case by
/// an extension that has no dot and follows a dot in the path.
pub fn icon_cache_key(path: &str, is_dir: bool) -> (key: String)
    ensures
        forall|k: int| #[trigger] final_dot_at(path@, k) ==> key@ == icon_key(path@, path@.skip(k + 1), is_dir),
        exists|ext: Seq<char>|
            !ext.contains('.') && (ext.len() > 0 ==> contains_seq(path@, "."@ + ext)) && #[trigger] icon_key(
                path@,
                ext,
                is_dir,
            ) == key@,
{
    let ext = path_extension(path);
    let key = icon_cache_key_for(path, ext.as_str(), is_dir);
    proof {
        assert(icon_key(path@, ext@, is_dir) == key@);
    }
    key
}

/// The key of a preview: the path as cache keys hold it, the requested
/// size, the file's length and its modification time in nanoseconds,
/// separated by the unit separator `U+001F`.
pub open spec fn visual_key(path: Seq<char>, size: u32, length: u64, modified: u128) -> Seq<char> {
    cache_path(path) + seq!['\u{1f}'] + decimal(size as nat) + seq!['\u{1f}'] + decimal(
        length as nat,
    ) + seq!['\u{1f}'] + decimal(modified as nat)
}

/// The preview cache key of a file, given its length and modification
/// time (both 0 when unknown).
pub fn visual_cache_key(path: &str, size: u32, length: u64, modified: u128) -> (key: String)
    ensures
        key@ == visual_key(path@, size, length, modified),
{
    let mut key = chars_of(cache_path_string(path).as_str());
    key.push('\u{1f}');
    push_chars(&mut key, &decimal_chars(size as u128));
    key.push('\u{1f}');
    push_chars(&mut key, &decimal_chars(length as u128));
    key.push('\u{1f}');
    push_chars(&mut key, &decimal_chars(modified));
    string_of(&key)
}

/// Checks the new name of a rename against the rules of Windows.
pub fn check_new_name(new_name: &str) -> (r: Result<(), ShellError>)
    ensures
        name_error(new_name@) is None ==> r is Ok,
        name_error(new_name@) is Some ==> (r matches Err(ShellError::InvalidName(n)) && n@ == new_name@),
{
    match validate_windows_name(new_name) {
        Ok(()) => Ok(()),
        Err(_) => Err(ShellError::InvalidName(string_of(&chars_of(new_name)))),
    }
}

/// What a rename does once its destination is known.
#[derive(Debug, Clone, Copy, PartialEq, Eq, Structural)]
pub enum RenameStep {
    /// The destination is the source: nothing to do.
    Unchanged,
    /// Another item has the destination's name.
    Refuse,
    /// The destination is the source under another case: rename through a
    /// temporary sibling.
    CaseOnly,
    /// Rename directly.
    Move,
}

/// The step of a rename: nothing when the destination is the source path,
/// a refusal when another item has the name, a rename through a temporary
/// sibling when the name only changes case, else a direct rename.
pub fn rename_step(same_path: bool, destination_exists: bool, same_entry: bool) -> (step: RenameStep)
    ensures
        same_path ==> step == RenameStep::Unchanged,
        !same_path && destination_exists && !same_entry ==> step == RenameStep::Refuse,
        !same_path && destination_exists && same_entry ==> step == RenameStep::CaseOnly,
        !same_path && !destination_exists ==> step == RenameStep::Move,
{
    if same_path {
        RenameStep::Unchanged
    } else if destination_exists {
        if same_entry {
            RenameStep::CaseOnly
        } else {
            RenameStep::Refuse
        }
    } else {
        RenameStep::Move
    }
}

/// The number of temporary names tried for a case-only rename.
pub const RENAME_ATTEMPTS: u32 = 1024;

/// The name of the temporary sibling of a case-only rename:
/// `.everything-next-rename-<process>-<attempt>.tmp`.
pub open spec fn temporary_name(process: u32, attempt: u32) -> Seq<char> {
    ".everything-next-rename-"@ + decimal(process as nat) + "-"@ + decimal(attempt as nat) + ".tmp"@
}

/// The name of a temporary sibling.
pub fn temporary_sibling_name(process: u32, attempt: u32) -> (name: String)
    ensures
        name@ == temporary_name(process, attempt),
{
    let mut name = chars_of(".everything-next-rename-");
    push_chars(&mut name, &decimal_chars(process as u128));
    push_chars(&mut name, &chars_of("-"));
    push_chars(&mut name, &decimal_chars(attempt as u128));
    push_chars(&mut name, &chars_of(".tmp"));
    string_of(&name)
}

/// The error of a case-only rename that found no free temporary name.
pub fn no_temporary_name() -> (e: ShellError)
    ensures
        e matches ShellError::AlreadyExists(m) && m@ == "Unable to reserve a temporary name for renaming"@,
{
    ShellError::AlreadyExists(string_of(&chars_of("Unable to reserve a temporary name for renaming")))
}

/// The message of a case-only rename whose second step failed and could
/// not be undone.
pub open spec fn rollback_text(error: Seq<char>, temporary: Seq<char>, source: Seq<char>, rollback_error: Seq<char>) -> Seq<char> {
    "rename failed: "@ + error + "; rollback from '"@ + temporary + "' to '"@ + source
        + "' also failed: "@ + rollback_error
}

/// The message of a rename that failed and could not be undone.
pub fn rename_rollback_message(error: &str, temporary: &str, source: &str, rollback_error: &str) -> (m: String)
    ensures
        m@ == rollback_text(error@, temporary@, source@, rollback_error@),
{
    let mut m = chars_of("rename failed: ");
    push_chars(&mut m, &chars_of(error));
    push_chars(&mut m, &chars_of("; rollback from '"));
    push_chars(&mut m, &chars_of(temporary));
    push_chars(&mut m, &chars_of("' to '"));
    push_chars(&mut m, &chars_of(source));
    push_chars(&mut m, &chars_of("' also failed: "));
    push_chars(&mut m, &chars_of(rollback_error));
    string_of(&m)
}

/// A path that can be put on the clipboard: not blank, and absolute.
pub open spec fn copy_path_ok(path: Seq<char>, absolute: bool) -> bool {
    trimmed(path).len() > 0 && absolute
}

/// Checks the paths put on the clipboard, given whether each is absolute:
/// there must be some, and none may be blank or relative (the first such
/// path is reported).
pub fn check_copy_paths(paths: &[String], absolute: &[bool]) -> (r: Result<(), ShellError>)
    requires
        absolute@.len() == paths@.len(),
    ensures
        paths@.len() == 0 ==> (r matches Err(ShellError::Clipboard(m)) && m@ == "No files were selected"@),
        paths@.len() > 0 ==> (r is Ok <==> forall|i: int|
            0 <= i < paths@.len() ==> #[trigger] copy_path_ok(paths@[i]@, absolute@[i])),
        paths@.len() > 0 && !(r is Ok) ==> (r matches Err(ShellError::InvalidPath(p)) && exists|i: int|
            0 <= i < paths@.len() && p@ == paths@[i]@ && !#[trigger] copy_path_ok(paths@[i]@, absolute@[i])
                && forall|j: int| 0 <= j < i ==> #[trigger] copy_path_ok(paths@[j]@, absolute@[j])),
{
    if paths.len() == 0 {
        return Err(ShellError::Clipboard(string_of(&chars_of("No files were selected"))));
    }
    let mut i: usize = 0;
    while i < paths.len()
        invariant
            0 <= i <= paths@.len(),
            absolute@.len() == paths@.len(),
            forall|j: int| 0 <= j < i ==> #[trigger] copy_path_ok(paths@[j]@, absolute@[j]),
        decreases paths@.len() - i,
    {
        let chars = chars_of(paths[i].as_str());
        if trim_chars(&chars).len() == 0 || !absolute[i] {
            proof {
                assert(!copy_path_ok(paths@[i as int]@, absolute@[i as int]));
            }
            return Err(ShellError::InvalidPath(string_of(&chars)));
        }
        i = i + 1;
    }
    Ok(())
}

proof fn lemma_dedup_ignore_case(s: Seq<Seq<char>>)
    ensures
        s.len() > 0 ==> dedup_ignore_case(s).len() > 0 && eq_ignore_case(dedup_ignore_case(s).last(), s.last()),
        forall|i: int|
            0 <= i < dedup_ignore_case(s).len() - 1 ==> !eq_ignore_case(
                #[trigger] dedup_ignore_case(s)[i],
                dedup_ignore_case(s)[i + 1],
            ),
        forall|x: Seq<char>| #[trigger] dedup_ignore_case(s).contains(x) ==> s.contains(x),
    decreases s.len(),
{
    if s.len() > 1 {
        let rest = s.drop_last();
        lemma_dedup_ignore_case(rest);
        let d = dedup_ignore_case(rest);
        assert forall|x: Seq<char>| #[trigger] d.contains(x) implies s.contains(x) by {
            assert(rest.contains(x));
            let k = choose|k: int| 0 <= k < rest.len() && rest[k] == x;
            assert(s[k] == x);
        }
        if !eq_ignore_case(s[s.len() - 2], s.last()) {
            let t = d.push(s.last());
            assert(t == dedup_ignore_case(s));
            assert forall|i: int| 0 <= i < t.len() - 1 implies !eq_ignore_case(#[trigger] t[i], t[i + 1]) by {
                if i == t.len() - 2 {
                    assert(t[i] == d.last());
                    assert(rest.last() == s[s.len() - 2]);
                } else {
                    assert(t[i] == d[i] && t[i + 1] == d[i + 1]);
                }
            }
            assert forall|x: Seq<char>| #[trigger] t.contains(x) implies s.contains(x) by {
                let k = choose|k: int| 0 <= k < t.len() && t[k] == x;
                if k == t.len() - 1 {
                    assert(s[s.len() - 1] == x);
                } else {
                    assert(d.contains(x));
                }
            }
        } else {
            assert(rest.last() == s[s.len() - 2]);
        }
    } else if s.len() == 1 {
        assert forall|x: Seq<char>| #[trigger] dedup_ignore_case(s).contains(x) implies s.contains(x) by {}
    }
}

/// The order of a batch: deeper paths come first (children before their
/// parents), the sort keeps every path with its number of components, and
/// no two neighbouring paths the batch acts on differ only in ASCII case;
/// each of them is one of the given paths.
pub proof fn law_operation_order(paths: Seq<Seq<char>>, depths: Seq<int>)
    requires
        paths.len() == depths.len(),
    ensures
        ({
            let e = operation_entries(paths, depths);
            let s = e.sort_by(operation_order());
            let r = operation_paths(paths, depths);
            &&& forall|i: int, j: int| 0 <= i < j < s.len() ==> #[trigger] s[i].1 >= #[trigger] s[j].1
            &&& s.to_multiset() == e.to_multiset()
            &&& forall|i: int| 0 <= i < r.len() - 1 ==> !eq_ignore_case(#[trigger] r[i], r[i + 1])
            &&& forall|x: Seq<char>| #[trigger] r.contains(x) ==> paths.contains(x)
        }),
{
    let e = operation_entries(paths, depths);
    lemma_operation_order_total();
    e.lemma_sort_by_ensures(operation_order());
    let s = e.sort_by(operation_order());
    assert forall|i: int, j: int| 0 <= i < j < s.len() implies #[trigger] s[i].1 >= #[trigger] s[j].1 by {
        assert(operation_order()(s[i], s[j]));
    }
    let names = s.map_values(|x: (Seq<char>, int)| x.0);
    lemma_dedup_ignore_case(names);
    let r = operation_paths(paths, depths);
    assert forall|x: Seq<char>| #[trigger] r.contains(x) implies paths.contains(x) by {
        assert(names.contains(x));
        let k = choose|k: int| 0 <= k < names.len() && names[k] == x;
        assert(s.contains(s[k]));
        assert(e.contains(s[k]));
        let m = choose|m: int| 0 <= m < e.len() && e[m] == s[k];
        assert(paths[m] == x);
    }
}

/// Shortcuts, links, icons, programs, libraries, control panel items,
/// screen savers, consoles and click-once applications (extensions `lnk`,
/// `url`, `ico`, `exe`, `dll`, `cpl`, `scr`, `msc`, `appref-ms`, in any
/// case) each have an icon of their own: their key is their path, so two
/// such files at different paths never share an icon. Folders too. Any
/// other file shares the icon of its extension, in lower case.
pub proof fn law_own_icons_are_keyed_by_path(path: Seq<char>, other: Seq<char>, extension: Seq<char>, is_dir: bool)
    ensures
        ({
            let own = lower_seq(extension) == seq!['l', 'n', 'k'] || lower_seq(extension) == seq!['u', 'r', 'l']
                || lower_seq(extension) == seq!['i', 'c', 'o'] || lower_seq(extension) == seq!['e', 'x', 'e']
                || lower_seq(extension) == seq!['d', 'l', 'l'] || lower_seq(extension) == seq!['c', 'p', 'l']
                || lower_seq(extension) == seq!['s', 'c', 'r'] || lower_seq(extension) == seq!['m', 's', 'c']
                || lower_seq(extension) == seq!['a', 'p', 'p', 'r', 'e', 'f', '-', 'm', 's'];
            &&& (own || is_dir) ==> icon_key(path, extension, is_dir) == seq!['p', 'a', 't', 'h', ':'] + cache_path(path)
            &&& (own || is_dir) && cache_path(path) != cache_path(other) ==> icon_key(path, extension, is_dir)
                != icon_key(other, extension, is_dir)
            &&& !(own || is_dir) ==> icon_key(path, extension, is_dir) == seq![
                'e',
                'x',
                't',
                'e',
                'n',
                's',
                'i',
                'o',
                'n',
                ':',
            ] + lower_seq(extension)
        }),
{
    reveal_strlit("path:");
    reveal_strlit("extension:");
    reveal_strlit("lnk");
    reveal_strlit("url");
    reveal_strlit("ico");
    reveal_strlit("exe");
    reveal_strlit("dll");
    reveal_strlit("cpl");
    reveal_strlit("scr");
    reveal_strlit("msc");
    reveal_strlit("appref-ms");
    assert("lnk"@ =~= seq!['l', 'n', 'k']);
    assert("url"@ =~= seq!['u', 'r', 'l']);
    assert("ico"@ =~= seq!['i', 'c', 'o']);
    assert("exe"@ =~= seq!['e', 'x', 'e']);
    assert("dll"@ =~= seq!['d', 'l', 'l']);
    assert("cpl"@ =~= seq!['c', 'p', 'l']);
    assert("scr"@ =~= seq!['s', 'c', 'r']);
    assert("msc"@ =~= seq!['m', 's', 'c']);
    assert("appref-ms"@ =~= seq!['a', 'p', 'p', 'r', 'e', 'f', '-', 'm', 's']);
    assert("path:"@ =~= seq!['p', 'a', 't', 'h', ':']);
    assert("extension:"@ =~= seq!['e', 'x', 't', 'e', 'n', 's', 'i', 'o', 'n', ':']);
    let p1 = "path:"@ + cache_path(path);
    let p2 = "path:"@ + cache_path(other);
    if p1 == p2 && cache_path(path) != cache_path(other) {
        assert(cache_path(path) =~= p1.skip(5));
        assert(cache_path(other) =~= p2.skip(5));
    }
}

/// Explorer reveals a path from the argument `/select,"<path>"`, the path
/// quoted whole.
pub proof fn law_explorer_selects_the_quoted_path(path: Seq<char>)
    ensures
        explorer_select_argument(path) == seq!['/', 's', 'e', 'l', 'e', 'c', 't', ',', '\u{22}'] + path + seq!['\u{22}'],
{
    reveal_strlit("/select,\"");
    reveal_strlit("\"");
    assert("/select,\""@ =~= seq!['/', 's', 'e', 'l', 'e', 'c', 't', ',', '\u{22}']);
    assert("\""@ =~= seq!['\u{22}']);
}

/// The Shell is handed backslashes only, with the verbatim prefixes taken
/// back: `\\?\UNC\server\share` becomes `\\server\share` and
/// `\\?\C:\x` becomes `C:\x`; a path that does not start with a
/// separator keeps its text, its slashes turned into backslashes. Cache keys, too, do not tell a slash
/// from a backslash.
pub proof fn law_shell_paths_use_backslashes(rest: Seq<char>, path: Seq<char>)
    requires
        !rest.contains('/'),
    ensures
        shell_path(seq!['\u{5c}', '\u{5c}', '?', '\u{5c}', 'U', 'N', 'C', '\u{5c}'] + rest) == seq!['\u{5c}', '\u{5c}'] + rest,
        !(seq!['U', 'N', 'C', '\u{5c}'] == rest.take(4)) ==> shell_path(seq!['\u{5c}', '\u{5c}', '?', '\u{5c}'] + rest) == rest,
        path.len() == 0 || !is_any_separator(path[0]) ==> shell_path(path) == replace_seq(path, '/', '\u{5c}'),
        cache_path(path) == cache_path(replace_seq(path, '/', '\u{5c}')),
        !replace_seq(path, '/', '\u{5c}').contains('/'),
{
    reveal_strlit("\\\\?\\UNC\\");
    reveal_strlit("\\\\?\\");
    reveal_strlit("\\\\");
    assert("\\\\?\\UNC\\"@ =~= seq!['\u{5c}', '\u{5c}', '?', '\u{5c}', 'U', 'N', 'C', '\u{5c}']);
    assert("\\\\?\\"@ =~= seq!['\u{5c}', '\u{5c}', '?', '\u{5c}']);
    assert("\\\\"@ =~= seq!['\u{5c}', '\u{5c}']);
    let unc = seq!['\u{5c}', '\u{5c}', '?', '\u{5c}', 'U', 'N', 'C', '\u{5c}'] + rest;
    assert(replace_seq(unc, '/', '\u{5c}') =~= unc) by {
        assert forall|k: int| 0 <= k < unc.len() implies unc[k] != '/' by {
            if k >= 8 {
                assert(unc[k] == rest[k - 8]);
            }
        }
    }
    assert(unc.take(8) =~= seq!['\u{5c}', '\u{5c}', '?', '\u{5c}', 'U', 'N', 'C', '\u{5c}']);
    assert(unc.skip(8) =~= rest);
    let v = seq!['\u{5c}', '\u{5c}', '?', '\u{5c}'] + rest;
    assert(replace_seq(v, '/', '\u{5c}') =~= v) by {
        assert forall|k: int| 0 <= k < v.len() implies v[k] != '/' by {
            if k >= 4 {
                assert(v[k] == rest[k - 4]);
            }
        }
    }
    assert(v.take(4) =~= seq!['\u{5c}', '\u{5c}', '?', '\u{5c}']);
    assert(v.skip(4) =~= rest);
    if !(seq!['U', 'N', 'C', '\u{5c}'] == rest.take(4)) {
        assert(!starts_with(v, "\\\\?\\UNC\\"@)) by {
            if starts_with(v, "\\\\?\\UNC\\"@) {
                assert(rest.take(4) =~= v.take(8).skip(4));
                assert(v.take(8).skip(4) =~= seq!['U', 'N', 'C', '\u{5c}']);
            }
        }
        assert(starts_with(v, "\\\\?\\"@));
    }
    let n = replace_seq(path, '/', '\u{5c}');
    assert(replace_seq(n, '/', '\u{5c}') =~= n);
    if path.len() > 0 && !is_any_separator(path[0]) {
        if path.len() >= 4 {
            assert(n.take(4)[0] == n[0]);
        }
        if path.len() >= 8 {
            assert(n.take(8)[0] == n[0]);
        }
    }
    assert(!n.contains('/')) by {
        if n.contains('/') {
            let k = choose|k: int| 0 <= k < n.len() && n[k] == '/';
            assert(n[k] == (if path[k] == '/' { '\u{5c}' } else { path[k] }));
        }
    }
}

/// What a shell error is told: each kind has its sentence, followed by the
/// path, name or system message it carries.
pub proof fn law_shell_errors_are_explained(t: String)
    ensures
        shell_error_text(ShellError::MissingPath(t)) == seq!['T', 'h', 'e', ' ', 'f', 'i', 'l', 'e', ' ', 'o', 'r', ' ', 'f', 'o', 'l', 'd', 'e', 'r', ' ', 'n', 'o', ' ', 'l', 'o', 'n', 'g', 'e', 'r', ' ', 'e', 'x', 'i', 's', 't', 's', ':', ' '] + t@,
        shell_error_text(ShellError::InvalidPath(t)) == seq!['I', 'n', 'v', 'a', 'l', 'i', 'd', ' ', 'p', 'a', 't', 'h', ':', ' '] + t@,
        shell_error_text(ShellError::InvalidName(t)) == seq!['I', 'n', 'v', 'a', 'l', 'i', 'd', ' ', 'W', 'i', 'n', 'd', 'o', 'w', 's', ' ', 'f', 'i', 'l', 'e', ' ', 'n', 'a', 'm', 'e', ':', ' '] + t@,
        shell_error_text(ShellError::AlreadyExists(t)) == seq!['A', 'n', ' ', 'i', 't', 'e', 'm', ' ', 'w', 'i', 't', 'h', ' ', 't', 'h', 'i', 's', ' ', 'n', 'a', 'm', 'e', ' ', 'a', 'l', 'r', 'e', 'a', 'd', 'y', ' ', 'e', 'x', 'i', 's', 't', 's', ':', ' '] + t@,
        shell_error_text(ShellError::Io(t)) == seq!['S', 'y', 's', 't', 'e', 'm', ' ', 'o', 'p', 'e', 'r', 'a', 't', 'i', 'o', 'n', ' ', 'f', 'a', 'i', 'l', 'e', 'd', ':', ' '] + t@,
        shell_error_text(ShellError::Clipboard(t)) == seq!['U', 'n', 'a', 'b', 'l', 'e', ' ', 't', 'o', ' ', 'w', 'r', 'i', 't', 'e', ' ', 't', 'o', ' ', 't', 'h', 'e', ' ', 'c', 'l', 'i', 'p', 'b', 'o', 'a', 'r', 'd', ':', ' '] + t@,
        shell_error_text(ShellError::Visual(t)) == seq!['U', 'n', 'a', 'b', 'l', 'e', ' ', 't', 'o', ' ', 'c', 'r', 'e', 'a', 't', 'e', ' ', 't', 'h', 'e', ' ', 'f', 'i', 'l', 'e', ' ', 'p', 'r', 'e', 'v', 'i', 'e', 'w', ':', ' '] + t@,
{
    reveal_strlit("The file or folder no longer exists: ");
    assert("The file or folder no longer exists: "@ =~= seq!['T', 'h', 'e', ' ', 'f', 'i', 'l', 'e', ' ', 'o', 'r', ' ', 'f', 'o', 'l', 'd', 'e', 'r', ' ', 'n', 'o', ' ', 'l', 'o', 'n', 'g', 'e', 'r', ' ', 'e', 'x', 'i', 's', 't', 's', ':', ' ']);
    reveal_strlit("Invalid path: ");
    assert("Invalid path: "@ =~= seq!['I', 'n', 'v', 'a', 'l', 'i', 'd', ' ', 'p', 'a', 't', 'h', ':', ' ']);
    reveal_strlit("Invalid Windows file name: ");
    assert("Invalid Windows file name: "@ =~= seq!['I', 'n', 'v', 'a', 'l', 'i', 'd', ' ', 'W', 'i', 'n', 'd', 'o', 'w', 's', ' ', 'f', 'i', 'l', 'e', ' ', 'n', 'a', 'm', 'e', ':', ' ']);
    reveal_strlit("An item with this name already exists: ");
    assert("An item with this name already exists: "@ =~= seq!['A', 'n', ' ', 'i', 't', 'e', 'm', ' ', 'w', 'i', 't', 'h', ' ', 't', 'h', 'i', 's', ' ', 'n', 'a', 'm', 'e', ' ', 'a', 'l', 'r', 'e', 'a', 'd', 'y', ' ', 'e', 'x', 'i', 's', 't', 's', ':', ' ']);
    reveal_strlit("System operation failed: ");
    assert("System operation failed: "@ =~= seq!['S', 'y', 's', 't', 'e', 'm', ' ', 'o', 'p', 'e', 'r', 'a', 't', 'i', 'o', 'n', ' ', 'f', 'a', 'i', 'l', 'e', 'd', ':', ' ']);
    reveal_strlit("Unable to write to the clipboard: ");
    assert("Unable to write to the clipboard: "@ =~= seq!['U', 'n', 'a', 'b', 'l', 'e', ' ', 't', 'o', ' ', 'w', 'r', 'i', 't', 'e', ' ', 't', 'o', ' ', 't', 'h', 'e', ' ', 'c', 'l', 'i', 'p', 'b', 'o', 'a', 'r', 'd', ':', ' ']);
    reveal_strlit("Unable to create the file preview: ");
    assert("Unable to create the file preview: "@ =~= seq!['U', 'n', 'a', 'b', 'l', 'e', ' ', 't', 'o', ' ', 'c', 'r', 'e', 'a', 't', 'e', ' ', 't', 'h', 'e', ' ', 'f', 'i', 'l', 'e', ' ', 'p', 'r', 'e', 'v', 'i', 'e', 'w', ':', ' ']);
}

/// The temporary sibling of a case-only rename is named
/// `.everything-next-rename-PROCESS-ATTEMPT.tmp`; a rename that failed and
/// could not be undone says so with both errors; a path the Recycle Bin
/// refused is reported as `PATH : REASON`.
pub proof fn law_rename_and_trash_messages(
    process: u32,
    attempt: u32,
    error: Seq<char>,
    temporary: Seq<char>,
    source: Seq<char>,
    rollback_error: Seq<char>,
    path: Seq<char>,
    reason: String,
)
    ensures
        temporary_name(process, attempt) == seq!['.', 'e', 'v', 'e', 'r', 'y', 't', 'h', 'i', 'n', 'g', '-', 'n', 'e', 'x', 't', '-', 'r', 'e', 'n', 'a', 'm', 'e', '-'] + decimal(process as nat) + seq!['-'] + decimal(attempt as nat) + seq!['.', 't', 'm', 'p'],
        rollback_text(error, temporary, source, rollback_error) == seq!['r', 'e', 'n', 'a', 'm', 'e', ' ', 'f', 'a', 'i', 'l', 'e', 'd', ':', ' '] + error + seq![';', ' ', 'r', 'o', 'l', 'l', 'b', 'a', 'c', 'k', ' ', 'f', 'r', 'o', 'm', ' ', '\''] + temporary + seq!['\'', ' ', 't', 'o', ' ', '\''] + source + seq!['\'', ' ', 'a', 'l', 's', 'o', ' ', 'f', 'a', 'i', 'l', 'e', 'd', ':', ' '] + rollback_error,
        trash_failure_text(path, TrashAttempt::Refused(reason)) == path + seq![' ', ':', ' '] + reason@,
        trash_failure_text(path, TrashAttempt::Deleted) == Seq::<char>::empty(),
{
    reveal_strlit(".everything-next-rename-");
    assert(".everything-next-rename-"@ =~= seq!['.', 'e', 'v', 'e', 'r', 'y', 't', 'h', 'i', 'n', 'g', '-', 'n', 'e', 'x', 't', '-', 'r', 'e', 'n', 'a', 'm', 'e', '-']);
    reveal_strlit("-");
    assert("-"@ =~= seq!['-']);
    reveal_strlit(".tmp");
    assert(".tmp"@ =~= seq!['.', 't', 'm', 'p']);
    reveal_strlit("rename failed: ");
    assert("rename failed: "@ =~= seq!['r', 'e', 'n', 'a', 'm', 'e', ' ', 'f', 'a', 'i', 'l', 'e', 'd', ':', ' ']);
    reveal_strlit("; rollback from '");
    assert("; rollback from '"@ =~= seq![';', ' ', 'r', 'o', 'l', 'l', 'b', 'a', 'c', 'k', ' ', 'f', 'r', 'o', 'm', ' ', '\'']);
    reveal_strlit("' to '");
    assert("' to '"@ =~= seq!['\'', ' ', 't', 'o', ' ', '\'']);
    reveal_strlit("' also failed: ");
    assert("' also failed: "@ =~= seq!['\'', ' ', 'a', 'l', 's', 'o', ' ', 'f', 'a', 'i', 'l', 'e', 'd', ':', ' ']);
    reveal_strlit(" : ");
    assert(" : "@ =~= seq![' ', ':', ' ']);
}

/// Among paths of the same depth, the batch acts on the longer ones (in
/// UTF-8 bytes) first, and on paths of the same length in byte order.
pub proof fn law_operation_ties(paths: Seq<Seq<char>>, depths: Seq<int>)
    requires
        paths.len() == depths.len(),
    ensures
        ({
            let s = operation_entries(paths, depths).sort_by(operation_order());
            forall|i: int, j: int|
                0 <= i < j < s.len() && #[trigger] s[i].1 == #[trigger] s[j].1 ==> encode_utf8(s[i].0).len() >= encode_utf8(
                    s[j].0,
                ).len() && (encode_utf8(s[i].0).len() == encode_utf8(s[j].0).len() ==> bytes_leq(
                    encode_utf8(s[i].0),
                    encode_utf8(s[j].0),
                ))
        }),
{
    let e = operation_entries(paths, depths);
    lemma_operation_order_total();
    e.lemma_sort_by_ensures(operation_order());
    let s = e.sort_by(operation_order());
    assert forall|i: int, j: int| 0 <= i < j < s.len() && #[trigger] s[i].1 == #[trigger] s[j].1 implies encode_utf8(
        s[i].0,
    ).len() >= encode_utf8(s[j].0).len() && (encode_utf8(s[i].0).len() == encode_utf8(s[j].0).len() ==> bytes_leq(
        encode_utf8(s[i].0),
        encode_utf8(s[j].0),
    )) by {
        assert(operation_order()(s[i], s[j]));
    }
}

} // verus!
