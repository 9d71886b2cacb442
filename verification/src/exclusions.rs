//! The folders left out of every search: how a typed folder path is
//! checked and cleaned, how the list is kept, and the query that leaves
//! the folders out.

use vstd::prelude::*;
use vstd::utf8::encode_utf8;
use crate::engine_config::strings_view;
use crate::text::{
    chars_eq_ignore_case, chars_of, eq_ignore_case, join_chars, join_with,
    lemma_encode_utf8_drop_ascii, push_chars, replace_char, replace_seq, starts_with, string_of,
    sub_chars, trim_chars, trimmed,
};

verus! {

broadcast use vstd::string::group_string_axioms;

/// The clause that leaves one folder and everything below it out:
/// `!<whole:path:"F"|ancestor:"F">`.
pub open spec fn exclusion_clause(folder: Seq<char>) -> Seq<char> {
    "!<whole:path:\""@ + folder + "\"|ancestor:\""@ + folder + "\">"@
}

/// The query sent to the engine: the trimmed query typed by the user,
/// then the clause of each excluded folder, separated by spaces.
pub open spec fn composed_query(raw: Seq<char>, folders: Seq<Seq<char>>) -> Seq<char> {
    let exclusions = join_with(folders.map_values(|f: Seq<char>| exclusion_clause(f)), " "@);
    let query = trimmed(raw);
    if query.len() == 0 {
        exclusions
    } else if exclusions.len() == 0 {
        query
    } else {
        query + " "@ + exclusions
    }
}

/// The query that searches for `raw` outside the excluded folders.
pub fn compose_query(raw: &str, excluded_folders: &[String]) -> (q: String)
    ensures
        q@ == composed_query(raw@, strings_view(excluded_folders@)),
{
    let ghost folders = strings_view(excluded_folders@);
    let mut clauses: Vec<Vec<char>> = Vec::new();
    let mut i: usize = 0;
    while i < excluded_folders.len()
        invariant
            0 <= i <= excluded_folders@.len(),
            folders == strings_view(excluded_folders@),
            clauses@.map_values(|c: Vec<char>| c@) == folders.take(i as int).map_values(
                |f: Seq<char>| exclusion_clause(f),
            ),
        decreases excluded_folders@.len() - i,
    {
        let folder = chars_of(excluded_folders[i].as_str());
        let mut clause = chars_of("!<whole:path:\"");
        push_chars(&mut clause, &folder);
        push_chars(&mut clause, &chars_of("\"|ancestor:\""));
        push_chars(&mut clause, &folder);
        push_chars(&mut clause, &chars_of("\">"));
        let ghost before = clauses@.map_values(|c: Vec<char>| c@);
        proof {
            assert(folders[i as int] == excluded_folders@[i as int]@);
            assert(clause@ == exclusion_clause(folders[i as int]));
        }
        clauses.push(clause);
        proof {
            assert(clauses@.map_values(|c: Vec<char>| c@) =~= before.push(exclusion_clause(folders[i as int])));
            assert(folders.take(i + 1) =~= folders.take(i as int).push(folders[i as int]));
            assert(clauses@.map_values(|c: Vec<char>| c@) =~= folders.take(i + 1).map_values(
                |f: Seq<char>| exclusion_clause(f),
            ));
        }
        i = i + 1;
    }
    proof {
        assert(folders.take(i as int) =~= folders);
    }
    let exclusions = join_chars(&clauses, &chars_of(" "));
    let query = trim_chars(&chars_of(raw));
    if query.len() == 0 {
        string_of(&exclusions)
    } else if exclusions.len() == 0 {
        string_of(&query)
    } else {
        let mut q = query;
        push_chars(&mut q, &chars_of(" "));
        push_chars(&mut q, &exclusions);
        string_of(&q)
    }
}

/// A path without the double quotes that surround it, if both are there.
pub open spec fn unquoted(t: Seq<char>) -> Seq<char> {
    if t.len() >= 2 && t[0] == '"' && t.last() == '"' {
        t.subrange(1, t.len() - 1)
    } else {
        t
    }
}

/// A path without trailing backslashes, as long as it is longer than three
/// bytes (so that `C:\` keeps its backslash).
pub open spec fn strip_trailing_backslashes(p: Seq<char>) -> Seq<char>
    decreases p.len(),
{
    if encode_utf8(p).len() > 3 && p.len() > 0 && p.last() == '\\' {
        strip_trailing_backslashes(p.drop_last())
    } else {
        p
    }
}

/// A typed folder path, cleaned: trimmed, unquoted, with backslashes only
/// and no trailing backslash.
pub open spec fn cleaned_folder_path(raw: Seq<char>) -> Seq<char> {
    strip_trailing_backslashes(replace_seq(unquoted(trimmed(raw)), '/', '\\'))
}

/// A character that a folder path cannot hold: a control character, or
/// one of `"<>|?*`.
pub open spec fn invalid_folder_char(c: char) -> bool {
    ||| c <= '\u{1f}'
    ||| '\u{7f}' <= c <= '\u{9f}'
    ||| c == '"'
    ||| c == '<'
    ||| c == '>'
    ||| c == '|'
    ||| c == '?'
    ||| c == '*'
}

/// A path that starts with a drive: an ASCII letter, a colon and a slash
/// or backslash.
pub open spec fn drive_path(b: Seq<u8>) -> bool {
    &&& b.len() >= 3
    &&& ((65 <= b[0] <= 90) || (97 <= b[0] <= 122))
    &&& b[1] == 58
    &&& (b[2] == 92 || b[2] == 47)
}

/// A slash or a backslash.
pub open spec fn is_separator(c: char) -> bool {
    c == '\\' || c == '/'
}

/// The position of the first separator, or the length when there is none.
pub open spec fn first_separator(s: Seq<char>) -> int
    decreases s.len(),
{
    if s.len() == 0 || is_separator(s[0]) {
        0
    } else {
        1 + first_separator(s.drop_first())
    }
}

/// A UNC path: two slashes or backslashes, a server name, a separator and a
/// share name.
pub open spec fn unc_path(p: Seq<char>) -> bool {
    &&& (starts_with(p, "\\\\"@) || starts_with(p, "//"@))
    &&& {
        let r = p.skip(2);
        let i = first_separator(r);
        &&& i > 0
        &&& i < r.len()
        &&& first_separator(r.skip(i + 1)) > 0
    }
}

/// An absolute Windows path: on a drive, or UNC.
pub open spec fn absolute_windows_path(p: Seq<char>) -> bool {
    drive_path(encode_utf8(p)) || unc_path(p)
}

proof fn lemma_first_separator_bounds(s: Seq<char>)
    ensures
        0 <= first_separator(s) <= s.len(),
        first_separator(s) < s.len() ==> is_separator(s[first_separator(s)]),
        forall|k: int| 0 <= k < first_separator(s) ==> !is_separator(#[trigger] s[k]),
    decreases s.len(),
{
    if s.len() > 0 && !is_separator(s[0]) {
        lemma_first_separator_bounds(s.drop_first());
        assert forall|k: int| 0 <= k < first_separator(s) implies !is_separator(#[trigger] s[k]) by {
            if k > 0 {
                assert(s[k] == s.drop_first()[k - 1]);
            }
        }
    }
}

/// The position of the first separator from `from` on, or the length.
fn find_separator(s: &[char], from: usize) -> (i: usize)
    requires
        from <= s@.len(),
    ensures
        i == from + first_separator(s@.skip(from as int)),
        i <= s@.len(),
{
    let mut i = from;
    proof {
        lemma_first_separator_bounds(s@.skip(from as int));
    }
    while i < s.len() && s[i] != '\\' && s[i] != '/'
        invariant
            from <= i <= s@.len(),
            first_separator(s@.skip(from as int)) == (i - from) + first_separator(s@.skip(i as int)),
        decreases s@.len() - i,
    {
        proof {
            assert(s@.skip(i as int).drop_first() =~= s@.skip(i + 1));
        }
        i = i + 1;
    }
    proof {
        lemma_first_separator_bounds(s@.skip(i as int));
        if i < s.len() {
            assert(s@.skip(i as int)[0] == s@[i as int]);
        }
    }
    i
}

/// Whether a path is a UNC path.
pub fn is_unc_path(path: &str) -> (r: bool)
    ensures
        r == unc_path(path@),
{
    let p = chars_of(path);
    proof {
        reveal_strlit("\\\\");
        reveal_strlit("//");
    }
    if !(crate::text::chars_start_with(&p, &chars_of("\\\\"))
        || crate::text::chars_start_with(&p, &chars_of("//"))) {
        return false;
    }
    let r = sub_chars(&p, 2, p.len());
    let i = find_separator(&r, 0);
    proof {
        assert(r@.skip(0) =~= r@);
    }
    if i == 0 || i >= r.len() {
        return false;
    }
    let j = find_separator(&r, i + 1);
    j > i + 1
}

/// Whether a path is an absolute Windows path, on a drive or UNC.
pub fn is_absolute_windows_path(path: &str) -> (r: bool)
    ensures
        r == absolute_windows_path(path@),
{
    let bytes = path.as_bytes();
    let drive = bytes.len() >= 3 && ((65 <= bytes[0] && bytes[0] <= 90) || (97 <= bytes[0]
        && bytes[0] <= 122)) && bytes[1] == 58 && (bytes[2] == 92 || bytes[2] == 47);
    drive || is_unc_path(path)
}

/// Why a typed folder path is refused, if it is: empty once cleaned,
/// holding a character that is not allowed, or not absolute.
pub open spec fn folder_path_problem(raw: Seq<char>) -> Option<Seq<char>> {
    let p = cleaned_folder_path(raw);
    if p.len() == 0 {
        Some("Enter a folder path."@)
    } else if exists|k: int| 0 <= k < p.len() && invalid_folder_char(#[trigger] p[k]) {
        Some("The folder path contains invalid characters."@)
    } else if !absolute_windows_path(p) {
        Some("Enter an absolute Windows or UNC folder path."@)
    } else {
        None
    }
}

fn has_invalid_folder_char(p: &[char]) -> (r: bool)
    ensures
        r == exists|k: int| 0 <= k < p@.len() && invalid_folder_char(#[trigger] p@[k]),
{
    let mut i: usize = 0;
    while i < p.len()
        invariant
            0 <= i <= p@.len(),
            forall|k: int| 0 <= k < i ==> !invalid_folder_char(#[trigger] p@[k]),
        decreases p@.len() - i,
    {
        let c = p[i];
        if c <= '\u{1f}' || ('\u{7f}' <= c && c <= '\u{9f}') || c == '"' || c == '<' || c == '>'
            || c == '|' || c == '?' || c == '*' {
            return true;
        }
        i = i + 1;
    }
    false
}

/// A typed folder path, cleaned, or why it cannot be excluded.
pub fn validated_path(raw_path: &str) -> (r: Result<String, &'static str>)
    ensures
        folder_path_problem(raw_path@) matches Some(m) ==> (r matches Err(e) && e@ == m),
        folder_path_problem(raw_path@) is None ==> (r matches Ok(p) && p@ == cleaned_folder_path(
            raw_path@,
        )),
{
    let t = trim_chars(&chars_of(raw_path));
    let u = if t.len() >= 2 && t[0] == '"' && t[t.len() - 1] == '"' {
        sub_chars(&t, 1, t.len() - 1)
    } else {
        t
    };
    let mut p = replace_char(&u, '/', '\\');
    let mut n = string_of(&p).as_str().as_bytes().len();
    while n > 3 && p.len() > 0 && p[p.len() - 1] == '\\'
        invariant
            n == encode_utf8(p@).len(),
            strip_trailing_backslashes(p@) == cleaned_folder_path(raw_path@),
        decreases p@.len(),
    {
        proof {
            lemma_encode_utf8_drop_ascii(p@);
        }
        p.pop();
        n = n - 1;
    }
    proof {
        assert(strip_trailing_backslashes(p@) == p@);
    }
    if p.len() == 0 {
        return Err("Enter a folder path.");
    }
    if has_invalid_folder_char(&p) {
        return Err("The folder path contains invalid characters.");
    }
    let path = string_of(&p);
    if !is_absolute_windows_path(path.as_str()) {
        return Err("Enter an absolute Windows or UNC folder path.");
    }
    Ok(path)
}

/// One of the folders equal to the candidate up to ASCII case.
pub open spec fn holds_ignoring_case(folders: Seq<Seq<char>>, candidate: Seq<char>) -> bool {
    exists|i: int| 0 <= i < folders.len() && eq_ignore_case(#[trigger] folders[i], candidate)
}

/// Whether a folder is in the list, ignoring ASCII case.
pub fn contains_case_insensitive(folders: &[String], candidate: &str) -> (r: bool)
    ensures
        r == holds_ignoring_case(strings_view(folders@), candidate@),
{
    let c = chars_of(candidate);
    let mut i: usize = 0;
    while i < folders.len()
        invariant
            0 <= i <= folders@.len(),
            c@ == candidate@,
            forall|k: int| 0 <= k < i ==> !eq_ignore_case(#[trigger] folders@[k]@, candidate@),
        decreases folders@.len() - i,
    {
        if chars_eq_ignore_case(&chars_of(folders[i].as_str()), &c) {
            proof {
                assert(strings_view(folders@)[i as int] == folders@[i as int]@);
            }
            return true;
        }
        i = i + 1;
    }
    proof {
        assert forall|k: int| 0 <= k < strings_view(folders@).len() implies !eq_ignore_case(
            #[trigger] strings_view(folders@)[k],
            candidate@,
        ) by {
            assert(strings_view(folders@)[k] == folders@[k]@);
        }
    }
    false
}

/// The folders that differ from a path by more than ASCII case.
pub open spec fn outside_of(path: Seq<char>) -> spec_fn(Seq<char>) -> bool {
    |f: Seq<char>| !eq_ignore_case(f, path)
}

/// The excluded folders, in the order they were added, none equal to
/// another up to ASCII case.
#[derive(Debug, Clone)]
pub struct ExcludedFoldersState {
    pub folders: Vec<String>,
}

impl ExcludedFoldersState {
    /// Adds a typed folder: refused when the path is not a valid absolute
    /// folder path or the folder is already in the list (up to ASCII case).
    pub fn add(&mut self, raw_path: &str) -> (r: Result<(), &'static str>)
        ensures
            folder_path_problem(raw_path@) matches Some(m) ==> (r matches Err(e) && e@ == m
                && final(self).folders@ == old(self).folders@),
            folder_path_problem(raw_path@) is None && holds_ignoring_case(
                strings_view(old(self).folders@),
                cleaned_folder_path(raw_path@),
            ) ==> (r matches Err(e) && e@ == "This folder is already excluded."@
                && final(self).folders@ == old(self).folders@),
            folder_path_problem(raw_path@) is None && !holds_ignoring_case(
                strings_view(old(self).folders@),
                cleaned_folder_path(raw_path@),
            ) ==> r is Ok && strings_view(final(self).folders@) == strings_view(
                old(self).folders@,
            ).push(cleaned_folder_path(raw_path@)),
    {
        let path = match validated_path(raw_path) {
            Ok(path) => path,
            Err(message) => {
                return Err(message);
            },
        };
        if contains_case_insensitive(&self.folders, path.as_str()) {
            return Err("This folder is already excluded.");
        }
        let ghost before = self.folders@;
        self.folders.push(path);
        proof {
            assert(strings_view(self.folders@) =~= strings_view(before).push(
                cleaned_folder_path(raw_path@),
            ));
        }
        Ok(())
    }

    /// Removes every folder equal to the path up to ASCII case.
    pub fn remove(&mut self, path: &str)
        ensures
            strings_view(final(self).folders@) == strings_view(old(self).folders@).filter(
                outside_of(path@),
            ),
    {
        let ghost all = strings_view(self.folders@);
        let p = chars_of(path);
        let mut kept: Vec<String> = Vec::new();
        let mut i: usize = 0;
        while i < self.folders.len()
            invariant
                0 <= i <= self.folders@.len(),
                all == strings_view(self.folders@),
                p@ == path@,
                strings_view(kept@) == all.take(i as int).filter(
                    outside_of(path@),
                ),
            decreases self.folders@.len() - i,
        {
            let folder = self.folders[i].clone();
            let same = chars_eq_ignore_case(&chars_of(folder.as_str()), &p);
            let ghost before = strings_view(kept@);
            proof {
                assert(all.take(i + 1).drop_last() =~= all.take(i as int));
                assert(all.take(i + 1).last() == folder@);
            }
            proof {
                assert(same == eq_ignore_case(folder@, path@));
                reveal(Seq::filter);
            }
            if !same {
                kept.push(folder);
                proof {
                    assert(strings_view(kept@) =~= before.push(folder@));
                    assert(all.take(i + 1).filter(outside_of(path@))
                        == before.push(folder@));
                }
            } else {
                proof {
                    assert(all.take(i + 1).filter(outside_of(path@))
                        == before);
                }
            }
            i = i + 1;
        }
        proof {
            assert(all.take(i as int) =~= all);
        }
        self.folders = kept;
    }
}

/// The folders kept from a stored list: each stored path is checked and
/// cleaned as a typed one, and kept unless it is refused or already kept
/// (up to ASCII case).
pub open spec fn kept_stored_folders(stored: Seq<Seq<char>>) -> Seq<Seq<char>>
    decreases stored.len(),
{
    if stored.len() == 0 {
        Seq::empty()
    } else {
        let kept = kept_stored_folders(stored.drop_last());
        let raw = stored.last();
        if folder_path_problem(raw) is Some || holds_ignoring_case(kept, cleaned_folder_path(raw)) {
            kept
        } else {
            kept.push(cleaned_folder_path(raw))
        }
    }
}

/// The folders kept from a stored list.
pub fn folders_from_stored(stored: &[String]) -> (folders: Vec<String>)
    ensures
        strings_view(folders@) == kept_stored_folders(strings_view(stored@)),
{
    let ghost all = strings_view(stored@);
    let mut folders: Vec<String> = Vec::new();
    let mut i: usize = 0;
    while i < stored.len()
        invariant
            0 <= i <= stored@.len(),
            all == strings_view(stored@),
            strings_view(folders@) == kept_stored_folders(all.take(i as int)),
        decreases stored@.len() - i,
    {
        proof {
            assert(all.take(i + 1).drop_last() =~= all.take(i as int));
            assert(all.take(i + 1).last() == stored@[i as int]@);
        }
        match validated_path(stored[i].as_str()) {
            Ok(path) => {
                if !contains_case_insensitive(&folders, path.as_str()) {
                    let ghost before = strings_view(folders@);
                    folders.push(path);
                    proof {
                        assert(strings_view(folders@) =~= before.push(
                            cleaned_folder_path(stored@[i as int]@),
                        ));
                    }
                }
            },
            Err(_) => {},
        }
        i = i + 1;
    }
    proof {
        assert(all.take(i as int) =~= all);
    }
    folders
}

/// What `serde_json::from_str::<Vec<String>>` makes of a text: the list of
/// strings, or nothing when the text is not a JSON array of strings.
pub uninterp spec fn json_string_list(text: Seq<char>) -> Option<Seq<Seq<char>>>;

/// `serde_json::from_str::<Vec<String>>`.
#[verifier::external_body]
fn parse_string_list(text: &str) -> (r: Option<Vec<String>>)
    ensures
        match r {
            Some(v) => json_string_list(text@) == Some(strings_view(v@)),
            None => json_string_list(text@) is None,
        },
{
    serde_json::from_str::<Vec<String>>(text).ok()
}

/// The excluded folders read back from their stored JSON text; none when
/// the text cannot be read.
pub fn stored_folders(value: &str) -> (folders: Vec<String>)
    ensures
        match json_string_list(value@) {
            Some(list) => strings_view(folders@) == kept_stored_folders(list),
            None => folders@.len() == 0,
        },
{
    match parse_string_list(value) {
        Some(stored) => folders_from_stored(&stored),
        None => Vec::new(),
    }
}

/// A hexadecimal digit in lower case.
pub open spec fn lower_hex_digit(n: int) -> char {
    seq!['0', '1', '2', '3', '4', '5', '6', '7', '8', '9', 'a', 'b', 'c', 'd', 'e', 'f'][n]
}

/// How a character stands inside a JSON string: the quote, the backslash
/// and the control characters escaped (those without a short escape as
/// `\u00` and two hexadecimal digits), every other character as itself.
pub open spec fn json_escaped_char(c: char) -> Seq<char> {
    if c == '\u{22}' {
        seq!['\u{5c}', '\u{22}']
    } else if c == '\u{5c}' {
        seq!['\u{5c}', '\u{5c}']
    } else if c == '\u{8}' {
        seq!['\u{5c}', 'b']
    } else if c == '\t' {
        seq!['\u{5c}', 't']
    } else if c == '\n' {
        seq!['\u{5c}', 'n']
    } else if c == '\u{c}' {
        seq!['\u{5c}', 'f']
    } else if c == '\r' {
        seq!['\u{5c}', 'r']
    } else if (c as u32) < 0x20 {
        seq!['\u{5c}', 'u', '0', '0', lower_hex_digit((c as u32 / 16) as int), lower_hex_digit((c as u32 % 16) as int)]
    } else {
        seq![c]
    }
}

/// The characters of a JSON string between its quotes.
pub open spec fn json_escaped(s: Seq<char>) -> Seq<char>
    decreases s.len(),
{
    if s.len() == 0 {
        Seq::empty()
    } else {
        json_escaped(s.drop_last()) + json_escaped_char(s.last())
    }
}

/// A string as a JSON string literal.
pub open spec fn json_quoted(s: Seq<char>) -> Seq<char> {
    seq!['\u{22}'] + json_escaped(s) + seq!['\u{22}']
}

/// A list of strings as a compact JSON array: `["a","b"]`.
pub open spec fn json_string_array(items: Seq<Seq<char>>) -> Seq<char> {
    seq!['\u{5b}'] + join_with(items.map_values(|s: Seq<char>| json_quoted(s)), seq![',']) + seq!['\u{5d}']
}

/// `serde_json::to_string` of a list of strings. Claimed: it always
/// succeeds (the strings go into an in-memory buffer, which cannot fail)
/// and gives the compact JSON array of the strings, each escaped as
/// `format_escaped_str` does.
#[verifier::external_body]
fn string_list_to_json(items: &[String]) -> (r: Option<String>)
    ensures
        match r {
            Some(t) => t@ == json_string_array(strings_view(items@)),
            None => false,
        },
{
    serde_json::to_string(items).ok()
}

/// The JSON text under which the excluded folders are stored.
pub fn stored_folders_value(folders: &[String]) -> (value: Option<String>)
    ensures
        value matches Some(t) && t@ == json_string_array(strings_view(folders@)),
{
    string_list_to_json(folders)
}

/// No two folders equal up to ASCII case.
pub open spec fn distinct_ignoring_case(folders: Seq<Seq<char>>) -> bool {
    forall|i: int, j: int|
        0 <= i < j < folders.len() ==> !eq_ignore_case(#[trigger] folders[i], #[trigger] folders[j])
}

/// The excluded folders never hold the same folder twice (up to ASCII
/// case): a successful `add` keeps a list of distinct folders distinct,
/// `remove` keeps it so, and the list read back from storage is distinct.
pub proof fn law_excluded_folders_stay_distinct(folders: Seq<Seq<char>>, raw: Seq<char>, path: Seq<char>, stored: Seq<Seq<char>>)
    requires
        distinct_ignoring_case(folders),
    ensures
        folder_path_problem(raw) is None && !holds_ignoring_case(folders, cleaned_folder_path(raw))
            ==> distinct_ignoring_case(folders.push(cleaned_folder_path(raw))),
        distinct_ignoring_case(folders.filter(outside_of(path))),
        distinct_ignoring_case(kept_stored_folders(stored)),
{
    let p = cleaned_folder_path(raw);
    if folder_path_problem(raw) is None && !holds_ignoring_case(folders, p) {
        let t = folders.push(p);
        assert forall|i: int, j: int| 0 <= i < j < t.len() implies !eq_ignore_case(#[trigger] t[i], #[trigger] t[j]) by {
            if j == folders.len() {
                assert(t[i] == folders[i]);
            } else {
                assert(t[i] == folders[i] && t[j] == folders[j]);
            }
        }
    }
    lemma_filter_keeps_distinct(folders, outside_of(path));
    lemma_stored_folders_distinct(stored);
}

proof fn lemma_filter_keeps_distinct(folders: Seq<Seq<char>>, pred: spec_fn(Seq<char>) -> bool)
    requires
        distinct_ignoring_case(folders),
    ensures
        distinct_ignoring_case(folders.filter(pred)),
        forall|x: Seq<char>| #[trigger] folders.filter(pred).contains(x) ==> folders.contains(x),
    decreases folders.len(),
{
    reveal(Seq::filter);
    if folders.len() > 0 {
        let rest = folders.drop_last();
        assert(distinct_ignoring_case(rest)) by {
            assert forall|i: int, j: int| 0 <= i < j < rest.len() implies !eq_ignore_case(#[trigger] rest[i], #[trigger] rest[j]) by {
                assert(rest[i] == folders[i] && rest[j] == folders[j]);
            }
        }
        lemma_filter_keeps_distinct(rest, pred);
        let f = rest.filter(pred);
        if pred(folders.last()) {
            let t = f.push(folders.last());
            assert forall|i: int, j: int| 0 <= i < j < t.len() implies !eq_ignore_case(#[trigger] t[i], #[trigger] t[j]) by {
                if j == f.len() {
                    assert(f.contains(t[i]));
                    assert(rest.contains(t[i]));
                    let k = choose|k: int| 0 <= k < rest.len() && rest[k] == t[i];
                    assert(folders[k] == t[i]);
                    assert(folders[folders.len() - 1] == t[j]);
                } else {
                    assert(t[i] == f[i] && t[j] == f[j]);
                }
            }
            assert forall|x: Seq<char>| #[trigger] t.contains(x) implies folders.contains(x) by {
                let k = choose|k: int| 0 <= k < t.len() && t[k] == x;
                if k == f.len() {
                    assert(folders[folders.len() - 1] == x);
                } else {
                    assert(f.contains(x));
                    let m = choose|m: int| 0 <= m < rest.len() && rest[m] == x;
                    assert(folders[m] == x);
                }
            }
        } else {
            assert forall|x: Seq<char>| #[trigger] f.contains(x) implies folders.contains(x) by {
                let m = choose|m: int| 0 <= m < rest.len() && rest[m] == x;
                assert(folders[m] == x);
            }
        }
    }
}

proof fn lemma_stored_folders_distinct(stored: Seq<Seq<char>>)
    ensures
        distinct_ignoring_case(kept_stored_folders(stored)),
    decreases stored.len(),
{
    if stored.len() > 0 {
        lemma_stored_folders_distinct(stored.drop_last());
        let kept = kept_stored_folders(stored.drop_last());
        let raw = stored.last();
        let p = cleaned_folder_path(raw);
        if !(folder_path_problem(raw) is Some || holds_ignoring_case(kept, p)) {
            let t = kept.push(p);
            assert forall|i: int, j: int| 0 <= i < j < t.len() implies !eq_ignore_case(#[trigger] t[i], #[trigger] t[j]) by {
                if j == kept.len() {
                    assert(t[i] == kept[i]);
                } else {
                    assert(t[i] == kept[i] && t[j] == kept[j]);
                }
            }
        }
    }
}

/// An excluded folder leaves out of the search both the folder itself and
/// everything below it: its clause is `!<whole:path:"F"|ancestor:"F">`.
/// A folder path is refused for a control character or any of `"<>|?*`,
/// and letters, digits, separators, colons, spaces and dots are fine.
pub proof fn law_excluded_folders_leave_out_their_trees(folder: Seq<char>, c: char)
    ensures
        exclusion_clause(folder) == seq!['!', '<', 'w', 'h', 'o', 'l', 'e', ':', 'p', 'a', 't', 'h', ':', '\u{22}'] + folder + seq!['\u{22}', '|', 'a', 'n', 'c', 'e', 's', 't', 'o', 'r', ':', '\u{22}'] + folder + seq!['\u{22}', '>'],
        (c < '\u{20}' || c == '\u{22}' || c == '<' || c == '>' || c == '|' || c == '?' || c == '*')
            ==> invalid_folder_char(c),
        ('a' <= c <= 'z' || 'A' <= c <= 'Z' || '0' <= c <= '9' || c == '\u{5c}' || c == '/' || c == ':' || c == ' '
            || c == '.') ==> !invalid_folder_char(c),
{
    reveal_strlit("!<whole:path:\"");
    reveal_strlit("\"|ancestor:\"");
    reveal_strlit("\">");
    assert("!<whole:path:\""@ =~= seq!['!', '<', 'w', 'h', 'o', 'l', 'e', ':', 'p', 'a', 't', 'h', ':', '\u{22}']);
    assert("\"|ancestor:\""@ =~= seq!['\u{22}', '|', 'a', 'n', 'c', 'e', 's', 't', 'o', 'r', ':', '\u{22}']);
    assert("\">"@ =~= seq!['\u{22}', '>']);
}

/// An absolute Windows folder path is a drive letter, a colon and a
/// separator (`C:\` or `C:/`), or a network path `\\server\share` (with
/// either separator); an ASCII path that starts with neither a separator
/// nor a character and a colon is not absolute.
pub proof fn law_absolute_folder_paths(letter: char, sep: char, rest: Seq<char>, server: Seq<char>, share: Seq<char>, p: Seq<char>)
    requires
        'a' <= letter <= 'z' || 'A' <= letter <= 'Z',
        sep == '\\' || sep == '/',
    ensures
        absolute_windows_path(seq![letter, ':', sep] + rest),
        server.len() > 0 && share.len() > 0 && !server.contains('\\') && !server.contains('/') && !is_separator(share[0])
            ==> absolute_windows_path(seq![sep, sep] + server + seq![sep] + share),
        p.len() > 0 && vstd::utf8::is_ascii_chars(p) && !is_separator(p[0]) && !(p.len() > 1 && p[1] == ':')
            ==> !absolute_windows_path(p),
{
    reveal_strlit("\\\\");
    reveal_strlit("//");
    let a = seq![letter, ':', sep];
    crate::text::lemma_encode_utf8_concat(a, rest);
    vstd::utf8::is_ascii_chars_encode_utf8(a);
    assert(encode_utf8(a + rest).take(3) =~= encode_utf8(a));
    assert(encode_utf8(a + rest)[0] == encode_utf8(a)[0]);
    assert(encode_utf8(a + rest)[1] == encode_utf8(a)[1]);
    assert(encode_utf8(a + rest)[2] == encode_utf8(a)[2]);
    if server.len() > 0 && share.len() > 0 && !server.contains('\\') && !server.contains('/') && !is_separator(share[0]) {
        let u = seq![sep, sep] + server + seq![sep] + share;
        assert(starts_with(u, "\\\\"@) || starts_with(u, "//"@)) by {
            assert(u.take(2) =~= seq![sep, sep]);
            assert("\\\\"@ =~= seq!['\\', '\\']);
            assert("//"@ =~= seq!['/', '/']);
        }
        let r = u.skip(2);
        assert(r =~= server + seq![sep] + share);
        lemma_first_separator_bounds(r);
        let n = server.len() as int;
        assert(is_separator(r[n]));
        assert forall|k: int| 0 <= k < n implies !is_separator(#[trigger] r[k]) by {
            assert(r[k] == server[k]);
            if is_separator(server[k]) {
                assert(server.contains(server[k]));
            }
        }
        assert(first_separator(r) == n) by {
            if first_separator(r) < n {
                assert(!is_separator(r[first_separator(r)]));
            }
        }
        assert(r.skip(n + 1) =~= share);
        lemma_first_separator_bounds(share);
        assert(first_separator(share) > 0) by {
            if first_separator(share) == 0 {
                assert(is_separator(share[0]));
            }
        }
    }
    if p.len() > 0 && vstd::utf8::is_ascii_chars(p) && !is_separator(p[0]) && !(p.len() > 1 && p[1] == ':') {
        assert(!(starts_with(p, "\\\\"@) || starts_with(p, "//"@))) by {
            if starts_with(p, "\\\\"@) {
                assert(p.take(2)[0] == p[0]);
            }
            if starts_with(p, "//"@) {
                assert(p.take(2)[0] == p[0]);
            }
        }
        vstd::utf8::is_ascii_chars_encode_utf8(p);
        let b = encode_utf8(p);
        assert(b[0] == p[0] as u8);
        if p.len() > 1 {
            assert(b[1] == p[1] as u8);
        }
    }
}

/// A typed folder is refused, after cleaning, when it is empty, when it
/// holds a forbidden character, and when it is not absolute, in that
/// order, each with its sentence.
pub proof fn law_folder_problems_are_explained(raw: Seq<char>)
    ensures
        cleaned_folder_path(raw).len() == 0 ==> folder_path_problem(raw) == Some(seq!['E', 'n', 't', 'e', 'r', ' ', 'a', ' ', 'f', 'o', 'l', 'd', 'e', 'r', ' ', 'p', 'a', 't', 'h', '.']),
        cleaned_folder_path(raw).len() > 0 && (exists|k: int| 0 <= k < cleaned_folder_path(raw).len() && invalid_folder_char(#[trigger] cleaned_folder_path(raw)[k])) ==> folder_path_problem(raw) == Some(seq!['T', 'h', 'e', ' ', 'f', 'o', 'l', 'd', 'e', 'r', ' ', 'p', 'a', 't', 'h', ' ', 'c', 'o', 'n', 't', 'a', 'i', 'n', 's', ' ', 'i', 'n', 'v', 'a', 'l', 'i', 'd', ' ', 'c', 'h', 'a', 'r', 'a', 'c', 't', 'e', 'r', 's', '.']),
        cleaned_folder_path(raw).len() > 0 && !(exists|k: int| 0 <= k < cleaned_folder_path(raw).len() && invalid_folder_char(#[trigger] cleaned_folder_path(raw)[k])) && !absolute_windows_path(cleaned_folder_path(raw)) ==> folder_path_problem(raw) == Some(seq!['E', 'n', 't', 'e', 'r', ' ', 'a', 'n', ' ', 'a', 'b', 's', 'o', 'l', 'u', 't', 'e', ' ', 'W', 'i', 'n', 'd', 'o', 'w', 's', ' ', 'o', 'r', ' ', 'U', 'N', 'C', ' ', 'f', 'o', 'l', 'd', 'e', 'r', ' ', 'p', 'a', 't', 'h', '.']),
        cleaned_folder_path(raw).len() > 0 && !(exists|k: int| 0 <= k < cleaned_folder_path(raw).len() && invalid_folder_char(#[trigger] cleaned_folder_path(raw)[k])) && absolute_windows_path(cleaned_folder_path(raw)) ==> folder_path_problem(raw) is None,
{
    reveal_strlit("Enter a folder path.");
    assert("Enter a folder path."@ =~= seq!['E', 'n', 't', 'e', 'r', ' ', 'a', ' ', 'f', 'o', 'l', 'd', 'e', 'r', ' ', 'p', 'a', 't', 'h', '.']);
    reveal_strlit("The folder path contains invalid characters.");
    assert("The folder path contains invalid characters."@ =~= seq!['T', 'h', 'e', ' ', 'f', 'o', 'l', 'd', 'e', 'r', ' ', 'p', 'a', 't', 'h', ' ', 'c', 'o', 'n', 't', 'a', 'i', 'n', 's', ' ', 'i', 'n', 'v', 'a', 'l', 'i', 'd', ' ', 'c', 'h', 'a', 'r', 'a', 'c', 't', 'e', 'r', 's', '.']);
    reveal_strlit("Enter an absolute Windows or UNC folder path.");
    assert("Enter an absolute Windows or UNC folder path."@ =~= seq!['E', 'n', 't', 'e', 'r', ' ', 'a', 'n', ' ', 'a', 'b', 's', 'o', 'l', 'u', 't', 'e', ' ', 'W', 'i', 'n', 'd', 'o', 'w', 's', ' ', 'o', 'r', ' ', 'U', 'N', 'C', ' ', 'f', 'o', 'l', 'd', 'e', 'r', ' ', 'p', 'a', 't', 'h', '.']);
}

/// The query sent to the engine is the typed query, trimmed, followed by
/// the clause of each excluded folder, all separated by single spaces;
/// without folders it is the trimmed query alone, and without a query the
/// clauses alone.
pub proof fn law_excluded_folders_follow_the_query(raw: Seq<char>, f: Seq<char>, g: Seq<char>)
    ensures
        composed_query(raw, Seq::empty()) == trimmed(raw),
        trimmed(raw).len() > 0 ==> composed_query(raw, seq![f]) == trimmed(raw) + seq![' '] + exclusion_clause(f),
        trimmed(raw).len() > 0 ==> composed_query(raw, seq![f, g]) == trimmed(raw) + seq![' '] + exclusion_clause(f)
            + seq![' '] + exclusion_clause(g),
        trimmed(raw).len() == 0 ==> composed_query(raw, seq![f, g]) == exclusion_clause(f) + seq![' '] + exclusion_clause(g),
{
    reveal_strlit(" ");
    assert(" "@ =~= seq![' ']);
    reveal_strlit("!<whole:path:\"");
    assert(exclusion_clause(f).len() > 0);
    assert(exclusion_clause(g).len() > 0);
    let one = seq![f].map_values(|x: Seq<char>| exclusion_clause(x));
    let two = seq![f, g].map_values(|x: Seq<char>| exclusion_clause(x));
    assert(one =~= seq![exclusion_clause(f)]);
    assert(two =~= seq![exclusion_clause(f), exclusion_clause(g)]);
    assert(two.drop_last() =~= seq![exclusion_clause(f)]);
    assert(Seq::<Seq<char>>::empty().map_values(|x: Seq<char>| exclusion_clause(x)) =~= Seq::<Seq<char>>::empty());
    assert(join_with(Seq::<Seq<char>>::empty(), " "@) == Seq::<char>::empty());
    assert(join_with(one, " "@) == exclusion_clause(f));
    assert(join_with(two, " "@) == join_with(two.drop_last(), " "@) + " "@ + two.last());
}

/// In stored JSON, a quote and a backslash are escaped with a backslash,
/// the control characters with their short escapes or `\u00XX` in lower
/// case, and every other character is written as it is.
pub proof fn law_json_escapes(c: char)
    ensures
        json_escaped_char('\u{22}') == seq!['\u{5c}', '\u{22}'],
        json_escaped_char('\u{5c}') == seq!['\u{5c}', '\u{5c}'],
        json_escaped_char('\n') == seq!['\u{5c}', 'n'],
        json_escaped_char('\r') == seq!['\u{5c}', 'r'],
        json_escaped_char('\t') == seq!['\u{5c}', 't'],
        json_escaped_char('\u{8}') == seq!['\u{5c}', 'b'],
        json_escaped_char('\u{c}') == seq!['\u{5c}', 'f'],
        json_escaped_char('\u{1}') == seq!['\u{5c}', 'u', '0', '0', '0', '1'],
        json_escaped_char('\u{1f}') == seq!['\u{5c}', 'u', '0', '0', '1', 'f'],
        c >= ' ' && c != '\u{22}' && c != '\u{5c}' ==> json_escaped_char(c) == seq![c],
        json_string_array(Seq::empty()) == seq!['[', ']'],
        json_string_array(seq![Seq::empty()]) == seq!['[', '\u{22}', '\u{22}', ']'],
{
    assert(json_escaped(Seq::<char>::empty()) == Seq::<char>::empty());
    assert(seq![Seq::<char>::empty()].map_values(|s: Seq<char>| json_quoted(s)) =~= seq![json_quoted(Seq::<char>::empty())]);
    assert(json_quoted(Seq::<char>::empty()) =~= seq!['\u{22}', '\u{22}']);
    assert(Seq::<Seq<char>>::empty().map_values(|s: Seq<char>| json_quoted(s)) =~= Seq::<Seq<char>>::empty());
    assert(join_with(Seq::<Seq<char>>::empty(), seq![',']) == Seq::<char>::empty());
    assert(seq!['['] + Seq::<char>::empty() + seq![']'] =~= seq!['[', ']']);
    assert(seq!['['] + seq!['\u{22}', '\u{22}'] + seq![']'] =~= seq!['[', '\u{22}', '\u{22}', ']']);
}

} // verus!
