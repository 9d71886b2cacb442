//! What the library computes around the search engine's SDK: sort keys,
//! time stamps, result identities and paths, wide strings, and the paging
//! that turns a selection into paths.

use vstd::prelude::*;
use vstd::utf8::*;
use crate::engine_config::fnv1a;
use crate::model::{
    normalize_selection_ranges, normalized, ranges_set, loose_set, lemma_ranges_set_len,
    SearchPage, SearchResult, SelectionRange, SortColumn, SortDirection,
};
use crate::text::{
    chars_end_with, chars_of, decimal, decimal_chars, ends_with, hex_digit, hex_fixed, hex_fixed_chars,
    push_chars, string_of,
};

verus! {

broadcast use vstd::string::group_string_axioms;

/// The SDK property that holds a result's name.
pub const PROPERTY_ID_NAME: u32 = 0;

/// The SDK property that holds a result's folder.
pub const PROPERTY_ID_PATH: u32 = 1;

/// The SDK property that holds a result's size.
pub const PROPERTY_ID_SIZE: u32 = 2;

/// The SDK property that holds a result's extension.
pub const PROPERTY_ID_EXTENSION: u32 = 3;

/// The SDK property that holds a result's modification date.
pub const PROPERTY_ID_DATE_MODIFIED: u32 = 5;

/// The value the SDK gives for an unknown size or date.
pub const UNKNOWN_UINT64: u64 = 0xffff_ffff_ffff_ffff;

/// Seconds between 1601-01-01 and 1970-01-01.
pub const WINDOWS_TO_UNIX_SECONDS: u64 = 11_644_473_600;

/// The SDK sort property of a column.
pub open spec fn sort_property(column: SortColumn) -> u32 {
    match column {
        SortColumn::Name => PROPERTY_ID_NAME,
        SortColumn::Path => PROPERTY_ID_PATH,
        SortColumn::Extension => PROPERTY_ID_EXTENSION,
        SortColumn::Size => PROPERTY_ID_SIZE,
        SortColumn::Modified => PROPERTY_ID_DATE_MODIFIED,
    }
}

/// The SDK sort property and the ascending flag (1 or 0) of a sort.
pub fn map_sort(column: SortColumn, direction: SortDirection) -> (r: (u32, i32))
    ensures
        r.0 == sort_property(column),
        r.1 == (if direction == SortDirection::Ascending { 1int } else { 0int }),
        column == SortColumn::Name ==> r.0 == 0,
        column == SortColumn::Path ==> r.0 == 1,
        column == SortColumn::Size ==> r.0 == 2,
        column == SortColumn::Extension ==> r.0 == 3,
        column == SortColumn::Modified ==> r.0 == 5,
{
    let property_id = match column {
        SortColumn::Name => PROPERTY_ID_NAME,
        SortColumn::Path => PROPERTY_ID_PATH,
        SortColumn::Extension => PROPERTY_ID_EXTENSION,
        SortColumn::Size => PROPERTY_ID_SIZE,
        SortColumn::Modified => PROPERTY_ID_DATE_MODIFIED,
    };
    let ascending = match direction {
        SortDirection::Ascending => 1,
        SortDirection::Descending => 0,
    };
    (property_id, ascending)
}

/// A Windows file time (100 ns ticks since 1601) as whole Unix seconds;
/// none before 1970.
pub open spec fn unix_seconds(filetime: u64) -> Option<i64> {
    if filetime / 10_000_000 < WINDOWS_TO_UNIX_SECONDS {
        None
    } else {
        Some((filetime / 10_000_000 - WINDOWS_TO_UNIX_SECONDS) as i64)
    }
}

/// Converts a Windows file time to Unix seconds.
pub fn filetime_to_unix(filetime: u64) -> (t: Option<i64>)
    ensures
        t == unix_seconds(filetime),
{
    let seconds = filetime / 10_000_000;
    if seconds < WINDOWS_TO_UNIX_SECONDS {
        return None;
    }
    Some((seconds - WINDOWS_TO_UNIX_SECONDS) as i64)
}

/// The identity of a result: the 16 hexadecimal digits of the FNV-1a hash
/// of its full path's UTF-8 bytes.
pub open spec fn result_id(path: Seq<char>) -> Seq<char> {
    hex_fixed(fnv1a(encode_utf8(path)) as nat, 16)
}

/// A stable identity for a result path.
pub fn stable_id(path: &str) -> (id: String)
    ensures
        id@ == result_id(path@),
{
    let hash = crate::engine_config::stable_hash(path);
    let digits = hex_fixed_chars(hash, 16);
    string_of(&digits)
}

/// How an instance is named in messages.
pub open spec fn instance_label(instance_name: Seq<char>) -> Seq<char> {
    if instance_name.len() == 0 {
        "l’instance principale"@
    } else {
        "l’instance « "@ + instance_name + " »"@
    }
}

/// The instance's name for messages.
pub fn display_instance_name(instance_name: &str) -> (label: String)
    ensures
        label@ == instance_label(instance_name@),
{
    if instance_name.is_empty() {
        String::from_str("l’instance principale")
    } else {
        let mut label = chars_of("l’instance « ");
        push_chars(&mut label, &chars_of(instance_name));
        push_chars(&mut label, &chars_of(" »"));
        string_of(&label)
    }
}

/// The UTF-16 code units of one character.
pub open spec fn utf16_units(c: char) -> Seq<u16> {
    let v = c as u32;
    if v < 0x10000 {
        seq![v as u16]
    } else {
        seq![(0xD800 + (v - 0x10000) / 1024) as u16, (0xDC00 + (v - 0x10000) % 1024) as u16]
    }
}

/// The UTF-16 encoding of a character sequence.
pub open spec fn utf16_of(s: Seq<char>) -> Seq<u16>
    decreases s.len(),
{
    if s.len() == 0 {
        Seq::empty()
    } else {
        utf16_of(s.drop_last()) + utf16_units(s.last())
    }
}

/// A string as a zero-terminated UTF-16 buffer for wide Windows calls.
pub fn to_wide(value: &str) -> (w: Vec<u16>)
    ensures
        w@ == utf16_of(value@).push(0),
{
    let chars = chars_of(value);
    let mut w: Vec<u16> = Vec::new();
    let mut i: usize = 0;
    while i < chars.len()
        invariant
            0 <= i <= chars@.len(),
            chars@ == value@,
            w@ == utf16_of(chars@.take(i as int)),
        decreases chars@.len() - i,
    {
        let c = chars[i];
        let v = c as u32;
        proof {
            assert(chars@.take(i as int + 1).drop_last() == chars@.take(i as int));
        }
        if v < 0x10000 {
            w.push(v as u16);
        } else {
            let above = v - 0x10000;
            w.push((0xD800 + above / 1024) as u16);
            w.push((0xDC00 + above % 1024) as u16);
        }
        i = i + 1;
        proof {
            assert(w@ =~= utf16_of(chars@.take(i as int)));
        }
    }
    proof {
        assert(chars@.take(chars@.len() as int) == chars@);
    }
    w.push(0);
    w
}


/// A result's full path: the folder and the name, with one backslash between
/// them unless the folder already ends with a separator or is empty.
pub open spec fn joined_path(parent: Seq<char>, name: Seq<char>) -> Seq<char> {
    if ends_with(parent, "\\"@) || ends_with(parent, "/"@) {
        parent + name
    } else if parent.len() == 0 {
        name
    } else {
        parent + "\\"@ + name
    }
}

/// Joins a result's folder and name.
pub fn result_full_path(parent_path: &str, name: &str) -> (full: String)
    ensures
        full@ == joined_path(parent_path@, name@),
{
    let parent = chars_of(parent_path);
    let name_chars = chars_of(name);
    let mut full = chars_of(parent_path);
    if chars_end_with(&parent, &chars_of("\\")) || chars_end_with(&parent, &chars_of("/")) {
        push_chars(&mut full, &name_chars);
    } else if parent.len() == 0 {
        return String::from_str(name);
    } else {
        push_chars(&mut full, &chars_of("\\"));
        push_chars(&mut full, &name_chars);
    }
    string_of(&full)
}

/// The size of a result: known for files only.
pub open spec fn result_size(is_dir: bool, raw_size: u64) -> Option<u64> {
    if !is_dir && raw_size != UNKNOWN_UINT64 {
        Some(raw_size)
    } else {
        None
    }
}

/// The modification time of a result, when the engine knows it.
pub open spec fn result_modified(raw_date: u64) -> Option<i64> {
    if raw_date != UNKNOWN_UINT64 {
        unix_seconds(raw_date)
    } else {
        None
    }
}

/// A search result from what the engine reports of one match.
pub fn search_result(name: String, parent_path: String, is_dir: bool, raw_size: u64, raw_date: u64) -> (r:
    SearchResult)
    ensures
        r.name@ == name@,
        r.parent_path@ == parent_path@,
        r.full_path@ == joined_path(parent_path@, name@),
        r.id@ == result_id(joined_path(parent_path@, name@)),
        r.size == result_size(is_dir, raw_size),
        r.modified_unix == result_modified(raw_date),
        r.is_dir == is_dir,
{
    let full_path = result_full_path(parent_path.as_str(), name.as_str());
    let id = stable_id(full_path.as_str());
    let size = if !is_dir && raw_size != UNKNOWN_UINT64 {
        Some(raw_size)
    } else {
        None
    };
    let modified_unix = if raw_date != UNKNOWN_UINT64 {
        filetime_to_unix(raw_date)
    } else {
        None
    };
    SearchResult { id, name, parent_path, full_path, size, modified_unix, is_dir }
}

/// Why the engine could not do what was asked.
#[derive(Debug, Clone, PartialEq, Eq)]
pub enum EngineError {
    SdkNotFound,
    SdkLoad(String),
    ConnectionFailed { instance: String, code: u32 },
    UnsupportedEverythingVersion(String),
    SdkCall { operation: &'static str, code: u32 },
    InvalidSelection(String),
    InvalidInstance(String),
    EngineNotFound,
    EngineSetup(String),
    EngineStart(String),
}

/// The message given when a selection holds too many items.
pub open spec fn too_many_items_message(max_items: usize) -> Seq<char> {
    "This operation is limited to "@ + decimal(max_items as nat) + " items at a time"@
}

/// The canonical ranges of a selection, provided it holds at most
/// `max_items` items.
pub fn plan_selection(ranges: Vec<SelectionRange>, max_items: usize) -> (r: Result<Vec<SelectionRange>, EngineError>)
    ensures
        total_len_of_loose(ranges@) <= max_items ==> (r matches Ok(v) && normalized(v@) && ranges_set(
            v@,
        ) == loose_set(ranges@)),
        total_len_of_loose(ranges@) > max_items ==> (r matches Err(EngineError::InvalidSelection(m))
            && m@ == too_many_items_message(max_items)),
{
    let normalized_ranges = normalize_selection_ranges(ranges);
    proof {
        lemma_ranges_set_len(normalized_ranges@);
    }
    let requested = crate::model::ranges_count(&normalized_ranges);
    if requested > max_items as u64 {
        let mut message = chars_of("This operation is limited to ");
        push_chars(&mut message, &decimal_chars(max_items as u128));
        push_chars(&mut message, &chars_of(" items at a time"));
        return Err(EngineError::InvalidSelection(string_of(&message)));
    }
    Ok(normalized_ranges)
}

/// How many items arbitrary ranges hold together.
pub open spec fn total_len_of_loose(ranges: Seq<SelectionRange>) -> int {
    loose_set(ranges).len() as int
}

/// The size of the next page when paging through `[offset, end]`: what
/// remains of the range, at most 1024.
pub fn selection_page_limit(end: u32, offset: u32) -> (limit: u32)
    requires
        offset <= end,
    ensures
        limit == (if end - offset + 1 < 1024 { end - offset + 1 } else { 1024 }),
        1 <= limit <= 1024,
{
    let remaining = end as u64 - offset as u64 + 1;
    if remaining < 1024 {
        remaining as u32
    } else {
        1024
    }
}

/// Where the next page of `[offset, end]` starts, or none when the range is
/// done: an empty page, a short page, or a page that reached the end.
pub fn next_selection_offset(end: u32, offset: u32, limit: u32, returned: u32) -> (next: Option<u32>)
    requires
        offset <= end,
    ensures
        (returned == 0 || returned < limit || returned as int >= end - offset + 1) ==> next is None,
        !(returned == 0 || returned < limit || returned as int >= end - offset + 1) ==> next == Some(
            (offset + returned) as u32,
        ),
{
    let remaining = end as u64 - offset as u64 + 1;
    if returned == 0 || returned < limit || returned as u64 >= remaining {
        None
    } else {
        Some(offset + returned)
    }
}

/// The page of a query: the request's number and offset, the total count
/// of results (at most `u32::MAX`), and the results read.
pub fn search_page(request_id: u32, offset: u32, raw_total: usize, items: Vec<SearchResult>) -> (p: SearchPage)
    ensures
        p.request_id == request_id,
        p.offset == offset,
        p.total == (if raw_total > u32::MAX { u32::MAX as int } else { raw_total as int }),
        p.items@ == items@,
{
    let total = if raw_total > u32::MAX as usize {
        u32::MAX
    } else {
        raw_total as u32
    };
    SearchPage { request_id, offset, total, items }
}

/// Whether an Everything version can serve SDK3 requests: 1.5 or a later
/// 1.x.
pub fn is_supported_version(major: u32, minor: u32) -> (r: bool)
    ensures
        r == (major == 1 && minor >= 5),
{
    major == 1 && minor >= 5
}

/// The status line of the engine: connected with its version, or connected
/// without a usable database.
pub open spec fn status_text(loaded: bool, version: Seq<char>, instance_name: Seq<char>) -> Seq<char> {
    if loaded {
        "Everything "@ + version + " is connected to "@ + instance_label(instance_name) + " via SDK3."@
    } else {
        "SDK3 is connected to "@ + instance_label(instance_name)
            + ", but the Everything 1.5 database is unavailable."@
    }
}

/// The status line shown for the engine.
pub fn status_message(loaded: bool, version: &str, instance_name: &str) -> (m: String)
    ensures
        m@ == status_text(loaded, version@, instance_name@),
{
    let instance = display_instance_name(instance_name);
    let mut text: Vec<char>;
    if loaded {
        text = chars_of("Everything ");
        push_chars(&mut text, &chars_of(version));
        push_chars(&mut text, &chars_of(" is connected to "));
        push_chars(&mut text, &chars_of(instance.as_str()));
        push_chars(&mut text, &chars_of(" via SDK3."));
    } else {
        text = chars_of("SDK3 is connected to ");
        push_chars(&mut text, &chars_of(instance.as_str()));
        push_chars(&mut text, &chars_of(", but the Everything 1.5 database is unavailable."));
    }
    string_of(&text)
}

/// The version of the engine, written `major.minor.revision.build`.
pub fn version_text(major: u32, minor: u32, revision: u32, build: u32) -> (v: String)
    ensures
        v@ == decimal(major as nat) + "."@ + decimal(minor as nat) + "."@ + decimal(revision as nat)
            + "."@ + decimal(build as nat),
{
    let mut text = decimal_chars(major as u128);
    push_chars(&mut text, &chars_of("."));
    push_chars(&mut text, &decimal_chars(minor as u128));
    push_chars(&mut text, &chars_of("."));
    push_chars(&mut text, &decimal_chars(revision as u128));
    push_chars(&mut text, &chars_of("."));
    push_chars(&mut text, &decimal_chars(build as u128));
    string_of(&text)
}

/// The number of results asked of the engine for a page: the requested
/// limit, between 1 and 4096.
pub fn viewport_count(limit: u32) -> (count: u32)
    ensures
        count == (if limit < 1 {
            1
        } else if limit > 4096 {
            4096
        } else {
            limit
        }),
{
    if limit < 1 {
        1
    } else if limit > 4096 {
        4096
    } else {
        limit
    }
}

/// The outcome of an SDK call that reports success as a non-zero value;
/// a failure carries the SDK's last error code.
pub fn check_call(operation: &'static str, succeeded: i32, last_error: u32) -> (r: Result<(), EngineError>)
    ensures
        succeeded != 0 ==> r is Ok,
        succeeded == 0 ==> r == Err::<(), EngineError>(EngineError::SdkCall { operation, code: last_error }),
{
    if succeeded != 0 {
        Ok(())
    } else {
        Err(EngineError::SdkCall { operation, code: last_error })
    }
}

/// The outcome of setting a viewport value: the SDK must report back the
/// value it was given.
pub fn check_viewport(operation: &'static str, requested: usize, applied: usize, last_error: u32) -> (r:
    Result<(), EngineError>)
    ensures
        requested == applied ==> r is Ok,
        requested != applied ==> r == Err::<(), EngineError>(EngineError::SdkCall { operation, code: last_error }),
{
    if applied == requested {
        Ok(())
    } else {
        Err(EngineError::SdkCall { operation, code: last_error })
    }
}

/// The size of the buffer that receives a result string of `required`
/// UTF-16 units: one more, for the terminating zero.
pub fn result_buffer_len(required: usize) -> (n: usize)
    ensures
        n == (if required == usize::MAX {
            usize::MAX as int
        } else {
            required + 1
        }),
        n >= 1,
{
    required.saturating_add(1)
}

/// The outcome of reading a result string: refused when the SDK reports an
/// error or wrote as much as the buffer holds (no room was left for the
/// end), else the number of units written.
pub fn check_result_string(operation: &'static str, written: usize, buffer_len: usize, last_error: u32) -> (r:
    Result<usize, EngineError>)
    ensures
        (last_error != 0 || written >= buffer_len) ==> r == Err::<usize, EngineError>(
            EngineError::SdkCall { operation, code: last_error },
        ),
        !(last_error != 0 || written >= buffer_len) ==> r == Ok::<usize, EngineError>(written),
{
    if last_error != 0 || written >= buffer_len {
        Err(EngineError::SdkCall { operation, code: last_error })
    } else {
        Ok(written)
    }
}

/// Each sort column asks the SDK for its own property: the name is
/// property 0, the path 1, the size 2, the extension 3 and the date
/// modified 5, so no two columns sort by the same property; the direction
/// is 1 for ascending and 0 for descending, whatever the column.
pub proof fn law_each_column_sorts_by_its_own_property(a: SortColumn, b: SortColumn)
    ensures
        sort_property(SortColumn::Name) == 0u32,
        sort_property(SortColumn::Path) == 1u32,
        sort_property(SortColumn::Size) == 2u32,
        sort_property(SortColumn::Extension) == 3u32,
        sort_property(SortColumn::Modified) == 5u32,
        a != b ==> sort_property(a) != sort_property(b),
{
}

/// A result's full path joins its folder and its name with one backslash,
/// adding none when the folder already ends with a backslash or a slash,
/// and is the name alone without a folder.
pub proof fn law_result_paths_join_folder_and_name(parent: Seq<char>, name: Seq<char>)
    ensures
        parent.len() > 0 && (parent.last() == '\u{5c}' || parent.last() == '/') ==> joined_path(parent, name) == parent
            + name,
        parent.len() > 0 && parent.last() != '\u{5c}' && parent.last() != '/' ==> joined_path(parent, name) == parent
            + seq!['\u{5c}'] + name,
        parent.len() == 0 ==> joined_path(parent, name) == name,
{
    reveal_strlit("\\");
    reveal_strlit("/");
    assert("\\"@ =~= seq!['\u{5c}']);
    assert("/"@ =~= seq!['/']);
    if parent.len() > 0 {
        assert(parent.skip(parent.len() - 1) =~= seq![parent.last()]);
        if ends_with(parent, "\\"@) {
            assert(parent.skip(parent.len() - 1)[0] == "\\"@[0]);
        }
        if ends_with(parent, "/"@) {
            assert(parent.skip(parent.len() - 1)[0] == "/"@[0]);
        }
    }
}

/// What a result reports of its size and date: no size for a folder or
/// when the engine reports the unknown value `u64::MAX`; the date, a
/// Windows file time in 100 ns ticks since 1601, as whole seconds since
/// 1970 (11 644 473 600 seconds later), none before 1970 or when unknown.
pub proof fn law_result_sizes_and_dates(is_dir: bool, raw_size: u64, raw_date: u64)
    ensures
        result_size(is_dir, raw_size) is None <==> (is_dir || raw_size == 0xffff_ffff_ffff_ffffu64),
        result_size(is_dir, raw_size) is Some ==> result_size(is_dir, raw_size) == Some(raw_size),
        raw_date == 0xffff_ffff_ffff_ffffu64 ==> result_modified(raw_date) is None,
        raw_date != 0xffff_ffff_ffff_ffffu64 && raw_date / 10_000_000 < 11_644_473_600 ==> result_modified(raw_date) is None,
        raw_date != 0xffff_ffff_ffff_ffffu64 && raw_date / 10_000_000 >= 11_644_473_600 ==> result_modified(raw_date)
            == Some((raw_date / 10_000_000 - 11_644_473_600) as i64),
{
}

/// The identity of a result is the 64-bit FNV-1a hash of its path's UTF-8
/// bytes (offset basis `0xcbf29ce484222325`, prime `0x100000001b3`: each
/// byte is xored in, then the hash multiplied, wrapping), written as 16
/// lower-case hexadecimal digits.
pub proof fn law_result_ids_are_fnv1a_in_hex(path: Seq<char>, bytes: Seq<u8>)
    ensures
        fnv1a(Seq::empty()) == 0xcbf2_9ce4_8422_2325u64,
        bytes.len() > 0 ==> fnv1a(bytes) == (fnv1a(bytes.drop_last()) ^ (bytes.last() as u64)).wrapping_mul(
            0x0000_0100_0000_01b3u64,
        ),
        result_id(path).len() == 16,
        forall|k: int|
            0 <= k < 16 ==> ('0' <= #[trigger] result_id(path)[k] <= '9' || 'a' <= result_id(path)[k] <= 'f'),
{
    lemma_hex_fixed_digits(fnv1a(encode_utf8(path)) as nat, 16);
}

/// `hex_fixed` gives `width` digits, each `0`-`9` or `a`-`f`.
proof fn lemma_hex_fixed_digits(x: nat, width: nat)
    ensures
        hex_fixed(x, width).len() == width,
        forall|k: int|
            0 <= k < width ==> ('0' <= #[trigger] hex_fixed(x, width)[k] <= '9' || 'a' <= hex_fixed(x, width)[k] <= 'f'),
    decreases width,
{
    if width > 0 {
        lemma_hex_fixed_digits(x / 16, (width - 1) as nat);
        let d = x % 16;
        assert('0' <= hex_digit(d) <= '9' || 'a' <= hex_digit(d) <= 'f');
    }
}

/// A selection over the limit is refused with `This operation is limited
/// to N items at a time`.
pub proof fn law_too_many_items_message(max_items: usize)
    ensures
        too_many_items_message(max_items) == seq!['T', 'h', 'i', 's', ' ', 'o', 'p', 'e', 'r', 'a', 't', 'i', 'o', 'n', ' ', 'i', 's', ' ', 'l', 'i', 'm', 'i', 't', 'e', 'd', ' ', 't', 'o', ' '] + decimal(max_items as nat) + seq![' ', 'i', 't', 'e', 'm', 's', ' ', 'a', 't', ' ', 'a', ' ', 't', 'i', 'm', 'e'],
{
    reveal_strlit("This operation is limited to ");
    reveal_strlit(" items at a time");
    assert("This operation is limited to "@ =~= seq!['T', 'h', 'i', 's', ' ', 'o', 'p', 'e', 'r', 'a', 't', 'i', 'o', 'n', ' ', 'i', 's', ' ', 'l', 'i', 'm', 'i', 't', 'e', 'd', ' ', 't', 'o', ' ']);
    assert(" items at a time"@ =~= seq![' ', 'i', 't', 'e', 'm', 's', ' ', 'a', 't', ' ', 'a', ' ', 't', 'i', 'm', 'e']);
}

/// The engine's status line names its version and instance when the
/// database is loaded, and says that the database is unavailable
/// otherwise; the default instance is `l’instance principale`, a named one
/// `l’instance « name »`.
pub proof fn law_status_lines_name_version_and_instance(version: Seq<char>, name: Seq<char>)
    ensures
        instance_label(Seq::empty()) == seq!['l', '\u{2019}', 'i', 'n', 's', 't', 'a', 'n', 'c', 'e', ' ', 'p', 'r', 'i', 'n', 'c', 'i', 'p', 'a', 'l', 'e'],
        name.len() > 0 ==> instance_label(name) == seq!['l', '\u{2019}', 'i', 'n', 's', 't', 'a', 'n', 'c', 'e', ' ', '\u{ab}', ' '] + name + seq![' ', '\u{bb}'],
        status_text(true, version, name) == seq!['E', 'v', 'e', 'r', 'y', 't', 'h', 'i', 'n', 'g', ' '] + version + seq![' ', 'i', 's', ' ', 'c', 'o', 'n', 'n', 'e', 'c', 't', 'e', 'd', ' ', 't', 'o', ' '] + instance_label(name) + seq![' ', 'v', 'i', 'a', ' ', 'S', 'D', 'K', '3', '.'],
        status_text(false, version, name) == seq!['S', 'D', 'K', '3', ' ', 'i', 's', ' ', 'c', 'o', 'n', 'n', 'e', 'c', 't', 'e', 'd', ' ', 't', 'o', ' '] + instance_label(name) + seq![',', ' ', 'b', 'u', 't', ' ', 't', 'h', 'e', ' ', 'E', 'v', 'e', 'r', 'y', 't', 'h', 'i', 'n', 'g', ' ', '1', '.', '5', ' ', 'd', 'a', 't', 'a', 'b', 'a', 's', 'e', ' ', 'i', 's', ' ', 'u', 'n', 'a', 'v', 'a', 'i', 'l', 'a', 'b', 'l', 'e', '.'],
{
    reveal_strlit("l’instance principale");
    assert("l’instance principale"@ =~= seq!['l', '\u{2019}', 'i', 'n', 's', 't', 'a', 'n', 'c', 'e', ' ', 'p', 'r', 'i', 'n', 'c', 'i', 'p', 'a', 'l', 'e']);
    reveal_strlit("l’instance « ");
    assert("l’instance « "@ =~= seq!['l', '\u{2019}', 'i', 'n', 's', 't', 'a', 'n', 'c', 'e', ' ', '\u{ab}', ' ']);
    reveal_strlit(" »");
    assert(" »"@ =~= seq![' ', '\u{bb}']);
    reveal_strlit("Everything ");
    assert("Everything "@ =~= seq!['E', 'v', 'e', 'r', 'y', 't', 'h', 'i', 'n', 'g', ' ']);
    reveal_strlit(" is connected to ");
    assert(" is connected to "@ =~= seq![' ', 'i', 's', ' ', 'c', 'o', 'n', 'n', 'e', 'c', 't', 'e', 'd', ' ', 't', 'o', ' ']);
    reveal_strlit(" via SDK3.");
    assert(" via SDK3."@ =~= seq![' ', 'v', 'i', 'a', ' ', 'S', 'D', 'K', '3', '.']);
    reveal_strlit("SDK3 is connected to ");
    assert("SDK3 is connected to "@ =~= seq!['S', 'D', 'K', '3', ' ', 'i', 's', ' ', 'c', 'o', 'n', 'n', 'e', 'c', 't', 'e', 'd', ' ', 't', 'o', ' ']);
    reveal_strlit(", but the Everything 1.5 database is unavailable.");
    assert(", but the Everything 1.5 database is unavailable."@ =~= seq![',', ' ', 'b', 'u', 't', ' ', 't', 'h', 'e', ' ', 'E', 'v', 'e', 'r', 'y', 't', 'h', 'i', 'n', 'g', ' ', '1', '.', '5', ' ', 'd', 'a', 't', 'a', 'b', 'a', 's', 'e', ' ', 'i', 's', ' ', 'u', 'n', 'a', 'v', 'a', 'i', 'l', 'a', 'b', 'l', 'e', '.']);
}

} // verus!
