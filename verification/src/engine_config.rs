//! Names, pipes and the configuration file of the bundled search engines,
//! one engine per indexed volume.

use vstd::prelude::*;
use vstd::utf8::*;
use crate::text::{
    lemma_join_lines_text, lemma_lines_from_fit, lemma_lines_of_lines_text, lemma_lines_text_lf, line_fits,
    lines_text, occurs_at, chars_contain, chars_eq, chars_eq_ignore_case, chars_of, contains_seq, eq_ignore_case, find_char_from,
    find_from, hex_fixed, hex_fixed_chars, join_chars, join_with, lemma_find_from, lines_of,
    push_chars, split_lines, string_of, sub_chars, trim_chars, trim_end, trim_start, trimmed, upper_chars,
    upper_seq, white_space, lower_seq, ascii_upper,
};

verus! {

broadcast use vstd::string::group_string_axioms;

/// The service instance that engines use unless another one is configured.
pub const DEFAULT_SERVICE_INSTANCE_NAME: &'static str = "EverythingNext";

/// The 64-bit FNV-1a offset basis.
pub const FNV_OFFSET: u64 = 0xcbf2_9ce4_8422_2325;

/// The 64-bit FNV-1a prime.
pub const FNV_PRIME: u64 = 0x0000_0100_0000_01b3;

/// The 64-bit FNV-1a hash of a byte sequence.
pub open spec fn fnv1a(bytes: Seq<u8>) -> u64
    decreases bytes.len(),
{
    if bytes.len() == 0 {
        FNV_OFFSET
    } else {
        (fnv1a(bytes.drop_last()) ^ (bytes.last() as u64)).wrapping_mul(FNV_PRIME)
    }
}

/// The FNV-1a hash of the UTF-8 bytes of a string.
pub fn stable_hash(value: &str) -> (h: u64)
    ensures
        h == fnv1a(encode_utf8(value@)),
{
    let bytes = value.as_bytes();
    let mut hash: u64 = FNV_OFFSET;
    let mut i: usize = 0;
    while i < bytes.len()
        invariant
            0 <= i <= bytes@.len(),
            bytes@ == encode_utf8(value@),
            hash == fnv1a(bytes@.take(i as int)),
        decreases bytes@.len() - i,
    {
        proof {
            assert(bytes@.take(i as int + 1).drop_last() == bytes@.take(i as int));
        }
        hash = (hash ^ (bytes[i] as u64)).wrapping_mul(FNV_PRIME);
        i = i + 1;
    }
    proof {
        assert(bytes@.take(bytes@.len() as int) == bytes@);
    }
    hash
}

/// The name of the storage folder of an engine instance.
pub open spec fn storage_key(instance_name: Seq<char>) -> Seq<char> {
    "instance-"@ + hex_fixed(fnv1a(encode_utf8(instance_name)) as nat, 16)
}

/// `instance-` followed by the 16 hexadecimal digits of the name's hash.
pub fn instance_storage_key(instance_name: &str) -> (key: String)
    ensures
        key@ == storage_key(instance_name@),
{
    let hash = stable_hash(instance_name);
    let mut key = chars_of("instance-");
    let digits = hex_fixed_chars(hash, 16);
    push_chars(&mut key, &digits);
    string_of(&key)
}

/// An instance name byte that is safe in process arguments and folder names.
pub open spec fn instance_name_byte(b: u8) -> bool {
    ||| 0x30 <= b <= 0x39
    ||| 0x41 <= b <= 0x5a
    ||| 0x61 <= b <= 0x7a
    ||| b == 0x2e
    ||| b == 0x5f
    ||| b == 0x2d
}

/// A non-empty name of at most 64 bytes, made of ASCII letters, digits,
/// dots, underscores and hyphens.
pub open spec fn valid_instance(instance_name: Seq<char>) -> bool {
    let bytes = encode_utf8(instance_name);
    &&& bytes.len() > 0
    &&& bytes.len() <= 64
    &&& forall|i: int| 0 <= i < bytes.len() ==> instance_name_byte(#[trigger] bytes[i])
}

/// Whether a service instance name may be used.
pub fn valid_instance_name(instance_name: &str) -> (ok: bool)
    ensures
        ok == valid_instance(instance_name@),
{
    let bytes = instance_name.as_bytes();
    if bytes.len() == 0 || bytes.len() > 64 {
        return false;
    }
    let mut i: usize = 0;
    while i < bytes.len()
        invariant
            0 <= i <= bytes@.len(),
            bytes@ == encode_utf8(instance_name@),
            forall|k: int| 0 <= k < i ==> instance_name_byte(#[trigger] bytes@[k]),
        decreases bytes@.len() - i,
    {
        let b = bytes[i];
        let fine = (0x30 <= b && b <= 0x39) || (0x41 <= b && b <= 0x5a) || (0x61 <= b && b <= 0x7a)
            || b == 0x2e || b == 0x5f || b == 0x2d;
        if !fine {
            return false;
        }
        i = i + 1;
    }
    true
}

/// The pipe that a client connects to: the standard one for the default
/// instance, a named one otherwise.
pub open spec fn ipc_pipe(instance_name: Seq<char>) -> Seq<char> {
    if instance_name.len() == 0 {
        "\\\\.\\PIPE\\Everything IPC"@
    } else {
        "\\\\.\\PIPE\\Everything IPC ("@ + instance_name + ")"@
    }
}

/// The IPC pipe of an instance.
pub fn ipc_pipe_name(instance_name: &str) -> (pipe: String)
    ensures
        pipe@ == ipc_pipe(instance_name@),
{
    if instance_name.is_empty() {
        String::from_str("\\\\.\\PIPE\\Everything IPC")
    } else {
        let mut pipe = chars_of("\\\\.\\PIPE\\Everything IPC (");
        let name = chars_of(instance_name);
        push_chars(&mut pipe, &name);
        let close = chars_of(")");
        push_chars(&mut pipe, &close);
        string_of(&pipe)
    }
}

/// The private service pipe; an unnamed instance uses the default service name.
pub open spec fn service_pipe(instance_name: Seq<char>) -> Seq<char> {
    let service = if instance_name.len() == 0 {
        DEFAULT_SERVICE_INSTANCE_NAME@
    } else {
        instance_name
    };
    "\\\\.\\PIPE\\Everything Service ("@ + service + ")"@
}

/// The service pipe of an instance.
pub fn service_pipe_name(instance_name: &str) -> (pipe: String)
    ensures
        pipe@ == service_pipe(instance_name@),
{
    let service = if instance_name.is_empty() {
        chars_of(DEFAULT_SERVICE_INSTANCE_NAME)
    } else {
        chars_of(instance_name)
    };
    let mut pipe = chars_of("\\\\.\\PIPE\\Everything Service (");
    push_chars(&mut pipe, &service);
    let close = chars_of(")");
    push_chars(&mut pipe, &close);
    string_of(&pipe)
}


/// The root without its trailing backslashes and colons.
pub open spec fn trim_volume_root(root: Seq<char>) -> Seq<char>
    decreases root.len(),
{
    if root.len() > 0 && (root.last() == '\\' || root.last() == ':') {
        trim_volume_root(root.drop_last())
    } else {
        root
    }
}

/// The preferred name of a volume's engine: the service instance, a hyphen
/// and the upper-case volume letter(s).
pub open spec fn volume_candidate(service_instance: Seq<char>, volume_root: Seq<char>) -> Seq<char> {
    service_instance + "-"@ + upper_seq(trim_volume_root(volume_root))
}

/// How many bytes of the service instance a shortened volume name keeps.
pub open spec fn kept_service_bytes(service_instance: Seq<char>) -> int {
    if encode_utf8(service_instance).len() < 47 {
        encode_utf8(service_instance).len() as int
    } else {
        47
    }
}

/// The upper-case volume key of a volume root.
fn volume_key(volume_root: &str) -> (key: Vec<char>)
    ensures
        key@ == upper_seq(trim_volume_root(volume_root@)),
{
    let root = chars_of(volume_root);
    let mut end = root.len();
    proof {
        assert(root@.subrange(0, end as int) == root@);
    }
    while end > 0 && (root[end - 1] == '\\' || root[end - 1] == ':')
        invariant
            0 <= end <= root@.len(),
            trim_volume_root(root@) == trim_volume_root(root@.subrange(0, end as int)),
        decreases end,
    {
        proof {
            assert(root@.subrange(0, end as int).drop_last() == root@.subrange(0, end - 1));
        }
        end = end - 1;
    }
    let trimmed = sub_chars(&root, 0, end);
    upper_chars(&trimmed)
}

/// The first `k` bytes of a string, which must end on a character boundary.
fn utf8_prefix(s: &str, k: usize) -> (p: &str)
    requires
        is_char_boundary(encode_utf8(s@), k as int),
    ensures
        encode_utf8(p@) == encode_utf8(s@).subrange(0, k as int),
{
    let (p, _) = s.split_at(k);
    p
}

/// At most 47 bytes of the service name, a hyphen and the hash of the root.
fn shortened_volume_name(service_instance: &str, volume_root: &str) -> (name: String)
    requires
        is_char_boundary(encode_utf8(service_instance@), kept_service_bytes(service_instance@)),
    ensures
        name@.len() >= 17,
        encode_utf8(name@.take(name@.len() - 17)) == encode_utf8(service_instance@).take(
            kept_service_bytes(service_instance@),
        ),
        name@.skip(name@.len() - 17) == "-"@ + hex_fixed(fnv1a(encode_utf8(volume_root@)) as nat, 16),
{
    let total = service_instance.as_bytes().len();
    let kept = if total < 47 { total } else { 47 };
    let prefix = utf8_prefix(service_instance, kept);
    let mut name = chars_of(prefix);
    let mut tail = chars_of("-");
    let digits = hex_fixed_chars(stable_hash(volume_root), 16);
    push_chars(&mut tail, &digits);
    push_chars(&mut name, &tail);
    proof {
        reveal_strlit("-");
        assert(name@.take(name@.len() - 17) == prefix@);
        assert(name@.skip(name@.len() - 17) == tail@);
    }
    string_of(&name)
}

/// The name of the engine of one volume: the preferred name when it fits in
/// 64 bytes, else at most 47 bytes of the service name, a hyphen and the 16
/// hexadecimal digits of the volume root's hash.
pub fn volume_instance_name(service_instance: &str, volume_root: &str) -> (name: String)
    requires
        encode_utf8(volume_candidate(service_instance@, volume_root@)).len() <= 64
            || is_char_boundary(encode_utf8(service_instance@), kept_service_bytes(service_instance@)),
    ensures
        encode_utf8(volume_candidate(service_instance@, volume_root@)).len() <= 64 ==> name@
            == volume_candidate(service_instance@, volume_root@),
        encode_utf8(volume_candidate(service_instance@, volume_root@)).len() > 64 ==> {
            &&& name@.len() >= 17
            &&& encode_utf8(name@.take(name@.len() - 17)) == encode_utf8(service_instance@).take(
                kept_service_bytes(service_instance@),
            )
            &&& name@.skip(name@.len() - 17) == "-"@ + hex_fixed(
                fnv1a(encode_utf8(volume_root@)) as nat,
                16,
            )
        },
{
    let key = volume_key(volume_root);
    let mut candidate = chars_of(service_instance);
    let hyphen = chars_of("-");
    push_chars(&mut candidate, &hyphen);
    push_chars(&mut candidate, &key);
    let candidate = string_of(&candidate);
    if candidate.as_str().as_bytes().len() <= 64 {
        candidate
    } else {
        shortened_volume_name(service_instance, volume_root)
    }
}


/// The file systems whose volumes an engine can index.
#[derive(Clone, Copy, Debug, PartialEq, Eq, Structural)]
pub enum VolumeFileSystem {
    Ntfs,
    Refs,
    Fat,
}

/// A fixed volume that one engine indexes, such as `C:` on NTFS.
#[derive(Clone, Debug)]
pub struct IndexedVolume {
    pub root: String,
    pub file_system: VolumeFileSystem,
}

/// The volume paths and include flag of one file system's setting pair:
/// the volume's root and `1` for its own file system, empty otherwise.
pub open spec fn volume_setting(root: Seq<char>, volume_fs: VolumeFileSystem, fs: VolumeFileSystem) -> (
    Seq<char>,
    Seq<char>,
) {
    if volume_fs == fs {
        (root, "1"@)
    } else {
        (Seq::empty(), Seq::empty())
    }
}

/// The paths and include values of one file system for a volume.
pub fn volume_config(volume: &IndexedVolume, file_system: VolumeFileSystem) -> (r: (String, String))
    ensures
        (r.0@, r.1@) == volume_setting(volume.root@, volume.file_system, file_system),
{
    if volume.file_system == file_system {
        (volume.root.clone(), String::from_str("1"))
    } else {
        (String::new(), String::new())
    }
}

/// The settings that the library owns in the `[Everything]` section, in the
/// order in which missing ones are written.
pub open spec fn desired_settings(service_pipe: Seq<char>, root: Seq<char>, fs: VolumeFileSystem) -> Seq<
    (Seq<char>, Seq<char>),
> {
    let ntfs = volume_setting(root, fs, VolumeFileSystem::Ntfs);
    let refs = volume_setting(root, fs, VolumeFileSystem::Refs);
    let fat = volume_setting(root, fs, VolumeFileSystem::Fat);
    seq![
        ("run_as_admin"@, "0"@),
        ("run_in_background"@, "1"@),
        ("show_in_taskbar"@, "0"@),
        ("show_tray_icon"@, "0"@),
        ("minimize_to_tray"@, "0"@),
        ("check_for_updates_on_startup"@, "0"@),
        ("beta_updates"@, "0"@),
        ("alpha_instance"@, "0"@),
        ("allow_multiple_instances"@, "0"@),
        ("ipc_enabled"@, "1"@),
        ("service_pipe_name"@, service_pipe),
        ("auto_include_fixed_volumes"@, "0"@),
        ("auto_include_fixed_refs_volumes"@, "0"@),
        ("auto_include_fixed_fat_volumes"@, "0"@),
        ("ntfs_volume_paths"@, ntfs.0),
        ("ntfs_volume_includes"@, ntfs.1),
        ("refs_volume_paths"@, refs.0),
        ("refs_volume_includes"@, refs.1),
        ("fat_volume_paths"@, fat.0),
        ("fat_volume_includes"@, fat.1),
    ]
}

/// The `key=value` line of the `k`-th setting.
pub open spec fn setting_line(d: Seq<(Seq<char>, Seq<char>)>, k: int) -> Seq<char> {
    d[k].0 + "="@ + d[k].1
}

/// Writes, in order, each setting from the `k`-th on that was not written yet.
pub open spec fn append_missing(
    d: Seq<(Seq<char>, Seq<char>)>,
    out: Seq<Seq<char>>,
    seen: Seq<bool>,
    k: int,
) -> (Seq<Seq<char>>, Seq<bool>)
    decreases d.len() - k,
{
    if k < 0 || k >= d.len() {
        (out, seen)
    } else if seen[k] {
        append_missing(d, out, seen, k + 1)
    } else {
        append_missing(d, out.push(setting_line(d, k)), seen.update(k, true), k + 1)
    }
}

/// A line without its surrounding white space and a leading byte order mark.
pub open spec fn section_body(line: Seq<char>) -> Seq<char> {
    let t = trimmed(line);
    if t.len() > 0 && t[0] == '\u{feff}' {
        t.drop_first()
    } else {
        t
    }
}

/// A line that opens a section: `[name]`.
pub open spec fn is_section(line: Seq<char>) -> bool {
    let b = section_body(line);
    b.len() >= 2 && b[0] == '[' && b.last() == ']'
}

/// The name between the brackets of a section line.
pub open spec fn section_name(line: Seq<char>) -> Seq<char> {
    let b = section_body(line);
    b.subrange(1, b.len() - 1)
}

/// The first owned setting from the `k`-th on whose key matches, ignoring ASCII
/// case and surrounding white space (the count of settings when none does).
pub open spec fn key_match(d: Seq<(Seq<char>, Seq<char>)>, raw_key: Seq<char>, k: int) -> int
    decreases d.len() - k,
{
    if k < 0 || k >= d.len() {
        d.len() as int
    } else if eq_ignore_case(trimmed(raw_key), d[k].0) {
        k
    } else {
        key_match(d, raw_key, k + 1)
    }
}

/// The merge so far: lines written, owned settings written, whether the
/// current section is `[Everything]`, and whether one was met.
pub type MergeState = (Seq<Seq<char>>, Seq<bool>, bool, bool);

/// One line of the existing file: a section header closes the previous
/// `[Everything]` section with its missing settings; an owned setting inside
/// `[Everything]` takes the owned value once and its repetitions are dropped;
/// any other line is kept.
pub open spec fn merge_step(d: Seq<(Seq<char>, Seq<char>)>, st: MergeState, line: Seq<char>) -> MergeState {
    let (out, seen, in_everything, found) = st;
    if is_section(line) {
        let closed = if in_everything {
            append_missing(d, out, seen, 0)
        } else {
            (out, seen)
        };
        let now = eq_ignore_case(section_name(line), "Everything"@);
        (closed.0.push(line), closed.1, now, found || now)
    } else {
        let eq = find_from(line, '=', 0);
        let k = key_match(d, line.take(eq), 0);
        if in_everything && eq < line.len() && k < d.len() {
            if !seen[k] {
                (out.push(setting_line(d, k)), seen.update(k, true), in_everything, found)
            } else {
                (out, seen, in_everything, found)
            }
        } else {
            (out.push(line), seen, in_everything, found)
        }
    }
}

/// The merge after the given lines.
pub open spec fn merge_lines(d: Seq<(Seq<char>, Seq<char>)>, lines: Seq<Seq<char>>) -> MergeState
    decreases lines.len(),
{
    if lines.len() == 0 {
        (Seq::empty(), Seq::new(d.len(), |i: int| false), false, false)
    } else {
        merge_step(d, merge_lines(d, lines.drop_last()), lines.last())
    }
}

/// The lines of the merged file: an open `[Everything]` section receives its
/// missing settings, and a file without one gets it appended, after a blank line.
pub open spec fn merged_lines(d: Seq<(Seq<char>, Seq<char>)>, lines: Seq<Seq<char>>) -> Seq<Seq<char>> {
    let (out, seen, in_everything, found) = merge_lines(d, lines);
    if in_everything {
        append_missing(d, out, seen, 0).0
    } else if !found {
        let spaced = if out.len() > 0 && out.last().len() > 0 {
            out.push(Seq::empty())
        } else {
            out
        };
        append_missing(d, spaced.push("[Everything]"@), seen, 0).0
    } else {
        out
    }
}

/// The line ending of the file: CRLF when it already holds one, LF otherwise.
pub open spec fn config_newline(existing: Seq<char>) -> Seq<char> {
    if contains_seq(existing, "\r\n"@) {
        "\r\n"@
    } else {
        "\n"@
    }
}

/// The configuration file after merging the owned settings into it.
pub open spec fn merged_config(
    existing: Seq<char>,
    service_pipe: Seq<char>,
    root: Seq<char>,
    fs: VolumeFileSystem,
) -> Seq<char> {
    let nl = config_newline(existing);
    join_with(merged_lines(desired_settings(service_pipe, root, fs), lines_of(existing)), nl) + nl
}



/// What every step of the merge keeps: each owned setting marked as written
/// has its line in the output, and once an `[Everything]` section was met
/// and closed, every owned setting is written.
pub open spec fn merge_invariant(d: Seq<(Seq<char>, Seq<char>)>, st: MergeState) -> bool {
    let (out, seen, in_everything, found) = st;
    &&& seen.len() == d.len()
    &&& forall|j: int| 0 <= j < d.len() && #[trigger] seen[j] ==> out.contains(setting_line(d, j))
    &&& in_everything ==> found
    &&& found && !in_everything ==> forall|j: int| 0 <= j < d.len() ==> #[trigger] seen[j]
}

proof fn lemma_append_missing(
    d: Seq<(Seq<char>, Seq<char>)>,
    out: Seq<Seq<char>>,
    seen: Seq<bool>,
    k: int,
)
    requires
        seen.len() == d.len(),
        0 <= k <= d.len(),
        forall|j: int| 0 <= j < d.len() && #[trigger] seen[j] ==> out.contains(setting_line(d, j)),
    ensures
        ({
            let r = append_missing(d, out, seen, k);
            &&& r.1.len() == d.len()
            &&& forall|j: int| k <= j < d.len() ==> #[trigger] r.1[j]
            &&& forall|j: int| 0 <= j < d.len() && seen[j] ==> #[trigger] r.1[j]
            &&& forall|j: int| 0 <= j < d.len() && #[trigger] r.1[j] ==> r.0.contains(setting_line(d, j))
            &&& forall|x: Seq<char>| out.contains(x) ==> #[trigger] r.0.contains(x)
        }),
    decreases d.len() - k,
{
    broadcast use vstd::seq_lib::lemma_seq_contains_after_push;

    if k < d.len() {
        if seen[k] {
            lemma_append_missing(d, out, seen, k + 1);
        } else {
            let out2 = out.push(setting_line(d, k));
            let seen2 = seen.update(k, true);
            assert forall|j: int| 0 <= j < d.len() && #[trigger] seen2[j] implies out2.contains(
                setting_line(d, j),
            ) by {
                if j != k {
                    assert(seen[j]);
                }
            }
            lemma_append_missing(d, out2, seen2, k + 1);
            let r = append_missing(d, out2, seen2, k + 1);
            assert forall|j: int| 0 <= j < d.len() && seen[j] implies #[trigger] r.1[j] by {
                assert(seen2[j]);
            }
            assert(r.1[k]);
        }
    }
}

proof fn lemma_merge_step(d: Seq<(Seq<char>, Seq<char>)>, st: MergeState, line: Seq<char>)
    requires
        merge_invariant(d, st),
    ensures
        merge_invariant(d, merge_step(d, st, line)),
{
    broadcast use vstd::seq_lib::lemma_seq_contains_after_push;

    let (out, seen, in_everything, found) = st;
    if is_section(line) {
        if in_everything {
            lemma_append_missing(d, out, seen, 0);
        }
    } else {
        let eq = find_from(line, '=', 0);
        let k = key_match(d, line.take(eq), 0);
        if in_everything && eq < line.len() && k < d.len() {
            if !seen[k] {
                lemma_key_match_range(d, line.take(eq), 0);
                let seen2 = seen.update(k, true);
                let out2 = out.push(setting_line(d, k));
                assert forall|j: int| 0 <= j < d.len() && #[trigger] seen2[j] implies out2.contains(
                    setting_line(d, j),
                ) by {
                    if j != k {
                        assert(seen[j]);
                    }
                }
            }
        }
    }
}

proof fn lemma_key_match_range(d: Seq<(Seq<char>, Seq<char>)>, raw_key: Seq<char>, k: int)
    requires
        0 <= k,
    ensures
        k <= key_match(d, raw_key, k) <= d.len() || (k > d.len() && key_match(d, raw_key, k) == d.len()),
    decreases d.len() - k,
{
    if k < d.len() && !eq_ignore_case(trimmed(raw_key), d[k].0) {
        lemma_key_match_range(d, raw_key, k + 1);
    }
}

proof fn lemma_merge_lines(d: Seq<(Seq<char>, Seq<char>)>, lines: Seq<Seq<char>>)
    ensures
        merge_invariant(d, merge_lines(d, lines)),
    decreases lines.len(),
{
    if lines.len() > 0 {
        lemma_merge_lines(d, lines.drop_last());
        lemma_merge_step(d, merge_lines(d, lines.drop_last()), lines.last());
    }
}

/// Every owned setting is in the merged file with the value the library
/// owns, whatever the existing file held.
pub proof fn law_merge_writes_every_setting(d: Seq<(Seq<char>, Seq<char>)>, lines: Seq<Seq<char>>)
    ensures
        forall|k: int| 0 <= k < d.len() ==> #[trigger] merged_lines(d, lines).contains(setting_line(d, k)),
{
    broadcast use vstd::seq_lib::lemma_seq_contains_after_push;

    lemma_merge_lines(d, lines);
    let (out, seen, in_everything, found) = merge_lines(d, lines);
    if in_everything {
        lemma_append_missing(d, out, seen, 0);
        let r = append_missing(d, out, seen, 0);
        assert(merged_lines(d, lines) == r.0);
        assert forall|k: int| 0 <= k < d.len() implies #[trigger] merged_lines(d, lines).contains(
            setting_line(d, k),
        ) by {
            assert(r.1[k]);
        }
    } else if !found {
        let spaced = if out.len() > 0 && out.last().len() > 0 {
            out.push(Seq::empty())
        } else {
            out
        };
        let opened = spaced.push("[Everything]"@);
        assert forall|j: int| 0 <= j < d.len() && #[trigger] seen[j] implies opened.contains(
            setting_line(d, j),
        ) by {
            assert(out.contains(setting_line(d, j)));
            assert(spaced.contains(setting_line(d, j)));
        }
        lemma_append_missing(d, opened, seen, 0);
        let r = append_missing(d, opened, seen, 0);
        assert(merged_lines(d, lines) == r.0);
        assert forall|k: int| 0 <= k < d.len() implies #[trigger] merged_lines(d, lines).contains(
            setting_line(d, k),
        ) by {
            assert(r.1[k]);
        }
    } else {
        assert forall|k: int| 0 <= k < d.len() implies #[trigger] merged_lines(d, lines).contains(
            setting_line(d, k),
        ) by {
            assert(seen[k]);
        }
    }
}

/// `a` is the beginning of `b`.
pub open spec fn starts_lines(a: Seq<Seq<char>>, b: Seq<Seq<char>>) -> bool {
    a.len() <= b.len() && forall|k: int| 0 <= k < a.len() ==> #[trigger] b[k] == a[k]
}

/// A line of the existing file that the merge writes as it is: a section
/// header, or any line but an owned setting inside `[Everything]`.
pub open spec fn kept_line(d: Seq<(Seq<char>, Seq<char>)>, st: MergeState, line: Seq<char>) -> bool {
    let eq = find_from(line, '=', 0);
    is_section(line) || !(st.2 && eq < line.len() && key_match(d, line.take(eq), 0) < d.len())
}

proof fn lemma_append_missing_extends(
    d: Seq<(Seq<char>, Seq<char>)>,
    out: Seq<Seq<char>>,
    seen: Seq<bool>,
    k: int,
)
    ensures
        starts_lines(out, append_missing(d, out, seen, k).0),
    decreases d.len() - k,
{
    if 0 <= k < d.len() {
        if seen[k] {
            lemma_append_missing_extends(d, out, seen, k + 1);
        } else {
            let out2 = out.push(setting_line(d, k));
            lemma_append_missing_extends(d, out2, seen.update(k, true), k + 1);
            let r = append_missing(d, out2, seen.update(k, true), k + 1).0;
            assert forall|j: int| 0 <= j < out.len() implies #[trigger] r[j] == out[j] by {
                assert(r[j] == out2[j]);
            }
        }
    }
}

proof fn lemma_merge_step_extends(d: Seq<(Seq<char>, Seq<char>)>, st: MergeState, line: Seq<char>)
    ensures
        starts_lines(st.0, merge_step(d, st, line).0),
        kept_line(d, st, line) ==> merge_step(d, st, line).0.last() == line && merge_step(d, st, line).0.len() > 0,
{
    let (out, seen, in_everything, found) = st;
    if is_section(line) {
        if in_everything {
            lemma_append_missing_extends(d, out, seen, 0);
            let closed = append_missing(d, out, seen, 0).0;
            assert forall|j: int| 0 <= j < out.len() implies #[trigger] closed.push(line)[j] == out[j] by {
                assert(closed[j] == out[j]);
            }
        }
    }
}

proof fn lemma_merge_lines_extends(d: Seq<(Seq<char>, Seq<char>)>, lines: Seq<Seq<char>>, j: int)
    requires
        0 <= j <= lines.len(),
    ensures
        starts_lines(merge_lines(d, lines.take(j)).0, merge_lines(d, lines).0),
    decreases lines.len(),
{
    if j == lines.len() {
        assert(lines.take(j) =~= lines);
    } else {
        let init = lines.drop_last();
        assert(init.take(j) =~= lines.take(j));
        lemma_merge_lines_extends(d, init, j);
        lemma_merge_step_extends(d, merge_lines(d, init), lines.last());
        let a = merge_lines(d, lines.take(j)).0;
        let b = merge_lines(d, init).0;
        let c = merge_lines(d, lines).0;
        assert forall|k: int| 0 <= k < a.len() implies #[trigger] c[k] == a[k] by {
            assert(b[k] == a[k]);
            assert(c[k] == b[k]);
        }
    }
}

proof fn lemma_merged_lines_extend(d: Seq<(Seq<char>, Seq<char>)>, lines: Seq<Seq<char>>)
    ensures
        starts_lines(merge_lines(d, lines).0, merged_lines(d, lines)),
{
    let (out, seen, in_everything, found) = merge_lines(d, lines);
    if in_everything {
        lemma_append_missing_extends(d, out, seen, 0);
    } else if !found {
        let spaced = if out.len() > 0 && out.last().len() > 0 {
            out.push(Seq::empty())
        } else {
            out
        };
        let opened = spaced.push("[Everything]"@);
        lemma_append_missing_extends(d, opened, seen, 0);
        let r = append_missing(d, opened, seen, 0).0;
        assert forall|k: int| 0 <= k < out.len() implies #[trigger] r[k] == out[k] by {
            assert(r[k] == opened[k]);
            assert(opened[k] == spaced[k]);
        }
    }
}

/// The merge keeps the existing configuration: every line of the file is
/// in the merged file, but the owned settings inside `[Everything]`, which
/// take the values the library owns.
pub proof fn law_merge_keeps_other_lines(d: Seq<(Seq<char>, Seq<char>)>, lines: Seq<Seq<char>>)
    ensures
        forall|i: int|
            0 <= i < lines.len() && kept_line(d, merge_lines(d, lines.take(i)), lines[i])
                ==> #[trigger] merged_lines(d, lines).contains(lines[i]),
{
    assert forall|i: int|
        0 <= i < lines.len() && kept_line(d, merge_lines(d, lines.take(i)), lines[i]) implies
        #[trigger] merged_lines(d, lines).contains(lines[i]) by {
        let upto = lines.take(i + 1);
        assert(upto.drop_last() =~= lines.take(i));
        assert(upto.last() == lines[i]);
        lemma_merge_step_extends(d, merge_lines(d, lines.take(i)), lines[i]);
        let step = merge_lines(d, upto).0;
        lemma_merge_lines_extends(d, lines, i + 1);
        lemma_merged_lines_extend(d, lines);
        let all = merge_lines(d, lines).0;
        let merged = merged_lines(d, lines);
        let at = step.len() - 1;
        assert(step[at] == lines[i]);
        assert(all[at] == step[at]);
        assert(merged[at] == all[at]);
    }
}

/// The merge state after the given lines, from a given state.
pub open spec fn merge_from(d: Seq<(Seq<char>, Seq<char>)>, st: MergeState, lines: Seq<Seq<char>>) -> MergeState
    decreases lines.len(),
{
    if lines.len() == 0 {
        st
    } else {
        merge_step(d, merge_from(d, st, lines.drop_last()), lines.last())
    }
}

/// The state the merge starts from.
pub open spec fn merge_start(d: Seq<(Seq<char>, Seq<char>)>) -> MergeState {
    (Seq::empty(), Seq::new(d.len(), |i: int| false), false, false)
}

/// Owned settings whose lines the merge reads back as themselves: a line
/// `key=value` is no section header, and its key, up to the first `=`,
/// matches its own setting first.
pub open spec fn settings_read_back(d: Seq<(Seq<char>, Seq<char>)>) -> bool {
    forall|k: int|
        0 <= k < d.len() ==> {
            let line = #[trigger] setting_line(d, k);
            let eq = find_from(line, '=', 0);
            &&& !is_section(line)
            &&& eq < line.len()
            &&& key_match(d, line.take(eq), 0) == k
        }
}

proof fn lemma_merge_lines_from(d: Seq<(Seq<char>, Seq<char>)>, lines: Seq<Seq<char>>)
    ensures
        merge_lines(d, lines) == merge_from(d, merge_start(d), lines),
    decreases lines.len(),
{
    if lines.len() > 0 {
        lemma_merge_lines_from(d, lines.drop_last());
    }
}

proof fn lemma_merge_from_concat(
    d: Seq<(Seq<char>, Seq<char>)>,
    st: MergeState,
    a: Seq<Seq<char>>,
    b: Seq<Seq<char>>,
)
    ensures
        merge_from(d, st, a + b) == merge_from(d, merge_from(d, st, a), b),
    decreases b.len(),
{
    if b.len() == 0 {
        assert(a + b =~= a);
    } else {
        assert((a + b).drop_last() =~= a + b.drop_last());
        assert((a + b).last() == b.last());
        lemma_merge_from_concat(d, st, a, b.drop_last());
    }
}

proof fn lemma_merge_from_single(d: Seq<(Seq<char>, Seq<char>)>, st: MergeState, line: Seq<char>)
    ensures
        merge_from(d, st, seq![line]) == merge_step(d, st, line),
{
    assert(seq![line].drop_last() =~= Seq::<Seq<char>>::empty());
    assert(merge_from(d, st, seq![line].drop_last()) == st);
    assert(seq![line].last() == line);
}

/// The settings appended when a section closes are read back as the same
/// settings, from the state they were appended in.
proof fn lemma_append_read_back(
    d: Seq<(Seq<char>, Seq<char>)>,
    out: Seq<Seq<char>>,
    seen: Seq<bool>,
    found: bool,
    k: int,
)
    requires
        settings_read_back(d),
        seen.len() == d.len(),
        0 <= k <= d.len(),
    ensures
        ({
            let r = append_missing(d, out, seen, k);
            &&& starts_lines(out, r.0)
            &&& merge_from(d, (out, seen, true, found), r.0.skip(out.len() as int)) == (r.0, r.1, true, found)
        }),
    decreases d.len() - k,
{
    lemma_append_missing_extends(d, out, seen, k);
    let r = append_missing(d, out, seen, k);
    if k == d.len() {
        assert(r.0.skip(out.len() as int) =~= Seq::<Seq<char>>::empty());
    } else if seen[k] {
        lemma_append_read_back(d, out, seen, found, k + 1);
    } else {
        let line = setting_line(d, k);
        let out2 = out.push(line);
        let seen2 = seen.update(k, true);
        lemma_append_read_back(d, out2, seen2, found, k + 1);
        assert(r == append_missing(d, out2, seen2, k + 1));
        lemma_append_missing_extends(d, out2, seen2, k + 1);
        assert(r.0[out.len() as int] == line);
        assert(r.0.skip(out.len() as int) =~= seq![line] + r.0.skip(out2.len() as int));
        lemma_merge_from_concat(d, (out, seen, true, found), seq![line], r.0.skip(out2.len() as int));
        lemma_merge_from_single(d, (out, seen, true, found), line);
        assert(setting_line(d, k) == line);
        let eq = find_from(line, '=', 0);
        assert(!is_section(line) && eq < line.len() && key_match(d, line.take(eq), 0) == k);
        assert(merge_step(d, (out, seen, true, found), line) == (out2, seen2, true, found));
    }
}

proof fn lemma_append_marks_all(d: Seq<(Seq<char>, Seq<char>)>, out: Seq<Seq<char>>, seen: Seq<bool>, k: int)
    requires
        seen.len() == d.len(),
        0 <= k <= d.len(),
    ensures
        ({
            let r = append_missing(d, out, seen, k);
            &&& r.1.len() == d.len()
            &&& forall|j: int| k <= j < d.len() ==> #[trigger] r.1[j]
            &&& forall|j: int| 0 <= j < d.len() && seen[j] ==> #[trigger] r.1[j]
        }),
    decreases d.len() - k,
{
    if k < d.len() {
        if seen[k] {
            lemma_append_marks_all(d, out, seen, k + 1);
        } else {
            let seen2 = seen.update(k, true);
            lemma_append_marks_all(d, out.push(setting_line(d, k)), seen2, k + 1);
            let r = append_missing(d, out, seen, k);
            assert(r.1[k]);
            assert forall|j: int| 0 <= j < d.len() && seen[j] implies #[trigger] r.1[j] by {
                assert(seen2[j]);
            }
        }
    }
}

proof fn lemma_append_nothing_missing(d: Seq<(Seq<char>, Seq<char>)>, out: Seq<Seq<char>>, seen: Seq<bool>, k: int)
    requires
        seen.len() == d.len(),
        forall|j: int| 0 <= j < d.len() ==> #[trigger] seen[j],
    ensures
        append_missing(d, out, seen, k) == (out, seen),
    decreases d.len() - k,
{
    if 0 <= k < d.len() {
        lemma_append_nothing_missing(d, out, seen, k + 1);
    }
}

/// Each step of the merge writes lines that, merged again from the state
/// it started in, lead to the state it ended in.
proof fn lemma_step_read_back(d: Seq<(Seq<char>, Seq<char>)>, st: MergeState, line: Seq<char>)
    requires
        settings_read_back(d),
        st.1.len() == d.len(),
    ensures
        ({
            let next = merge_step(d, st, line);
            &&& starts_lines(st.0, next.0)
            &&& merge_from(d, st, next.0.skip(st.0.len() as int)) == next
        }),
{
    let (out, seen, in_everything, found) = st;
    let next = merge_step(d, st, line);
    lemma_merge_step_extends(d, st, line);
    if is_section(line) {
        if in_everything {
            let closed = append_missing(d, out, seen, 0);
            lemma_append_read_back(d, out, seen, found, 0);
            lemma_append_marks_all(d, out, seen, 0);
            lemma_append_nothing_missing(d, closed.0, closed.1, 0);
            let appended = closed.0.skip(out.len() as int);
            assert(next.0.skip(out.len() as int) =~= appended + seq![line]);
            lemma_merge_from_concat(d, st, appended, seq![line]);
            lemma_merge_from_single(d, (closed.0, closed.1, true, found), line);
        } else {
            assert(next.0.skip(out.len() as int) =~= seq![line]);
            lemma_merge_from_single(d, st, line);
        }
    } else {
        let eq = find_from(line, '=', 0);
        let k = key_match(d, line.take(eq), 0);
        if in_everything && eq < line.len() && k < d.len() {
            if !seen[k] {
                lemma_key_match_range(d, line.take(eq), 0);
                let written = setting_line(d, k);
                assert(next.0.skip(out.len() as int) =~= seq![written]);
                lemma_merge_from_single(d, st, written);
                let eq2 = find_from(written, '=', 0);
                assert(!is_section(written) && eq2 < written.len() && key_match(d, written.take(eq2), 0) == k);
            } else {
                assert(next.0.skip(out.len() as int) =~= Seq::<Seq<char>>::empty());
            }
        } else {
            assert(next.0.skip(out.len() as int) =~= seq![line]);
            lemma_merge_from_single(d, st, line);
        }
    }
}

/// The lines written so far, merged again, lead to the same state.
proof fn lemma_merge_read_back(d: Seq<(Seq<char>, Seq<char>)>, lines: Seq<Seq<char>>)
    requires
        settings_read_back(d),
    ensures
        merge_from(d, merge_start(d), merge_lines(d, lines).0) == merge_lines(d, lines),
    decreases lines.len(),
{
    if lines.len() == 0 {
        assert(merge_lines(d, lines).0 =~= Seq::<Seq<char>>::empty());
        assert(merge_lines(d, lines) == merge_start(d));
    } else {
        let before = merge_lines(d, lines.drop_last());
        lemma_merge_read_back(d, lines.drop_last());
        lemma_merge_lines(d, lines.drop_last());
        lemma_step_read_back(d, before, lines.last());
        let now = merge_lines(d, lines);
        let written = now.0.skip(before.0.len() as int);
        assert(now.0 =~= before.0 + written);
        lemma_merge_from_concat(d, merge_start(d), before.0, written);
    }
}

proof fn lemma_everything_header()
    ensures
        is_section("[Everything]"@),
        eq_ignore_case(section_name("[Everything]"@), "Everything"@),
{
    reveal_strlit("[Everything]");
    reveal_strlit("Everything");
    let h = "[Everything]"@;
    assert(!white_space(h[0]));
    assert(trim_start(h) == h);
    assert(!white_space(h.last()));
    assert(trim_end(h) == h);
    assert(trimmed(h) == h);
    assert(section_body(h) == h);
    assert(section_name(h) =~= "Everything"@);
}

proof fn lemma_blank_line_kept(d: Seq<(Seq<char>, Seq<char>)>, st: MergeState)
    ensures
        merge_step(d, st, Seq::empty()) == (st.0.push(Seq::empty()), st.1, st.2, st.3),
{
    let e = Seq::<char>::empty();
    assert(trim_start(e) == e);
    assert(trim_end(e) == e);
    assert(section_body(e).len() == 0);
    assert(find_from(e, '=', 0) == 0);
}

/// Merging a merged configuration changes none of its lines, when the
/// owned settings are read back as themselves.
pub proof fn law_merged_lines_are_stable(d: Seq<(Seq<char>, Seq<char>)>, lines: Seq<Seq<char>>)
    requires
        settings_read_back(d),
    ensures
        merged_lines(d, merged_lines(d, lines)) == merged_lines(d, lines),
{
    let st = merge_lines(d, lines);
    let (out, seen, in_everything, found) = st;
    let m = merged_lines(d, lines);
    lemma_merge_lines(d, lines);
    lemma_merge_read_back(d, lines);
    lemma_merge_lines_from(d, m);
    if in_everything {
        let a = append_missing(d, out, seen, 0);
        lemma_append_read_back(d, out, seen, found, 0);
        lemma_append_marks_all(d, out, seen, 0);
        lemma_append_nothing_missing(d, a.0, a.1, 0);
        assert(m =~= out + a.0.skip(out.len() as int));
        lemma_merge_from_concat(d, merge_start(d), out, a.0.skip(out.len() as int));
        assert(merge_lines(d, m) == (a.0, a.1, true, found));
    } else if !found {
        let spaced = if out.len() > 0 && out.last().len() > 0 {
            out.push(Seq::empty())
        } else {
            out
        };
        let opened = spaced.push("[Everything]"@);
        let a = append_missing(d, opened, seen, 0);
        lemma_append_read_back(d, opened, seen, true, 0);
        lemma_append_marks_all(d, opened, seen, 0);
        lemma_append_nothing_missing(d, a.0, a.1, 0);
        lemma_everything_header();
        let header = seq!["[Everything]"@];
        let settings = a.0.skip(opened.len() as int);
        let blank: Seq<Seq<char>> = if out.len() > 0 && out.last().len() > 0 {
            seq![Seq::<char>::empty()]
        } else {
            Seq::empty()
        };
        assert(spaced =~= out + blank);
        assert(m =~= out + blank + header + settings);
        lemma_merge_from_concat(d, merge_start(d), out, blank);
        lemma_merge_from_concat(d, merge_start(d), out + blank, header);
        lemma_merge_from_concat(d, merge_start(d), out + blank + header, settings);
        if blank.len() > 0 {
            lemma_merge_from_single(d, st, Seq::empty());
            lemma_blank_line_kept(d, st);
        } else {
            assert(merge_from(d, st, blank) == st);
        }
        assert(merge_from(d, st, blank) == (spaced, seen, false, false));
        lemma_merge_from_single(d, (spaced, seen, false, false), "[Everything]"@);
        assert(merge_from(d, (spaced, seen, false, false), header) == (opened, seen, true, true));
        assert(merge_lines(d, m) == (a.0, a.1, true, true));
    } else {
        assert(m == out);
    }
}

/// A key made of lower-case ASCII letters and underscores, as the keys of
/// the owned settings are.
pub open spec fn owned_key(key: Seq<char>) -> bool {
    key.len() >= 2 && forall|i: int| 0 <= i < key.len() ==> ('a' <= #[trigger] key[i] <= 'z' || key[i] == '_')
}

proof fn lemma_trim_end_keeps(s: Seq<char>, i: int)
    requires
        0 <= i < s.len(),
        !white_space(s[i]),
    ensures
        trim_end(s).len() > i,
        trim_end(s).len() <= s.len(),
        forall|k: int| 0 <= k < trim_end(s).len() ==> #[trigger] trim_end(s)[k] == s[k],
    decreases s.len(),
{
    if s.len() > 0 && white_space(s.last()) {
        assert(i < s.len() - 1);
        lemma_trim_end_keeps(s.drop_last(), i);
        assert forall|k: int| 0 <= k < trim_end(s).len() implies #[trigger] trim_end(s)[k] == s[k] by {
            assert(s.drop_last()[k] == s[k]);
        }
    }
}

proof fn lemma_key_match_at(d: Seq<(Seq<char>, Seq<char>)>, raw: Seq<char>, j: int, k: int)
    requires
        0 <= j <= k < d.len(),
        forall|i: int| j <= i < k ==> !eq_ignore_case(trimmed(raw), #[trigger] d[i].0),
        eq_ignore_case(trimmed(raw), d[k].0),
    ensures
        key_match(d, raw, j) == k,
    decreases k - j,
{
    if j < k {
        lemma_key_match_at(d, raw, j + 1, k);
    }
}

/// Owned settings with distinct keys of lower-case letters and underscores
/// are read back as themselves.
proof fn lemma_owned_keys_read_back(d: Seq<(Seq<char>, Seq<char>)>)
    requires
        forall|k: int| 0 <= k < d.len() ==> owned_key(#[trigger] d[k].0),
        forall|i: int, j: int|
            0 <= i < j < d.len() ==> (#[trigger] d[i].0.len() != #[trigger] d[j].0.len() || d[i].0[0]
                != d[j].0[0] || d[i].0[1] != d[j].0[1]),
    ensures
        settings_read_back(d),
{
    reveal_strlit("=");
    assert forall|k: int| 0 <= k < d.len() implies {
        let line = #[trigger] setting_line(d, k);
        let eq = find_from(line, '=', 0);
        &&& !is_section(line)
        &&& eq < line.len()
        &&& key_match(d, line.take(eq), 0) == k
    } by {
        let key = d[k].0;
        let line = setting_line(d, k);
        let m = key.len() as int;
        assert(owned_key(key));
        assert(line[m] == '=');
        assert forall|i: int| 0 <= i < m implies #[trigger] line[i] != '=' by {
            assert(line[i] == key[i]);
        }
        lemma_find_from(line, '=', 0);
        let eq = find_from(line, '=', 0);
        assert(eq == m);
        assert(line.take(eq) =~= key);
        assert(!white_space(key[0]));
        assert(!white_space(key[m - 1]));
        assert(trim_start(key) == key);
        assert(trim_end(key) == key);
        assert(trimmed(key) == key);
        assert forall|i: int| 0 <= i < k implies !eq_ignore_case(trimmed(key), #[trigger] d[i].0) by {
            let other = d[i].0;
            assert(owned_key(other));
            if eq_ignore_case(key, other) {
                assert(lower_seq(key).len() == key.len());
                assert(lower_seq(other).len() == other.len());
                assert(lower_seq(key)[0] == key[0]);
                assert(lower_seq(other)[0] == other[0]);
                assert(lower_seq(key)[1] == key[1]);
                assert(lower_seq(other)[1] == other[1]);
            }
        }
        lemma_key_match_at(d, key, 0, k);
        assert(line[0] == key[0]);
        assert(trim_start(line) == line);
        lemma_trim_end_keeps(line, m);
        let t = trimmed(line);
        assert(t[0] == key[0]);
        assert(section_body(line) == t);
    }
}

/// The owned settings are read back as themselves.
proof fn lemma_desired_settings_read_back(service_pipe: Seq<char>, root: Seq<char>, fs: VolumeFileSystem)
    ensures
        settings_read_back(desired_settings(service_pipe, root, fs)),
{
    reveal_strlit("run_as_admin");
    reveal_strlit("run_in_background");
    reveal_strlit("show_in_taskbar");
    reveal_strlit("show_tray_icon");
    reveal_strlit("minimize_to_tray");
    reveal_strlit("check_for_updates_on_startup");
    reveal_strlit("beta_updates");
    reveal_strlit("alpha_instance");
    reveal_strlit("allow_multiple_instances");
    reveal_strlit("ipc_enabled");
    reveal_strlit("service_pipe_name");
    reveal_strlit("auto_include_fixed_volumes");
    reveal_strlit("auto_include_fixed_refs_volumes");
    reveal_strlit("auto_include_fixed_fat_volumes");
    reveal_strlit("ntfs_volume_paths");
    reveal_strlit("ntfs_volume_includes");
    reveal_strlit("refs_volume_paths");
    reveal_strlit("refs_volume_includes");
    reveal_strlit("fat_volume_paths");
    reveal_strlit("fat_volume_includes");
    let d = desired_settings(service_pipe, root, fs);
    lemma_desired_keys_owned(service_pipe, root, fs);
    assert forall|i: int, j: int| 0 <= i < j < d.len() implies (#[trigger] d[i].0.len() != #[trigger] d[j].0.len()
        || d[i].0[0] != d[j].0[0] || d[i].0[1] != d[j].0[1]) by {
    }
    lemma_owned_keys_read_back(d);
}

/// A line the merge can write for the existing lines: one of them, or an
/// owned setting.
pub open spec fn merge_source(d: Seq<(Seq<char>, Seq<char>)>, lines: Seq<Seq<char>>, x: Seq<char>) -> bool {
    lines.contains(x) || exists|k: int| 0 <= k < d.len() && x == #[trigger] setting_line(d, k)
}

proof fn lemma_append_sources(
    d: Seq<(Seq<char>, Seq<char>)>,
    lines: Seq<Seq<char>>,
    out: Seq<Seq<char>>,
    seen: Seq<bool>,
    k: int,
)
    requires
        forall|j: int| 0 <= j < out.len() ==> merge_source(d, lines, #[trigger] out[j]),
    ensures
        forall|j: int|
            0 <= j < append_missing(d, out, seen, k).0.len() ==> merge_source(
                d,
                lines,
                #[trigger] append_missing(d, out, seen, k).0[j],
            ),
    decreases d.len() - k,
{
    if 0 <= k < d.len() {
        if seen[k] {
            lemma_append_sources(d, lines, out, seen, k + 1);
            let r = append_missing(d, out, seen, k);
            assert(r == append_missing(d, out, seen, k + 1));
        } else {
            let out2 = out.push(setting_line(d, k));
            assert forall|j: int| 0 <= j < out2.len() implies merge_source(d, lines, #[trigger] out2[j]) by {
                if j == out.len() {
                    assert(out2[j] == setting_line(d, k));
                } else {
                    assert(out2[j] == out[j]);
                }
            }
            lemma_append_sources(d, lines, out2, seen.update(k, true), k + 1);
            let r = append_missing(d, out, seen, k);
            assert(r == append_missing(d, out2, seen.update(k, true), k + 1));
            assert forall|j: int| 0 <= j < r.0.len() implies merge_source(d, lines, #[trigger] r.0[j]) by {
                assert(r.0[j] == append_missing(d, out2, seen.update(k, true), k + 1).0[j]);
            }
        }
    } else {
        assert(append_missing(d, out, seen, k) == (out, seen));
    }
}

proof fn lemma_merge_sources(d: Seq<(Seq<char>, Seq<char>)>, lines: Seq<Seq<char>>)
    ensures
        forall|j: int|
            0 <= j < merge_lines(d, lines).0.len() ==> merge_source(d, lines, #[trigger] merge_lines(d, lines).0[j]),
        merge_lines(d, lines).3 ==> merge_lines(d, lines).0.len() > 0,
    decreases lines.len(),
{
    if lines.len() > 0 {
        let init = lines.drop_last();
        let l = lines.last();
        lemma_merge_sources(d, init);
        let st = merge_lines(d, init);
        let (out, seen, in_everything, found) = st;
        assert(lines.contains(l)) by {
            assert(lines[lines.len() - 1] == l);
        }
        assert forall|j: int| 0 <= j < out.len() implies merge_source(d, lines, #[trigger] out[j]) by {
            assert(merge_source(d, init, out[j]));
            if init.contains(out[j]) {
                let q = choose|q: int| 0 <= q < init.len() && init[q] == out[j];
                assert(lines[q] == out[j]);
            }
        }
        lemma_merge_step_extends(d, st, l);
        let next = merge_lines(d, lines);
        if is_section(l) {
            if in_everything {
                lemma_append_sources(d, lines, out, seen, 0);
                let closed = append_missing(d, out, seen, 0).0;
                assert forall|j: int| 0 <= j < next.0.len() implies merge_source(d, lines, #[trigger] next.0[j]) by {
                    if j < closed.len() {
                        assert(next.0[j] == closed[j]);
                    }
                }
            }
        } else {
            let eq = find_from(l, '=', 0);
            let k = key_match(d, l.take(eq), 0);
            if in_everything && eq < l.len() && k < d.len() {
                lemma_key_match_range(d, l.take(eq), 0);
                assert forall|j: int| 0 <= j < next.0.len() implies merge_source(d, lines, #[trigger] next.0[j]) by {
                    if j == out.len() {
                        assert(next.0[j] == setting_line(d, k));
                    } else {
                        assert(next.0[j] == out[j]);
                    }
                }
            }
        }
    }
}

/// The lines of a merged file come from the file, from the owned settings,
/// or are the blank line and the `[Everything]` header of an added section;
/// there is at least one.
proof fn lemma_merged_sources(d: Seq<(Seq<char>, Seq<char>)>, lines: Seq<Seq<char>>)
    ensures
        merged_lines(d, lines).len() > 0,
        forall|j: int|
            0 <= j < merged_lines(d, lines).len() ==> {
                let x = #[trigger] merged_lines(d, lines)[j];
                merge_source(d, lines, x) || x == Seq::<char>::empty() || x == "[Everything]"@
            },
{
    lemma_merge_sources(d, lines);
    lemma_merge_lines(d, lines);
    let (out, seen, in_everything, found) = merge_lines(d, lines);
    let m = merged_lines(d, lines);
    if in_everything {
        lemma_append_sources(d, lines, out, seen, 0);
        lemma_append_missing_extends(d, out, seen, 0);
    } else if !found {
        let spaced = if out.len() > 0 && out.last().len() > 0 {
            out.push(Seq::empty())
        } else {
            out
        };
        let opened = spaced.push("[Everything]"@);
        let weak = |x: Seq<char>| merge_source(d, lines, x) || x == Seq::<char>::empty() || x == "[Everything]"@;
        assert forall|j: int| 0 <= j < opened.len() implies weak(#[trigger] opened[j]) by {
            if j < out.len() {
                assert(opened[j] == out[j]);
            }
        }
        lemma_append_missing_extends(d, opened, seen, 0);
        lemma_append_weak_sources(d, lines, opened, seen, 0);
    }
}

proof fn lemma_append_weak_sources(
    d: Seq<(Seq<char>, Seq<char>)>,
    lines: Seq<Seq<char>>,
    out: Seq<Seq<char>>,
    seen: Seq<bool>,
    k: int,
)
    requires
        forall|j: int|
            0 <= j < out.len() ==> {
                let x = #[trigger] out[j];
                merge_source(d, lines, x) || x == Seq::<char>::empty() || x == "[Everything]"@
            },
    ensures
        forall|j: int|
            0 <= j < append_missing(d, out, seen, k).0.len() ==> {
                let x = #[trigger] append_missing(d, out, seen, k).0[j];
                merge_source(d, lines, x) || x == Seq::<char>::empty() || x == "[Everything]"@
            },
    decreases d.len() - k,
{
    if 0 <= k < d.len() {
        if seen[k] {
            lemma_append_weak_sources(d, lines, out, seen, k + 1);
            let r = append_missing(d, out, seen, k);
            assert(r == append_missing(d, out, seen, k + 1));
        } else {
            let out2 = out.push(setting_line(d, k));
            assert forall|j: int| 0 <= j < out2.len() implies {
                let x = #[trigger] out2[j];
                merge_source(d, lines, x) || x == Seq::<char>::empty() || x == "[Everything]"@
            } by {
                if j == out.len() {
                    assert(out2[j] == setting_line(d, k));
                } else {
                    assert(out2[j] == out[j]);
                }
            }
            lemma_append_weak_sources(d, lines, out2, seen.update(k, true), k + 1);
            let r = append_missing(d, out, seen, k);
            let r2 = append_missing(d, out2, seen.update(k, true), k + 1);
            assert(r == r2);
            assert forall|j: int| 0 <= j < r.0.len() implies {
                let x = #[trigger] r.0[j];
                merge_source(d, lines, x) || x == Seq::<char>::empty() || x == "[Everything]"@
            } by {
                assert(r.0[j] == r2.0[j]);
            }
        }
    } else {
        assert(append_missing(d, out, seen, k) == (out, seen));
    }
}

/// The values of the owned settings: `0`, `1`, the service pipe, the
/// volume's root, or nothing.
proof fn lemma_desired_values(service_pipe: Seq<char>, root: Seq<char>, fs: VolumeFileSystem)
    ensures
        desired_settings(service_pipe, root, fs).len() == 20,
        forall|k: int|
            0 <= k < 20 ==> {
                let v = (#[trigger] desired_settings(service_pipe, root, fs)[k]).1;
                v == "0"@ || v == "1"@ || v == service_pipe || v == root || v.len() == 0
            },
{
    let d = desired_settings(service_pipe, root, fs);
    assert forall|k: int| 0 <= k < 20 implies {
        let v = (#[trigger] d[k]).1;
        v == "0"@ || v == "1"@ || v == service_pipe || v == root || v.len() == 0
    } by {
        if k == 0 {} else if k == 1 {} else if k == 2 {} else if k == 3 {} else if k == 4 {}
        else if k == 5 {} else if k == 6 {} else if k == 7 {} else if k == 8 {} else if k == 9 {}
        else if k == 10 {} else if k == 11 {} else if k == 12 {} else if k == 13 {} else if k == 14 {}
        else if k == 15 {} else if k == 16 {} else if k == 17 {} else if k == 18 {} else {}
    }
}

/// The configuration file is stable: merging the merged file again gives
/// it back unchanged, so that the engine's file is written once. This
/// holds unless a line ending is read back otherwise than it was written:
/// a line feed inside the service pipe or the volume's root, or, in a file
/// without CRLF, a carriage return ending the file, the service pipe or
/// the root.
pub proof fn law_merge_is_stable(existing: Seq<char>, service_pipe: Seq<char>, root: Seq<char>, fs: VolumeFileSystem)
    requires
        !service_pipe.contains('\n'),
        !root.contains('\n'),
        !contains_seq(existing, "\r\n"@) ==> {
            &&& (existing.len() == 0 || existing.last() != '\r')
            &&& (service_pipe.len() == 0 || service_pipe.last() != '\r')
            &&& (root.len() == 0 || root.last() != '\r')
        },
    ensures
        merged_config(merged_config(existing, service_pipe, root, fs), service_pipe, root, fs)
            == merged_config(existing, service_pipe, root, fs),
{
    reveal_strlit("\n");
    reveal_strlit("\r\n");
    reveal_strlit("0");
    reveal_strlit("1");
    reveal_strlit("=");
    reveal_strlit("[Everything]");
    let d = desired_settings(service_pipe, root, fs);
    let nl = config_newline(existing);
    let lines = lines_of(existing);
    let m = merged_lines(d, lines);
    lemma_merged_sources(d, lines);
    lemma_lines_from_fit(existing, 0);
    lemma_desired_values(service_pipe, root, fs);
    lemma_desired_settings_read_back(service_pipe, root, fs);
    lemma_desired_keys_owned(service_pipe, root, fs);
    assert forall|j: int| 0 <= j < m.len() implies line_fits(#[trigger] m[j], nl) by {
        let x = m[j];
        if lines.contains(x) {
            let q = choose|q: int| 0 <= q < lines.len() && lines[q] == x;
            assert(line_fits(lines[q], "\r\n"@));
            if nl == "\n"@ {
                assert(line_fits(lines[q], "\n"@));
            }
        } else if exists|k: int| 0 <= k < d.len() && x == #[trigger] setting_line(d, k) {
            let k = choose|k: int| 0 <= k < d.len() && x == #[trigger] setting_line(d, k);
            let key = d[k].0;
            let v = d[k].1;
            assert(owned_key(key));
            assert(x =~= key + "="@ + v);
            assert(!x.contains('\n')) by {
                if x.contains('\n') {
                    let i = choose|i: int| 0 <= i < x.len() && x[i] == '\n';
                    if i < key.len() {
                        assert(x[i] == key[i]);
                    } else if i > key.len() {
                        assert(x[i] == v[i - key.len() - 1]);
                        assert(v.contains('\n'));
                    }
                }
            }
            if nl == "\n"@ {
                if v.len() > 0 {
                    assert(x.last() == v.last());
                } else {
                    assert(x.last() == '=');
                }
            }
        } else if x == Seq::<char>::empty() {
        } else {
            assert(x == "[Everything]"@);
            assert(x.last() == ']');
            assert(!x.contains('\n')) by {
                if x.contains('\n') {
                    let i = choose|i: int| 0 <= i < x.len() && x[i] == '\n';
                }
            }
        }
    }
    lemma_join_lines_text(m, nl);
    let t = merged_config(existing, service_pipe, root, fs);
    assert(t == lines_text(m, nl));
    lemma_lines_of_lines_text(m, nl);
    if nl == "\r\n"@ {
        let a = lines_text(m.drop_last(), nl) + m.last();
        assert(t =~= a + "\r\n"@);
        assert(occurs_at(t, "\r\n"@, t.len() - 2)) by {
            assert(t.subrange(t.len() - 2, t.len() as int) =~= "\r\n"@);
        }
        assert(config_newline(t) == nl);
    } else {
        lemma_lines_text_lf(m);
        assert(config_newline(t) == nl);
    }
    law_merged_lines_are_stable(d, lines);
}

/// The keys of the owned settings are made of lower-case letters and
/// underscores.
proof fn lemma_desired_keys_owned(service_pipe: Seq<char>, root: Seq<char>, fs: VolumeFileSystem)
    ensures
        forall|k: int|
            0 <= k < desired_settings(service_pipe, root, fs).len() ==> owned_key(
                #[trigger] desired_settings(service_pipe, root, fs)[k].0,
            ),
{
    reveal_strlit("run_as_admin");
    reveal_strlit("run_in_background");
    reveal_strlit("show_in_taskbar");
    reveal_strlit("show_tray_icon");
    reveal_strlit("minimize_to_tray");
    reveal_strlit("check_for_updates_on_startup");
    reveal_strlit("beta_updates");
    reveal_strlit("alpha_instance");
    reveal_strlit("allow_multiple_instances");
    reveal_strlit("ipc_enabled");
    reveal_strlit("service_pipe_name");
    reveal_strlit("auto_include_fixed_volumes");
    reveal_strlit("auto_include_fixed_refs_volumes");
    reveal_strlit("auto_include_fixed_fat_volumes");
    reveal_strlit("ntfs_volume_paths");
    reveal_strlit("ntfs_volume_includes");
    reveal_strlit("refs_volume_paths");
    reveal_strlit("refs_volume_includes");
    reveal_strlit("fat_volume_paths");
    reveal_strlit("fat_volume_includes");
    let d = desired_settings(service_pipe, root, fs);
    assert forall|k: int| 0 <= k < d.len() implies owned_key(#[trigger] d[k].0) by {
        if k == 0 {} else if k == 1 {} else if k == 2 {} else if k == 3 {} else if k == 4 {}
        else if k == 5 {} else if k == 6 {} else if k == 7 {} else if k == 8 {} else if k == 9 {}
        else if k == 10 {} else if k == 11 {} else if k == 12 {} else if k == 13 {} else if k == 14 {}
        else if k == 15 {} else if k == 16 {} else if k == 17 {} else if k == 18 {} else {}
    }
}

/// The character sequences of a list of character vectors.
pub open spec fn lines_view(v: Seq<Vec<char>>) -> Seq<Seq<char>> {
    v.map_values(|l: Vec<char>| l@)
}

/// The character sequences of a list of key/value vector pairs.
pub open spec fn pairs_view(v: Seq<(Vec<char>, Vec<char>)>) -> Seq<(Seq<char>, Seq<char>)> {
    v.map_values(|p: (Vec<char>, Vec<char>)| (p.0@, p.1@))
}

fn push_pair(d: &mut Vec<(Vec<char>, Vec<char>)>, key: &str, value: Vec<char>)
    ensures
        pairs_view(final(d)@) == pairs_view(old(d)@).push((key@, value@)),
{
    d.push((chars_of(key), value));
    proof {
        assert(pairs_view(d@) =~= pairs_view(old(d)@).push((key@, value@)));
    }
}

/// The owned settings, as character vectors.
fn desired_pairs(service_pipe: &str, volume: &IndexedVolume) -> (d: Vec<(Vec<char>, Vec<char>)>)
    ensures
        pairs_view(d@) == desired_settings(service_pipe@, volume.root@, volume.file_system),
{
    let (ntfs_paths, ntfs_includes) = volume_config(volume, VolumeFileSystem::Ntfs);
    let (refs_paths, refs_includes) = volume_config(volume, VolumeFileSystem::Refs);
    let (fat_paths, fat_includes) = volume_config(volume, VolumeFileSystem::Fat);
    let mut d: Vec<(Vec<char>, Vec<char>)> = Vec::new();
    push_pair(&mut d, "run_as_admin", chars_of("0"));
    push_pair(&mut d, "run_in_background", chars_of("1"));
    push_pair(&mut d, "show_in_taskbar", chars_of("0"));
    push_pair(&mut d, "show_tray_icon", chars_of("0"));
    push_pair(&mut d, "minimize_to_tray", chars_of("0"));
    push_pair(&mut d, "check_for_updates_on_startup", chars_of("0"));
    push_pair(&mut d, "beta_updates", chars_of("0"));
    push_pair(&mut d, "alpha_instance", chars_of("0"));
    push_pair(&mut d, "allow_multiple_instances", chars_of("0"));
    push_pair(&mut d, "ipc_enabled", chars_of("1"));
    push_pair(&mut d, "service_pipe_name", chars_of(service_pipe));
    push_pair(&mut d, "auto_include_fixed_volumes", chars_of("0"));
    push_pair(&mut d, "auto_include_fixed_refs_volumes", chars_of("0"));
    push_pair(&mut d, "auto_include_fixed_fat_volumes", chars_of("0"));
    push_pair(&mut d, "ntfs_volume_paths", chars_of(ntfs_paths.as_str()));
    push_pair(&mut d, "ntfs_volume_includes", chars_of(ntfs_includes.as_str()));
    push_pair(&mut d, "refs_volume_paths", chars_of(refs_paths.as_str()));
    push_pair(&mut d, "refs_volume_includes", chars_of(refs_includes.as_str()));
    push_pair(&mut d, "fat_volume_paths", chars_of(fat_paths.as_str()));
    push_pair(&mut d, "fat_volume_includes", chars_of(fat_includes.as_str()));
    proof {
        assert(pairs_view(d@) =~= desired_settings(service_pipe@, volume.root@, volume.file_system));
    }
    d
}

/// The `key=value` line of the `k`-th owned setting.
fn setting_line_chars(d: &Vec<(Vec<char>, Vec<char>)>, k: usize) -> (line: Vec<char>)
    requires
        k < d@.len(),
    ensures
        line@ == setting_line(pairs_view(d@), k as int),
{
    let mut line = Vec::new();
    push_chars(&mut line, &d[k].0);
    line.push('=');
    push_chars(&mut line, &d[k].1);
    proof {
        reveal_strlit("=");
        assert(line@ =~= setting_line(pairs_view(d@), k as int));
    }
    line
}

/// Writes the owned settings that were not written yet.
fn append_missing_settings(d: &Vec<(Vec<char>, Vec<char>)>, out: &mut Vec<Vec<char>>, seen: &mut Vec<bool>)
    requires
        old(seen)@.len() == d@.len(),
    ensures
        final(seen)@.len() == d@.len(),
        (lines_view(final(out)@), final(seen)@) == append_missing(
            pairs_view(d@),
            lines_view(old(out)@),
            old(seen)@,
            0,
        ),
{
    let ghost target = append_missing(pairs_view(d@), lines_view(out@), seen@, 0);
    let mut k: usize = 0;
    while k < d.len()
        invariant
            0 <= k <= d@.len(),
            seen@.len() == d@.len(),
            target == append_missing(pairs_view(d@), lines_view(out@), seen@, k as int),
        decreases d@.len() - k,
    {
        if !seen[k] {
            let line = setting_line_chars(d, k);
            proof {
                assert(lines_view(out@.push(line)) =~= lines_view(out@).push(line@));
            }
            out.push(line);
            seen.set(k, true);
        }
        k = k + 1;
    }
}


/// The trimmed line without a leading byte order mark.
fn section_body_chars(line: &[char]) -> (b: Vec<char>)
    ensures
        b@ == section_body(line@),
{
    let t = trim_chars(line);
    if t.len() > 0 && t[0] == '\u{feff}' {
        let n = t.len();
        let b = sub_chars(&t, 1, n);
        proof {
            assert(b@ == t@.drop_first());
        }
        b
    } else {
        t
    }
}

/// The first owned setting whose key matches `raw_key`, or the count of settings.
fn key_match_index(d: &Vec<(Vec<char>, Vec<char>)>, raw_key: &[char]) -> (k: usize)
    ensures
        k == key_match(pairs_view(d@), raw_key@, 0),
{
    let key = trim_chars(raw_key);
    let mut k: usize = 0;
    while k < d.len()
        invariant
            0 <= k <= d@.len(),
            key@ == trimmed(raw_key@),
            key_match(pairs_view(d@), raw_key@, 0) == key_match(pairs_view(d@), raw_key@, k as int),
        decreases d@.len() - k,
    {
        if chars_eq_ignore_case(&key, &d[k].0) {
            return k;
        }
        k = k + 1;
    }
    k
}

/// Merges the settings that the library owns into an engine configuration
/// file, keeping every other section, key and line.
pub fn merge_config(existing: &str, service_pipe: &str, volume: &IndexedVolume) -> (merged: String)
    ensures
        merged@ == merged_config(existing@, service_pipe@, volume.root@, volume.file_system),
{
    let d = desired_pairs(service_pipe, volume);
    let ghost dv = pairs_view(d@);
    let text = chars_of(existing);
    let crlf = chars_of("\r\n");
    let newline = if chars_contain(&text, &crlf) {
        crlf
    } else {
        chars_of("\n")
    };
    let lines = split_lines(&text);
    let ghost lv = lines_view(lines@);
    let mut output: Vec<Vec<char>> = Vec::new();
    let mut seen: Vec<bool> = Vec::new();
    let mut k: usize = 0;
    while k < d.len()
        invariant
            0 <= k <= d@.len(),
            seen@ == Seq::new(k as nat, |i: int| false),
        decreases d@.len() - k,
    {
        seen.push(false);
        k = k + 1;
        proof {
            assert(seen@ =~= Seq::new(k as nat, |i: int| false));
        }
    }
    let mut in_everything = false;
    let mut found_everything = false;
    let everything = chars_of("Everything");
    let mut i: usize = 0;
    proof {
        assert(lv.take(0) =~= Seq::<Seq<char>>::empty());
        assert(lines_view(output@) =~= Seq::<Seq<char>>::empty());
    }
    while i < lines.len()
        invariant
            0 <= i <= lines@.len(),
            dv == pairs_view(d@),
            lv == lines_view(lines@),
            lv == lines_of(existing@),
            seen@.len() == d@.len(),
            everything@ == "Everything"@,
            (lines_view(output@), seen@, in_everything, found_everything) == merge_lines(
                dv,
                lv.take(i as int),
            ),
        decreases lines@.len() - i,
    {
        let line = &lines[i];
        proof {
            assert(lv.take(i as int + 1).drop_last() == lv.take(i as int));
            assert(lv.take(i as int + 1).last() == line@);
            assert(lv[i as int] == line@);
        }
        let body = section_body_chars(line);
        let n = body.len();
        if n >= 2 && body[0] == '[' && body[n - 1] == ']' {
            if in_everything {
                append_missing_settings(&d, &mut output, &mut seen);
            }
            let name = sub_chars(&body, 1, n - 1);
            in_everything = chars_eq_ignore_case(&name, &everything);
            found_everything = found_everything || in_everything;
            let kept = copy_chars(line);
            proof {
                assert(lines_view(output@.push(kept)) =~= lines_view(output@).push(line@));
            }
            output.push(kept);
        } else {
            let eq = find_char_from(line, '=', 0);
            proof {
                lemma_find_from(line@, '=', 0);
            }
            let raw_key = sub_chars(line, 0, eq);
            proof {
                assert(raw_key@ == line@.take(eq as int));
            }
            let key = key_match_index(&d, &raw_key);
            if in_everything && eq < line.len() && key < d.len() {
                if !seen[key] {
                    let setting = setting_line_chars(&d, key);
                    proof {
                        assert(lines_view(output@.push(setting)) =~= lines_view(output@).push(setting@));
                    }
                    output.push(setting);
                    seen.set(key, true);
                }
            } else {
                let kept = copy_chars(line);
                proof {
                    assert(lines_view(output@.push(kept)) =~= lines_view(output@).push(line@));
                }
                output.push(kept);
            }
        }
        i = i + 1;
    }
    proof {
        assert(lv.take(lines@.len() as int) == lv);
    }
    if in_everything {
        append_missing_settings(&d, &mut output, &mut seen);
    } else if !found_everything {
        let m = output.len();
        if m > 0 && output[m - 1].len() > 0 {
            let blank: Vec<char> = Vec::new();
            proof {
                assert(lines_view(output@.push(blank)) =~= lines_view(output@).push(Seq::empty()));
            }
            output.push(blank);
        }
        let header = chars_of("[Everything]");
        proof {
            assert(lines_view(output@.push(header)) =~= lines_view(output@).push(header@));
        }
        output.push(header);
        append_missing_settings(&d, &mut output, &mut seen);
    }
    let mut joined = join_chars(&output, &newline);
    push_chars(&mut joined, &newline);
    string_of(&joined)
}

/// A copy of a character vector.
fn copy_chars(v: &Vec<char>) -> (c: Vec<char>)
    ensures
        c@ == v@,
{
    let n = v.len();
    let c = sub_chars(v, 0, n);
    proof {
        assert(v@.subrange(0, n as int) == v@);
    }
    c
}


/// The views of a list of strings.
pub open spec fn strings_view(v: Seq<String>) -> Seq<Seq<char>> {
    v.map_values(|s: String| s@)
}

fn push_string(v: &mut Vec<String>, s: &str)
    ensures
        strings_view(final(v)@) == strings_view(old(v)@).push(s@),
{
    v.push(String::from_str(s));
    proof {
        assert(strings_view(v@) =~= strings_view(old(v)@).push(s@));
    }
}

/// The arguments that start an engine: its instance (none for the default
/// one), then first-instance, startup, configuration and database options.
pub open spec fn engine_argument_list(instance_name: Seq<char>, config: Seq<char>, database: Seq<char>) -> Seq<
    Seq<char>,
> {
    let instance = if instance_name.len() == 0 {
        Seq::<Seq<char>>::empty()
    } else {
        seq!["-instance"@, instance_name]
    };
    instance + seq!["-first-instance"@, "-startup"@, "-config"@, config, "-db"@, database]
}

/// The command-line arguments of an engine process.
pub fn engine_arguments(instance_name: &str, config: &str, database: &str) -> (args: Vec<String>)
    ensures
        strings_view(args@) == engine_argument_list(instance_name@, config@, database@),
{
    let mut args: Vec<String> = Vec::new();
    if !instance_name.is_empty() {
        push_string(&mut args, "-instance");
        push_string(&mut args, instance_name);
    }
    push_string(&mut args, "-first-instance");
    push_string(&mut args, "-startup");
    push_string(&mut args, "-config");
    push_string(&mut args, config);
    push_string(&mut args, "-db");
    push_string(&mut args, database);
    proof {
        assert(strings_view(args@) =~= engine_argument_list(instance_name@, config@, database@));
    }
    args
}

/// The arguments that ask a running engine to quit.
pub fn shutdown_arguments(instance_name: &str) -> (args: Vec<String>)
    ensures
        strings_view(args@) == (if instance_name@.len() == 0 {
            Seq::<Seq<char>>::empty()
        } else {
            seq!["-instance"@, instance_name@]
        }) + seq!["-quit"@],
{
    let mut args: Vec<String> = Vec::new();
    if !instance_name.is_empty() {
        push_string(&mut args, "-instance");
        push_string(&mut args, instance_name);
    }
    push_string(&mut args, "-quit");
    proof {
        assert(strings_view(args@) =~= (if instance_name@.len() == 0 {
            Seq::<Seq<char>>::empty()
        } else {
            seq!["-instance"@, instance_name@]
        }) + seq!["-quit"@]);
    }
    args
}

/// The file system that a volume reports, by name, when an engine can index it.
pub open spec fn file_system_of(name: Seq<char>) -> Option<VolumeFileSystem> {
    let upper = upper_seq(name);
    if upper == "NTFS"@ {
        Some(VolumeFileSystem::Ntfs)
    } else if upper == "REFS"@ {
        Some(VolumeFileSystem::Refs)
    } else if upper == "FAT"@ || upper == "FAT32"@ || upper == "EXFAT"@ {
        Some(VolumeFileSystem::Fat)
    } else {
        None
    }
}

/// Classifies a file-system name, ignoring ASCII case.
pub fn file_system_from_name(name: &str) -> (fs: Option<VolumeFileSystem>)
    ensures
        fs == file_system_of(name@),
{
    let upper = upper_chars(&chars_of(name));
    if chars_eq(&upper, &chars_of("NTFS")) {
        Some(VolumeFileSystem::Ntfs)
    } else if chars_eq(&upper, &chars_of("REFS")) {
        Some(VolumeFileSystem::Refs)
    } else if chars_eq(&upper, &chars_of("FAT")) || chars_eq(&upper, &chars_of("FAT32")) || chars_eq(
        &upper,
        &chars_of("EXFAT"),
    ) {
        Some(VolumeFileSystem::Fat)
    } else {
        None
    }
}

/// The root of a drive by its index in the logical drive mask: `A:` for 0.
pub fn drive_root(drive_index: u32) -> (root: String)
    requires
        drive_index < 26,
    ensures
        root@ == seq![((65 + drive_index) as u8) as char, ':'],
{
    let mut root = Vec::new();
    root.push(((65 + drive_index) as u8) as char);
    root.push(':');
    string_of(&root)
}

/// The text to write to the configuration file: the merged configuration,
/// or nothing when the file already holds it.
pub fn config_update(existing: &str, service_pipe: &str, volume: &IndexedVolume) -> (update: Option<String>)
    ensures
        merged_config(existing@, service_pipe@, volume.root@, volume.file_system) == existing@ ==> update is None,
        merged_config(existing@, service_pipe@, volume.root@, volume.file_system) != existing@ ==> (update matches Some(
            text,
        ) && text@ == merged_config(existing@, service_pipe@, volume.root@, volume.file_system)),
{
    let merged = merge_config(existing, service_pipe, volume);
    if chars_eq(&chars_of(merged.as_str()), &chars_of(existing)) {
        None
    } else {
        Some(merged)
    }
}

/// The pipes of an engine: the client pipe is `\\.\PIPE\Everything IPC`
/// for the default instance and `\\.\PIPE\Everything IPC (name)` for a
/// named one; the service pipe is `\\.\PIPE\Everything Service (name)`,
/// with `EverythingNext` for the default instance. Engine storage folders
/// are named `instance-` and the hash.
pub proof fn law_engine_pipes_are_named_after_the_instance(name: Seq<char>)
    ensures
        ipc_pipe(Seq::empty()) == seq!['\u{5c}', '\u{5c}', '.', '\u{5c}', 'P', 'I', 'P', 'E', '\u{5c}', 'E', 'v', 'e', 'r', 'y', 't', 'h', 'i', 'n', 'g', ' ', 'I', 'P', 'C'],
        name.len() > 0 ==> ipc_pipe(name) == seq!['\u{5c}', '\u{5c}', '.', '\u{5c}', 'P', 'I', 'P', 'E', '\u{5c}', 'E', 'v', 'e', 'r', 'y', 't', 'h', 'i', 'n', 'g', ' ', 'I', 'P', 'C', ' ', '('] + name + seq![')'],
        service_pipe(Seq::empty()) == seq!['\u{5c}', '\u{5c}', '.', '\u{5c}', 'P', 'I', 'P', 'E', '\u{5c}', 'E', 'v', 'e', 'r', 'y', 't', 'h', 'i', 'n', 'g', ' ', 'S', 'e', 'r', 'v', 'i', 'c', 'e', ' ', '(', 'E', 'v', 'e', 'r', 'y', 't', 'h', 'i', 'n', 'g', 'N', 'e', 'x', 't', ')'],
        name.len() > 0 ==> service_pipe(name) == seq!['\u{5c}', '\u{5c}', '.', '\u{5c}', 'P', 'I', 'P', 'E', '\u{5c}', 'E', 'v', 'e', 'r', 'y', 't', 'h', 'i', 'n', 'g', ' ', 'S', 'e', 'r', 'v', 'i', 'c', 'e', ' ', '('] + name + seq![')'],
        storage_key(name).take(9) == seq!['i', 'n', 's', 't', 'a', 'n', 'c', 'e', '-'],
{
    reveal_strlit("\\\\.\\PIPE\\Everything IPC");
    reveal_strlit("\\\\.\\PIPE\\Everything IPC (");
    reveal_strlit("\\\\.\\PIPE\\Everything Service (");
    reveal_strlit(")");
    reveal_strlit("EverythingNext");
    reveal_strlit("instance-");
    assert("\\\\.\\PIPE\\Everything IPC"@ =~= seq!['\u{5c}', '\u{5c}', '.', '\u{5c}', 'P', 'I', 'P', 'E', '\u{5c}', 'E', 'v', 'e', 'r', 'y', 't', 'h', 'i', 'n', 'g', ' ', 'I', 'P', 'C']);
    assert("\\\\.\\PIPE\\Everything IPC ("@ =~= seq!['\u{5c}', '\u{5c}', '.', '\u{5c}', 'P', 'I', 'P', 'E', '\u{5c}', 'E', 'v', 'e', 'r', 'y', 't', 'h', 'i', 'n', 'g', ' ', 'I', 'P', 'C', ' ', '(']);
    assert("\\\\.\\PIPE\\Everything Service ("@ =~= seq!['\u{5c}', '\u{5c}', '.', '\u{5c}', 'P', 'I', 'P', 'E', '\u{5c}', 'E', 'v', 'e', 'r', 'y', 't', 'h', 'i', 'n', 'g', ' ', 'S', 'e', 'r', 'v', 'i', 'c', 'e', ' ', '(']);
    assert(")"@ =~= seq![')']);
    assert(DEFAULT_SERVICE_INSTANCE_NAME@ =~= seq!['E', 'v', 'e', 'r', 'y', 't', 'h', 'i', 'n', 'g', 'N', 'e', 'x', 't']);
    assert(seq!['\u{5c}', '\u{5c}', '.', '\u{5c}', 'P', 'I', 'P', 'E', '\u{5c}', 'E', 'v', 'e', 'r', 'y', 't', 'h', 'i', 'n', 'g', ' ', 'S', 'e', 'r', 'v', 'i', 'c', 'e', ' ', '('] + seq!['E', 'v', 'e', 'r', 'y', 't', 'h', 'i', 'n', 'g', 'N', 'e', 'x', 't'] + seq![')'] =~= seq!['\u{5c}', '\u{5c}', '.', '\u{5c}', 'P', 'I', 'P', 'E', '\u{5c}', 'E', 'v', 'e', 'r', 'y', 't', 'h', 'i', 'n', 'g', ' ', 'S', 'e', 'r', 'v', 'i', 'c', 'e', ' ', '(', 'E', 'v', 'e', 'r', 'y', 't', 'h', 'i', 'n', 'g', 'N', 'e', 'x', 't', ')']);
    assert("instance-"@ =~= seq!['i', 'n', 's', 't', 'a', 'n', 'c', 'e', '-']);
    let h = hex_fixed(fnv1a(encode_utf8(name)) as nat, 16);
    assert((seq!['i', 'n', 's', 't', 'a', 'n', 'c', 'e', '-'] + h).take(9) =~= seq!['i', 'n', 's', 't', 'a', 'n', 'c', 'e', '-']);
}

/// Of the ASCII characters, an engine instance name may only hold letters,
/// digits, `.`, `_` and `-`; the empty name is refused.
pub proof fn law_instance_names_are_plain_ascii(c: char)
    requires
        c <= '\u{7f}',
    ensures
        ('0' <= c <= '9' || 'A' <= c <= 'Z' || 'a' <= c <= 'z' || c == '.' || c == '_' || c == '-') ==> valid_instance(
            seq![c],
        ),
        !('0' <= c <= '9' || 'A' <= c <= 'Z' || 'a' <= c <= 'z' || c == '.' || c == '_' || c == '-') ==> !valid_instance(
            seq![c],
        ),
        !valid_instance(Seq::empty()),
{
    let s = seq![c];
    assert(is_ascii_chars(s));
    is_ascii_chars_encode_utf8(s);
    assert(encode_utf8(s).len() == 1 && encode_utf8(s)[0] == c as u8);
    assert(encode_utf8(Seq::<char>::empty()) =~= Seq::<u8>::empty());
}

/// The settings an engine is given: run in the background without a
/// window, a taskbar button or a tray icon, as one instance, without
/// administrator rights and without updates; IPC on, under the service
/// pipe; no automatic volumes; and its own volume alone included, under
/// the setting pair of its file system, the other pairs left empty.
pub proof fn law_engines_are_configured_for_one_volume(service_pipe: Seq<char>, root: Seq<char>, fs: VolumeFileSystem)
    ensures
        desired_settings(service_pipe, root, fs) == seq![
            (seq!['r', 'u', 'n', '_', 'a', 's', '_', 'a', 'd', 'm', 'i', 'n'], seq!['0']),
            (seq!['r', 'u', 'n', '_', 'i', 'n', '_', 'b', 'a', 'c', 'k', 'g', 'r', 'o', 'u', 'n', 'd'], seq!['1']),
            (seq!['s', 'h', 'o', 'w', '_', 'i', 'n', '_', 't', 'a', 's', 'k', 'b', 'a', 'r'], seq!['0']),
            (seq!['s', 'h', 'o', 'w', '_', 't', 'r', 'a', 'y', '_', 'i', 'c', 'o', 'n'], seq!['0']),
            (seq!['m', 'i', 'n', 'i', 'm', 'i', 'z', 'e', '_', 't', 'o', '_', 't', 'r', 'a', 'y'], seq!['0']),
            (seq!['c', 'h', 'e', 'c', 'k', '_', 'f', 'o', 'r', '_', 'u', 'p', 'd', 'a', 't', 'e', 's', '_', 'o', 'n', '_', 's', 't', 'a', 'r', 't', 'u', 'p'], seq!['0']),
            (seq!['b', 'e', 't', 'a', '_', 'u', 'p', 'd', 'a', 't', 'e', 's'], seq!['0']),
            (seq!['a', 'l', 'p', 'h', 'a', '_', 'i', 'n', 's', 't', 'a', 'n', 'c', 'e'], seq!['0']),
            (seq!['a', 'l', 'l', 'o', 'w', '_', 'm', 'u', 'l', 't', 'i', 'p', 'l', 'e', '_', 'i', 'n', 's', 't', 'a', 'n', 'c', 'e', 's'], seq!['0']),
            (seq!['i', 'p', 'c', '_', 'e', 'n', 'a', 'b', 'l', 'e', 'd'], seq!['1']),
            (seq!['s', 'e', 'r', 'v', 'i', 'c', 'e', '_', 'p', 'i', 'p', 'e', '_', 'n', 'a', 'm', 'e'], service_pipe),
            (seq!['a', 'u', 't', 'o', '_', 'i', 'n', 'c', 'l', 'u', 'd', 'e', '_', 'f', 'i', 'x', 'e', 'd', '_', 'v', 'o', 'l', 'u', 'm', 'e', 's'], seq!['0']),
            (seq!['a', 'u', 't', 'o', '_', 'i', 'n', 'c', 'l', 'u', 'd', 'e', '_', 'f', 'i', 'x', 'e', 'd', '_', 'r', 'e', 'f', 's', '_', 'v', 'o', 'l', 'u', 'm', 'e', 's'], seq!['0']),
            (seq!['a', 'u', 't', 'o', '_', 'i', 'n', 'c', 'l', 'u', 'd', 'e', '_', 'f', 'i', 'x', 'e', 'd', '_', 'f', 'a', 't', '_', 'v', 'o', 'l', 'u', 'm', 'e', 's'], seq!['0']),
            (seq!['n', 't', 'f', 's', '_', 'v', 'o', 'l', 'u', 'm', 'e', '_', 'p', 'a', 't', 'h', 's'], if fs == VolumeFileSystem::Ntfs { root } else { Seq::<char>::empty() }),
            (seq!['n', 't', 'f', 's', '_', 'v', 'o', 'l', 'u', 'm', 'e', '_', 'i', 'n', 'c', 'l', 'u', 'd', 'e', 's'], if fs == VolumeFileSystem::Ntfs { seq!['1'] } else { Seq::<char>::empty() }),
            (seq!['r', 'e', 'f', 's', '_', 'v', 'o', 'l', 'u', 'm', 'e', '_', 'p', 'a', 't', 'h', 's'], if fs == VolumeFileSystem::Refs { root } else { Seq::<char>::empty() }),
            (seq!['r', 'e', 'f', 's', '_', 'v', 'o', 'l', 'u', 'm', 'e', '_', 'i', 'n', 'c', 'l', 'u', 'd', 'e', 's'], if fs == VolumeFileSystem::Refs { seq!['1'] } else { Seq::<char>::empty() }),
            (seq!['f', 'a', 't', '_', 'v', 'o', 'l', 'u', 'm', 'e', '_', 'p', 'a', 't', 'h', 's'], if fs == VolumeFileSystem::Fat { root } else { Seq::<char>::empty() }),
            (seq!['f', 'a', 't', '_', 'v', 'o', 'l', 'u', 'm', 'e', '_', 'i', 'n', 'c', 'l', 'u', 'd', 'e', 's'], if fs == VolumeFileSystem::Fat { seq!['1'] } else { Seq::<char>::empty() }),
        ],
{
    reveal_strlit("0");
    reveal_strlit("1");
    reveal_strlit("allow_multiple_instances");
    reveal_strlit("alpha_instance");
    reveal_strlit("auto_include_fixed_fat_volumes");
    reveal_strlit("auto_include_fixed_refs_volumes");
    reveal_strlit("auto_include_fixed_volumes");
    reveal_strlit("beta_updates");
    reveal_strlit("check_for_updates_on_startup");
    reveal_strlit("fat_volume_includes");
    reveal_strlit("fat_volume_paths");
    reveal_strlit("ipc_enabled");
    reveal_strlit("minimize_to_tray");
    reveal_strlit("ntfs_volume_includes");
    reveal_strlit("ntfs_volume_paths");
    reveal_strlit("refs_volume_includes");
    reveal_strlit("refs_volume_paths");
    reveal_strlit("run_as_admin");
    reveal_strlit("run_in_background");
    reveal_strlit("service_pipe_name");
    reveal_strlit("show_in_taskbar");
    reveal_strlit("show_tray_icon");
    assert("0"@ =~= seq!['0']);
    assert("1"@ =~= seq!['1']);
    assert("allow_multiple_instances"@ =~= seq!['a', 'l', 'l', 'o', 'w', '_', 'm', 'u', 'l', 't', 'i', 'p', 'l', 'e', '_', 'i', 'n', 's', 't', 'a', 'n', 'c', 'e', 's']);
    assert("alpha_instance"@ =~= seq!['a', 'l', 'p', 'h', 'a', '_', 'i', 'n', 's', 't', 'a', 'n', 'c', 'e']);
    assert("auto_include_fixed_fat_volumes"@ =~= seq!['a', 'u', 't', 'o', '_', 'i', 'n', 'c', 'l', 'u', 'd', 'e', '_', 'f', 'i', 'x', 'e', 'd', '_', 'f', 'a', 't', '_', 'v', 'o', 'l', 'u', 'm', 'e', 's']);
    assert("auto_include_fixed_refs_volumes"@ =~= seq!['a', 'u', 't', 'o', '_', 'i', 'n', 'c', 'l', 'u', 'd', 'e', '_', 'f', 'i', 'x', 'e', 'd', '_', 'r', 'e', 'f', 's', '_', 'v', 'o', 'l', 'u', 'm', 'e', 's']);
    assert("auto_include_fixed_volumes"@ =~= seq!['a', 'u', 't', 'o', '_', 'i', 'n', 'c', 'l', 'u', 'd', 'e', '_', 'f', 'i', 'x', 'e', 'd', '_', 'v', 'o', 'l', 'u', 'm', 'e', 's']);
    assert("beta_updates"@ =~= seq!['b', 'e', 't', 'a', '_', 'u', 'p', 'd', 'a', 't', 'e', 's']);
    assert("check_for_updates_on_startup"@ =~= seq!['c', 'h', 'e', 'c', 'k', '_', 'f', 'o', 'r', '_', 'u', 'p', 'd', 'a', 't', 'e', 's', '_', 'o', 'n', '_', 's', 't', 'a', 'r', 't', 'u', 'p']);
    assert("fat_volume_includes"@ =~= seq!['f', 'a', 't', '_', 'v', 'o', 'l', 'u', 'm', 'e', '_', 'i', 'n', 'c', 'l', 'u', 'd', 'e', 's']);
    assert("fat_volume_paths"@ =~= seq!['f', 'a', 't', '_', 'v', 'o', 'l', 'u', 'm', 'e', '_', 'p', 'a', 't', 'h', 's']);
    assert("ipc_enabled"@ =~= seq!['i', 'p', 'c', '_', 'e', 'n', 'a', 'b', 'l', 'e', 'd']);
    assert("minimize_to_tray"@ =~= seq!['m', 'i', 'n', 'i', 'm', 'i', 'z', 'e', '_', 't', 'o', '_', 't', 'r', 'a', 'y']);
    assert("ntfs_volume_includes"@ =~= seq!['n', 't', 'f', 's', '_', 'v', 'o', 'l', 'u', 'm', 'e', '_', 'i', 'n', 'c', 'l', 'u', 'd', 'e', 's']);
    assert("ntfs_volume_paths"@ =~= seq!['n', 't', 'f', 's', '_', 'v', 'o', 'l', 'u', 'm', 'e', '_', 'p', 'a', 't', 'h', 's']);
    assert("refs_volume_includes"@ =~= seq!['r', 'e', 'f', 's', '_', 'v', 'o', 'l', 'u', 'm', 'e', '_', 'i', 'n', 'c', 'l', 'u', 'd', 'e', 's']);
    assert("refs_volume_paths"@ =~= seq!['r', 'e', 'f', 's', '_', 'v', 'o', 'l', 'u', 'm', 'e', '_', 'p', 'a', 't', 'h', 's']);
    assert("run_as_admin"@ =~= seq!['r', 'u', 'n', '_', 'a', 's', '_', 'a', 'd', 'm', 'i', 'n']);
    assert("run_in_background"@ =~= seq!['r', 'u', 'n', '_', 'i', 'n', '_', 'b', 'a', 'c', 'k', 'g', 'r', 'o', 'u', 'n', 'd']);
    assert("service_pipe_name"@ =~= seq!['s', 'e', 'r', 'v', 'i', 'c', 'e', '_', 'p', 'i', 'p', 'e', '_', 'n', 'a', 'm', 'e']);
    assert("show_in_taskbar"@ =~= seq!['s', 'h', 'o', 'w', '_', 'i', 'n', '_', 't', 'a', 's', 'k', 'b', 'a', 'r']);
    assert("show_tray_icon"@ =~= seq!['s', 'h', 'o', 'w', '_', 't', 'r', 'a', 'y', '_', 'i', 'c', 'o', 'n']);
    assert(desired_settings(service_pipe, root, fs) =~= seq![
        (seq!['r', 'u', 'n', '_', 'a', 's', '_', 'a', 'd', 'm', 'i', 'n'], seq!['0']),
        (seq!['r', 'u', 'n', '_', 'i', 'n', '_', 'b', 'a', 'c', 'k', 'g', 'r', 'o', 'u', 'n', 'd'], seq!['1']),
        (seq!['s', 'h', 'o', 'w', '_', 'i', 'n', '_', 't', 'a', 's', 'k', 'b', 'a', 'r'], seq!['0']),
        (seq!['s', 'h', 'o', 'w', '_', 't', 'r', 'a', 'y', '_', 'i', 'c', 'o', 'n'], seq!['0']),
        (seq!['m', 'i', 'n', 'i', 'm', 'i', 'z', 'e', '_', 't', 'o', '_', 't', 'r', 'a', 'y'], seq!['0']),
        (seq!['c', 'h', 'e', 'c', 'k', '_', 'f', 'o', 'r', '_', 'u', 'p', 'd', 'a', 't', 'e', 's', '_', 'o', 'n', '_', 's', 't', 'a', 'r', 't', 'u', 'p'], seq!['0']),
        (seq!['b', 'e', 't', 'a', '_', 'u', 'p', 'd', 'a', 't', 'e', 's'], seq!['0']),
        (seq!['a', 'l', 'p', 'h', 'a', '_', 'i', 'n', 's', 't', 'a', 'n', 'c', 'e'], seq!['0']),
        (seq!['a', 'l', 'l', 'o', 'w', '_', 'm', 'u', 'l', 't', 'i', 'p', 'l', 'e', '_', 'i', 'n', 's', 't', 'a', 'n', 'c', 'e', 's'], seq!['0']),
        (seq!['i', 'p', 'c', '_', 'e', 'n', 'a', 'b', 'l', 'e', 'd'], seq!['1']),
        (seq!['s', 'e', 'r', 'v', 'i', 'c', 'e', '_', 'p', 'i', 'p', 'e', '_', 'n', 'a', 'm', 'e'], service_pipe),
        (seq!['a', 'u', 't', 'o', '_', 'i', 'n', 'c', 'l', 'u', 'd', 'e', '_', 'f', 'i', 'x', 'e', 'd', '_', 'v', 'o', 'l', 'u', 'm', 'e', 's'], seq!['0']),
        (seq!['a', 'u', 't', 'o', '_', 'i', 'n', 'c', 'l', 'u', 'd', 'e', '_', 'f', 'i', 'x', 'e', 'd', '_', 'r', 'e', 'f', 's', '_', 'v', 'o', 'l', 'u', 'm', 'e', 's'], seq!['0']),
        (seq!['a', 'u', 't', 'o', '_', 'i', 'n', 'c', 'l', 'u', 'd', 'e', '_', 'f', 'i', 'x', 'e', 'd', '_', 'f', 'a', 't', '_', 'v', 'o', 'l', 'u', 'm', 'e', 's'], seq!['0']),
        (seq!['n', 't', 'f', 's', '_', 'v', 'o', 'l', 'u', 'm', 'e', '_', 'p', 'a', 't', 'h', 's'], if fs == VolumeFileSystem::Ntfs { root } else { Seq::<char>::empty() }),
        (seq!['n', 't', 'f', 's', '_', 'v', 'o', 'l', 'u', 'm', 'e', '_', 'i', 'n', 'c', 'l', 'u', 'd', 'e', 's'], if fs == VolumeFileSystem::Ntfs { seq!['1'] } else { Seq::<char>::empty() }),
        (seq!['r', 'e', 'f', 's', '_', 'v', 'o', 'l', 'u', 'm', 'e', '_', 'p', 'a', 't', 'h', 's'], if fs == VolumeFileSystem::Refs { root } else { Seq::<char>::empty() }),
        (seq!['r', 'e', 'f', 's', '_', 'v', 'o', 'l', 'u', 'm', 'e', '_', 'i', 'n', 'c', 'l', 'u', 'd', 'e', 's'], if fs == VolumeFileSystem::Refs { seq!['1'] } else { Seq::<char>::empty() }),
        (seq!['f', 'a', 't', '_', 'v', 'o', 'l', 'u', 'm', 'e', '_', 'p', 'a', 't', 'h', 's'], if fs == VolumeFileSystem::Fat { root } else { Seq::<char>::empty() }),
        (seq!['f', 'a', 't', '_', 'v', 'o', 'l', 'u', 'm', 'e', '_', 'i', 'n', 'c', 'l', 'u', 'd', 'e', 's'], if fs == VolumeFileSystem::Fat { seq!['1'] } else { Seq::<char>::empty() }),
    ]);
}

/// The engine of a drive is named after the service instance, a hyphen and
/// the drive letter in upper case: `C:\` of `EverythingNext` gives
/// `EverythingNext-C`.
pub proof fn law_volume_engines_are_named_after_their_drive(service: Seq<char>, letter: char)
    requires
        'a' <= letter <= 'z' || 'A' <= letter <= 'Z',
    ensures
        volume_candidate(service, seq![letter, ':', '\u{5c}']) == service + seq!['-', ascii_upper(letter)],
        volume_candidate(service, seq![letter, ':']) == service + seq!['-', ascii_upper(letter)],
{
    reveal_strlit("-");
    let r = seq![letter, ':', '\u{5c}'];
    assert(r.drop_last() =~= seq![letter, ':']);
    assert(seq![letter, ':'].drop_last() =~= seq![letter]);
    assert(trim_volume_root(seq![letter]) == seq![letter]);
    assert(seq![letter, ':'].last() == ':');
    assert(trim_volume_root(seq![letter, ':']) == trim_volume_root(seq![letter]));
    assert(r.last() == '\u{5c}');
    assert(trim_volume_root(r) == trim_volume_root(seq![letter, ':']));
    assert(upper_seq(seq![letter]) =~= seq![ascii_upper(letter)]);
    assert("-"@ =~= seq!['-']);
}

/// The engine's configuration file is written as `key=value` lines, with
/// the line ending it already uses (CRLF when it holds one, LF otherwise);
/// the settings belong in the section `[Everything]`, whose name is matched
/// in any ASCII case.
pub proof fn law_config_file_format(d: Seq<(Seq<char>, Seq<char>)>, k: int, existing: Seq<char>)
    requires
        0 <= k < d.len(),
    ensures
        setting_line(d, k) == d[k].0 + seq!['='] + d[k].1,
        contains_seq(existing, seq!['\r', '\n']) ==> config_newline(existing) == seq!['\r', '\n'],
        !contains_seq(existing, seq!['\r', '\n']) ==> config_newline(existing) == seq!['\n'],
        is_section(seq!['[', 'E', 'v', 'e', 'r', 'y', 't', 'h', 'i', 'n', 'g', ']']),
        section_name(seq!['[', 'E', 'v', 'e', 'r', 'y', 't', 'h', 'i', 'n', 'g', ']']) == seq!['E', 'v', 'e', 'r', 'y', 't', 'h', 'i', 'n', 'g'],
        is_section(seq!['[', 'E', 'V', 'E', 'R', 'Y', 'T', 'H', 'I', 'N', 'G', ']']) && eq_ignore_case(section_name(seq!['[', 'E', 'V', 'E', 'R', 'Y', 'T', 'H', 'I', 'N', 'G', ']']), seq!['E', 'v', 'e', 'r', 'y', 't', 'h', 'i', 'n', 'g']),
{
    reveal_strlit("=");
    reveal_strlit("\r\n");
    reveal_strlit("\n");
    assert("="@ =~= seq!['=']);
    assert("\r\n"@ =~= seq!['\r', '\n']);
    assert("\n"@ =~= seq!['\n']);
    let a = seq!['[', 'E', 'v', 'e', 'r', 'y', 't', 'h', 'i', 'n', 'g', ']'];
    let b = seq!['[', 'E', 'V', 'E', 'R', 'Y', 'T', 'H', 'I', 'N', 'G', ']'];
    assert(trim_start(a) == a);
    assert(trim_end(a) == a);
    assert(trim_start(b) == b);
    assert(trim_end(b) == b);
    assert(section_body(a) == a);
    assert(section_body(b) == b);
    assert(a.subrange(1, a.len() - 1) =~= seq!['E', 'v', 'e', 'r', 'y', 't', 'h', 'i', 'n', 'g']);
    assert(b.subrange(1, b.len() - 1) =~= seq!['E', 'V', 'E', 'R', 'Y', 'T', 'H', 'I', 'N', 'G']);
    assert(lower_seq(seq!['E', 'V', 'E', 'R', 'Y', 'T', 'H', 'I', 'N', 'G']) =~= lower_seq(seq!['E', 'v', 'e', 'r', 'y', 't', 'h', 'i', 'n', 'g']));
}

/// The merge enters the settings' section at a line `[Everything]` (in
/// any ASCII case) and leaves it at any other section line, such as
/// `[Other]`.
pub proof fn law_merge_enters_the_everything_section(d: Seq<(Seq<char>, Seq<char>)>, st: MergeState)
    requires
        st.1.len() == d.len(),
    ensures
        merge_step(d, st, seq!['[', 'E', 'v', 'e', 'r', 'y', 't', 'h', 'i', 'n', 'g', ']']).2,
        merge_step(d, st, seq!['[', 'e', 'v', 'e', 'r', 'y', 't', 'h', 'i', 'n', 'g', ']']).2,
        !merge_step(d, st, seq!['[', 'O', 't', 'h', 'e', 'r', ']']).2,
{
    reveal_strlit("Everything");
    assert("Everything"@ =~= seq!['E', 'v', 'e', 'r', 'y', 't', 'h', 'i', 'n', 'g']);
    let a = seq!['[', 'E', 'v', 'e', 'r', 'y', 't', 'h', 'i', 'n', 'g', ']'];
    let b = seq!['[', 'e', 'v', 'e', 'r', 'y', 't', 'h', 'i', 'n', 'g', ']'];
    let c = seq!['[', 'O', 't', 'h', 'e', 'r', ']'];
    assert(trim_start(a) == a && trim_end(a) == a && section_body(a) == a);
    assert(trim_start(b) == b && trim_end(b) == b && section_body(b) == b);
    assert(trim_start(c) == c && trim_end(c) == c && section_body(c) == c);
    assert(a.subrange(1, a.len() - 1) =~= seq!['E', 'v', 'e', 'r', 'y', 't', 'h', 'i', 'n', 'g']);
    assert(b.subrange(1, b.len() - 1) =~= seq!['e', 'v', 'e', 'r', 'y', 't', 'h', 'i', 'n', 'g']);
    assert(c.subrange(1, c.len() - 1) =~= seq!['O', 't', 'h', 'e', 'r']);
    assert(lower_seq(seq!['e', 'v', 'e', 'r', 'y', 't', 'h', 'i', 'n', 'g']) =~= lower_seq(seq!['E', 'v', 'e', 'r', 'y', 't', 'h', 'i', 'n', 'g']));
    assert(lower_seq(seq!['O', 't', 'h', 'e', 'r']).len() == 5);
}

/// An engine is started as `[-instance NAME] -first-instance -startup
/// -config CONFIG -db DATABASE`, the instance only when it has a name.
pub proof fn law_engine_command_line(name: Seq<char>, config: Seq<char>, database: Seq<char>)
    ensures
        name.len() == 0 ==> engine_argument_list(name, config, database) == seq![
            seq!['-', 'f', 'i', 'r', 's', 't', '-', 'i', 'n', 's', 't', 'a', 'n', 'c', 'e'],
            seq!['-', 's', 't', 'a', 'r', 't', 'u', 'p'],
            seq!['-', 'c', 'o', 'n', 'f', 'i', 'g'],
            config,
            seq!['-', 'd', 'b'],
            database,
        ],
        name.len() > 0 ==> engine_argument_list(name, config, database) == seq![
            seq!['-', 'i', 'n', 's', 't', 'a', 'n', 'c', 'e'],
            name,
            seq!['-', 'f', 'i', 'r', 's', 't', '-', 'i', 'n', 's', 't', 'a', 'n', 'c', 'e'],
            seq!['-', 's', 't', 'a', 'r', 't', 'u', 'p'],
            seq!['-', 'c', 'o', 'n', 'f', 'i', 'g'],
            config,
            seq!['-', 'd', 'b'],
            database,
        ],
{
    reveal_strlit("-instance");
    assert("-instance"@ =~= seq!['-', 'i', 'n', 's', 't', 'a', 'n', 'c', 'e']);
    reveal_strlit("-first-instance");
    assert("-first-instance"@ =~= seq!['-', 'f', 'i', 'r', 's', 't', '-', 'i', 'n', 's', 't', 'a', 'n', 'c', 'e']);
    reveal_strlit("-startup");
    assert("-startup"@ =~= seq!['-', 's', 't', 'a', 'r', 't', 'u', 'p']);
    reveal_strlit("-config");
    assert("-config"@ =~= seq!['-', 'c', 'o', 'n', 'f', 'i', 'g']);
    reveal_strlit("-db");
    assert("-db"@ =~= seq!['-', 'd', 'b']);
    assert(Seq::<Seq<char>>::empty() + seq!["-first-instance"@, "-startup"@, "-config"@, config, "-db"@, database]
        =~= seq!["-first-instance"@, "-startup"@, "-config"@, config, "-db"@, database]);
    assert(seq!["-instance"@, name] + seq!["-first-instance"@, "-startup"@, "-config"@, config, "-db"@, database]
        =~= seq!["-instance"@, name, "-first-instance"@, "-startup"@, "-config"@, config, "-db"@, database]);
}

/// Volumes are indexed by file system: `NTFS`, `ReFS`, and the FAT family
/// (`FAT`, `FAT32`, `exFAT`), whatever the case; any other file system is
/// not indexed.
pub proof fn law_indexed_file_systems(name: Seq<char>)
    ensures
        file_system_of(seq!['N', 'T', 'F', 'S']) == Some(VolumeFileSystem::Ntfs),
        file_system_of(seq!['n', 't', 'f', 's']) == Some(VolumeFileSystem::Ntfs),
        file_system_of(seq!['R', 'e', 'F', 'S']) == Some(VolumeFileSystem::Refs),
        file_system_of(seq!['F', 'A', 'T']) == Some(VolumeFileSystem::Fat),
        file_system_of(seq!['F', 'A', 'T', '3', '2']) == Some(VolumeFileSystem::Fat),
        file_system_of(seq!['e', 'x', 'F', 'A', 'T']) == Some(VolumeFileSystem::Fat),
        file_system_of(seq!['C', 'D', 'F', 'S']) is None,
        file_system_of(seq!['U', 'D', 'F']) is None,
{
    reveal_strlit("NTFS");
    assert("NTFS"@ =~= seq!['N', 'T', 'F', 'S']);
    reveal_strlit("REFS");
    assert("REFS"@ =~= seq!['R', 'E', 'F', 'S']);
    reveal_strlit("FAT");
    assert("FAT"@ =~= seq!['F', 'A', 'T']);
    reveal_strlit("FAT32");
    assert("FAT32"@ =~= seq!['F', 'A', 'T', '3', '2']);
    reveal_strlit("EXFAT");
    assert("EXFAT"@ =~= seq!['E', 'X', 'F', 'A', 'T']);
    assert(upper_seq(seq!['N', 'T', 'F', 'S']) =~= seq!['N', 'T', 'F', 'S']);
    assert(upper_seq(seq!['n', 't', 'f', 's']) =~= seq!['N', 'T', 'F', 'S']);
    assert(upper_seq(seq!['R', 'e', 'F', 'S']) =~= seq!['R', 'E', 'F', 'S']);
    assert(upper_seq(seq!['F', 'A', 'T']) =~= seq!['F', 'A', 'T']);
    assert(upper_seq(seq!['F', 'A', 'T', '3', '2']) =~= seq!['F', 'A', 'T', '3', '2']);
    assert(upper_seq(seq!['e', 'x', 'F', 'A', 'T']) =~= seq!['E', 'X', 'F', 'A', 'T']);
    assert(upper_seq(seq!['C', 'D', 'F', 'S']) =~= seq!['C', 'D', 'F', 'S']);
    assert(upper_seq(seq!['U', 'D', 'F']) =~= seq!['U', 'D', 'F']);
    assert(seq!['C', 'D', 'F', 'S'] != seq!['N', 'T', 'F', 'S'] && seq!['C', 'D', 'F', 'S'] != seq!['R', 'E', 'F', 'S']);
    assert(seq!['U', 'D', 'F'] != seq!['F', 'A', 'T']);
}

} // verus!
