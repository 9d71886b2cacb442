//! How sizes and result counts are shown.

use vstd::prelude::*;
use vstd::arithmetic::power2::{
    lemma2_to64, lemma2_to64_rest, lemma_pow2_pos, lemma_pow2_strictly_increases, lemma_pow2_unfold,
    pow2,
};
use crate::model::SearchResult;
use crate::text::{
    chars_of, decimal, decimal_chars, decimal_digit, find_last, last_index_of, push_chars, string_of,
    sub_chars, to_uppercase, unicode_uppercase,
};
use crate::view_mode::ViewMode;

verus! {

broadcast use vstd::string::group_string_axioms;

/// Digits grouped by thousands with a space: `12480` reads `12 480`.
pub open spec fn group_thousands(digits: Seq<char>) -> Seq<char>
    decreases digits.len(),
{
    if digits.len() <= 3 {
        digits
    } else {
        group_thousands(digits.take(digits.len() - 3)) + " "@ + digits.skip(digits.len() - 3)
    }
}

/// Groups a digit sequence by thousands.
fn group_digits(digits: &[char]) -> (r: Vec<char>)
    ensures
        r@ == group_thousands(digits@),
    decreases digits@.len(),
{
    let n = digits.len();
    if n <= 3 {
        let mut r = Vec::new();
        push_chars(&mut r, digits);
        r
    } else {
        let head = crate::text::sub_chars(digits, 0, n - 3);
        let mut r = group_digits(head.as_slice());
        r.push(' ');
        let tail = crate::text::sub_chars(digits, n - 3, n);
        push_chars(&mut r, &tail);
        proof {
            reveal_strlit(" ");
            assert(head@ == digits@.take(n - 3));
            assert(tail@ == digits@.skip(n - 3));
            assert(r@ =~= group_thousands(digits@.take(n - 3)) + " "@ + digits@.skip(n - 3));
        }
        r
    }
}

/// `1 result`, otherwise `N results` with N grouped by thousands.
pub open spec fn result_count_text(total: u32) -> Seq<char> {
    group_thousands(decimal(total as nat)) + (if total == 1 {
        " result"@
    } else {
        " results"@
    })
}

/// The number of results, as shown in the status bar.
pub fn result_count(total: u32) -> (text: String)
    ensures
        text@ == result_count_text(total),
{
    let digits = decimal_chars(total as u128);
    let mut text = group_digits(digits.as_slice());
    if total == 1 {
        push_chars(&mut text, &chars_of(" result"));
    } else {
        push_chars(&mut text, &chars_of(" results"));
    }
    string_of(&text)
}


/// `N résultat(s)`, with N grouped by thousands: the count in French.
pub open spec fn result_count_text_fr(total: u32) -> Seq<char> {
    group_thousands(decimal(total as nat)) + " résultat(s)"@
}

/// The number of results, as the French status bar words it.
pub fn format_result_count(total: u32) -> (text: String)
    ensures
        text@ == result_count_text_fr(total),
{
    let digits = decimal_chars(total as u128);
    let mut text = group_digits(digits.as_slice());
    push_chars(&mut text, &chars_of(" résultat(s)"));
    string_of(&text)
}

/// The label of the engine in the status bar: the index is unavailable
/// while no engine indexes; the first drive is indexed while no volume is
/// ready; then how many drives are ready.
pub open spec fn engine_status_text(indexing: bool, available: bool, ready_volumes: u32, total_volumes: u32) -> Seq<
    char,
> {
    if !indexing {
        "Index unavailable"@
    } else if !available {
        "Indexing first drive…"@
    } else {
        decimal(ready_volumes as nat) + "/"@ + decimal(total_volumes as nat) + " drives ready · Indexing…"@
    }
}

/// The label of the engine in the status bar.
pub fn engine_status_label(indexing: bool, available: bool, ready_volumes: u32, total_volumes: u32) -> (label:
    String)
    ensures
        label@ == engine_status_text(indexing, available, ready_volumes, total_volumes),
{
    if !indexing {
        return String::from_str("Index unavailable");
    }
    if !available {
        return String::from_str("Indexing first drive…");
    }
    let mut text = decimal_chars(ready_volumes as u128);
    push_chars(&mut text, &chars_of("/"));
    push_chars(&mut text, &decimal_chars(total_volumes as u128));
    push_chars(&mut text, &chars_of(" drives ready · Indexing…"));
    string_of(&text)
}

/// The size units, from bytes to terabytes.
pub open spec fn unit_name(u: nat) -> Seq<char> {
    if u == 0 {
        "o"@
    } else if u == 1 {
        "Ko"@
    } else if u == 2 {
        "Mo"@
    } else if u == 3 {
        "Go"@
    } else {
        "To"@
    }
}

/// The largest power of two `2^k` (from `2^from` up, at most `2^64`) by
/// which `x` must be divided to fit in the 53-bit significand of a double.
pub open spec fn double_unit_from(x: nat, from: nat) -> nat
    decreases 64 - from,
{
    if from >= 64 || x / pow2(from) < 0x20_0000_0000_0000 {
        pow2(from)
    } else {
        double_unit_from(x, from + 1)
    }
}

/// `x as f64`: the nearest double, ties to an even significand.
pub open spec fn nearest_double(x: nat) -> nat {
    let unit = double_unit_from(x, 0);
    if unit == 1 {
        x
    } else {
        let m = x / unit;
        let r = x % unit;
        let half = unit / 2;
        let rounded = if r > half || (r == half && m % 2 == 1) {
            m + 1
        } else {
            m
        };
        rounded * unit
    }
}

/// `1024^u`.
pub open spec fn pow1024(u: nat) -> nat
    decreases u,
{
    if u == 0 {
        1
    } else {
        1024 * pow1024((u - 1) as nat)
    }
}

/// The unit of a size: divided by 1024 while it is at least 1024, up to terabytes.
pub open spec fn size_unit_from(f: nat, u: nat) -> nat
    decreases 4 - u,
{
    if u < 4 && f >= pow1024(u + 1) {
        size_unit_from(f, u + 1)
    } else {
        u
    }
}

/// The size in tenths of its unit, rounded to the nearest tenth, ties to even.
pub open spec fn size_tenths(f: nat, u: nat) -> nat {
    let d = pow1024(u);
    let q = 10 * f / d;
    let r = (10 * f) % d;
    if 2 * r > d || (2 * r == d && q % 2 == 1) {
        q + 1
    } else {
        q
    }
}

/// A file size as shown in the list: nothing for folders, a dash when
/// unknown, whole bytes below 1 Ko, else one decimal and the unit.
pub open spec fn file_size_text(size: Option<u64>, is_dir: bool) -> Seq<char> {
    if is_dir {
        Seq::empty()
    } else {
        match size {
            None => "—"@,
            Some(bytes) => {
                let f = nearest_double(bytes as nat);
                let u = size_unit_from(f, 0);
                if u == 0 {
                    decimal(bytes as nat) + " "@ + unit_name(0)
                } else {
                    let t = size_tenths(f, u);
                    decimal(t / 10) + "."@ + seq![decimal_digit(t % 10)] + " "@ + unit_name(u)
                }
            },
        }
    }
}

/// The value of `x as f64`, as an integer.
fn nearest_double_value(x: u64) -> (f: u128)
    ensures
        f == nearest_double(x as nat),
        f <= 0x2_0000_0000_0000_0000,
{
    let mut unit: u128 = 1;
    let mut k: usize = 0;
    proof {
        lemma2_to64();
        lemma2_to64_rest();
    }
    while k < 64 && (x as u128) / unit >= 0x20_0000_0000_0000
        invariant
            0 <= k <= 64,
            unit == pow2(k as nat),
            unit >= 1,
            unit <= 0x1_0000_0000_0000_0000,
            double_unit_from(x as nat, 0) == double_unit_from(x as nat, k as nat),
        decreases 64 - k,
    {
        proof {
            lemma_pow2_unfold((k + 1) as nat);
            lemma2_to64();
            lemma2_to64_rest();
            if k < 63 {
                lemma_pow2_strictly_increases(k as nat, 63);
            }
        }
        unit = unit * 2;
        k = k + 1;
    }
    proof {
        lemma_pow2_pos(k as nat);
    }
    if unit == 1 {
        return x as u128;
    }
    let m = (x as u128) / unit;
    let r = (x as u128) % unit;
    let half = unit / 2;
    let rounded = if r > half || (r == half && m % 2 == 1) {
        m + 1
    } else {
        m
    };
    proof {
        assert(m * unit <= x) by (nonlinear_arith)
            requires
                m == (x as u128) / unit,
                unit > 0,
        ;
        assert(rounded * unit <= (x as int) + unit) by (nonlinear_arith)
            requires
                rounded <= m + 1,
                m * unit <= x,
                unit > 0,
        ;
    }
    rounded * unit
}

/// A file size as shown in the result list.
pub fn file_size(size: Option<u64>, is_dir: bool) -> (text: String)
    ensures
        text@ == file_size_text(size, is_dir),
{
    if is_dir {
        return String::new();
    }
    let bytes = match size {
        None => {
            return String::from_str("—");
        },
        Some(bytes) => bytes,
    };
    let f = nearest_double_value(bytes);
    let mut u: usize = 0;
    let mut d: u128 = 1;
    proof {
        assert(pow1024(0) == 1);
        assert(pow1024(1) == 1024);
        assert(pow1024(2) == 0x10_0000);
        assert(pow1024(3) == 0x4000_0000);
        assert(pow1024(4) == 0x100_0000_0000);
        assert(pow1024(5) == 0x4_0000_0000_0000);
    }
    while u < 4 && f >= d * 1024
        invariant
            0 <= u <= 4,
            d == pow1024(u as nat),
            u == 0 ==> d == 1,
            u == 1 ==> d == 1024,
            u == 2 ==> d == 0x10_0000,
            u == 3 ==> d == 0x4000_0000,
            u == 4 ==> d == 0x100_0000_0000,
            f <= 0x2_0000_0000_0000_0000,
            size_unit_from(f as nat, 0) == size_unit_from(f as nat, u as nat),
        decreases 4 - u,
    {
        proof {
            assert(pow1024((u + 1) as nat) == 1024 * pow1024(u as nat));
        }
        d = d * 1024;
        u = u + 1;
    }
    proof {
        assert(pow1024((u + 1) as nat) == 1024 * pow1024(u as nat));
    }
    let units = ["o", "Ko", "Mo", "Go", "To"];
    let mut text: Vec<char>;
    if u == 0 {
        text = decimal_chars(bytes as u128);
    } else {
        let q = 10 * f / d;
        let r = (10 * f) % d;
        let t = if 2 * r > d || (2 * r == d && q % 2 == 1) {
            q + 1
        } else {
            q
        };
        proof {
            let fi = f as int;
            let di = d as int;
            let qi = q as int;
            assert(qi <= 10 * fi) by (nonlinear_arith)
                requires
                    qi == (10 * fi) / di,
                    di >= 1,
                    fi >= 0,
            ;
        }
        text = decimal_chars(t / 10);
        text.push('.');
        text.push((((t % 10) + 48) as u8) as char);
    }
    text.push(' ');
    push_chars(&mut text, &chars_of(units[u]));
    proof {
        reveal_strlit(" ");
        reveal_strlit(".");
    }
    string_of(&text)
}

/// The type column of a result: `Folder`, the extension in upper case
/// (after the last dot, with something before it), or `File`.
pub open spec fn file_type_text(name: Seq<char>, is_dir: bool) -> Seq<char> {
    let i = last_index_of(name, '.');
    if is_dir {
        "Folder"@
    } else if i >= 1 && i < name.len() - 1 {
        unicode_uppercase(name.skip(i + 1))
    } else {
        "File"@
    }
}

/// The type shown for a result.
pub fn file_type(name: &str, is_dir: bool) -> (t: String)
    ensures
        t@ == file_type_text(name@, is_dir),
{
    if is_dir {
        return String::from_str("Folder");
    }
    let chars = chars_of(name);
    match find_last(&chars, '.') {
        Some(i) => {
            if i >= 1 && i < chars.len() - 1 {
                let extension = string_of(&sub_chars(&chars, i + 1, chars.len()));
                proof {
                    assert(chars@.subrange(i + 1, chars@.len() as int) =~= name@.skip(i + 1));
                }
                to_uppercase(extension.as_str())
            } else {
                String::from_str("File")
            }
        },
        None => String::from_str("File"),
    }
}

/// The title of a result: its name, then the separator and its folder
/// when it has one.
pub open spec fn item_title_text(name: Seq<char>, parent: Seq<char>, separator: Seq<char>) -> Seq<char> {
    if parent.len() == 0 {
        name
    } else {
        name + separator + parent
    }
}

/// The title of a result.
pub fn item_title(item: &SearchResult, separator: &str) -> (t: String)
    ensures
        t@ == item_title_text(item.name@, item.parent_path@, separator@),
{
    if item.parent_path.as_str().is_empty() {
        return string_of(&chars_of(item.name.as_str()));
    }
    let mut t = chars_of(item.name.as_str());
    push_chars(&mut t, &chars_of(separator));
    push_chars(&mut t, &chars_of(item.parent_path.as_str()));
    string_of(&t)
}

/// The second line of a result in the icon layouts: its folder in the small
/// icons, else its size and date (those that are not empty) joined by ` · `.
pub open spec fn icon_metadata_text(
    parent: Seq<char>,
    size_text: Seq<char>,
    date_text: Seq<char>,
    small_icons: bool,
) -> Seq<char> {
    if small_icons {
        parent
    } else if size_text.len() == 0 {
        date_text
    } else if date_text.len() == 0 {
        size_text
    } else {
        size_text + " · "@ + date_text
    }
}

/// The second line of a result in the icon layouts, given its date as
/// shown.
pub fn icon_metadata(item: &SearchResult, mode: ViewMode, modified_text: &str) -> (m: String)
    ensures
        m@ == icon_metadata_text(
            item.parent_path@,
            file_size_text(item.size, item.is_dir),
            modified_text@,
            mode == ViewMode::Small,
        ),
{
    if mode == ViewMode::Small {
        return string_of(&chars_of(item.parent_path.as_str()));
    }
    let size = chars_of(file_size(item.size, item.is_dir).as_str());
    let date = chars_of(modified_text);
    if size.len() == 0 {
        string_of(&date)
    } else if date.len() == 0 {
        string_of(&size)
    } else {
        let mut m = size;
        push_chars(&mut m, &chars_of(" · "));
        push_chars(&mut m, &date);
        string_of(&m)
    }
}

/// Sizes are shown in the units `o`, `Ko`, `Mo`, `Go` and `To`: below
/// 1024 bytes as whole bytes (`512 o`), a folder with no size at all, and
/// an unknown size as a dash.
pub proof fn law_sizes_below_a_kilobyte_are_whole_bytes(bytes: u64, size: Option<u64>)
    ensures
        unit_name(0) == seq!['o'],
        unit_name(1) == seq!['K', 'o'],
        unit_name(2) == seq!['M', 'o'],
        unit_name(3) == seq!['G', 'o'],
        unit_name(4) == seq!['T', 'o'],
        bytes < 1024 ==> file_size_text(Some(bytes), false) == decimal(bytes as nat) + seq![' ', 'o'],
        file_size_text(size, true) == Seq::<char>::empty(),
        file_size_text(None, false) == seq!['\u{2014}'],
{
    reveal_strlit("o");
    reveal_strlit("Ko");
    reveal_strlit("Mo");
    reveal_strlit("Go");
    reveal_strlit("To");
    reveal_strlit(" ");
    reveal_strlit("—");
    assert("o"@ =~= seq!['o']);
    assert("Ko"@ =~= seq!['K', 'o']);
    assert("Mo"@ =~= seq!['M', 'o']);
    assert("Go"@ =~= seq!['G', 'o']);
    assert("To"@ =~= seq!['T', 'o']);
    assert("—"@ =~= seq!['\u{2014}']);
    if bytes < 1024 {
        let x = bytes as nat;
        lemma2_to64();
        assert(pow2(0) == 1);
        assert(x / pow2(0) < 0x20_0000_0000_0000);
        assert(double_unit_from(x, 0) == 1);
        assert(nearest_double(x) == x);
        assert(pow1024(1) == 1024) by {
            assert(pow1024(0) == 1);
        }
        assert(size_unit_from(x, 0) == 0);
        assert(" "@ + "o"@ =~= seq![' ', 'o']);
    }
}

/// The count of results reads `1 result`, and `N results` for any other
/// number, with the digits grouped by thousands; in French `N résultat(s)`.
/// The type of a folder reads `Folder`.
pub proof fn law_counts_name_their_results(total: u32, name: Seq<char>)
    ensures
        result_count_text(total) == group_thousands(decimal(total as nat)) + (if total == 1 {
            seq![' ', 'r', 'e', 's', 'u', 'l', 't']
        } else {
            seq![' ', 'r', 'e', 's', 'u', 'l', 't', 's']
        }),
        result_count_text_fr(total) == group_thousands(decimal(total as nat)) + seq![' ', 'r', '\u{e9}', 's', 'u', 'l', 't', 'a', 't', '(', 's', ')'],
        file_type_text(name, true) == seq!['F', 'o', 'l', 'd', 'e', 'r'],
{
    reveal_strlit(" result");
    reveal_strlit(" results");
    reveal_strlit(" résultat(s)");
    reveal_strlit("Folder");
    assert(" result"@ =~= seq![' ', 'r', 'e', 's', 'u', 'l', 't']);
    assert(" results"@ =~= seq![' ', 'r', 'e', 's', 'u', 'l', 't', 's']);
    assert(" résultat(s)"@ =~= seq![' ', 'r', '\u{e9}', 's', 'u', 'l', 't', 'a', 't', '(', 's', ')']);
    assert("Folder"@ =~= seq!['F', 'o', 'l', 'd', 'e', 'r']);
}

/// Whether a character is not a space.
pub open spec fn not_space() -> spec_fn(char) -> bool {
    |c: char| c != ' '
}

/// Digits grouped by thousands read back as the digits once the spaces are
/// taken out, and gain one space for each full group of three after the
/// first digits.
pub proof fn law_grouping_only_adds_spaces(digits: Seq<char>)
    requires
        forall|k: int| 0 <= k < digits.len() ==> #[trigger] digits[k] != ' ',
    ensures
        group_thousands(digits).filter(not_space()) == digits,
        digits.len() <= 3 ==> group_thousands(digits) == digits,
        digits.len() > 0 ==> group_thousands(digits).len() == digits.len() + (digits.len() - 1) / 3,
    decreases digits.len(),
{
    reveal_strlit(" ");
    if digits.len() <= 3 {
        lemma_filter_no_space(digits);
    } else {
        let head = digits.take(digits.len() - 3);
        let tail = digits.skip(digits.len() - 3);
        law_grouping_only_adds_spaces(head);
        lemma_filter_no_space(tail);
        let g = group_thousands(head);
        assert(group_thousands(digits) == g + " "@ + tail);
        Seq::filter_distributes_over_add(g + " "@, tail, not_space());
        Seq::filter_distributes_over_add(g, " "@, not_space());
        assert(" "@.filter(not_space()) =~= Seq::<char>::empty()) by {
            reveal(Seq::filter);
            assert(" "@ =~= seq![' ']);
            assert(seq![' '].drop_last() =~= Seq::<char>::empty());
            assert(Seq::<char>::empty().filter(not_space()) =~= Seq::<char>::empty());
        }
        assert(head + tail =~= digits);
    }
}

/// A sequence without spaces is its own filter of non-spaces.
proof fn lemma_filter_no_space(s: Seq<char>)
    requires
        forall|k: int| 0 <= k < s.len() ==> #[trigger] s[k] != ' ',
    ensures
        s.filter(not_space()) == s,
    decreases s.len(),
{
    reveal(Seq::filter);
    if s.len() > 0 {
        lemma_filter_no_space(s.drop_last());
        assert(s.drop_last().push(s.last()) =~= s);
    } else {
        assert(s.filter(not_space()) =~= s);
    }
}

/// The engine's status reads `Index unavailable` while no engine indexes,
/// `Indexing first drive…` while none is ready, and otherwise
/// `R/T drives ready · Indexing…`.
pub proof fn law_engine_status_reads_ready_drives(available: bool, ready: u32, total: u32)
    ensures
        engine_status_text(false, available, ready, total) == seq!['I', 'n', 'd', 'e', 'x', ' ', 'u', 'n', 'a', 'v', 'a', 'i', 'l', 'a', 'b', 'l', 'e'],
        engine_status_text(true, false, ready, total) == seq!['I', 'n', 'd', 'e', 'x', 'i', 'n', 'g', ' ', 'f', 'i', 'r', 's', 't', ' ', 'd', 'r', 'i', 'v', 'e', '\u{2026}'],
        engine_status_text(true, true, ready, total) == decimal(ready as nat) + seq!['/'] + decimal(total as nat) + seq![' ', 'd', 'r', 'i', 'v', 'e', 's', ' ', 'r', 'e', 'a', 'd', 'y', ' ', '\u{b7}', ' ', 'I', 'n', 'd', 'e', 'x', 'i', 'n', 'g', '\u{2026}'],
{
    reveal_strlit("Index unavailable");
    assert("Index unavailable"@ =~= seq!['I', 'n', 'd', 'e', 'x', ' ', 'u', 'n', 'a', 'v', 'a', 'i', 'l', 'a', 'b', 'l', 'e']);
    reveal_strlit("Indexing first drive…");
    assert("Indexing first drive…"@ =~= seq!['I', 'n', 'd', 'e', 'x', 'i', 'n', 'g', ' ', 'f', 'i', 'r', 's', 't', ' ', 'd', 'r', 'i', 'v', 'e', '\u{2026}']);
    reveal_strlit(" drives ready · Indexing…");
    assert(" drives ready · Indexing…"@ =~= seq![' ', 'd', 'r', 'i', 'v', 'e', 's', ' ', 'r', 'e', 'a', 'd', 'y', ' ', '\u{b7}', ' ', 'I', 'n', 'd', 'e', 'x', 'i', 'n', 'g', '\u{2026}']);
    reveal_strlit("/");
    assert("/"@ =~= seq!['/']);
}

/// In the icon layouts the second line of a result is its folder for
/// small icons, and otherwise its size and date joined by ` · `, either
/// alone when the other is empty.
pub proof fn law_icon_second_line(parent: Seq<char>, size: Seq<char>, date: Seq<char>)
    ensures
        icon_metadata_text(parent, size, date, true) == parent,
        size.len() > 0 && date.len() > 0 ==> icon_metadata_text(parent, size, date, false) == size + seq![' ', '\u{b7}', ' '] + date,
        size.len() == 0 ==> icon_metadata_text(parent, size, date, false) == date,
        date.len() == 0 ==> icon_metadata_text(parent, size, date, false) == size,
{
    reveal_strlit(" · ");
    assert(" · "@ =~= seq![' ', '\u{b7}', ' ']);
}

} // verus!
