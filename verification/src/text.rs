//! Character-level helpers that the string rules of the library are written with.

use vstd::prelude::*;
use vstd::utf8::encode_utf8;

verus! {

broadcast use vstd::string::group_string_axioms;

/// `String::push` appends one character.
pub assume_specification[ String::push ](s: &mut String, ch: char)
    ensures
        final(s)@ == old(s)@.push(ch),
;

/// The characters of a string slice, in order.
pub fn chars_of(s: &str) -> (v: Vec<char>)
    ensures
        v@ == s@,
{
    let mut v: Vec<char> = Vec::new();
    for c in it: s.chars()
        invariant
            v@ == it.seq().take(it.index() as int),
            it.seq() == s@,
    {
        v.push(c);
    }
    v
}

/// A string made of the given characters.
pub fn string_of(v: &[char]) -> (s: String)
    ensures
        s@ == v@,
{
    let mut s = String::new();
    let mut i: usize = 0;
    while i < v.len()
        invariant
            0 <= i <= v@.len(),
            s@ == v@.take(i as int),
        decreases v@.len() - i,
    {
        s.push(v[i]);
        i = i + 1;
        proof {
            assert(s@ == v@.take(i as int));
        }
    }
    proof {
        assert(v@.take(v@.len() as int) == v@);
    }
    s
}


/// The ASCII upper-case form of a character; other characters stay.
pub open spec fn ascii_upper(c: char) -> char {
    if 'a' <= c <= 'z' {
        ((c as u32) - 32) as char
    } else {
        c
    }
}

/// The ASCII lower-case form of a character; other characters stay.
pub open spec fn ascii_lower(c: char) -> char {
    if 'A' <= c <= 'Z' {
        ((c as u32) + 32) as char
    } else {
        c
    }
}

/// `char::to_ascii_uppercase`.
pub fn to_ascii_upper(c: char) -> (r: char)
    ensures
        r == ascii_upper(c),
{
    if 'a' <= c && c <= 'z' {
        let b = (c as u32 - 32) as u8;
        b as char
    } else {
        c
    }
}


/// Every character of a sequence in ASCII upper case.
pub open spec fn upper_seq(s: Seq<char>) -> Seq<char> {
    s.map_values(|c: char| ascii_upper(c))
}

/// Every character of a sequence in ASCII lower case.
pub open spec fn lower_seq(s: Seq<char>) -> Seq<char> {
    s.map_values(|c: char| ascii_lower(c))
}

/// Two sequences that only differ in the case of ASCII letters.
pub open spec fn eq_ignore_case(a: Seq<char>, b: Seq<char>) -> bool {
    lower_seq(a) == lower_seq(b)
}

/// `char::to_ascii_lowercase`.
pub fn to_ascii_lower(c: char) -> (r: char)
    ensures
        r == ascii_lower(c),
{
    if 'A' <= c && c <= 'Z' {
        let b = (c as u32 + 32) as u8;
        b as char
    } else {
        c
    }
}

/// The ASCII upper-case form of a character sequence.
pub fn upper_chars(s: &[char]) -> (r: Vec<char>)
    ensures
        r@ == upper_seq(s@),
{
    let mut r: Vec<char> = Vec::new();
    let mut i: usize = 0;
    while i < s.len()
        invariant
            0 <= i <= s@.len(),
            r@ == upper_seq(s@.take(i as int)),
        decreases s@.len() - i,
    {
        r.push(to_ascii_upper(s[i]));
        i = i + 1;
        proof {
            assert(r@ =~= upper_seq(s@.take(i as int)));
        }
    }
    proof {
        assert(s@.take(s@.len() as int) == s@);
    }
    r
}

/// The ASCII lower-case form of a character sequence.
pub fn lower_chars(s: &[char]) -> (r: Vec<char>)
    ensures
        r@ == lower_seq(s@),
{
    let mut r: Vec<char> = Vec::new();
    let mut i: usize = 0;
    while i < s.len()
        invariant
            0 <= i <= s@.len(),
            r@ == lower_seq(s@.take(i as int)),
        decreases s@.len() - i,
    {
        r.push(to_ascii_lower(s[i]));
        i = i + 1;
        proof {
            assert(r@ =~= lower_seq(s@.take(i as int)));
        }
    }
    proof {
        assert(s@.take(s@.len() as int) == s@);
    }
    r
}

/// `str::eq_ignore_ascii_case`, on characters.
pub fn chars_eq_ignore_case(a: &[char], b: &[char]) -> (r: bool)
    ensures
        r == eq_ignore_case(a@, b@),
{
    if a.len() != b.len() {
        proof {
            assert(lower_seq(a@).len() != lower_seq(b@).len());
        }
        return false;
    }
    let mut i: usize = 0;
    while i < a.len()
        invariant
            0 <= i <= a@.len(),
            a@.len() == b@.len(),
            forall|k: int| 0 <= k < i ==> ascii_lower(#[trigger] a@[k]) == ascii_lower(b@[k]),
        decreases a@.len() - i,
    {
        if to_ascii_lower(a[i]) != to_ascii_lower(b[i]) {
            proof {
                assert(lower_seq(a@)[i as int] != lower_seq(b@)[i as int]);
            }
            return false;
        }
        i = i + 1;
    }
    proof {
        assert(lower_seq(a@) =~= lower_seq(b@));
    }
    true
}

/// Whether two character sequences are equal.
pub fn chars_eq(a: &[char], b: &[char]) -> (r: bool)
    ensures
        r == (a@ == b@),
{
    if a.len() != b.len() {
        return false;
    }
    let mut i: usize = 0;
    while i < a.len()
        invariant
            0 <= i <= a@.len(),
            a@.len() == b@.len(),
            forall|k: int| 0 <= k < i ==> a@[k] == b@[k],
        decreases a@.len() - i,
    {
        if a[i] != b[i] {
            return false;
        }
        i = i + 1;
    }
    proof {
        assert(a@ =~= b@);
    }
    true
}

/// The characters `s[lo..hi]`.
pub fn sub_chars(s: &[char], lo: usize, hi: usize) -> (r: Vec<char>)
    requires
        lo <= hi <= s@.len(),
    ensures
        r@ == s@.subrange(lo as int, hi as int),
{
    let mut r: Vec<char> = Vec::new();
    let mut i: usize = lo;
    while i < hi
        invariant
            lo <= i <= hi <= s@.len(),
            r@ == s@.subrange(lo as int, i as int),
        decreases hi - i,
    {
        r.push(s[i]);
        i = i + 1;
        proof {
            assert(r@ =~= s@.subrange(lo as int, i as int));
        }
    }
    r
}

/// Appends characters to a vector.
pub fn push_chars(v: &mut Vec<char>, s: &[char])
    ensures
        final(v)@ == old(v)@ + s@,
{
    let ghost start = v@;
    let mut i: usize = 0;
    while i < s.len()
        invariant
            0 <= i <= s@.len(),
            v@ == start + s@.take(i as int),
        decreases s@.len() - i,
    {
        v.push(s[i]);
        i = i + 1;
        proof {
            assert(v@ =~= start + s@.take(i as int));
        }
    }
    proof {
        assert(s@.take(s@.len() as int) == s@);
    }
}

/// The two strings one after the other.
pub fn concat_str(a: &str, b: &str) -> (r: String)
    ensures
        r@ == a@ + b@,
{
    let mut v = chars_of(a);
    push_chars(&mut v, &chars_of(b));
    string_of(&v)
}

/// Every `from` replaced by `to`.
pub open spec fn replace_seq(s: Seq<char>, from: char, to: char) -> Seq<char> {
    s.map_values(|c: char| if c == from { to } else { c })
}

/// `str::replace` of one character by another.
pub fn replace_char(s: &[char], from: char, to: char) -> (r: Vec<char>)
    ensures
        r@ == replace_seq(s@, from, to),
{
    let mut r: Vec<char> = Vec::new();
    let mut i: usize = 0;
    while i < s.len()
        invariant
            0 <= i <= s@.len(),
            r@ == replace_seq(s@.take(i as int), from, to),
        decreases s@.len() - i,
    {
        let c = s[i];
        if c == from {
            r.push(to);
        } else {
            r.push(c);
        }
        i = i + 1;
        proof {
            assert(r@ =~= replace_seq(s@.take(i as int), from, to));
        }
    }
    proof {
        assert(s@.take(s@.len() as int) == s@);
    }
    r
}

/// The UTF-8 encoding of two sequences one after the other is the two
/// encodings one after the other.
pub proof fn lemma_encode_utf8_concat(a: Seq<char>, b: Seq<char>)
    ensures
        encode_utf8(a + b) == encode_utf8(a) + encode_utf8(b),
    decreases a.len(),
{
    if a.len() == 0 {
        assert(a + b =~= b);
        assert(encode_utf8(a) + encode_utf8(b) =~= encode_utf8(b));
    } else {
        assert((a + b).drop_first() =~= a.drop_first() + b);
        assert((a + b)[0] == a[0]);
        lemma_encode_utf8_concat(a.drop_first(), b);
        assert(encode_utf8(a + b) =~= encode_utf8(a) + encode_utf8(b));
    }
}

/// An ASCII character takes one byte in UTF-8.
pub proof fn lemma_encode_utf8_ascii(c: char)
    requires
        (c as u32) < 128,
    ensures
        encode_utf8(seq![c]).len() == 1,
{
    assert(seq![c].drop_first() =~= Seq::<char>::empty());
    assert(encode_utf8(Seq::<char>::empty()).len() == 0);
}

/// Dropping a trailing ASCII character takes one byte off the encoding.
pub proof fn lemma_encode_utf8_drop_ascii(s: Seq<char>)
    requires
        s.len() > 0,
        (s.last() as u32) < 128,
    ensures
        encode_utf8(s.drop_last()).len() + 1 == encode_utf8(s).len(),
{
    assert(s =~= s.drop_last() + seq![s.last()]);
    lemma_encode_utf8_concat(s.drop_last(), seq![s.last()]);
    lemma_encode_utf8_ascii(s.last());
}

/// `s` begins with `p`.
pub open spec fn starts_with(s: Seq<char>, p: Seq<char>) -> bool {
    p.len() <= s.len() && s.take(p.len() as int) == p
}

/// `s` ends with `p`.
pub open spec fn ends_with(s: Seq<char>, p: Seq<char>) -> bool {
    p.len() <= s.len() && s.skip(s.len() - p.len()) == p
}

/// `p` occurs in `s` at position `i`.
pub open spec fn occurs_at(s: Seq<char>, p: Seq<char>, i: int) -> bool {
    0 <= i && i + p.len() <= s.len() && s.subrange(i, i + p.len()) == p
}

/// `p` occurs somewhere in `s`.
pub open spec fn contains_seq(s: Seq<char>, p: Seq<char>) -> bool {
    exists|i: int| occurs_at(s, p, i)
}

/// Whether `p` occurs in `s` at position `i`.
pub fn chars_occur_at(s: &[char], p: &[char], i: usize) -> (r: bool)
    ensures
        r == occurs_at(s@, p@, i as int),
{
    if i > s.len() || p.len() > s.len() - i {
        return false;
    }
    let n = s.len();
    let mut k: usize = 0;
    while k < p.len()
        invariant
            0 <= k <= p@.len(),
            n == s@.len(),
            i + p@.len() <= n,
            forall|j: int| 0 <= j < k ==> s@[i + j] == p@[j],
        decreases p@.len() - k,
    {
        if s[i + k] != p[k] {
            proof {
                assert(s@.subrange(i as int, i + p@.len())[k as int] != p@[k as int]);
            }
            return false;
        }
        k = k + 1;
    }
    proof {
        assert(s@.subrange(i as int, i + p@.len()) =~= p@);
    }
    true
}

/// `str::starts_with`.
pub fn chars_start_with(s: &[char], p: &[char]) -> (r: bool)
    ensures
        r == starts_with(s@, p@),
{
    let r = chars_occur_at(s, p, 0);
    proof {
        if p@.len() <= s@.len() {
            assert(s@.subrange(0, p@.len() as int) == s@.take(p@.len() as int));
        }
    }
    r
}

/// `str::ends_with`.
pub fn chars_end_with(s: &[char], p: &[char]) -> (r: bool)
    ensures
        r == ends_with(s@, p@),
{
    if p.len() > s.len() {
        return false;
    }
    let r = chars_occur_at(s, p, s.len() - p.len());
    proof {
        assert(s@.subrange(s@.len() - p@.len(), s@.len() as int) == s@.skip(s@.len() - p@.len()));
    }
    r
}

/// `str::contains` with a pattern.
pub fn chars_contain(s: &[char], p: &[char]) -> (r: bool)
    ensures
        r == contains_seq(s@, p@),
{
    if p.len() > s.len() {
        proof {
            assert forall|i: int| !occurs_at(s@, p@, i) by {}
        }
        return false;
    }
    let last = s.len() - p.len();
    let mut i: usize = 0;
    while i < last
        invariant
            0 <= i <= last,
            last + p@.len() == s@.len(),
            forall|j: int| 0 <= j < i ==> !occurs_at(s@, p@, j),
        decreases last - i,
    {
        if chars_occur_at(s, p, i) {
            return true;
        }
        i = i + 1;
    }
    chars_occur_at(s, p, last)
}

/// Whether a character is in the sequence.
pub fn chars_have(s: &[char], c: char) -> (r: bool)
    ensures
        r == s@.contains(c),
{
    let mut i: usize = 0;
    while i < s.len()
        invariant
            0 <= i <= s@.len(),
            forall|k: int| 0 <= k < i ==> s@[k] != c,
        decreases s@.len() - i,
    {
        if s[i] == c {
            return true;
        }
        i = i + 1;
    }
    false
}


/// The Unicode `White_Space` characters, which `char::is_whitespace` and
/// `str::trim` go by.
pub open spec fn white_space(c: char) -> bool {
    ||| '\u{9}' <= c <= '\u{d}'
    ||| c == ' '
    ||| c == '\u{85}'
    ||| c == '\u{a0}'
    ||| c == '\u{1680}'
    ||| '\u{2000}' <= c <= '\u{200a}'
    ||| c == '\u{2028}'
    ||| c == '\u{2029}'
    ||| c == '\u{202f}'
    ||| c == '\u{205f}'
    ||| c == '\u{3000}'
}

/// `char::is_whitespace`.
pub fn is_white_space(c: char) -> (r: bool)
    ensures
        r == white_space(c),
{
    ('\u{9}' <= c && c <= '\u{d}') || c == ' ' || c == '\u{85}' || c == '\u{a0}' || c == '\u{1680}'
        || ('\u{2000}' <= c && c <= '\u{200a}') || c == '\u{2028}' || c == '\u{2029}' || c
        == '\u{202f}' || c == '\u{205f}' || c == '\u{3000}'
}

/// The sequence without its leading white space.
pub open spec fn trim_start(s: Seq<char>) -> Seq<char>
    decreases s.len(),
{
    if s.len() > 0 && white_space(s[0]) {
        trim_start(s.drop_first())
    } else {
        s
    }
}

/// The sequence without its trailing white space.
pub open spec fn trim_end(s: Seq<char>) -> Seq<char>
    decreases s.len(),
{
    if s.len() > 0 && white_space(s.last()) {
        trim_end(s.drop_last())
    } else {
        s
    }
}

/// `str::trim`: the sequence without leading and trailing white space.
pub open spec fn trimmed(s: Seq<char>) -> Seq<char> {
    trim_end(trim_start(s))
}

/// The position of the first character that is not white space (or the length).
pub fn trim_start_index(s: &[char]) -> (lo: usize)
    ensures
        lo <= s@.len(),
        trim_start(s@) == s@.subrange(lo as int, s@.len() as int),
{
    let n = s.len();
    let mut lo: usize = 0;
    proof {
        assert(s@.subrange(0, n as int) == s@);
    }
    while lo < n && is_white_space(s[lo])
        invariant
            0 <= lo <= n,
            n == s@.len(),
            trim_start(s@) == trim_start(s@.subrange(lo as int, n as int)),
        decreases n - lo,
    {
        proof {
            assert(s@.subrange(lo as int, n as int).drop_first() == s@.subrange(lo + 1, n as int));
        }
        lo = lo + 1;
    }
    lo
}

/// The position just past the last character that is not white space.
pub fn trim_end_index(s: &[char], lo: usize) -> (hi: usize)
    requires
        lo <= s@.len(),
    ensures
        lo <= hi <= s@.len(),
        trim_end(s@.subrange(lo as int, s@.len() as int)) == s@.subrange(lo as int, hi as int),
{
    let n = s.len();
    let mut hi: usize = n;
    while hi > lo && is_white_space(s[hi - 1])
        invariant
            lo <= hi <= n,
            n == s@.len(),
            trim_end(s@.subrange(lo as int, n as int)) == trim_end(s@.subrange(lo as int, hi as int)),
        decreases hi - lo,
    {
        proof {
            assert(s@.subrange(lo as int, hi as int).drop_last() == s@.subrange(lo as int, hi - 1));
        }
        hi = hi - 1;
    }
    hi
}

/// `str::trim` on characters.
pub fn trim_chars(s: &[char]) -> (r: Vec<char>)
    ensures
        r@ == trimmed(s@),
{
    let lo = trim_start_index(s);
    let hi = trim_end_index(s, lo);
    sub_chars(s, lo, hi)
}

/// The first position at or after `i` that holds `c`, or the length.
pub open spec fn find_from(s: Seq<char>, c: char, i: int) -> int
    decreases s.len() - i,
{
    if i >= s.len() {
        s.len() as int
    } else if s[i] == c {
        i
    } else {
        find_from(s, c, i + 1)
    }
}

/// `find_from` stays within the sequence and skips no occurrence.
pub proof fn lemma_find_from(s: Seq<char>, c: char, i: int)
    requires
        0 <= i,
    ensures
        i <= find_from(s, c, i) || (i > s.len() && find_from(s, c, i) == s.len()),
        find_from(s, c, i) <= s.len(),
        find_from(s, c, i) < s.len() ==> s[find_from(s, c, i)] == c,
        forall|k: int| i <= k < find_from(s, c, i) ==> s[k] != c,
    decreases s.len() - i,
{
    if i < s.len() && s[i] != c {
        lemma_find_from(s, c, i + 1);
    }
}

/// The first position at or after `i` that holds `c`, or the length.
pub fn find_char_from(s: &[char], c: char, i: usize) -> (j: usize)
    requires
        i <= s@.len(),
    ensures
        j == find_from(s@, c, i as int),
{
    let mut j = i;
    while j < s.len() && s[j] != c
        invariant
            i <= j <= s@.len(),
            find_from(s@, c, i as int) == find_from(s@, c, j as int),
        decreases s@.len() - j,
    {
        j = j + 1;
    }
    j
}

/// A line without the carriage return that preceded its line feed.
pub open spec fn strip_cr(line: Seq<char>) -> Seq<char> {
    if line.len() > 0 && line.last() == '\r' {
        line.drop_last()
    } else {
        line
    }
}

/// `str::lines` from position `i`: lines end at a line feed, which a
/// carriage return may precede; the last line needs no line ending.
pub open spec fn lines_from(s: Seq<char>, i: int) -> Seq<Seq<char>>
    decreases s.len() - i,
{
    if i < 0 || i >= s.len() {
        Seq::empty()
    } else {
        let j = find_from(s, '\n', i);
        if j >= s.len() {
            seq![s.subrange(i, s.len() as int)]
        } else {
            if j < i {
                Seq::empty()
            } else {
                seq![strip_cr(s.subrange(i, j))] + lines_from(s, j + 1)
            }
        }
    }
}

/// `str::lines`.
pub open spec fn lines_of(s: Seq<char>) -> Seq<Seq<char>> {
    lines_from(s, 0)
}

/// `str::lines` on characters.
pub fn split_lines(s: &[char]) -> (lines: Vec<Vec<char>>)
    ensures
        lines@.map_values(|l: Vec<char>| l@) == lines_of(s@),
{
    let n = s.len();
    let mut lines: Vec<Vec<char>> = Vec::new();
    let mut i: usize = 0;
    while i < n
        invariant
            0 <= i <= n,
            n == s@.len(),
            lines@.map_values(|l: Vec<char>| l@) + lines_from(s@, i as int) == lines_of(s@),
        decreases n - i,
    {
        let j = find_char_from(s, '\n', i);
        proof {
            lemma_find_from(s@, '\n', i as int);
        }
        let ghost before = lines@.map_values(|l: Vec<char>| l@);
        if j >= n {
            let line = sub_chars(s, i, n);
            lines.push(line);
            proof {
                assert(lines@.map_values(|l: Vec<char>| l@) =~= before.push(s@.subrange(i as int, n as int)));
                assert(lines_from(s@, n as int) =~= Seq::<Seq<char>>::empty());
                assert(lines@.map_values(|l: Vec<char>| l@) + lines_from(s@, n as int) =~= lines_of(s@));
            }
            i = n;
        } else {
            let mut end = j;
            if end > i && s[end - 1] == '\r' {
                end = end - 1;
            }
            let line = sub_chars(s, i, end);
            proof {
                assert(line@ == strip_cr(s@.subrange(i as int, j as int)));
            }
            lines.push(line);
            proof {
                assert(lines@.map_values(|l: Vec<char>| l@) =~= before.push(strip_cr(s@.subrange(i as int, j as int))));
                assert(lines@.map_values(|l: Vec<char>| l@) + lines_from(s@, j + 1) =~= lines_of(s@));
            }
            i = j + 1;
        }
    }
    proof {
        assert(lines_from(s@, i as int) =~= Seq::<Seq<char>>::empty());
        assert(lines@.map_values(|l: Vec<char>| l@) =~= lines_of(s@));
    }
    lines
}

/// The parts joined by a separator.
pub open spec fn join_with(parts: Seq<Seq<char>>, sep: Seq<char>) -> Seq<char>
    decreases parts.len(),
{
    if parts.len() == 0 {
        Seq::empty()
    } else if parts.len() == 1 {
        parts[0]
    } else {
        join_with(parts.drop_last(), sep) + sep + parts.last()
    }
}

/// `[T]::join` on character sequences.
pub fn join_chars(parts: &Vec<Vec<char>>, sep: &[char]) -> (r: Vec<char>)
    ensures
        r@ == join_with(parts@.map_values(|l: Vec<char>| l@), sep@),
{
    let ghost all = parts@.map_values(|l: Vec<char>| l@);
    let mut r: Vec<char> = Vec::new();
    let mut i: usize = 0;
    while i < parts.len()
        invariant
            0 <= i <= parts@.len(),
            all == parts@.map_values(|l: Vec<char>| l@),
            r@ == join_with(all.take(i as int), sep@),
        decreases parts@.len() - i,
    {
        if i > 0 {
            push_chars(&mut r, sep);
        }
        push_chars(&mut r, &parts[i]);
        proof {
            let t = all.take(i as int + 1);
            assert(t.drop_last() == all.take(i as int));
            assert(t.last() == parts@[i as int]@);
            if i == 0 {
                assert(t.len() == 1);
            }
        }
        i = i + 1;
    }
    proof {
        assert(all.take(parts@.len() as int) == all);
    }
    r
}


/// The lower-case hexadecimal digit of a value below 16.
pub open spec fn hex_digit(d: nat) -> char {
    if d < 10 {
        ((d + 48) as u8) as char
    } else {
        ((d + 87) as u8) as char
    }
}

/// `x` written with exactly `width` lower-case hexadecimal digits (the low
/// digits of `x` when it needs more).
pub open spec fn hex_fixed(x: nat, width: nat) -> Seq<char>
    decreases width,
{
    if width == 0 {
        Seq::empty()
    } else {
        hex_fixed(x / 16, (width - 1) as nat).push(hex_digit(x % 16))
    }
}

/// The hexadecimal digit of a value below 16.
pub fn hex_digit_char(d: u64) -> (c: char)
    requires
        d < 16,
    ensures
        c == hex_digit(d as nat),
{
    if d < 10 {
        ((d + 48) as u8) as char
    } else {
        ((d + 87) as u8) as char
    }
}

/// `format!("{x:0width$x}")` for a value that fits in `width` digits, and the
/// low `width` digits otherwise.
pub fn hex_fixed_chars(x: u64, width: usize) -> (r: Vec<char>)
    ensures
        r@ == hex_fixed(x as nat, width as nat),
        r@.len() == width,
    decreases width,
{
    if width == 0 {
        Vec::new()
    } else {
        let mut r = hex_fixed_chars(x / 16, width - 1);
        r.push(hex_digit_char(x % 16));
        r
    }
}

/// The decimal digit of a value below 10.
pub open spec fn decimal_digit(d: nat) -> char {
    ((d + 48) as u8) as char
}

/// `x` written in decimal, without leading zeros.
pub open spec fn decimal(x: nat) -> Seq<char>
    decreases x,
{
    if x < 10 {
        seq![decimal_digit(x)]
    } else {
        decimal(x / 10).push(decimal_digit(x % 10))
    }
}

/// `x.to_string()` for an unsigned integer.
pub fn decimal_chars(x: u128) -> (r: Vec<char>)
    ensures
        r@ == decimal(x as nat),
    decreases x,
{
    if x < 10 {
        let mut r = Vec::new();
        r.push(((x + 48) as u8) as char);
        r
    } else {
        let mut r = decimal_chars(x / 10);
        r.push(((x % 10 + 48) as u8) as char);
        r
    }
}

/// Byte-wise lexicographic order, the order of `str` and `String`.
pub open spec fn bytes_leq(a: Seq<u8>, b: Seq<u8>) -> bool
    decreases a.len(),
{
    if a.len() == 0 {
        true
    } else if b.len() == 0 {
        false
    } else if a[0] != b[0] {
        a[0] < b[0]
    } else {
        bytes_leq(a.drop_first(), b.drop_first())
    }
}

pub proof fn lemma_bytes_leq_reflexive(a: Seq<u8>)
    ensures
        bytes_leq(a, a),
    decreases a.len(),
{
    if a.len() > 0 {
        lemma_bytes_leq_reflexive(a.drop_first());
    }
}

pub proof fn lemma_bytes_leq_antisymmetric(a: Seq<u8>, b: Seq<u8>)
    requires
        bytes_leq(a, b),
        bytes_leq(b, a),
    ensures
        a == b,
    decreases a.len(),
{
    if a.len() == 0 {
        assert(b.len() == 0);
        assert(a =~= b);
    } else {
        assert(b.len() > 0);
        assert(a[0] == b[0]);
        lemma_bytes_leq_antisymmetric(a.drop_first(), b.drop_first());
        assert(a =~= seq![a[0]] + a.drop_first());
        assert(b =~= seq![b[0]] + b.drop_first());
    }
}

pub proof fn lemma_bytes_leq_transitive(a: Seq<u8>, b: Seq<u8>, c: Seq<u8>)
    requires
        bytes_leq(a, b),
        bytes_leq(b, c),
    ensures
        bytes_leq(a, c),
    decreases a.len(),
{
    if a.len() > 0 && b.len() > 0 && c.len() > 0 && a[0] == b[0] && b[0] == c[0] {
        lemma_bytes_leq_transitive(a.drop_first(), b.drop_first(), c.drop_first());
    }
}

pub proof fn lemma_bytes_leq_total(a: Seq<u8>, b: Seq<u8>)
    ensures
        bytes_leq(a, b) || bytes_leq(b, a),
    decreases a.len(),
{
    if a.len() > 0 && b.len() > 0 && a[0] == b[0] {
        lemma_bytes_leq_total(a.drop_first(), b.drop_first());
    }
}

/// Sequences that agree on their first `i` bytes compare as what follows.
pub proof fn lemma_bytes_leq_skip(a: Seq<u8>, b: Seq<u8>, i: int)
    requires
        0 <= i <= a.len(),
        i <= b.len(),
        a.take(i) == b.take(i),
    ensures
        bytes_leq(a, b) == bytes_leq(a.skip(i), b.skip(i)),
    decreases i,
{
    if i == 0 {
        assert(a.skip(0) =~= a);
        assert(b.skip(0) =~= b);
    } else {
        assert(a[0] == a.take(i)[0]);
        assert(b[0] == b.take(i)[0]);
        assert(a.drop_first().take(i - 1) =~= a.take(i).drop_first());
        assert(b.drop_first().take(i - 1) =~= b.take(i).drop_first());
        lemma_bytes_leq_skip(a.drop_first(), b.drop_first(), i - 1);
        assert(a.drop_first().skip(i - 1) =~= a.skip(i));
        assert(b.drop_first().skip(i - 1) =~= b.skip(i));
    }
}

/// Compares two byte strings as `str` does.
pub fn bytes_le(a: &[u8], b: &[u8]) -> (r: bool)
    ensures
        r == bytes_leq(a@, b@),
{
    let mut i: usize = 0;
    while i < a.len() && i < b.len() && a[i] == b[i]
        invariant
            0 <= i <= a@.len(),
            i <= b@.len(),
            a@.take(i as int) == b@.take(i as int),
        decreases a@.len() - i,
    {
        proof {
            assert(a@.take(i + 1) =~= a@.take(i as int).push(a@[i as int]));
            assert(b@.take(i + 1) =~= b@.take(i as int).push(b@[i as int]));
        }
        i = i + 1;
    }
    proof {
        lemma_bytes_leq_skip(a@, b@, i as int);
    }
    if i == a.len() {
        true
    } else if i == b.len() {
        false
    } else {
        proof {
            assert(a@.skip(i as int)[0] == a@[i as int]);
            assert(b@.skip(i as int)[0] == b@[i as int]);
        }
        a[i] < b[i]
    }
}

/// What `str::to_lowercase` makes of a string (full Unicode lower case).
pub uninterp spec fn unicode_lowercase(s: Seq<char>) -> Seq<char>;

/// `str::to_lowercase`: the string in Unicode lower case.
#[verifier::external_body]
pub(crate) fn to_lowercase(s: &str) -> (r: String)
    ensures
        r@ == unicode_lowercase(s@),
{
    s.to_lowercase()
}

/// The position of the last `c` in `s`, or -1.
pub open spec fn last_index_of(s: Seq<char>, c: char) -> int
    decreases s.len(),
{
    if s.len() == 0 {
        -1
    } else if s.last() == c {
        s.len() - 1
    } else {
        last_index_of(s.drop_last(), c)
    }
}

/// `last_index_of` finds the last occurrence, or -1 when there is none.
pub proof fn lemma_last_index_of(s: Seq<char>, c: char)
    ensures
        -1 <= last_index_of(s, c) < s.len(),
        last_index_of(s, c) >= 0 ==> s[last_index_of(s, c)] == c,
        forall|k: int| last_index_of(s, c) < k < s.len() ==> #[trigger] s[k] != c,
    decreases s.len(),
{
    if s.len() > 0 && s.last() != c {
        lemma_last_index_of(s.drop_last(), c);
        assert forall|k: int| last_index_of(s, c) < k < s.len() implies #[trigger] s[k] != c by {
            if k < s.len() - 1 {
                assert(s[k] == s.drop_last()[k]);
            }
        }
    }
}

/// The position of the last `c` in `s`, if any.
pub fn find_last(s: &[char], c: char) -> (r: Option<usize>)
    ensures
        match r {
            Some(i) => last_index_of(s@, c) == i && i < s@.len() && s@[i as int] == c,
            None => last_index_of(s@, c) == -1,
        },
{
    let mut i: usize = s.len();
    proof {
        assert(s@.take(s@.len() as int) =~= s@);
        lemma_last_index_of(s@, c);
    }
    while i > 0
        invariant
            0 <= i <= s@.len(),
            last_index_of(s@, c) == last_index_of(s@.take(i as int), c),
        decreases i,
    {
        proof {
            assert(s@.take(i as int).drop_last() =~= s@.take(i - 1));
            assert(s@.take(i as int).last() == s@[i - 1]);
        }
        if s[i - 1] == c {
            return Some(i - 1);
        }
        i = i - 1;
    }
    proof {
        assert(s@.take(0) =~= Seq::<char>::empty());
    }
    None
}

/// What `str::to_uppercase` makes of a string (full Unicode upper case).
pub uninterp spec fn unicode_uppercase(s: Seq<char>) -> Seq<char>;

/// `str::to_uppercase`: the string in Unicode upper case.
#[verifier::external_body]
pub(crate) fn to_uppercase(s: &str) -> (r: String)
    ensures
        r@ == unicode_uppercase(s@),
{
    s.to_uppercase()
}

/// Lines written one after the other, each followed by `nl`.
pub open spec fn lines_text(lines: Seq<Seq<char>>, nl: Seq<char>) -> Seq<char>
    decreases lines.len(),
{
    if lines.len() == 0 {
        Seq::empty()
    } else {
        lines_text(lines.drop_last(), nl) + lines.last() + nl
    }
}

/// A line that `str::lines` gives back as it is after the line ending
/// `nl`: it holds no line feed, and, after a bare line feed, does not end
/// with a carriage return.
pub open spec fn line_fits(line: Seq<char>, nl: Seq<char>) -> bool {
    &&& !line.contains('\n')
    &&& (nl == "\n"@ ==> !(line.len() > 0 && line.last() == '\r'))
}

pub proof fn lemma_join_lines_text(lines: Seq<Seq<char>>, nl: Seq<char>)
    requires
        lines.len() > 0,
    ensures
        join_with(lines, nl) + nl == lines_text(lines, nl),
    decreases lines.len(),
{
    if lines.len() == 1 {
        assert(lines.drop_last().len() == 0);
        assert(lines_text(lines.drop_last(), nl) == Seq::<char>::empty());
        assert(lines.last() == lines[0]);
        assert(Seq::<char>::empty() + lines[0] + nl =~= lines[0] + nl);
    } else {
        lemma_join_lines_text(lines.drop_last(), nl);
        assert(join_with(lines, nl) + nl =~= (join_with(lines.drop_last(), nl) + nl) + lines.last() + nl);
    }
}

proof fn lemma_lines_text_front(lines: Seq<Seq<char>>, nl: Seq<char>)
    requires
        lines.len() > 0,
    ensures
        lines_text(lines, nl) == lines[0] + nl + lines_text(lines.skip(1), nl),
    decreases lines.len(),
{
    if lines.len() == 1 {
        assert(lines.skip(1).len() == 0);
        assert(lines_text(lines.skip(1), nl) == Seq::<char>::empty());
        assert(lines_text(lines.drop_last(), nl) == Seq::<char>::empty());
        assert(lines[0] + nl + Seq::<char>::empty() =~= Seq::<char>::empty() + lines.last() + nl);
    } else {
        let init = lines.drop_last();
        lemma_lines_text_front(init, nl);
        assert(lines.skip(1).drop_last() =~= init.skip(1));
        assert(lines.skip(1).last() == lines.last());
        assert(init[0] == lines[0]);
        assert(lines_text(lines, nl) =~= lines[0] + nl + lines_text(lines.skip(1), nl));
    }
}

proof fn lemma_find_from_shift(p: Seq<char>, s: Seq<char>, c: char, i: int)
    requires
        0 <= i,
    ensures
        find_from(p + s, c, p.len() + i) == p.len() + find_from(s, c, i),
    decreases s.len() - i,
{
    if i < s.len() {
        assert((p + s)[p.len() + i] == s[i]);
        if s[i] != c {
            lemma_find_from_shift(p, s, c, i + 1);
        }
    }
}

proof fn lemma_lines_from_shift(p: Seq<char>, s: Seq<char>, i: int)
    requires
        0 <= i,
    ensures
        lines_from(p + s, p.len() + i) == lines_from(s, i),
    decreases s.len() - i,
{
    if i < s.len() {
        lemma_find_from_shift(p, s, '\n', i);
        lemma_find_from(s, '\n', i);
        let j = find_from(s, '\n', i);
        if j >= s.len() {
            assert((p + s).subrange(p.len() + i, (p + s).len() as int) =~= s.subrange(i, s.len() as int));
        } else {
            assert((p + s).subrange(p.len() + i, p.len() + j) =~= s.subrange(i, j));
            lemma_lines_from_shift(p, s, j + 1);
        }
    }
}

proof fn lemma_lines_from_front(line: Seq<char>, nl: Seq<char>, rest: Seq<char>)
    requires
        nl == "\n"@ || nl == "\r\n"@,
        line_fits(line, nl),
    ensures
        lines_from(line + nl + rest, 0) == seq![line] + lines_from(rest, 0),
{
    reveal_strlit("\n");
    reveal_strlit("\r\n");
    let s = line + nl + rest;
    let m = line.len() as int;
    let j = m + nl.len() - 1;
    assert(s[j] == '\n');
    assert forall|k: int| 0 <= k < j implies #[trigger] s[k] != '\n' by {
        if k < m {
            assert(s[k] == line[k]);
            assert(line.contains(line[k]));
        } else {
            assert(s[k] == '\r');
        }
    }
    lemma_find_from(s, '\n', 0);
    assert(find_from(s, '\n', 0) == j);
    if nl == "\n"@ {
        assert(s.subrange(0, j) =~= line);
    } else {
        assert(s.subrange(0, j) =~= line.push('\r'));
        assert(line.push('\r').drop_last() =~= line);
    }
    assert(strip_cr(s.subrange(0, j)) == line);
    lemma_lines_from_shift(line + nl, rest, 0);
    assert(line + nl + rest =~= (line + nl) + rest);
}

/// `str::lines` gives back the lines of a text made of lines that each
/// end with the same line ending.
pub proof fn lemma_lines_of_lines_text(lines: Seq<Seq<char>>, nl: Seq<char>)
    requires
        nl == "\n"@ || nl == "\r\n"@,
        forall|i: int| 0 <= i < lines.len() ==> line_fits(#[trigger] lines[i], nl),
    ensures
        lines_of(lines_text(lines, nl)) == lines,
    decreases lines.len(),
{
    if lines.len() == 0 {
        assert(lines_of(Seq::<char>::empty()) =~= Seq::<Seq<char>>::empty());
    } else {
        lemma_lines_text_front(lines, nl);
        assert(line_fits(lines[0], nl));
        assert forall|i: int| 0 <= i < lines.skip(1).len() implies line_fits(#[trigger] lines.skip(1)[i], nl) by {
            assert(lines.skip(1)[i] == lines[i + 1]);
        }
        lemma_lines_of_lines_text(lines.skip(1), nl);
        lemma_lines_from_front(lines[0], nl, lines_text(lines.skip(1), nl));
        assert(seq![lines[0]] + lines.skip(1) =~= lines);
    }
}

/// A text of fitting lines ended by bare line feeds holds no CRLF.
pub proof fn lemma_lines_text_lf(lines: Seq<Seq<char>>)
    requires
        forall|i: int| 0 <= i < lines.len() ==> line_fits(#[trigger] lines[i], "\n"@),
    ensures
        !contains_seq(lines_text(lines, "\n"@), "\r\n"@),
    decreases lines.len(),
{
    reveal_strlit("\n");
    reveal_strlit("\r\n");
    if lines.len() > 0 {
        let init = lines.drop_last();
        assert forall|i: int| 0 <= i < init.len() implies line_fits(#[trigger] init[i], "\n"@) by {
            assert(init[i] == lines[i]);
        }
        lemma_lines_text_lf(init);
        let a = lines_text(init, "\n"@);
        let l = lines.last();
        assert(line_fits(lines[lines.len() - 1], "\n"@));
        let t = lines_text(lines, "\n"@);
        assert(t =~= a + l + "\n"@);
        if contains_seq(t, "\r\n"@) {
            let i = choose|i: int| occurs_at(t, "\r\n"@, i);
            let w = t.subrange(i, i + 2);
            assert(w == "\r\n"@);
            assert(w[0] == t[i] && w[1] == t[i + 1]);
            assert("\r\n"@[0] == '\r' && "\r\n"@[1] == '\n');
            assert(t[i] == '\r' && t[i + 1] == '\n');
            if i + 1 < a.len() {
                assert(occurs_at(a, "\r\n"@, i)) by {
                    assert(a.subrange(i, i + 2) =~= t.subrange(i, i + 2));
                }
            } else if i + 1 == a.len() {
                assert(a[a.len() - 1] == '\n' || a.len() == 0) by {
                    if init.len() > 0 {
                        assert(a =~= lines_text(init.drop_last(), "\n"@) + init.last() + "\n"@);
                    }
                }
            } else if i + 1 < a.len() + l.len() {
                assert(l[i + 1 - a.len()] == '\n');
                assert(l.contains('\n'));
            } else if i + 1 == a.len() + l.len() {
                assert(l.len() > 0 && l.last() == '\r');
            }
        }
    }
}

/// The lines `str::lines` gives hold no line feed; when the text holds no
/// CRLF and does not end with a carriage return, none ends with one.
pub proof fn lemma_lines_from_fit(s: Seq<char>, i: int)
    requires
        0 <= i,
    ensures
        forall|k: int| 0 <= k < lines_from(s, i).len() ==> line_fits(#[trigger] lines_from(s, i)[k], "\r\n"@),
        !contains_seq(s, "\r\n"@) && (s.len() == 0 || s.last() != '\r') ==> forall|k: int|
            0 <= k < lines_from(s, i).len() ==> line_fits(#[trigger] lines_from(s, i)[k], "\n"@),
    decreases s.len() - i,
{
    reveal_strlit("\n");
    reveal_strlit("\r\n");
    if i < s.len() {
        lemma_find_from(s, '\n', i);
        let j = find_from(s, '\n', i);
        let ls = lines_from(s, i);
        if j >= s.len() {
            let line = s.subrange(i, s.len() as int);
            assert(ls == seq![line]);
            assert(!line.contains('\n')) by {
                if line.contains('\n') {
                    let k = choose|k: int| 0 <= k < line.len() && line[k] == '\n';
                    assert(s[i + k] == '\n');
                }
            }
            assert(line.len() > 0 && line.last() == s.last());
        } else {
            let raw = s.subrange(i, j);
            let line = strip_cr(raw);
            lemma_lines_from_fit(s, j + 1);
            let rest = lines_from(s, j + 1);
            assert(ls == seq![line] + rest);
            assert(!line.contains('\n')) by {
                if line.contains('\n') {
                    let k = choose|k: int| 0 <= k < line.len() && line[k] == '\n';
                    assert(raw[k] == '\n');
                    assert(s[i + k] == '\n');
                }
            }
            if !contains_seq(s, "\r\n"@) && line.len() > 0 && line.last() == '\r' {
                if raw.len() > 0 && raw.last() == '\r' {
                    assert(occurs_at(s, "\r\n"@, j - 1)) by {
                        assert(s.subrange(j - 1, j + 1) =~= "\r\n"@);
                    }
                } else {
                    assert(line == raw);
                }
            }
            assert forall|k: int| 0 <= k < ls.len() implies line_fits(#[trigger] ls[k], "\r\n"@) by {
                if k > 0 {
                    assert(ls[k] == rest[k - 1]);
                }
            }
            if !contains_seq(s, "\r\n"@) && (s.len() == 0 || s.last() != '\r') {
                assert forall|k: int| 0 <= k < ls.len() implies line_fits(#[trigger] ls[k], "\n"@) by {
                    if k > 0 {
                        assert(ls[k] == rest[k - 1]);
                    }
                }
            }
        }
    }
}

/// A final line feed adds no line to a text that ends with neither a line
/// feed nor a carriage return.
pub proof fn lemma_lines_final_newline(s: Seq<char>, i: int)
    requires
        0 <= i < s.len(),
        s.last() != '\n',
        s.last() != '\r',
    ensures
        lines_from(s + "\n"@, i) == lines_from(s, i),
    decreases s.len() - i,
{
    reveal_strlit("\n");
    let t = s + "\n"@;
    lemma_find_from(s, '\n', i);
    lemma_find_from(t, '\n', i);
    let j = find_from(s, '\n', i);
    assert forall|k: int| i <= k < j implies #[trigger] t[k] != '\n' by {
        assert(t[k] == s[k]);
    }
    if j >= s.len() {
        assert(t[s.len() as int] == '\n');
        assert(find_from(t, '\n', i) == s.len());
        let seg = s.subrange(i, s.len() as int);
        assert(t.subrange(i, s.len() as int) =~= seg);
        assert(seg.last() == s.last());
        assert(strip_cr(seg) == seg);
        assert(lines_from(t, s.len() + 1int) == Seq::<Seq<char>>::empty());
        assert(lines_from(t, i) =~= seq![seg]);
    } else {
        assert(t[j] == '\n');
        assert(find_from(t, '\n', i) == j);
        assert(t.subrange(i, j) =~= s.subrange(i, j));
        assert(j + 1 < s.len());
        lemma_lines_final_newline(s, j + 1);
    }
}

/// The number that a sequence of decimal digits writes.
pub open spec fn decimal_value(s: Seq<char>) -> int
    decreases s.len(),
{
    if s.len() == 0 {
        0
    } else {
        decimal_value(s.drop_last()) * 10 + (s.last() as int - '0' as int)
    }
}

/// A number is written in decimal with the digits `0` to `9`, without a
/// leading zero (but for zero itself), and the digits read back as the
/// number.
pub proof fn law_decimal_reads_back(x: nat)
    ensures
        decimal(x).len() > 0,
        forall|k: int| 0 <= k < decimal(x).len() ==> '0' <= #[trigger] decimal(x)[k] <= '9',
        x > 0 ==> decimal(x)[0] != '0',
        decimal_value(decimal(x)) == x,
    decreases x,
{
    assert(decimal_digit(x % 10) as int == x % 10 + 48);
    if x >= 10 {
        law_decimal_reads_back(x / 10);
        let d = decimal(x / 10);
        assert(decimal(x) == d.push(decimal_digit(x % 10)));
        assert(decimal(x).drop_last() =~= d);
        assert(decimal(x).last() == decimal_digit(x % 10));
        assert('0' as int == 48);
        assert(decimal_value(decimal(x)) == decimal_value(d) * 10 + (x % 10));
    } else {
        assert(decimal_digit(x) as int == x + 48);
        assert(decimal(x).drop_last() =~= Seq::<char>::empty());
        assert(decimal_value(Seq::<char>::empty()) == 0);
        assert('0' as int == 48);
        assert(decimal_value(decimal(x)) == decimal_value(decimal(x).drop_last()) * 10 + (decimal(x).last() as int - '0' as int));
    }
}

/// The number that a sequence of lower-case hexadecimal digits writes.
pub open spec fn hex_value(s: Seq<char>) -> int
    decreases s.len(),
{
    if s.len() == 0 {
        0
    } else {
        hex_value(s.drop_last()) * 16 + (if s.last() <= '9' {
            s.last() as int - '0' as int
        } else {
            s.last() as int - 'a' as int + 10
        })
    }
}

/// `hex_fixed(x, width)` writes the low `width` hexadecimal digits of `x`,
/// in lower case: `width` characters from `0`-`9` and `a`-`f` that read
/// back as `x` modulo `16^width`.
pub proof fn law_hex_fixed_reads_back(x: nat, width: nat)
    ensures
        hex_fixed(x, width).len() == width,
        forall|k: int| 0 <= k < width ==> ('0' <= #[trigger] hex_fixed(x, width)[k] <= '9' || 'a' <= hex_fixed(x, width)[k] <= 'f'),
        hex_value(hex_fixed(x, width)) == (x as int) % vstd::arithmetic::power::pow(16, width),
    decreases width,
{
    if width == 0 {
        assert(vstd::arithmetic::power::pow(16, 0) == 1) by {
            vstd::arithmetic::power::lemma_pow0(16);
        }
    } else {
        let w = (width - 1) as nat;
        law_hex_fixed_reads_back(x / 16, w);
        let h = hex_fixed(x / 16, w);
        assert(hex_fixed(x, width).drop_last() =~= h);
        let p = vstd::arithmetic::power::pow(16, w);
        vstd::arithmetic::power::lemma_pow_positive(16, w);
        assert(vstd::arithmetic::power::pow(16, width) == 16 * p) by {
            vstd::arithmetic::power::lemma_pow_adds(16, 1, w);
            vstd::arithmetic::power::lemma_pow1(16);
        }
        let d = x % 16;
        assert(hex_value(hex_fixed(x, width)) == ((x / 16) as int) % p * 16 + d);
        assert(((x / 16) as int) % p * 16 + (x as int) % 16 == (x as int) % (16 * p)) by {
            vstd::arithmetic::div_mod::lemma_breakdown(x as int, 16, p);
        }
    }
}

/// ASCII case changes touch letters only: upper-case `A`-`Z` and lower-case
/// `a`-`z` correspond letter for letter, and every other character is left
/// as it is.
pub proof fn law_ascii_case_maps_letters(c: char)
    ensures
        'A' <= c <= 'Z' ==> 'a' <= ascii_lower(c) <= 'z' && ascii_lower(c) as int - 'a' as int == c as int - 'A' as int,
        'a' <= c <= 'z' ==> 'A' <= ascii_upper(c) <= 'Z' && ascii_upper(c) as int - 'A' as int == c as int - 'a' as int,
        !('A' <= c <= 'Z') ==> ascii_lower(c) == c,
        !('a' <= c <= 'z') ==> ascii_upper(c) == c,
        ascii_upper(ascii_lower(c)) == ascii_upper(c),
        ascii_lower(ascii_upper(c)) == ascii_lower(c),
{
}

/// The order of `str` is lexicographic on the bytes: a prefix comes
/// first, and otherwise the first differing byte decides, the smaller one
/// first.
pub proof fn law_bytes_order_is_lexicographic(a: Seq<u8>, b: Seq<u8>, k: int)
    ensures
        a.len() <= b.len() && b.take(a.len() as int) == a ==> bytes_leq(a, b),
        a.len() < b.len() && b.take(a.len() as int) == a ==> !bytes_leq(b, a),
        0 <= k < a.len() && k < b.len() && a.take(k) == b.take(k) && a[k] != b[k] ==> (bytes_leq(a, b) <==> a[k] < b[k]),
    decreases a.len(),
{
    if a.len() > 0 && b.len() > 0 {
        let a1 = a.drop_first();
        let b1 = b.drop_first();
        law_bytes_order_is_lexicographic(a1, b1, k - 1);
        if a.len() <= b.len() && b.take(a.len() as int) == a {
            assert(a[0] == b.take(a.len() as int)[0]);
            assert(b1.take(a1.len() as int) =~= a1) by {
                assert forall|j: int| 0 <= j < a1.len() implies #[trigger] b1.take(a1.len() as int)[j] == a1[j] by {
                    assert(b.take(a.len() as int)[j + 1] == a[j + 1]);
                }
            }
        }
        if 0 < k < a.len() && k < b.len() && a.take(k) == b.take(k) && a[k] != b[k] {
            assert(a[0] == a.take(k)[0] && b[0] == b.take(k)[0]);
            assert(a1.take(k - 1) =~= b1.take(k - 1)) by {
                assert forall|j: int| 0 <= j < k - 1 implies #[trigger] a1.take(k - 1)[j] == b1.take(k - 1)[j] by {
                    assert(a.take(k)[j + 1] == b.take(k)[j + 1]);
                }
            }
        }
    } else if a.len() > 0 {
        assert(b.len() == 0);
    }
}

} // verus!
