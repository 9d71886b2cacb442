//! The rules a new file or folder name must follow on Windows.

use vstd::prelude::*;
use crate::sdk::utf16_of;
use crate::text::{
    chars_eq, chars_of, ends_with, lemma_find_from, find_char_from, find_from, sub_chars,
    trim_chars, trimmed, upper_chars, upper_seq, ascii_upper, white_space, trim_start, trim_end,
};

verus! {

broadcast use vstd::string::group_string_axioms;

/// Why a name cannot be used on Windows.
#[derive(Debug, Clone, Copy, PartialEq, Eq, Structural)]
pub enum WindowsNameError {
    EmptyOrSurroundedByWhitespace,
    InvalidCharacter,
    Reserved,
    TooLong,
}

/// The message shown for a refused name.
pub open spec fn name_error_text(e: WindowsNameError) -> Seq<char> {
    match e {
        WindowsNameError::EmptyOrSurroundedByWhitespace =>
            "The name cannot be empty or start or end with a space."@,
        WindowsNameError::InvalidCharacter =>
            "This name contains a character that is not allowed on Windows."@,
        WindowsNameError::Reserved => "This name is reserved by Windows."@,
        WindowsNameError::TooLong => "The name cannot be longer than 255 UTF-16 code units."@,
    }
}

impl WindowsNameError {
    /// The sentence shown to the user.
    pub fn message(&self) -> (m: String)
        ensures
            m@ == name_error_text(*self),
    {
        match self {
            WindowsNameError::EmptyOrSurroundedByWhitespace => String::from_str(
                "The name cannot be empty or start or end with a space.",
            ),
            WindowsNameError::InvalidCharacter => String::from_str(
                "This name contains a character that is not allowed on Windows.",
            ),
            WindowsNameError::Reserved => String::from_str("This name is reserved by Windows."),
            WindowsNameError::TooLong => String::from_str(
                "The name cannot be longer than 255 UTF-16 code units.",
            ),
        }
    }
}

/// A character that Windows refuses in names: control characters and `<>:"/\|?*`.
pub open spec fn forbidden_name_char(c: char) -> bool {
    c < ' ' || c == '<' || c == '>' || c == ':' || c == '"' || c == '/' || c == '\\' || c == '|'
        || c == '?' || c == '*'
}

/// The part of a name before its first dot, without trailing spaces, in
/// ASCII upper case.
pub open spec fn name_stem(name: Seq<char>) -> Seq<char> {
    upper_seq(trim_stem(name.take(find_from(name, '.', 0))))
}

/// A stem without its trailing dots and spaces.
pub open spec fn trim_stem(s: Seq<char>) -> Seq<char>
    decreases s.len(),
{
    if s.len() > 0 && (s.last() == '.' || s.last() == ' ') {
        trim_stem(s.drop_last())
    } else {
        s
    }
}

/// The port digits that follow `COM` and `LPT` in reserved names.
pub open spec fn port_digit(s: Seq<char>) -> bool {
    s.len() == 1 && (('1' <= s[0] <= '9') || s[0] == '¹' || s[0] == '²' || s[0] == '³')
}

/// A stem that names a Windows device.
pub open spec fn reserved_stem(stem: Seq<char>) -> bool {
    ||| stem == "CON"@
    ||| stem == "PRN"@
    ||| stem == "AUX"@
    ||| stem == "NUL"@
    ||| stem == "CONIN$"@
    ||| stem == "CONOUT$"@
    ||| stem == "CLOCK$"@
    ||| (stem.len() >= 3 && stem.take(3) == "COM"@ && port_digit(stem.skip(3)))
    ||| (stem.len() >= 3 && stem.take(3) == "LPT"@ && port_digit(stem.skip(3)))
}

/// The first rule a name breaks, in the order they are checked, if any.
pub open spec fn name_error(name: Seq<char>) -> Option<WindowsNameError> {
    if trimmed(name).len() == 0 || trimmed(name) != name {
        Some(WindowsNameError::EmptyOrSurroundedByWhitespace)
    } else if ends_with(name, "."@) || exists|i: int| 0 <= i < name.len() && forbidden_name_char(#[trigger] name[i]) {
        Some(WindowsNameError::InvalidCharacter)
    } else if reserved_stem(name_stem(name)) {
        Some(WindowsNameError::Reserved)
    } else if utf16_of(name).len() > 255 {
        Some(WindowsNameError::TooLong)
    } else {
        None
    }
}


/// A prefix never needs more UTF-16 code units than the whole sequence.
proof fn lemma_utf16_prefix(s: Seq<char>, i: int)
    requires
        0 <= i <= s.len(),
    ensures
        utf16_of(s.take(i)).len() <= utf16_of(s).len(),
    decreases s.len() - i,
{
    if i < s.len() {
        lemma_utf16_prefix(s, i + 1);
        assert(s.take(i + 1).drop_last() == s.take(i));
    } else {
        assert(s.take(i) == s);
    }
}

/// Whether a character sequence needs more than `limit` UTF-16 code units.
fn utf16_longer_than(s: &[char], limit: u64) -> (r: bool)
    requires
        limit <= 0x1000,
    ensures
        r == (utf16_of(s@).len() > limit),
{
    let mut n: u64 = 0;
    let mut i: usize = 0;
    while i < s.len()
        invariant
            0 <= i <= s@.len(),
            limit <= 0x1000,
            n == utf16_of(s@.take(i as int)).len(),
            n <= limit,
        decreases s@.len() - i,
    {
        proof {
            assert(s@.take(i as int + 1).drop_last() == s@.take(i as int));
        }
        if (s[i] as u32) < 0x10000 {
            n = n + 1;
        } else {
            n = n + 2;
        }
        i = i + 1;
        if n > limit {
            proof {
                lemma_utf16_prefix(s@, i as int);
            }
            return true;
        }
    }
    proof {
        assert(s@.take(s@.len() as int) == s@);
    }
    false
}

/// Whether a stem names a Windows device.
fn is_reserved_stem(stem: &[char]) -> (r: bool)
    ensures
        r == reserved_stem(stem@),
{
    if chars_eq(stem, &chars_of("CON")) || chars_eq(stem, &chars_of("PRN")) || chars_eq(
        stem,
        &chars_of("AUX"),
    ) || chars_eq(stem, &chars_of("NUL")) || chars_eq(stem, &chars_of("CONIN$")) || chars_eq(
        stem,
        &chars_of("CONOUT$"),
    ) || chars_eq(stem, &chars_of("CLOCK$")) {
        return true;
    }
    if stem.len() != 4 {
        proof {
            assert(!(stem@.len() >= 3 && port_digit(stem@.skip(3))));
        }
        return false;
    }
    let head = sub_chars(stem, 0, 3);
    let d = stem[3];
    let digit = ('1' <= d && d <= '9') || d == '¹' || d == '²' || d == '³';
    proof {
        assert(head@ == stem@.take(3));
        assert(stem@.skip(3) =~= seq![d]);
    }
    digit && (chars_eq(&head, &chars_of("COM")) || chars_eq(&head, &chars_of("LPT")))
}

/// Checks a new file or folder name against the Windows rules: not empty nor
/// surrounded by white space, no forbidden character nor final dot, not a
/// device name, at most 255 UTF-16 code units.
pub fn validate_windows_name(name: &str) -> (r: Result<(), WindowsNameError>)
    ensures
        r matches Ok(_) <==> name_error(name@) is None,
        r matches Err(e) ==> name_error(name@) == Some(e),
{
    let chars = chars_of(name);
    let trimmed_name = trim_chars(&chars);
    if trimmed_name.len() == 0 || !chars_eq(&trimmed_name, &chars) {
        return Err(WindowsNameError::EmptyOrSurroundedByWhitespace);
    }
    let n = chars.len();
    if chars[n - 1] == '.' {
        proof {
            reveal_strlit(".");
            assert(chars@.skip(n - 1) =~= "."@);
            assert(ends_with(name@, "."@));
            assert(trimmed(name@).len() > 0 && trimmed(name@) == name@);
        }
        return Err(WindowsNameError::InvalidCharacter);
    }
    proof {
        reveal_strlit(".");
        assert(!ends_with(chars@, "."@)) by {
            if ends_with(chars@, "."@) {
                assert(chars@.skip(n - 1)[0] == chars@[n - 1]);
            }
        }
    }
    let mut i: usize = 0;
    while i < n
        invariant
            0 <= i <= n,
            n == chars@.len(),
            chars@ == name@,
            trimmed(name@).len() > 0,
            trimmed(name@) == name@,
            !ends_with(name@, "."@),
            forall|k: int| 0 <= k < i ==> !forbidden_name_char(#[trigger] chars@[k]),
        decreases n - i,
    {
        let c = chars[i];
        if c < ' ' || c == '<' || c == '>' || c == ':' || c == '"' || c == '/' || c == '\\' || c == '|'
            || c == '?' || c == '*' {
            proof {
                assert(forbidden_name_char(chars@[i as int]));
            }
            return Err(WindowsNameError::InvalidCharacter);
        }
        i = i + 1;
    }
    let dot = find_char_from(&chars, '.', 0);
    proof {
        lemma_find_from(chars@, '.', 0);
    }
    let mut end = dot;
    let ghost head = chars@.take(dot as int);
    proof {
        assert(chars@.subrange(0, dot as int) == head);
    }
    while end > 0 && (chars[end - 1] == '.' || chars[end - 1] == ' ')
        invariant
            0 <= end <= dot <= n,
            n == chars@.len(),
            head == chars@.take(dot as int),
            trim_stem(head) == trim_stem(chars@.subrange(0, end as int)),
        decreases end,
    {
        proof {
            assert(chars@.subrange(0, end as int).drop_last() == chars@.subrange(0, end - 1));
        }
        end = end - 1;
    }
    let stem = upper_chars(&sub_chars(&chars, 0, end));
    if is_reserved_stem(&stem) {
        return Err(WindowsNameError::Reserved);
    }
    if utf16_longer_than(&chars, 255) {
        return Err(WindowsNameError::TooLong);
    }
    Ok(())
}

/// A character the French rename dialog refuses.
pub open spec fn rename_input_char_refused(c: char) -> bool {
    c == '<' || c == '>' || c == ':' || c == '"' || c == '/' || c == '\\' || c == '|' || c == '?' || c == '*'
}

/// What the French rename dialog says of a name it refuses, if it does.
pub open spec fn rename_input_problem(name: Seq<char>) -> Option<Seq<char>> {
    if trimmed(name).len() == 0 || trimmed(name) != name {
        Some("Le nom ne peut pas être vide ni commencer ou finir par un espace."@)
    } else if ends_with(name, "."@) || exists|i: int| 0 <= i < name.len() && rename_input_char_refused(#[trigger] name[i]) {
        Some("Ce nom contient un caractère interdit sous Windows."@)
    } else {
        None
    }
}

/// The check of the French rename dialog: a name that is not
/// blank nor surrounded by white space, without a final dot nor a
/// character that Windows forbids in names.
pub fn validate_rename_input(name: &str) -> (r: Result<(), String>)
    ensures
        match rename_input_problem(name@) {
            Some(m) => r matches Err(e) && e@ == m,
            None => r is Ok,
        },
{
    let chars = chars_of(name);
    let trimmed_name = trim_chars(&chars);
    if trimmed_name.len() == 0 || !chars_eq(&trimmed_name, &chars) {
        return Err(String::from_str("Le nom ne peut pas être vide ni commencer ou finir par un espace."));
    }
    let n = chars.len();
    let refused = String::from_str("Ce nom contient un caractère interdit sous Windows.");
    if chars[n - 1] == '.' {
        proof {
            reveal_strlit(".");
            assert(chars@.skip(n - 1) =~= "."@);
        }
        return Err(refused);
    }
    proof {
        reveal_strlit(".");
        assert(!ends_with(chars@, "."@)) by {
            if ends_with(chars@, "."@) {
                assert(chars@.skip(n - 1)[0] == chars@[n - 1]);
            }
        }
    }
    let mut i: usize = 0;
    while i < n
        invariant
            0 <= i <= n,
            n == chars@.len(),
            chars@ == name@,
            trimmed(name@).len() > 0,
            trimmed(name@) == name@,
            refused@ == "Ce nom contient un caractère interdit sous Windows."@,
            forall|k: int| 0 <= k < i ==> !rename_input_char_refused(#[trigger] chars@[k]),
        decreases n - i,
    {
        let c = chars[i];
        if c == '<' || c == '>' || c == ':' || c == '"' || c == '/' || c == '\\' || c == '|' || c == '?'
            || c == '*' {
            proof {
                assert(rename_input_char_refused(name@[i as int]));
            }
            return Err(refused);
        }
        i = i + 1;
    }
    Ok(())
}

/// A name that is neither empty nor surrounded by whitespace is refused
/// for its characters as soon as it holds any of `<`, `>`, `:`, `"`, `/`,
/// `\`, `|`, `?`, `*` or a control character below U+0020.
pub proof fn law_forbidden_characters_are_refused(name: Seq<char>, i: int)
    requires
        trimmed(name) == name,
        name.len() > 0,
        0 <= i < name.len(),
        ({
            let c = name[i];
            ||| c < '\u{20}'
            ||| c == '<'
            ||| c == '>'
            ||| c == ':'
            ||| c == '\u{22}'
            ||| c == '/'
            ||| c == '\u{5c}'
            ||| c == '|'
            ||| c == '?'
            ||| c == '*'
        }),
    ensures
        name_error(name) == Some(WindowsNameError::InvalidCharacter),
{
    assert(forbidden_name_char(name[i]));
}

/// A character of a device name: an ASCII letter, a digit from 1 to 9,
/// `$`, or one of `¹²³`.
pub open spec fn device_word_char(c: char) -> bool {
    ('A' <= c <= 'Z') || ('a' <= c <= 'z') || ('1' <= c <= '9') || c == '$' || c == '¹' || c == '²' || c == '³'
}

/// A device name is made of device-name characters, and its upper case is
/// a reserved stem.
#[verifier::rlimit(50)]
proof fn lemma_device_word(word: Seq<char>)
    requires
        upper_seq(word) == seq!['C', 'O', 'N'] || upper_seq(word) == seq!['P', 'R', 'N'] || upper_seq(word) == seq!['A', 'U', 'X'] || upper_seq(word) == seq!['N', 'U', 'L'] || upper_seq(word) == seq!['C', 'O', 'N', 'I', 'N', '$'] || upper_seq(word) == seq!['C', 'O', 'N', 'O', 'U', 'T', '$'] || upper_seq(word) == seq!['C', 'L', 'O', 'C', 'K', '$'] || upper_seq(word) == seq!['C', 'O', 'M', '1'] || upper_seq(word) == seq!['C', 'O', 'M', '2'] || upper_seq(word) == seq!['C', 'O', 'M', '3'] || upper_seq(word) == seq!['C', 'O', 'M', '4'] || upper_seq(word) == seq!['C', 'O', 'M', '5'] || upper_seq(word) == seq!['C', 'O', 'M', '6'] || upper_seq(word) == seq!['C', 'O', 'M', '7'] || upper_seq(word) == seq!['C', 'O', 'M', '8'] || upper_seq(word) == seq!['C', 'O', 'M', '9'] || upper_seq(word) == seq!['C', 'O', 'M', '¹'] || upper_seq(word) == seq!['C', 'O', 'M', '²'] || upper_seq(word) == seq!['C', 'O', 'M', '³'] || upper_seq(word) == seq!['L', 'P', 'T', '1'] || upper_seq(word) == seq!['L', 'P', 'T', '2'] || upper_seq(word) == seq!['L', 'P', 'T', '3'] || upper_seq(word) == seq!['L', 'P', 'T', '4'] || upper_seq(word) == seq!['L', 'P', 'T', '5'] || upper_seq(word) == seq!['L', 'P', 'T', '6'] || upper_seq(word) == seq!['L', 'P', 'T', '7'] || upper_seq(word) == seq!['L', 'P', 'T', '8'] || upper_seq(word) == seq!['L', 'P', 'T', '9'] || upper_seq(word) == seq!['L', 'P', 'T', '¹'] || upper_seq(word) == seq!['L', 'P', 'T', '²'] || upper_seq(word) == seq!['L', 'P', 'T', '³'],
    ensures
        word.len() > 0,
        forall|k: int| 0 <= k < word.len() ==> device_word_char(#[trigger] word[k]),
        reserved_stem(upper_seq(word)),
{
    reveal_strlit("CON");
    reveal_strlit("PRN");
    reveal_strlit("AUX");
    reveal_strlit("NUL");
    reveal_strlit("CONIN$");
    reveal_strlit("CONOUT$");
    reveal_strlit("CLOCK$");
    reveal_strlit("COM");
    reveal_strlit("LPT");
    let u = upper_seq(word);
    assert(u.len() == word.len());
    assert forall|k: int| 0 <= k < word.len() implies device_word_char(#[trigger] word[k]) by {
        assert(u[k] == ascii_upper(word[k]));
    }
    if u.len() == 4 {
        assert(u.take(3) =~= seq![u[0], u[1], u[2]]);
        assert(u.skip(3) =~= seq![u[3]]);
    }
    assert("COM"@ =~= seq!['C', 'O', 'M']);
    assert("LPT"@ =~= seq!['L', 'P', 'T']);
    assert("CON"@ =~= seq!['C', 'O', 'N']);
    assert("PRN"@ =~= seq!['P', 'R', 'N']);
    assert("AUX"@ =~= seq!['A', 'U', 'X']);
    assert("NUL"@ =~= seq!['N', 'U', 'L']);
    assert("CONIN$"@ =~= seq!['C', 'O', 'N', 'I', 'N', '$']);
    assert("CONOUT$"@ =~= seq!['C', 'O', 'N', 'O', 'U', 'T', '$']);
    assert("CLOCK$"@ =~= seq!['C', 'L', 'O', 'C', 'K', '$']);
}

/// A word of device-name characters whose upper case is a reserved stem,
/// alone or followed by a dot and an extension of ASCII letters and
/// digits, is refused as reserved.
proof fn lemma_device_name_reserved(word: Seq<char>, name: Seq<char>)
    requires
        word.len() > 0,
        forall|k: int| 0 <= k < word.len() ==> device_word_char(#[trigger] word[k]),
        reserved_stem(upper_seq(word)),
        name.len() >= word.len(),
        forall|k: int| 0 <= k < word.len() ==> #[trigger] name[k] == word[k],
        name.len() > word.len() ==> name.len() > word.len() + 1 && name[word.len() as int] == '.',
        forall|k: int|
            word.len() < k < name.len() ==> ('a' <= #[trigger] name[k] <= 'z' || 'A' <= name[k] <= 'Z' || '0'
                <= name[k] <= '9'),
    ensures
        name_error(name) == Some(WindowsNameError::Reserved),
{
    reveal_strlit(".");
    assert forall|k: int| 0 <= k < name.len() implies !white_space(#[trigger] name[k]) && !forbidden_name_char(
        name[k],
    ) by {
        if k < word.len() {
            assert(device_word_char(word[k]));
        }
    }
    assert(trim_start(name) == name);
    assert(trim_end(name) == name);
    assert(trimmed(name) == name);
    assert(!ends_with(name, "."@)) by {
        if ends_with(name, "."@) {
            assert(name.skip(name.len() - 1)[0] == name[name.len() - 1]);
            if name.len() - 1 < word.len() {
                assert(device_word_char(word[name.len() - 1]));
            }
        }
    }
    lemma_find_from(name, '.', 0);
    let f = find_from(name, '.', 0);
    if f < word.len() {
        assert(device_word_char(word[f]));
    }
    assert(f == word.len());
    assert(name.take(f) =~= word);
    assert(trim_stem(word) == word) by {
        assert(device_word_char(word.last()));
    }
}

/// The device names of Windows are refused as names, in any ASCII case
/// and with any extension: `CON`, `PRN`, `AUX`, `NUL`, `CONIN$`, `CONOUT$`,
/// `CLOCK$`, and `COM` or `LPT` followed by one of the digits 1 to 9, `¹`,
/// `²` or `³` (here with an extension of ASCII letters and digits).
pub proof fn law_device_names_are_reserved(word: Seq<char>, ext: Seq<char>)
    requires
        upper_seq(word) == seq!['C', 'O', 'N'] || upper_seq(word) == seq!['P', 'R', 'N'] || upper_seq(word) == seq!['A', 'U', 'X'] || upper_seq(word) == seq!['N', 'U', 'L'] || upper_seq(word) == seq!['C', 'O', 'N', 'I', 'N', '$'] || upper_seq(word) == seq!['C', 'O', 'N', 'O', 'U', 'T', '$'] || upper_seq(word) == seq!['C', 'L', 'O', 'C', 'K', '$'] || upper_seq(word) == seq!['C', 'O', 'M', '1'] || upper_seq(word) == seq!['C', 'O', 'M', '2'] || upper_seq(word) == seq!['C', 'O', 'M', '3'] || upper_seq(word) == seq!['C', 'O', 'M', '4'] || upper_seq(word) == seq!['C', 'O', 'M', '5'] || upper_seq(word) == seq!['C', 'O', 'M', '6'] || upper_seq(word) == seq!['C', 'O', 'M', '7'] || upper_seq(word) == seq!['C', 'O', 'M', '8'] || upper_seq(word) == seq!['C', 'O', 'M', '9'] || upper_seq(word) == seq!['C', 'O', 'M', '¹'] || upper_seq(word) == seq!['C', 'O', 'M', '²'] || upper_seq(word) == seq!['C', 'O', 'M', '³'] || upper_seq(word) == seq!['L', 'P', 'T', '1'] || upper_seq(word) == seq!['L', 'P', 'T', '2'] || upper_seq(word) == seq!['L', 'P', 'T', '3'] || upper_seq(word) == seq!['L', 'P', 'T', '4'] || upper_seq(word) == seq!['L', 'P', 'T', '5'] || upper_seq(word) == seq!['L', 'P', 'T', '6'] || upper_seq(word) == seq!['L', 'P', 'T', '7'] || upper_seq(word) == seq!['L', 'P', 'T', '8'] || upper_seq(word) == seq!['L', 'P', 'T', '9'] || upper_seq(word) == seq!['L', 'P', 'T', '¹'] || upper_seq(word) == seq!['L', 'P', 'T', '²'] || upper_seq(word) == seq!['L', 'P', 'T', '³'],
        forall|k: int| 0 <= k < ext.len() ==> ('a' <= #[trigger] ext[k] <= 'z' || 'A' <= ext[k] <= 'Z' || '0' <= ext[k] <= '9'),
    ensures
        name_error(word) == Some(WindowsNameError::Reserved),
        ext.len() > 0 ==> name_error(word + seq!['.'] + ext) == Some(WindowsNameError::Reserved),
{
    lemma_device_word(word);
    lemma_device_name_reserved(word, word);
    if ext.len() > 0 {
        let name = word + seq!['.'] + ext;
        assert forall|k: int| word.len() < k < name.len() implies ('a' <= #[trigger] name[k] <= 'z' || 'A' <= name[k]
            <= 'Z' || '0' <= name[k] <= '9') by {
            assert(name[k] == ext[k - word.len() - 1]);
        }
        lemma_device_name_reserved(word, name);
    }
}

/// What a refused name is told: each reason has its sentence.
pub proof fn law_name_errors_are_explained()
    ensures
        name_error_text(WindowsNameError::EmptyOrSurroundedByWhitespace) == seq!['T', 'h', 'e', ' ', 'n', 'a', 'm', 'e', ' ', 'c', 'a', 'n', 'n', 'o', 't', ' ', 'b', 'e', ' ', 'e', 'm', 'p', 't', 'y', ' ', 'o', 'r', ' ', 's', 't', 'a', 'r', 't', ' ', 'o', 'r', ' ', 'e', 'n', 'd', ' ', 'w', 'i', 't', 'h', ' ', 'a', ' ', 's', 'p', 'a', 'c', 'e', '.'],
        name_error_text(WindowsNameError::InvalidCharacter) == seq!['T', 'h', 'i', 's', ' ', 'n', 'a', 'm', 'e', ' ', 'c', 'o', 'n', 't', 'a', 'i', 'n', 's', ' ', 'a', ' ', 'c', 'h', 'a', 'r', 'a', 'c', 't', 'e', 'r', ' ', 't', 'h', 'a', 't', ' ', 'i', 's', ' ', 'n', 'o', 't', ' ', 'a', 'l', 'l', 'o', 'w', 'e', 'd', ' ', 'o', 'n', ' ', 'W', 'i', 'n', 'd', 'o', 'w', 's', '.'],
        name_error_text(WindowsNameError::Reserved) == seq!['T', 'h', 'i', 's', ' ', 'n', 'a', 'm', 'e', ' ', 'i', 's', ' ', 'r', 'e', 's', 'e', 'r', 'v', 'e', 'd', ' ', 'b', 'y', ' ', 'W', 'i', 'n', 'd', 'o', 'w', 's', '.'],
        name_error_text(WindowsNameError::TooLong) == seq!['T', 'h', 'e', ' ', 'n', 'a', 'm', 'e', ' ', 'c', 'a', 'n', 'n', 'o', 't', ' ', 'b', 'e', ' ', 'l', 'o', 'n', 'g', 'e', 'r', ' ', 't', 'h', 'a', 'n', ' ', '2', '5', '5', ' ', 'U', 'T', 'F', '-', '1', '6', ' ', 'c', 'o', 'd', 'e', ' ', 'u', 'n', 'i', 't', 's', '.'],
{
    reveal_strlit("The name cannot be empty or start or end with a space.");
    assert("The name cannot be empty or start or end with a space."@ =~= seq!['T', 'h', 'e', ' ', 'n', 'a', 'm', 'e', ' ', 'c', 'a', 'n', 'n', 'o', 't', ' ', 'b', 'e', ' ', 'e', 'm', 'p', 't', 'y', ' ', 'o', 'r', ' ', 's', 't', 'a', 'r', 't', ' ', 'o', 'r', ' ', 'e', 'n', 'd', ' ', 'w', 'i', 't', 'h', ' ', 'a', ' ', 's', 'p', 'a', 'c', 'e', '.']);
    reveal_strlit("This name contains a character that is not allowed on Windows.");
    assert("This name contains a character that is not allowed on Windows."@ =~= seq!['T', 'h', 'i', 's', ' ', 'n', 'a', 'm', 'e', ' ', 'c', 'o', 'n', 't', 'a', 'i', 'n', 's', ' ', 'a', ' ', 'c', 'h', 'a', 'r', 'a', 'c', 't', 'e', 'r', ' ', 't', 'h', 'a', 't', ' ', 'i', 's', ' ', 'n', 'o', 't', ' ', 'a', 'l', 'l', 'o', 'w', 'e', 'd', ' ', 'o', 'n', ' ', 'W', 'i', 'n', 'd', 'o', 'w', 's', '.']);
    reveal_strlit("This name is reserved by Windows.");
    assert("This name is reserved by Windows."@ =~= seq!['T', 'h', 'i', 's', ' ', 'n', 'a', 'm', 'e', ' ', 'i', 's', ' ', 'r', 'e', 's', 'e', 'r', 'v', 'e', 'd', ' ', 'b', 'y', ' ', 'W', 'i', 'n', 'd', 'o', 'w', 's', '.']);
    reveal_strlit("The name cannot be longer than 255 UTF-16 code units.");
    assert("The name cannot be longer than 255 UTF-16 code units."@ =~= seq!['T', 'h', 'e', ' ', 'n', 'a', 'm', 'e', ' ', 'c', 'a', 'n', 'n', 'o', 't', ' ', 'b', 'e', ' ', 'l', 'o', 'n', 'g', 'e', 'r', ' ', 't', 'h', 'a', 'n', ' ', '2', '5', '5', ' ', 'U', 'T', 'F', '-', '1', '6', ' ', 'c', 'o', 'd', 'e', ' ', 'u', 'n', 'i', 't', 's', '.']);
}

/// The rename dialog refuses a blank name or one surrounded by white
/// space, and a name that holds any of `<`, `>`, `:`, `"`, `/`, `\`, `|`,
/// `?`, `*`, with its own sentences.
pub proof fn law_rename_dialog_refuses_forbidden_characters(name: Seq<char>, i: int)
    ensures
        trimmed(name).len() == 0 ==> rename_input_problem(name) == Some(seq!['L', 'e', ' ', 'n', 'o', 'm', ' ', 'n', 'e', ' ', 'p', 'e', 'u', 't', ' ', 'p', 'a', 's', ' ', '\u{ea}', 't', 'r', 'e', ' ', 'v', 'i', 'd', 'e', ' ', 'n', 'i', ' ', 'c', 'o', 'm', 'm', 'e', 'n', 'c', 'e', 'r', ' ', 'o', 'u', ' ', 'f', 'i', 'n', 'i', 'r', ' ', 'p', 'a', 'r', ' ', 'u', 'n', ' ', 'e', 's', 'p', 'a', 'c', 'e', '.']),
        trimmed(name) == name && name.len() > 0 && 0 <= i < name.len() && (name[i] == '<' || name[i] == '>' || name[i]
            == ':' || name[i] == '\u{22}' || name[i] == '/' || name[i] == '\u{5c}' || name[i] == '|' || name[i] == '?'
            || name[i] == '*') ==> rename_input_problem(name) == Some(seq!['C', 'e', ' ', 'n', 'o', 'm', ' ', 'c', 'o', 'n', 't', 'i', 'e', 'n', 't', ' ', 'u', 'n', ' ', 'c', 'a', 'r', 'a', 'c', 't', '\u{e8}', 'r', 'e', ' ', 'i', 'n', 't', 'e', 'r', 'd', 'i', 't', ' ', 's', 'o', 'u', 's', ' ', 'W', 'i', 'n', 'd', 'o', 'w', 's', '.']),
{
    reveal_strlit("Le nom ne peut pas être vide ni commencer ou finir par un espace.");
    assert("Le nom ne peut pas être vide ni commencer ou finir par un espace."@ =~= seq!['L', 'e', ' ', 'n', 'o', 'm', ' ', 'n', 'e', ' ', 'p', 'e', 'u', 't', ' ', 'p', 'a', 's', ' ', '\u{ea}', 't', 'r', 'e', ' ', 'v', 'i', 'd', 'e', ' ', 'n', 'i', ' ', 'c', 'o', 'm', 'm', 'e', 'n', 'c', 'e', 'r', ' ', 'o', 'u', ' ', 'f', 'i', 'n', 'i', 'r', ' ', 'p', 'a', 'r', ' ', 'u', 'n', ' ', 'e', 's', 'p', 'a', 'c', 'e', '.']);
    reveal_strlit("Ce nom contient un caractère interdit sous Windows.");
    assert("Ce nom contient un caractère interdit sous Windows."@ =~= seq!['C', 'e', ' ', 'n', 'o', 'm', ' ', 'c', 'o', 'n', 't', 'i', 'e', 'n', 't', ' ', 'u', 'n', ' ', 'c', 'a', 'r', 'a', 'c', 't', '\u{e8}', 'r', 'e', ' ', 'i', 'n', 't', 'e', 'r', 'd', 'i', 't', ' ', 's', 'o', 'u', 's', ' ', 'W', 'i', 'n', 'd', 'o', 'w', 's', '.']);
    if trimmed(name) == name && name.len() > 0 && 0 <= i < name.len() && rename_input_char_refused(name[i]) {
        assert(exists|j: int| 0 <= j < name.len() && rename_input_char_refused(#[trigger] name[j]));
    }
}

} // verus!
