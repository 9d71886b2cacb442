//! The sidebar's type filters: each is a search term added to the query,
//! and at most one of them is in the query at a time.

use vstd::prelude::*;
use crate::text::{
    chars_eq, chars_of, is_white_space, join_chars, join_with, push_chars, string_of, sub_chars,
    trim_start, trim_start_index, white_space,
};

verus! {

broadcast use vstd::string::group_string_axioms;

/// One entry of the sidebar.
#[derive(Debug, Clone, Copy)]
pub struct SidebarFilter {
    pub label: &'static str,
    pub query: &'static str,
    pub section_label: Option<&'static str>,
}

/// The search term of each sidebar entry, in order: all files, folders,
/// documents, images, videos, audio and archives.
pub open spec fn sidebar_queries() -> Seq<Seq<char>> {
    seq![
        "*"@,
        "folder:"@,
        "ext:pdf;doc;docx;xls;xlsx;ppt;pptx;md;txt"@,
        "ext:png;jpg;jpeg;webp;gif;svg;avif"@,
        "ext:mp4;mkv;avi;mov;webm"@,
        "ext:mp3;wav;flac;m4a;m4b;aac;ogg;opus;wma;aif;aiff;ape;mid;midi"@,
        "ext:zip;7z;rar;tar;gz"@,
    ]
}

/// The entries of the sidebar, in order.
pub fn sidebar_filters() -> (filters: Vec<SidebarFilter>)
    ensures
        filters@.map_values(|f: SidebarFilter| f.query@) == sidebar_queries(),
        filters@.len() == 7,
        filters@[0].label@ == "All files"@,
        filters@[1].label@ == "Folders"@,
        filters@[2].label@ == "Documents"@,
        filters@[3].label@ == "Images"@,
        filters@[4].label@ == "Videos"@,
        filters@[5].label@ == "Audio"@,
        filters@[6].label@ == "Archives"@,
        filters@[1].section_label matches Some(t) && t@ == "Types"@,
        forall|k: int| 0 <= k < 7 && k != 1 ==> #[trigger] filters@[k].section_label is None,
{
    let filters = vec![
        SidebarFilter { label: "All files", query: "*", section_label: None },
        SidebarFilter { label: "Folders", query: "folder:", section_label: Some("Types") },
        SidebarFilter {
            label: "Documents",
            query: "ext:pdf;doc;docx;xls;xlsx;ppt;pptx;md;txt",
            section_label: None,
        },
        SidebarFilter {
            label: "Images",
            query: "ext:png;jpg;jpeg;webp;gif;svg;avif",
            section_label: None,
        },
        SidebarFilter { label: "Videos", query: "ext:mp4;mkv;avi;mov;webm", section_label: None },
        SidebarFilter {
            label: "Audio",
            query: "ext:mp3;wav;flac;m4a;m4b;aac;ogg;opus;wma;aif;aiff;ape;mid;midi",
            section_label: None,
        },
        SidebarFilter { label: "Archives", query: "ext:zip;7z;rar;tar;gz", section_label: None },
    ];
    proof {
        assert(filters@.map_values(|f: SidebarFilter| f.query@) =~= sidebar_queries());
    }
    filters
}

/// A word that is the term of a sidebar entry.
pub open spec fn is_sidebar_term(word: Seq<char>) -> bool {
    sidebar_queries().contains(word)
}

/// Whether a word is the term of a sidebar entry.
pub fn is_sidebar_query(word: &[char]) -> (r: bool)
    ensures
        r == is_sidebar_term(word@),
{
    let filters = sidebar_filters();
    let mut i: usize = 0;
    while i < filters.len()
        invariant
            0 <= i <= filters@.len(),
            filters@.map_values(|f: SidebarFilter| f.query@) == sidebar_queries(),
            forall|k: int| 0 <= k < i ==> sidebar_queries()[k] != word@,
        decreases filters@.len() - i,
    {
        if chars_eq(&chars_of(filters[i].query), word) {
            proof {
                assert(sidebar_queries()[i as int] == word@);
            }
            return true;
        }
        proof {
            assert(sidebar_queries()[i as int] == filters@[i as int].query@);
        }
        i = i + 1;
    }
    false
}

/// The length of the run of characters before the first white space.
pub open spec fn word_len(s: Seq<char>) -> nat
    decreases s.len(),
{
    if s.len() == 0 || white_space(s[0]) {
        0
    } else {
        1 + word_len(s.drop_first())
    }
}

pub proof fn lemma_word_len(s: Seq<char>)
    ensures
        word_len(s) <= s.len(),
        s.len() > 0 && !white_space(s[0]) ==> word_len(s) >= 1,
        word_len(s) < s.len() ==> white_space(s[word_len(s) as int]),
        forall|k: int| 0 <= k < word_len(s) ==> !white_space(#[trigger] s[k]),
    decreases s.len(),
{
    if s.len() > 0 && !white_space(s[0]) {
        lemma_word_len(s.drop_first());
        assert forall|k: int| 0 <= k < word_len(s) implies !white_space(#[trigger] s[k]) by {
            if k > 0 {
                assert(s[k] == s.drop_first()[k - 1]);
            }
        }
    }
}

pub proof fn lemma_trim_start(s: Seq<char>)
    ensures
        trim_start(s).len() <= s.len(),
        trim_start(s).len() > 0 ==> !white_space(trim_start(s)[0]),
    decreases s.len(),
{
    if s.len() > 0 && white_space(s[0]) {
        lemma_trim_start(s.drop_first());
    }
}

/// `str::split_whitespace`: the runs of characters between white space.
pub open spec fn words(s: Seq<char>) -> Seq<Seq<char>>
    decreases s.len(),
{
    let t = trim_start(s);
    if t.len() == 0 {
        Seq::empty()
    } else {
        proof {
            lemma_trim_start(s);
            lemma_word_len(t);
        }
        seq![t.take(word_len(t) as int)] + words(t.skip(word_len(t) as int))
    }
}

/// The length of the run of characters before the first white space.
fn word_end(s: &[char]) -> (k: usize)
    ensures
        k == word_len(s@),
{
    let mut k: usize = 0;
    proof {
        assert(s@.skip(0) =~= s@);
    }
    while k < s.len() && !is_white_space(s[k])
        invariant
            0 <= k <= s@.len(),
            word_len(s@) == k + word_len(s@.skip(k as int)),
        decreases s@.len() - k,
    {
        proof {
            assert(s@.skip(k as int).drop_first() =~= s@.skip(k + 1));
        }
        k = k + 1;
    }
    proof {
        if k < s.len() {
            assert(s@.skip(k as int)[0] == s@[k as int]);
        }
    }
    k
}

/// The words of a text, as `str::split_whitespace` gives them.
pub fn split_words(s: &[char]) -> (r: Vec<Vec<char>>)
    ensures
        r@.map_values(|w: Vec<char>| w@) == words(s@),
    decreases s@.len(),
{
    let lo = trim_start_index(s);
    let n = s.len();
    if lo == n {
        proof {
            assert(trim_start(s@).len() == 0);
        }
        return Vec::new();
    }
    let t = sub_chars(s, lo, n);
    proof {
        lemma_trim_start(s@);
        lemma_word_len(t@);
    }
    let k = word_end(&t);
    let rest = split_words(&sub_chars(&t, k, t.len()));
    let mut r: Vec<Vec<char>> = Vec::new();
    r.push(sub_chars(&t, 0, k));
    let mut i: usize = 0;
    proof {
        assert(t@.skip(k as int) =~= t@.subrange(k as int, t@.len() as int));
        assert(t@.take(k as int) =~= t@.subrange(0, k as int));
    }
    let ghost first = r@.map_values(|w: Vec<char>| w@);
    while i < rest.len()
        invariant
            0 <= i <= rest@.len(),
            r@.map_values(|w: Vec<char>| w@) == first + rest@.map_values(|w: Vec<char>| w@).take(
                i as int,
            ),
        decreases rest@.len() - i,
    {
        let w = sub_chars(&rest[i], 0, rest[i].len());
        let ghost before = r@.map_values(|w: Vec<char>| w@);
        r.push(w);
        proof {
            assert(r@.map_values(|w: Vec<char>| w@) =~= before.push(w@));
            assert(rest@[i as int]@.subrange(0, rest@[i as int]@.len() as int) =~= rest@[i as int]@);
            assert(r@.map_values(|w: Vec<char>| w@) =~= first + rest@.map_values(
                |w: Vec<char>| w@,
            ).take(i + 1));
        }
        i = i + 1;
    }
    proof {
        assert(rest@.map_values(|w: Vec<char>| w@).take(i as int) =~= rest@.map_values(
            |w: Vec<char>| w@,
        ));
        assert(r@.map_values(|w: Vec<char>| w@) =~= words(s@));
    }
    r
}

/// A word that is not the term of a sidebar entry.
pub open spec fn not_sidebar_term() -> spec_fn(Seq<char>) -> bool {
    |w: Seq<char>| !is_sidebar_term(w)
}

/// A word that is the term of a sidebar entry (as a predicate).
pub open spec fn sidebar_term() -> spec_fn(Seq<char>) -> bool {
    |w: Seq<char>| is_sidebar_term(w)
}

/// The query after choosing a sidebar entry: the words of the current
/// query that are not sidebar terms, joined by single spaces, then the
/// entry's term, unless it is the one for all files (`*`), which adds
/// nothing to a query that has words.
pub open spec fn with_sidebar_query(current: Seq<char>, item: Seq<char>) -> Seq<char> {
    let preserved = join_with(words(current).filter(not_sidebar_term()), " "@);
    if preserved.len() == 0 {
        item
    } else if item == "*"@ {
        preserved
    } else {
        preserved + " "@ + item
    }
}

/// The query after choosing the sidebar entry whose term is `item_query`.
pub fn apply_sidebar_query(current_query: &str, item_query: &str) -> (q: String)
    ensures
        q@ == with_sidebar_query(current_query@, item_query@),
{
    let all = split_words(&chars_of(current_query));
    let ghost seen = all@.map_values(|w: Vec<char>| w@);
    let mut kept: Vec<Vec<char>> = Vec::new();
    let mut i: usize = 0;
    while i < all.len()
        invariant
            0 <= i <= all@.len(),
            seen == all@.map_values(|w: Vec<char>| w@),
            kept@.map_values(|w: Vec<char>| w@) == seen.take(i as int).filter(not_sidebar_term()),
        decreases all@.len() - i,
    {
        let word = sub_chars(&all[i], 0, all[i].len());
        let ghost before = kept@.map_values(|w: Vec<char>| w@);
        proof {
            reveal(Seq::filter);
            assert(word@ =~= all@[i as int]@);
            assert(seen.take(i + 1).drop_last() =~= seen.take(i as int));
            assert(seen.take(i + 1).last() == word@);
        }
        if !is_sidebar_query(&word) {
            kept.push(word);
            proof {
                assert(kept@.map_values(|w: Vec<char>| w@) =~= before.push(seen[i as int]));
            }
        }
        i = i + 1;
    }
    proof {
        assert(seen.take(i as int) =~= seen);
    }
    let preserved = join_chars(&kept, &chars_of(" "));
    let item = chars_of(item_query);
    if preserved.len() == 0 {
        string_of(&item)
    } else if chars_eq(&item, &chars_of("*")) {
        string_of(&preserved)
    } else {
        let mut q = preserved;
        push_chars(&mut q, &chars_of(" "));
        push_chars(&mut q, &item);
        string_of(&q)
    }
}

/// Whether a sidebar entry is the chosen one: its term is the first
/// sidebar term of the query, and the entry for all files is chosen when
/// the query holds no sidebar term.
pub open spec fn sidebar_item_active(current: Seq<char>, item: Seq<char>) -> bool {
    let found = words(current).filter(sidebar_term());
    if item == "*"@ {
        found.len() == 0 || found[0] == "*"@
    } else {
        found.len() > 0 && found[0] == item
    }
}

/// Whether the sidebar entry whose term is `item_query` is the chosen one.
pub fn sidebar_query_is_active(current_query: &str, item_query: &str) -> (r: bool)
    ensures
        r == sidebar_item_active(current_query@, item_query@),
{
    let all = split_words(&chars_of(current_query));
    let ghost seen = all@.map_values(|w: Vec<char>| w@);
    let item = chars_of(item_query);
    let star = chars_of("*");
    let mut i: usize = 0;
    while i < all.len()
        invariant
            0 <= i <= all@.len(),
            seen == all@.map_values(|w: Vec<char>| w@),
            seen.take(i as int).filter(sidebar_term()).len() == 0,
            star@ == "*"@,
            item@ == item_query@,
            seen == words(current_query@),
        decreases all@.len() - i,
    {
        proof {
            reveal(Seq::filter);
            assert(seen.take(i + 1).drop_last() =~= seen.take(i as int));
            assert(seen.take(i + 1).last() == all@[i as int]@);
        }
        if is_sidebar_query(&all[i]) {
            proof {
                reveal(Seq::filter);
                let head = seen.take(i + 1);
                let tail = seen.skip(i + 1);
                assert(seen =~= head + tail);
                Seq::filter_distributes_over_add(head, tail, sidebar_term());
                assert(head.filter(sidebar_term()) =~= seq![all@[i as int]@]);
                let found = seen.filter(sidebar_term());
                assert(found =~= seq![all@[i as int]@] + tail.filter(sidebar_term()));
                assert(found.len() > 0 && found[0] == all@[i as int]@);
                assert(star@ == "*"@);
            }
            if chars_eq(&item, &star) {
                return chars_eq(&all[i], &star);
            }
            return chars_eq(&all[i], &item);
        }
        i = i + 1;
    }
    proof {
        assert(seen.take(i as int) =~= seen);
    }
    chars_eq(&item, &star)
}

/// A word as `split_whitespace` gives them: not empty, no white space.
pub open spec fn plain_word(w: Seq<char>) -> bool {
    w.len() > 0 && forall|k: int| 0 <= k < w.len() ==> !white_space(#[trigger] w[k])
}

proof fn lemma_trim_start_plain(s: Seq<char>)
    requires
        s.len() > 0,
        !white_space(s[0]),
    ensures
        trim_start(s) == s,
{
}

proof fn lemma_word_len_plain(s: Seq<char>)
    requires
        forall|k: int| 0 <= k < s.len() ==> !white_space(#[trigger] s[k]),
    ensures
        word_len(s) == s.len(),
    decreases s.len(),
{
    if s.len() > 0 {
        assert forall|k: int| 0 <= k < s.drop_first().len() implies !white_space(#[trigger] s.drop_first()[k]) by {
            assert(s.drop_first()[k] == s[k + 1]);
        }
        lemma_word_len_plain(s.drop_first());
    }
}

proof fn lemma_words_empty()
    ensures
        words(Seq::<char>::empty()) == Seq::<Seq<char>>::empty(),
{
    assert(trim_start(Seq::<char>::empty()) =~= Seq::<char>::empty());
}

/// A plain word splits into itself.
proof fn lemma_words_plain(w: Seq<char>)
    requires
        plain_word(w),
    ensures
        words(w) == seq![w],
{
    lemma_trim_start_plain(w);
    lemma_word_len_plain(w);
    assert(w.take(w.len() as int) =~= w);
    assert(w.skip(w.len() as int) =~= Seq::<char>::empty());
    lemma_words_empty();
    assert(seq![w] + Seq::<Seq<char>>::empty() =~= seq![w]);
}

/// Leading white space of a concatenation.
proof fn lemma_trim_start_concat(x: Seq<char>, y: Seq<char>)
    ensures
        trim_start(x + y) == (if trim_start(x).len() == 0 {
            trim_start(y)
        } else {
            trim_start(x) + y
        }),
    decreases x.len(),
{
    if x.len() == 0 {
        assert(x + y =~= y);
    } else {
        assert((x + y)[0] == x[0]);
        if white_space(x[0]) {
            assert((x + y).drop_first() =~= x.drop_first() + y);
            lemma_trim_start_concat(x.drop_first(), y);
        }
    }
}

/// A word that ends inside a concatenation's first part.
proof fn lemma_word_len_concat(x: Seq<char>, y: Seq<char>)
    ensures
        word_len(x) < x.len() ==> word_len(x + y) == word_len(x),
        word_len(x) == x.len() ==> word_len(x + y) == x.len() + word_len(y),
    decreases x.len(),
{
    lemma_word_len(x);
    if x.len() == 0 {
        assert(x + y =~= y);
    } else {
        assert((x + y)[0] == x[0]);
        if !white_space(x[0]) {
            assert((x + y).drop_first() =~= x.drop_first() + y);
            lemma_word_len_concat(x.drop_first(), y);
        }
    }
}

/// Splitting only depends on what follows the leading white space.
proof fn lemma_words_trimmed(x: Seq<char>)
    ensures
        words(trim_start(x)) == words(x),
{
    lemma_trim_start(x);
    let t = trim_start(x);
    if t.len() > 0 {
        lemma_trim_start_plain(t);
    } else {
        assert(trim_start(t) =~= t);
    }
}

/// A space splits a text into the words of each side.
proof fn lemma_words_space_concat(a: Seq<char>, b: Seq<char>)
    ensures
        words(a + " "@ + b) == words(a) + words(b),
    decreases a.len(),
{
    reveal_strlit(" ");
    let sp = " "@;
    let c = a + sp + b;
    assert(c =~= a + (sp + b));
    lemma_trim_start_concat(a, sp + b);
    lemma_trim_start(a);
    let t = trim_start(a);
    if t.len() == 0 {
        lemma_trim_start_concat(sp, b);
        assert(trim_start(sp) =~= Seq::<char>::empty()) by {
            assert(sp.len() == 1 && sp[0] == ' ');
            assert(white_space(sp[0]));
            assert(sp.drop_first() =~= Seq::<char>::empty());
            assert(trim_start(sp.drop_first()) =~= Seq::<char>::empty());
        }
        assert(trim_start(c) == trim_start(b));
        lemma_words_trimmed(c);
        lemma_words_trimmed(b);
        assert(words(a) =~= Seq::<Seq<char>>::empty());
        assert(words(a) + words(b) =~= words(b));
    } else {
        let tc = t + (sp + b);
        assert(trim_start(c) == tc);
        lemma_word_len(t);
        lemma_word_len_concat(t, sp + b);
        assert(word_len(sp + b) == 0) by {
            assert((sp + b)[0] == ' ');
        }
        let w = word_len(t);
        assert(word_len(tc) == w);
        assert(tc.take(w as int) =~= t.take(w as int));
        let rest = t.skip(w as int);
        assert(tc.skip(w as int) =~= rest + sp + b);
        lemma_trim_start_plain(tc);
        lemma_word_len(tc);
        assert(words(c) == seq![tc.take(w as int)] + words(tc.skip(w as int)));
        lemma_words_space_concat(rest, b);
        assert(words(a) == seq![t.take(w as int)] + words(rest));
        assert(words(c) =~= words(a) + words(b));
    }
}

/// Plain words joined by single spaces split back into themselves.
proof fn lemma_words_join(ws: Seq<Seq<char>>)
    requires
        forall|i: int| 0 <= i < ws.len() ==> plain_word(#[trigger] ws[i]),
    ensures
        words(join_with(ws, " "@)) == ws,
    decreases ws.len(),
{
    if ws.len() == 0 {
        lemma_words_empty();
    } else if ws.len() == 1 {
        lemma_words_plain(ws[0]);
        assert(seq![ws[0]] =~= ws);
    } else {
        let rest = ws.drop_last();
        assert forall|i: int| 0 <= i < rest.len() implies plain_word(#[trigger] rest[i]) by {
            assert(rest[i] == ws[i]);
        }
        lemma_words_join(rest);
        lemma_words_space_concat(join_with(rest, " "@), ws.last());
        lemma_words_plain(ws.last());
        assert(rest + seq![ws.last()] =~= ws);
    }
}

/// Joined plain words are empty only when there are none.
proof fn lemma_join_empty(ws: Seq<Seq<char>>)
    requires
        forall|i: int| 0 <= i < ws.len() ==> plain_word(#[trigger] ws[i]),
    ensures
        join_with(ws, " "@).len() == 0 <==> ws.len() == 0,
    decreases ws.len(),
{
    if ws.len() > 1 {
        assert(plain_word(ws[ws.len() - 1]));
    } else if ws.len() == 1 {
        assert(plain_word(ws[0]));
    }
}

/// Every word of a text is plain.
proof fn lemma_words_are_plain(s: Seq<char>)
    ensures
        forall|i: int| 0 <= i < words(s).len() ==> plain_word(#[trigger] words(s)[i]),
    decreases s.len(),
{
    let t = trim_start(s);
    lemma_trim_start(s);
    if t.len() > 0 {
        lemma_word_len(t);
        let w = word_len(t);
        lemma_words_are_plain(t.skip(w as int));
        let first = t.take(w as int);
        assert(plain_word(first)) by {
            assert forall|k: int| 0 <= k < first.len() implies !white_space(#[trigger] first[k]) by {
                assert(first[k] == t[k]);
            }
        }
        assert forall|i: int| 0 <= i < words(s).len() implies plain_word(#[trigger] words(s)[i]) by {
            if i > 0 {
                assert(words(s)[i] == words(t.skip(w as int))[i - 1]);
            }
        }
    }
}

/// The sidebar terms are plain words.
proof fn lemma_sidebar_terms_plain()
    ensures
        forall|i: int| 0 <= i < sidebar_queries().len() ==> plain_word(#[trigger] sidebar_queries()[i]),
{
    reveal_strlit("*");
    reveal_strlit("folder:");
    reveal_strlit("ext:pdf;doc;docx;xls;xlsx;ppt;pptx;md;txt");
    reveal_strlit("ext:png;jpg;jpeg;webp;gif;svg;avif");
    reveal_strlit("ext:mp4;mkv;avi;mov;webm");
    reveal_strlit("ext:mp3;wav;flac;m4a;m4b;aac;ogg;opus;wma;aif;aiff;ape;mid;midi");
    reveal_strlit("ext:zip;7z;rar;tar;gz");
    assert forall|i: int| 0 <= i < sidebar_queries().len() implies plain_word(#[trigger] sidebar_queries()[i]) by {
        let w = sidebar_queries()[i];
        assert forall|k: int| 0 <= k < w.len() implies !white_space(#[trigger] w[k]) by {
            assert(' ' < w[k] < '\u{7f}');
        }
    }
}

proof fn lemma_filter_none(s: Seq<Seq<char>>, pred: spec_fn(Seq<char>) -> bool)
    requires
        forall|i: int| 0 <= i < s.len() ==> !pred(#[trigger] s[i]),
    ensures
        s.filter(pred) == Seq::<Seq<char>>::empty(),
    decreases s.len(),
{
    reveal(Seq::filter);
    if s.len() > 0 {
        assert forall|i: int| 0 <= i < s.drop_last().len() implies !pred(#[trigger] s.drop_last()[i]) by {
            assert(s.drop_last()[i] == s[i]);
        }
        lemma_filter_none(s.drop_last(), pred);
        assert(!pred(s[s.len() - 1]));
    }
}

proof fn lemma_filter_all(s: Seq<Seq<char>>, pred: spec_fn(Seq<char>) -> bool)
    requires
        forall|i: int| 0 <= i < s.len() ==> pred(#[trigger] s[i]),
    ensures
        s.filter(pred) == s,
    decreases s.len(),
{
    reveal(Seq::filter);
    if s.len() > 0 {
        assert forall|i: int| 0 <= i < s.drop_last().len() implies pred(#[trigger] s.drop_last()[i]) by {
            assert(s.drop_last()[i] == s[i]);
        }
        lemma_filter_all(s.drop_last(), pred);
        assert(pred(s[s.len() - 1]));
        assert(s.drop_last().push(s.last()) =~= s);
    }
}

proof fn lemma_preserved_words(current: Seq<char>)
    ensures
        ({
            let p = words(current).filter(not_sidebar_term());
            &&& forall|i: int| 0 <= i < p.len() ==> plain_word(#[trigger] p[i])
            &&& forall|i: int| 0 <= i < p.len() ==> !is_sidebar_term(#[trigger] p[i])
        }),
{
    broadcast use vstd::seq_lib::group_filter_ensures;

    let all = words(current);
    let p = all.filter(not_sidebar_term());
    lemma_words_are_plain(current);
    assert forall|i: int| 0 <= i < p.len() implies plain_word(#[trigger] p[i]) && !is_sidebar_term(p[i]) by {
        assert(p.contains(p[i]));
        all.lemma_filter_contains_rev(not_sidebar_term(), p[i]);
        let k = choose|k: int| 0 <= k < all.len() && all[k] == p[i];
        assert(plain_word(all[k]));
        assert(not_sidebar_term()(p[i]));
    }
}

/// The words of the query after choosing a sidebar entry: the preserved
/// words, then the entry's term (only the term when no word is preserved,
/// only the words for the entry of all files).
proof fn lemma_choice_words(current: Seq<char>, item: Seq<char>)
    requires
        is_sidebar_term(item),
    ensures
        ({
            let p = words(current).filter(not_sidebar_term());
            words(with_sidebar_query(current, item)) == (if p.len() == 0 {
                seq![item]
            } else if item == "*"@ {
                p
            } else {
                p + seq![item]
            })
        }),
{
    let p = words(current).filter(not_sidebar_term());
    lemma_preserved_words(current);
    lemma_sidebar_terms_plain();
    let ti = choose|ti: int| 0 <= ti < sidebar_queries().len() && sidebar_queries()[ti] == item;
    assert(plain_word(sidebar_queries()[ti]));
    lemma_words_plain(item);
    lemma_join_empty(p);
    let preserved = join_with(p, " "@);
    if preserved.len() == 0 {
    } else if item == "*"@ {
        lemma_words_join(p);
    } else {
        lemma_words_join(p);
        lemma_words_space_concat(preserved, item);
        assert(seq![item] == words(item));
    }
}

proof fn lemma_plain_filters(p: Seq<Seq<char>>)
    requires
        forall|i: int| 0 <= i < p.len() ==> !is_sidebar_term(#[trigger] p[i]),
    ensures
        p.filter(sidebar_term()) == Seq::<Seq<char>>::empty(),
        p.filter(not_sidebar_term()) == p,
{
    assert forall|i: int| 0 <= i < p.len() implies !sidebar_term()(#[trigger] p[i]) by {
        assert(!is_sidebar_term(p[i]));
    }
    lemma_filter_none(p, sidebar_term());
    assert forall|i: int| 0 <= i < p.len() implies not_sidebar_term()(#[trigger] p[i]) by {
        assert(!is_sidebar_term(p[i]));
    }
    lemma_filter_all(p, not_sidebar_term());
}

proof fn lemma_term_filters(item: Seq<char>)
    requires
        is_sidebar_term(item),
    ensures
        seq![item].filter(sidebar_term()) == seq![item],
        seq![item].filter(not_sidebar_term()) == Seq::<Seq<char>>::empty(),
{
    let single = seq![item];
    assert forall|i: int| 0 <= i < single.len() implies sidebar_term()(#[trigger] single[i]) by {
        assert(single[i] == item);
    }
    lemma_filter_all(single, sidebar_term());
    assert forall|i: int| 0 <= i < single.len() implies !not_sidebar_term()(#[trigger] single[i]) by {
        assert(single[i] == item);
    }
    lemma_filter_none(single, not_sidebar_term());
}

/// Choosing a sidebar entry makes it the chosen one, and keeps every word
/// of the query that is not a sidebar term, in order.
pub proof fn law_sidebar_choice(current: Seq<char>, item: Seq<char>)
    requires
        is_sidebar_term(item),
    ensures
        sidebar_item_active(with_sidebar_query(current, item), item),
        words(with_sidebar_query(current, item)).filter(not_sidebar_term())
            == words(current).filter(not_sidebar_term()),
{
    let p = words(current).filter(not_sidebar_term());
    let chosen = with_sidebar_query(current, item);
    lemma_choice_words(current, item);
    lemma_preserved_words(current);
    lemma_plain_filters(p);
    lemma_term_filters(item);
    if p.len() == 0 {
        assert(words(chosen) == seq![item]);
        assert(p == Seq::<Seq<char>>::empty());
    } else if item == "*"@ {
        assert(words(chosen) == p);
    } else {
        assert(words(chosen) == p + seq![item]);
        Seq::filter_distributes_over_add(p, seq![item], sidebar_term());
        Seq::filter_distributes_over_add(p, seq![item], not_sidebar_term());
        assert(p + Seq::<Seq<char>>::empty() =~= p);
        assert(Seq::<Seq<char>>::empty() + seq![item] =~= seq![item]);
    }
}

/// The sidebar's seven entries search, in order: every file (`*`), the
/// folders (`folder:`), and by extension the documents (pdf, doc, docx,
/// xls, xlsx, ppt, pptx, md, txt), the images (png, jpg, jpeg, webp, gif,
/// svg, avif), the videos (mp4, mkv, avi, mov, webm), the audio files (mp3,
/// wav, flac, m4a, m4b, aac, ogg, opus, wma, aif, aiff, ape, mid, midi) and
/// the archives (zip, 7z, rar, tar, gz), each extension list written
/// `ext:` and the extensions separated by `;`.
pub proof fn law_sidebar_entries_search_their_types()
    ensures
        sidebar_queries().len() == 7,
        sidebar_queries()[0] == "*"@,
        sidebar_queries()[1] == "folder:"@,
        sidebar_queries()[2] == "ext:"@ + "pdf"@ + ";"@ + "doc"@ + ";"@ + "docx"@ + ";"@ + "xls"@ + ";"@ + "xlsx"@ + ";"@ + "ppt"@ + ";"@ + "pptx"@ + ";"@ + "md"@ + ";"@ + "txt"@,
        sidebar_queries()[3] == "ext:"@ + "png"@ + ";"@ + "jpg"@ + ";"@ + "jpeg"@ + ";"@ + "webp"@ + ";"@ + "gif"@ + ";"@ + "svg"@ + ";"@ + "avif"@,
        sidebar_queries()[4] == "ext:"@ + "mp4"@ + ";"@ + "mkv"@ + ";"@ + "avi"@ + ";"@ + "mov"@ + ";"@ + "webm"@,
        sidebar_queries()[5] == "ext:"@ + "mp3"@ + ";"@ + "wav"@ + ";"@ + "flac"@ + ";"@ + "m4a"@ + ";"@ + "m4b"@ + ";"@ + "aac"@ + ";"@ + "ogg"@ + ";"@ + "opus"@ + ";"@ + "wma"@ + ";"@ + "aif"@ + ";"@ + "aiff"@ + ";"@ + "ape"@ + ";"@ + "mid"@ + ";"@ + "midi"@,
        sidebar_queries()[6] == "ext:"@ + "zip"@ + ";"@ + "7z"@ + ";"@ + "rar"@ + ";"@ + "tar"@ + ";"@ + "gz"@,
{
    reveal_strlit("*");
    reveal_strlit("7z");
    reveal_strlit(";");
    reveal_strlit("aac");
    reveal_strlit("aif");
    reveal_strlit("aiff");
    reveal_strlit("ape");
    reveal_strlit("avi");
    reveal_strlit("avif");
    reveal_strlit("doc");
    reveal_strlit("docx");
    reveal_strlit("ext:");
    reveal_strlit("ext:mp3;wav;flac;m4a;m4b;aac;ogg;opus;wma;aif;aiff;ape;mid;midi");
    reveal_strlit("ext:mp4;mkv;avi;mov;webm");
    reveal_strlit("ext:pdf;doc;docx;xls;xlsx;ppt;pptx;md;txt");
    reveal_strlit("ext:png;jpg;jpeg;webp;gif;svg;avif");
    reveal_strlit("ext:zip;7z;rar;tar;gz");
    reveal_strlit("flac");
    reveal_strlit("folder:");
    reveal_strlit("gif");
    reveal_strlit("gz");
    reveal_strlit("jpeg");
    reveal_strlit("jpg");
    reveal_strlit("m4a");
    reveal_strlit("m4b");
    reveal_strlit("md");
    reveal_strlit("mid");
    reveal_strlit("midi");
    reveal_strlit("mkv");
    reveal_strlit("mov");
    reveal_strlit("mp3");
    reveal_strlit("mp4");
    reveal_strlit("ogg");
    reveal_strlit("opus");
    reveal_strlit("pdf");
    reveal_strlit("png");
    reveal_strlit("ppt");
    reveal_strlit("pptx");
    reveal_strlit("rar");
    reveal_strlit("svg");
    reveal_strlit("tar");
    reveal_strlit("txt");
    reveal_strlit("wav");
    reveal_strlit("webm");
    reveal_strlit("webp");
    reveal_strlit("wma");
    reveal_strlit("xls");
    reveal_strlit("xlsx");
    reveal_strlit("zip");
    assert(sidebar_queries()[0] =~= "*"@);
    assert(sidebar_queries()[1] =~= "folder:"@);
    assert(sidebar_queries()[2] =~= "ext:"@ + "pdf"@ + ";"@ + "doc"@ + ";"@ + "docx"@ + ";"@ + "xls"@ + ";"@ + "xlsx"@ + ";"@ + "ppt"@ + ";"@ + "pptx"@ + ";"@ + "md"@ + ";"@ + "txt"@);
    assert(sidebar_queries()[3] =~= "ext:"@ + "png"@ + ";"@ + "jpg"@ + ";"@ + "jpeg"@ + ";"@ + "webp"@ + ";"@ + "gif"@ + ";"@ + "svg"@ + ";"@ + "avif"@);
    assert(sidebar_queries()[4] =~= "ext:"@ + "mp4"@ + ";"@ + "mkv"@ + ";"@ + "avi"@ + ";"@ + "mov"@ + ";"@ + "webm"@);
    assert(sidebar_queries()[5] =~= "ext:"@ + "mp3"@ + ";"@ + "wav"@ + ";"@ + "flac"@ + ";"@ + "m4a"@ + ";"@ + "m4b"@ + ";"@ + "aac"@ + ";"@ + "ogg"@ + ";"@ + "opus"@ + ";"@ + "wma"@ + ";"@ + "aif"@ + ";"@ + "aiff"@ + ";"@ + "ape"@ + ";"@ + "mid"@ + ";"@ + "midi"@);
    assert(sidebar_queries()[6] =~= "ext:"@ + "zip"@ + ";"@ + "7z"@ + ";"@ + "rar"@ + ";"@ + "tar"@ + ";"@ + "gz"@);
}

} // verus!
