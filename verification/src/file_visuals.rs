//! Which rows of the result list can share an icon: files of an ordinary
//! type share the icon of their extension, while folders, programs,
//! shortcuts and icon files keep their own.

use vstd::prelude::*;
use crate::shell::cache_path;
use crate::text::{
    chars_eq, chars_of, ends_with, find_last, last_index_of, lemma_last_index_of, push_chars, replace_char, string_of,
    sub_chars, to_lowercase,
};

verus! {

broadcast use vstd::string::group_string_axioms;

/// Extensions whose files each have their own icon.
pub open spec fn own_icon_extension(ext: Seq<char>) -> bool {
    ext == "exe"@ || ext == "lnk"@ || ext == "url"@ || ext == "ico"@ || ext == "cur"@
}

/// The extension of a (lower-case) path: what follows the last dot of its
/// last component, if that is not empty.
pub open spec fn path_extension_of(p: Seq<char>) -> Option<Seq<char>> {
    let name = p.skip(last_index_of(p, '\\') + 1);
    let d = last_index_of(name, '.');
    if d >= 0 && d + 1 < name.len() {
        Some(name.skip(d + 1))
    } else {
        None
    }
}

/// The key of the icon of a row: the path (with backslashes, in lower
/// case) for folders, for files without an extension and for files that
/// have their own icon; the extension for every other file.
pub open spec fn row_icon_key(path: Seq<char>, is_dir: bool) -> Seq<char> {
    let n = cache_path(path);
    if is_dir {
        "path:"@ + n
    } else {
        match path_extension_of(n) {
            Some(ext) => if own_icon_extension(ext) {
                "path:"@ + n
            } else {
                "extension:"@ + ext
            },
            None => "path:"@ + n,
        }
    }
}

/// The key under which the icon of a row is kept.
pub fn icon_cache_key(path: &str, is_dir: bool) -> (key: String)
    ensures
        key@ == row_icon_key(path@, is_dir),
{
    let replaced = string_of(&replace_char(&chars_of(path), '/', '\\'));
    let normalized = chars_of(to_lowercase(replaced.as_str()).as_str());
    let mut key: Vec<char>;
    if is_dir {
        key = chars_of("path:");
        push_chars(&mut key, &normalized);
        return string_of(&key);
    }
    let start = match find_last(&normalized, '\\') {
        Some(i) => {
            assert(i < normalized@.len());
            i + 1
        },
        None => 0,
    };
    let name = sub_chars(&normalized, start, normalized.len());
    proof {
        assert(name@ =~= normalized@.skip(last_index_of(normalized@, '\\') + 1));
    }
    let extension: Option<Vec<char>> = match find_last(&name, '.') {
        Some(d) => if d + 1 < name.len() {
            let e = sub_chars(&name, d + 1, name.len());
            proof {
                assert(e@ =~= name@.skip(d + 1));
            }
            Some(e)
        } else {
            None
        },
        None => None,
    };
    match extension {
        Some(ext) => {
            let own = chars_eq(&ext, &chars_of("exe")) || chars_eq(&ext, &chars_of("lnk"))
                || chars_eq(&ext, &chars_of("url")) || chars_eq(&ext, &chars_of("ico")) || chars_eq(
                &ext,
                &chars_of("cur"),
            );
            if own {
                key = chars_of("path:");
                push_chars(&mut key, &normalized);
            } else {
                key = chars_of("extension:");
                push_chars(&mut key, &ext);
            }
        },
        None => {
            key = chars_of("path:");
            push_chars(&mut key, &normalized);
        },
    }
    string_of(&key)
}


/// The icons the result list keeps at most.
pub const ICON_CACHE_MAX_ENTRIES: usize = 256;

/// An icon of the cache as plain values: its key; its source (not loaded
/// yet, loaded and missing, or loaded); whether a load runs; the stamp of
/// the load that may finish it; when a missing icon may be asked again, in
/// milliseconds; and the stamp the entry was made with.
pub type IconEntryView = (Seq<char>, Option<Option<Seq<char>>>, bool, u64, Option<u64>, u64);

/// An icon of the cache.
#[derive(Debug)]
pub struct IconEntry {
    pub key: String,
    pub source: Option<Option<String>>,
    pub loading: bool,
    pub generation: u64,
    pub retry_after_ms: Option<u64>,
    pub created: u64,
}

pub open spec fn source_view(s: Option<Option<String>>) -> Option<Option<Seq<char>>> {
    match s {
        Some(Some(t)) => Some(Some(t@)),
        Some(None) => Some(None),
        None => None,
    }
}

pub open spec fn icon_entry_view(e: IconEntry) -> IconEntryView {
    (e.key@, source_view(e.source), e.loading, e.generation, e.retry_after_ms, e.created)
}

/// The stamp after `n`, wrapping at the end of `u64`.
pub open spec fn next_stamp(n: u64) -> u64 {
    if n == u64::MAX {
        0
    } else {
        (n + 1) as u64
    }
}

/// A missing icon whose retry time has come, and that is not loading.
pub open spec fn icon_reload_due(e: IconEntryView, now_ms: u64) -> bool {
    !e.2 && e.1 == Some(None::<Seq<char>>) && (e.4 matches Some(r) && r <= now_ms)
}

/// The last icon with a key, if any.
pub open spec fn icon_position(m: Seq<IconEntryView>, key: Seq<char>) -> Option<int>
    decreases m.len(),
{
    if m.len() == 0 {
        None
    } else if m.last().0 == key {
        Some(m.len() - 1)
    } else {
        icon_position(m.drop_last(), key)
    }
}

/// The newest icons, as many as the cache keeps.
pub open spec fn newest_icons(m: Seq<IconEntryView>) -> Seq<IconEntryView> {
    if m.len() > ICON_CACHE_MAX_ENTRIES {
        m.skip(m.len() - ICON_CACHE_MAX_ENTRIES)
    } else {
        m
    }
}

proof fn lemma_icon_position(m: Seq<IconEntryView>, key: Seq<char>)
    ensures
        icon_position(m, key) matches Some(i) ==> 0 <= i < m.len() && m[i].0 == key,
        icon_position(m, key) is None ==> forall|j: int| 0 <= j < m.len() ==> #[trigger] m[j].0 != key,
    decreases m.len(),
{
    if m.len() > 0 && m.last().0 != key {
        lemma_icon_position(m.drop_last(), key);
        assert forall|j: int| 0 <= j < m.len() && icon_position(m, key) is None implies #[trigger] m[j].0
            != key by {
            if j < m.len() - 1 {
                assert(m.drop_last()[j] == m[j]);
            }
        }
    }
}

/// The icons of the result list by cache key, oldest use first; missing
/// icons are asked again once their retry time has come.
pub struct IconSourceCache {
    entries: Vec<IconEntry>,
    next_generation: u64,
}

impl IconSourceCache {
    pub closed spec fn model(&self) -> Seq<IconEntryView> {
        self.entries@.map_values(|e: IconEntry| icon_entry_view(e))
    }

    /// The last stamp given out.
    pub closed spec fn stamp(&self) -> u64 {
        self.next_generation
    }

    /// No key twice, and no more icons than the cache keeps.
    pub open spec fn wf(&self) -> bool {
        &&& self.model().len() <= ICON_CACHE_MAX_ENTRIES
        &&& forall|i: int, j: int|
            0 <= i < j < self.model().len() ==> #[trigger] self.model()[i].0 != #[trigger] self.model()[j].0
    }

    pub fn new() -> (c: IconSourceCache)
        ensures
            c.wf(),
            c.model().len() == 0,
            c.stamp() == 0,
    {
        let c = IconSourceCache { entries: Vec::new(), next_generation: 0 };
        proof {
            assert(c.model() =~= Seq::<IconEntryView>::empty());
        }
        c
    }

    fn bump(&mut self) -> (g: u64)
        ensures
            g == next_stamp(old(self).stamp()),
            final(self).stamp() == g,
            final(self).model() == old(self).model(),
    {
        self.next_generation = if self.next_generation == u64::MAX {
            0
        } else {
            self.next_generation + 1
        };
        proof {
            assert(self.model() =~= old(self).model());
        }
        self.next_generation
    }

    fn position(&self, key: &str) -> (p: Option<usize>)
        ensures
            match icon_position(self.model(), key@) {
                Some(i) => p matches Some(q) && q == i,
                None => p is None,
            },
            p matches Some(q) ==> q < self.entries@.len() && self.model()[q as int].0 == key@,
    {
        let ghost m = self.model();
        proof {
            lemma_icon_position(m, key@);
        }
        let mut i: usize = self.entries.len();
        proof {
            assert(m.take(m.len() as int) =~= m);
        }
        while i > 0
            invariant
                0 <= i <= self.entries@.len(),
                m == self.model(),
                icon_position(m, key@) == icon_position(m.take(i as int), key@),
            decreases i,
        {
            let ghost t = m.take(i as int);
            proof {
                assert(t.last() == icon_entry_view(self.entries@[i - 1]));
                assert(t.drop_last() =~= m.take(i - 1));
            }
            if crate::text::chars_eq(&chars_of(self.entries[i - 1].key.as_str()), &chars_of(key)) {
                return Some(i - 1);
            }
            i = i - 1;
        }
        None
    }

    /// The icon of a key, made when missing (and then loading), with
    /// whether the caller is to load it now, the stamp its load finishes
    /// with, and the stamp of the entry.
    pub fn get_or_insert(&mut self, key: String, now_ms: u64) -> (r: (Option<Option<String>>, bool, u64, u64))
        requires
            old(self).wf(),
        ensures
            final(self).wf(),
            final(self).stamp() == next_stamp(old(self).stamp()),
            ({
                let g = next_stamp(old(self).stamp());
                match icon_position(old(self).model(), key@) {
                    Some(i) => {
                        let e = old(self).model()[i];
                        let load = icon_reload_due(e, now_ms);
                        let kept = if load {
                            (e.0, None, true, g, None, e.5)
                        } else {
                            e
                        };
                        &&& final(self).model() == old(self).model().remove(i).push(kept)
                        &&& source_view(r.0) == kept.1
                        &&& r.1 == load
                        &&& r.2 == kept.3
                        &&& r.3 == kept.5
                    },
                    None => {
                        &&& final(self).model() == newest_icons(
                            old(self).model().push((key@, None, true, g, None, g)),
                        )
                        &&& r.0 is None
                        &&& r.1
                        &&& r.2 == g
                        &&& r.3 == g
                    },
                }
            }),
    {
        let ghost m0 = self.model();
        proof {
            lemma_icon_position(m0, key@);
        }
        let found = self.position(key.as_str());
        let g = self.bump();
        match found {
            Some(i) => {
                let e = self.entries.remove(i);
                proof {
                    assert(icon_entry_view(e) == m0[i as int]);
                }
                let due = match e.retry_after_ms {
                    Some(r) => r <= now_ms,
                    None => false,
                };
                let missing = matches!(e.source, Some(None));
                let load = !e.loading && missing && due;
                let kept = if load {
                    IconEntry {
                        key: e.key,
                        source: None,
                        loading: true,
                        generation: g,
                        retry_after_ms: None,
                        created: e.created,
                    }
                } else {
                    e
                };
                let source = match &kept.source {
                    Some(Some(t)) => Some(Some(t.clone())),
                    Some(None) => Some(None),
                    None => None,
                };
                let out = (source, load, kept.generation, kept.created);
                let ghost before = self.entries@;
                self.entries.push(kept);
                proof {
                    assert(self.model() =~= m0.remove(i as int).push(icon_entry_view(kept)));
                    let m = self.model();
                    assert forall|a: int, b: int| 0 <= a < b < m.len() implies #[trigger] m[a].0
                        != #[trigger] m[b].0 by {
                        let oa = if a < i { a } else { a + 1 };
                        if b < m.len() - 1 {
                            let ob = if b < i { b } else { b + 1 };
                            assert(m[a] == m0[oa] && m[b] == m0[ob]);
                        } else {
                            assert(m[a] == m0[oa]);
                            assert(m[b].0 == m0[i as int].0);
                        }
                    }
                }
                out
            },
            None => {
                let entry = IconEntry {
                    key,
                    source: None,
                    loading: true,
                    generation: g,
                    retry_after_ms: None,
                    created: g,
                };
                self.entries.push(entry);
                let ghost full = self.model();
                proof {
                    assert(full =~= m0.push((key@, None, true, g, None, g)));
                    assert forall|a: int, b: int| 0 <= a < b < full.len() implies #[trigger] full[a].0
                        != #[trigger] full[b].0 by {
                        if b == full.len() - 1 {
                            assert(full[a] == m0[a]);
                        } else {
                            assert(full[a] == m0[a] && full[b] == m0[b]);
                        }
                    }
                }
                let ghost mut removed: int = 0;
                while self.entries.len() > ICON_CACHE_MAX_ENTRIES
                    invariant
                        0 <= removed <= full.len(),
                        self.model() == full.skip(removed),
                        removed == 0 || full.len() - removed >= ICON_CACHE_MAX_ENTRIES,
                        self.stamp() == g,
                    decreases self.entries@.len(),
                {
                    let ghost before = self.entries@;
                    let ghost mbefore = self.model();
                    proof {
                        assert(mbefore.len() == before.len());
                        assert(mbefore == full.skip(removed));
                    }
                    self.entries.remove(0);
                    proof {
                        assert(self.entries@ =~= before.subrange(1, before.len() as int));
                        assert forall|k: int| 0 <= k < self.model().len() implies #[trigger] self.model()[k]
                            == full.skip(removed + 1)[k] by {
                            assert(self.model()[k] == icon_entry_view(self.entries@[k]));
                            assert(self.entries@[k] == before[k + 1]);
                            assert(mbefore[k + 1] == icon_entry_view(before[k + 1]));
                        }
                        assert(self.model() =~= full.skip(removed + 1));
                        removed = removed + 1;
                    }
                }
                proof {
                    assert(self.model() =~= newest_icons(full));
                    let m = self.model();
                    assert forall|a: int, b: int| 0 <= a < b < m.len() implies #[trigger] m[a].0
                        != #[trigger] m[b].0 by {
                        assert(m[a] == full[a + removed] && m[b] == full[b + removed]);
                    }
                }
                (None, true, g, g)
            },
        }
    }

    /// A load ended: when its stamp is still the entry's, the entry stops
    /// loading and keeps the time after which it may be asked again.
    pub fn finish(&mut self, key: &str, generation: u64, retry_after_ms: Option<u64>)
        requires
            old(self).wf(),
        ensures
            final(self).wf(),
            final(self).stamp() == old(self).stamp(),
            match icon_position(old(self).model(), key@) {
                Some(i) => if old(self).model()[i].3 == generation {
                    let e = old(self).model()[i];
                    final(self).model() == old(self).model().update(i, (e.0, e.1, false, e.3, retry_after_ms, e.5))
                } else {
                    final(self).model() == old(self).model()
                },
                None => final(self).model() == old(self).model(),
            },
    {
        let ghost m0 = self.model();
        proof {
            lemma_icon_position(m0, key@);
        }
        if let Some(i) = self.position(key) {
            if self.entries[i].generation == generation {
                let e = self.entries.remove(i);
                let updated = IconEntry {
                    key: e.key,
                    source: e.source,
                    loading: false,
                    generation: e.generation,
                    retry_after_ms,
                    created: e.created,
                };
                self.entries.insert(i, updated);
                proof {
                    assert(self.model() =~= m0.update(
                        i as int,
                        (m0[i as int].0, m0[i as int].1, false, m0[i as int].3, retry_after_ms, m0[i as int].5),
                    ));
                    let m = self.model();
                    assert forall|a: int, b: int| 0 <= a < b < m.len() implies #[trigger] m[a].0
                        != #[trigger] m[b].0 by {
                        assert(m[a].0 == m0[a].0 && m[b].0 == m0[b].0);
                    }
                }
            }
        }
    }

    /// A load delivered its icon (or that there is none) to the entry it
    /// was made for, if that entry is still there.
    pub fn set_source(&mut self, key: &str, created: u64, source: Option<String>)
        requires
            old(self).wf(),
        ensures
            final(self).wf(),
            final(self).stamp() == old(self).stamp(),
            match icon_position(old(self).model(), key@) {
                Some(i) => if old(self).model()[i].5 == created {
                    let e = old(self).model()[i];
                    final(self).model() == old(self).model().update(
                        i,
                        (e.0, source_view(Some(source)), e.2, e.3, e.4, e.5),
                    )
                } else {
                    final(self).model() == old(self).model()
                },
                None => final(self).model() == old(self).model(),
            },
    {
        let ghost m0 = self.model();
        proof {
            lemma_icon_position(m0, key@);
        }
        if let Some(i) = self.position(key) {
            if self.entries[i].created == created {
                let e = self.entries.remove(i);
                let updated = IconEntry {
                    key: e.key,
                    source: Some(source),
                    loading: e.loading,
                    generation: e.generation,
                    retry_after_ms: e.retry_after_ms,
                    created: e.created,
                };
                let ghost uv = icon_entry_view(updated);
                self.entries.insert(i, updated);
                proof {
                    assert(self.model() =~= m0.update(i as int, uv));
                    let m = self.model();
                    assert forall|a: int, b: int| 0 <= a < b < m.len() implies #[trigger] m[a].0
                        != #[trigger] m[b].0 by {
                        assert(m[a].0 == m0[a].0 && m[b].0 == m0[b].0);
                    }
                }
            }
        }
    }

    /// The source of a key's icon, if the cache holds the key.
    pub fn source(&self, key: &str) -> (s: Option<Option<Option<String>>>)
        ensures
            match icon_position(self.model(), key@) {
                Some(i) => s matches Some(v) && source_view(v) == self.model()[i].1,
                None => s is None,
            },
    {
        match self.position(key) {
            Some(i) => {
                let v = match &self.entries[i].source {
                    Some(Some(t)) => Some(Some(t.clone())),
                    Some(None) => Some(None),
                    None => None,
                };
                proof {
                    assert(icon_entry_view(self.entries@[i as int]) == self.model()[i as int]);
                }
                Some(v)
            },
            None => None,
        }
    }
}

/// The icon of a row is kept under its path (with backslashes, in lower
/// case) for folders, for files without an extension, and for programs,
/// shortcuts, links, icons and cursors (`exe`, `lnk`, `url`, `ico`, `cur`),
/// which each have an icon of their own; every other file shares the icon
/// of its extension.
pub proof fn law_row_icons_by_path_or_extension(path: Seq<char>, is_dir: bool)
    ensures
        ({
            let n = cache_path(path);
            &&& is_dir ==> row_icon_key(path, is_dir) == seq!['p', 'a', 't', 'h', ':'] + n
            &&& !is_dir && path_extension_of(n) is None ==> row_icon_key(path, is_dir) == seq!['p', 'a', 't', 'h', ':'] + n
            &&& forall|e: Seq<char>|
                !is_dir && path_extension_of(n) == Some(e) && (e == seq!['e', 'x', 'e'] || e == seq!['l', 'n', 'k'] || e == seq!['u', 'r', 'l'] || e == seq!['i', 'c', 'o'] || e == seq!['c', 'u', 'r']) ==> #[trigger] row_icon_key(path, is_dir) == seq!['p', 'a', 't', 'h', ':'] + n
            &&& forall|e: Seq<char>|
                !is_dir && path_extension_of(n) == Some(e) && !(e == seq!['e', 'x', 'e'] || e == seq!['l', 'n', 'k'] || e == seq!['u', 'r', 'l'] || e == seq!['i', 'c', 'o'] || e == seq!['c', 'u', 'r']) ==> #[trigger] row_icon_key(path, is_dir) == seq!['e', 'x', 't', 'e', 'n', 's', 'i', 'o', 'n', ':'] + e
        }),
{
    reveal_strlit("path:");
    reveal_strlit("extension:");
    reveal_strlit("exe");
    reveal_strlit("lnk");
    reveal_strlit("url");
    reveal_strlit("ico");
    reveal_strlit("cur");
    assert("path:"@ =~= seq!['p', 'a', 't', 'h', ':']);
    assert("extension:"@ =~= seq!['e', 'x', 't', 'e', 'n', 's', 'i', 'o', 'n', ':']);
    assert("exe"@ =~= seq!['e', 'x', 'e']);
    assert("lnk"@ =~= seq!['l', 'n', 'k']);
    assert("url"@ =~= seq!['u', 'r', 'l']);
    assert("ico"@ =~= seq!['i', 'c', 'o']);
    assert("cur"@ =~= seq!['c', 'u', 'r']);
}

/// The extension of a row's path is the text after the last dot of its
/// last component: for a non-empty text `e` without a dot or a backslash,
/// the extension is `e` exactly when the path ends with a dot and `e`;
/// and an extension is never empty and holds no dot nor backslash.
pub proof fn law_extension_follows_the_last_dot(p: Seq<char>, e: Seq<char>)
    ensures
        e.len() > 0 && !e.contains('.') && !e.contains('\\') ==> (path_extension_of(p) == Some(e) <==> ends_with(
            p,
            seq!['.'] + e,
        )),
        path_extension_of(p) matches Some(x) ==> x.len() > 0 && !x.contains('.') && !x.contains('\\'),
{
    let s = last_index_of(p, '\\');
    lemma_last_index_of(p, '\\');
    let name = p.skip(s + 1);
    lemma_last_index_of(name, '.');
    let d = last_index_of(name, '.');
    if path_extension_of(p) is Some {
        let x = name.skip(d + 1);
        assert forall|k: int| 0 <= k < x.len() implies x[k] != '.' && x[k] != '\\' by {
            assert(x[k] == name[d + 1 + k]);
            assert(name[d + 1 + k] == p[s + 1 + d + 1 + k]);
        }
    }
    if e.len() > 0 && !e.contains('.') && !e.contains('\\') {
        let t = seq!['.'] + e;
        if ends_with(p, t) {
            let j = p.len() - t.len();
            assert(p[j] == t[0]);
            assert forall|k: int| j < k < p.len() implies p[k] != '.' && p[k] != '\\' by {
                assert(p[k] == p.skip(j)[k - j]);
                assert(p.skip(j)[k - j] == t[k - j]);
                assert(t[k - j] == e[k - j - 1]);
            }
            assert(s < j);
            assert(d == j - s - 1) by {
                assert(name[j - s - 1] == p[j]);
                if d > j - s - 1 {
                    assert(name[d] == p[s + 1 + d]);
                }
            }
            assert(name.skip(d + 1) =~= e) by {
                assert forall|k: int| 0 <= k < e.len() implies name.skip(d + 1)[k] == e[k] by {
                    assert(p.skip(j)[k + 1] == t[k + 1]);
                }
            }
        }
        if path_extension_of(p) == Some(e) {
            assert(p.skip(p.len() - t.len()) =~= t) by {
                assert forall|k: int| 0 <= k < t.len() implies p.skip(p.len() - t.len())[k] == t[k] by {
                    if k == 0 {
                        assert(name[d] == p[s + 1 + d]);
                        assert(name.len() - d - 1 == e.len());
                    } else {
                        assert(name.skip(d + 1)[k - 1] == e[k - 1]);
                    }
                }
            }
        }
    }
}

/// The icon cache keeps the 256 newest icons, in their order; a missing
/// icon is asked again only once its retry time has come and no load
/// runs.
pub proof fn law_icon_cache_keeps_the_newest(m: Seq<IconEntryView>, e: IconEntryView, now_ms: u64)
    ensures
        ICON_CACHE_MAX_ENTRIES == 256,
        newest_icons(m).len() == (if m.len() > 256 { 256 } else { m.len() as int }),
        forall|k: int| 0 <= k < newest_icons(m).len() ==> #[trigger] newest_icons(m)[k] == m[m.len() - newest_icons(m).len() + k],
        icon_reload_due(e, now_ms) <==> (!e.2 && e.1 == Some(None::<Seq<char>>) && e.4 is Some && e.4->0 <= now_ms),
{
}

} // verus!
