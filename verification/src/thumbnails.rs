//! Thumbnails of the result list: the cache of loaded previews, bounded in
//! bytes and in entries, and the queue that shares one load between every
//! row that shows the same file and skips loads nobody waits for.

use vstd::prelude::*;
use vstd::utf8::encode_utf8;
use crate::text::{chars_eq, chars_of};

verus! {

broadcast use vstd::string::group_string_axioms;

/// The most thumbnails loaded at once.
pub const MAX_CONCURRENT_THUMBNAIL_LOADS: usize = 8;

/// The bytes of preview data the thumbnail cache keeps at most.
pub const THUMBNAIL_CACHE_MAX_BYTES: usize = 25_165_824;

/// The thumbnails the cache keeps at most.
pub const THUMBNAIL_CACHE_MAX_ENTRIES: usize = 512;

/// What identifies a thumbnail: the file, the pixel size, and the version
/// of the file (its size and modification time).
#[derive(Debug, Clone)]
pub struct ThumbnailKey {
    pub path: String,
    pub pixel_size: u32,
    pub file_size: Option<u64>,
    pub modified_unix: Option<i64>,
}

/// A thumbnail key as a plain value.
pub open spec fn key_view(k: ThumbnailKey) -> (Seq<char>, u32, Option<u64>, Option<i64>) {
    (k.path@, k.pixel_size, k.file_size, k.modified_unix)
}

/// Whether two keys name the same thumbnail.
pub fn same_key(a: &ThumbnailKey, b: &ThumbnailKey) -> (r: bool)
    ensures
        r == (key_view(*a) == key_view(*b)),
{
    let same_size = match (a.file_size, b.file_size) {
        (Some(x), Some(y)) => x == y,
        (None, None) => true,
        _ => false,
    };
    let same_time = match (a.modified_unix, b.modified_unix) {
        (Some(x), Some(y)) => x == y,
        (None, None) => true,
        _ => false,
    };
    a.pixel_size == b.pixel_size && same_size && same_time && chars_eq(
        &chars_of(a.path.as_str()),
        &chars_of(b.path.as_str()),
    )
}

/// A copy of a key.
pub fn copy_key(k: &ThumbnailKey) -> (c: ThumbnailKey)
    ensures
        c == *k,
{
    ThumbnailKey {
        path: k.path.clone(),
        pixel_size: k.pixel_size,
        file_size: k.file_size,
        modified_unix: k.modified_unix,
    }
}

/// What a row shows of a thumbnail.
#[derive(Debug, Clone, PartialEq, Eq)]
pub enum VisualState {
    Loading,
    Missing,
    Ready(String),
}

impl VisualState {
    /// The state of a finished load: ready with its data, or missing.
    pub fn from_source(source: Option<String>) -> (v: VisualState)
        ensures
            v == visual_state_of(source),
    {
        match source {
            Some(s) => VisualState::Ready(s),
            None => VisualState::Missing,
        }
    }

    /// A copy of the state.
    pub fn copy(&self) -> (c: VisualState)
        ensures
            c == *self,
    {
        match self {
            VisualState::Loading => VisualState::Loading,
            VisualState::Missing => VisualState::Missing,
            VisualState::Ready(s) => VisualState::Ready(s.clone()),
        }
    }
}

/// The state of a finished load.
pub open spec fn visual_state_of(source: Option<String>) -> VisualState {
    match source {
        Some(s) => VisualState::Ready(s),
        None => VisualState::Missing,
    }
}

/// The bytes a finished load weighs: the length of its data.
pub open spec fn source_bytes(source: Option<String>) -> nat {
    match source {
        Some(s) => encode_utf8(s@).len(),
        None => 0,
    }
}

/// One cached thumbnail.
#[derive(Debug)]
pub struct CachedThumbnail {
    pub key: ThumbnailKey,
    pub state: VisualState,
    pub bytes: usize,
}

/// A cached thumbnail as a plain value.
pub open spec fn entry_view(e: CachedThumbnail) -> ((Seq<char>, u32, Option<u64>, Option<i64>), VisualState, nat) {
    (key_view(e.key), e.state, e.bytes as nat)
}

/// The position of a key in the cache, oldest use first.
pub open spec fn key_position(
    m: Seq<((Seq<char>, u32, Option<u64>, Option<i64>), VisualState, nat)>,
    k: (Seq<char>, u32, Option<u64>, Option<i64>),
) -> Option<int>
    decreases m.len(),
{
    if m.len() == 0 {
        None
    } else if m.last().0 == k {
        Some(m.len() - 1)
    } else {
        key_position(m.drop_last(), k)
    }
}

/// `a - b`, stopping at zero.
pub open spec fn saturating_sub(a: nat, b: nat) -> nat {
    if a >= b {
        (a - b) as nat
    } else {
        0
    }
}

/// `a + b`, stopping at `usize::MAX`.
pub open spec fn saturating_add(a: nat, b: nat) -> nat {
    if a + b > usize::MAX {
        usize::MAX as nat
    } else {
        a + b
    }
}

/// The cache after dropping its oldest entries while it holds more bytes
/// or more entries than allowed, with its new byte count.
pub open spec fn evicted(
    m: Seq<((Seq<char>, u32, Option<u64>, Option<i64>), VisualState, nat)>,
    bytes: nat,
    max_bytes: nat,
    max_entries: nat,
) -> (Seq<((Seq<char>, u32, Option<u64>, Option<i64>), VisualState, nat)>, nat)
    decreases m.len(),
{
    if (bytes > max_bytes || m.len() > max_entries) && m.len() > 0 {
        evicted(m.drop_first(), saturating_sub(bytes, m[0].2), max_bytes, max_entries)
    } else {
        (m, bytes)
    }
}

/// Previews by key, the least recently used first.
pub struct ThumbnailCache {
    entries: Vec<CachedThumbnail>,
    bytes: usize,
    max_bytes: usize,
    max_entries: usize,
}

impl ThumbnailCache {
    /// The cached previews, the least recently used first.
    pub closed spec fn model(&self) -> Seq<((Seq<char>, u32, Option<u64>, Option<i64>), VisualState, nat)> {
        self.entries@.map_values(|e: CachedThumbnail| entry_view(e))
    }

    /// The bytes the cache counts.
    pub closed spec fn byte_count(&self) -> nat {
        self.bytes as nat
    }

    /// The most bytes the cache keeps.
    pub closed spec fn max_bytes(&self) -> nat {
        self.max_bytes as nat
    }

    /// The most entries the cache keeps.
    pub closed spec fn max_entries(&self) -> nat {
        self.max_entries as nat
    }

    /// Each key is cached once.
    pub open spec fn wf(&self) -> bool {
        forall|i: int, j: int|
            0 <= i < j < self.model().len() ==> #[trigger] self.model()[i].0 != #[trigger] self.model()[j].0
    }

    /// An empty cache with the given limits.
    pub fn with_limits(max_bytes: usize, max_entries: usize) -> (c: ThumbnailCache)
        ensures
            c.wf(),
            c.model().len() == 0,
            c.byte_count() == 0,
            c.max_bytes() == max_bytes,
            c.max_entries() == max_entries,
    {
        ThumbnailCache { entries: Vec::new(), bytes: 0, max_bytes, max_entries }
    }

    /// An empty cache with the limits of the result list.
    pub fn new() -> (c: ThumbnailCache)
        ensures
            c.wf(),
            c.model().len() == 0,
            c.byte_count() == 0,
            c.max_bytes() == THUMBNAIL_CACHE_MAX_BYTES,
            c.max_entries() == THUMBNAIL_CACHE_MAX_ENTRIES,
    {
        ThumbnailCache::with_limits(THUMBNAIL_CACHE_MAX_BYTES, THUMBNAIL_CACHE_MAX_ENTRIES)
    }

    /// How many previews are cached.
    pub fn len(&self) -> (n: usize)
        ensures
            n == self.model().len(),
    {
        self.entries.len()
    }

    /// How many bytes the cache counts.
    pub fn bytes(&self) -> (n: usize)
        ensures
            n == self.byte_count(),
    {
        self.bytes
    }

    fn position(&self, key: &ThumbnailKey) -> (p: Option<usize>)
        ensures
            match key_position(self.model(), key_view(*key)) {
                Some(i) => p matches Some(q) && q == i && 0 <= i < self.model().len(),
                None => p is None,
            },
            p matches Some(i) ==> i < self.model().len() && self.model()[i as int].0 == key_view(*key),
    {
        let ghost m = self.model();
        let mut i: usize = self.entries.len();
        proof {
            assert(m.take(m.len() as int) =~= m);
            lemma_key_position_some(m, key_view(*key));
        }
        while i > 0
            invariant
                0 <= i <= self.entries@.len(),
                m == self.model(),
                key_position(m, key_view(*key)) == key_position(m.take(i as int), key_view(*key)),
            decreases i,
        {
            let ghost t = m.take(i as int);
            proof {
                assert(t.last() == entry_view(self.entries@[i - 1]));
                assert(t.drop_last() =~= m.take(i - 1));
            }
            if same_key(&self.entries[i - 1].key, key) {
                return Some(i - 1);
            }
            i = i - 1;
        }
        None
    }

    /// Moves the entry at a position to the most recently used end.
    fn touch(&mut self, i: usize)
        requires
            i < old(self).model().len(),
        ensures
            final(self).model() == old(self).model().remove(i as int).push(old(self).model()[i as int]),
            final(self).byte_count() == old(self).byte_count(),
            final(self).max_bytes() == old(self).max_bytes(),
            final(self).max_entries() == old(self).max_entries(),
    {
        let entry = self.entries.remove(i);
        self.entries.push(entry);
        proof {
            assert(self.model() =~= old(self).model().remove(i as int).push(old(self).model()[i as int]));
        }
    }

    /// The preview cached under a key, if any; a hit makes it the most
    /// recently used.
    pub fn get(&mut self, key: &ThumbnailKey) -> (r: Option<VisualState>)
        ensures
            match key_position(old(self).model(), key_view(*key)) {
                Some(i) => r == Some(old(self).model()[i].1) && final(self).model() == old(
                    self,
                ).model().remove(i).push(old(self).model()[i]),
                None => r is None && final(self).model() == old(self).model(),
            },
            final(self).byte_count() == old(self).byte_count(),
            final(self).max_bytes() == old(self).max_bytes(),
            final(self).max_entries() == old(self).max_entries(),
            old(self).wf() ==> final(self).wf(),
    {
        match self.position(key) {
            Some(i) => {
                let state = self.entries[i].state.copy();
                proof {
                    assert(old(self).model()[i as int].1 == state);
                }
                self.touch(i);
                proof {
                    if old(self).wf() {
                        lemma_remove_push_distinct(old(self).model(), i as int);
                    }
                }
                Some(state)
            },
            None => None,
        }
    }

    /// Keeps the preview of a finished load: a key already cached only
    /// becomes the most recently used; a new one is added at that end,
    /// counting its bytes, and the least recently used entries go while the
    /// cache holds too many bytes or entries (see `evicted`).
    pub fn insert(&mut self, key: ThumbnailKey, source: Option<String>)
        ensures
            match key_position(old(self).model(), key_view(key)) {
                Some(i) => final(self).model() == old(self).model().remove(i).push(old(self).model()[i])
                    && final(self).byte_count() == old(self).byte_count(),
                None => {
                    let e = evicted(
                        old(self).model().push((key_view(key), visual_state_of(source), source_bytes(source))),
                        saturating_add(old(self).byte_count(), source_bytes(source)),
                        old(self).max_bytes(),
                        old(self).max_entries(),
                    );
                    final(self).model() == e.0 && final(self).byte_count() == e.1
                },
            },
            final(self).max_bytes() == old(self).max_bytes(),
            final(self).max_entries() == old(self).max_entries(),
            old(self).wf() ==> final(self).wf(),
    {
        if let Some(i) = self.position(&key) {
            self.touch(i);
            proof {
                if old(self).wf() {
                    lemma_remove_push_distinct(old(self).model(), i as int);
                }
            }
            return;
        }
        let bytes: usize = match &source {
            Some(s) => s.as_str().as_bytes().len(),
            None => 0,
        };
        let ghost k = key_view(key);
        let state = VisualState::from_source(source);
        self.entries.push(CachedThumbnail { key, state, bytes });
        self.bytes = self.bytes.saturating_add(bytes);
        proof {
            assert(self.model() =~= old(self).model().push((k, visual_state_of(source), source_bytes(source))));
            lemma_key_position_none(old(self).model(), k);
            if old(self).wf() {
                assert(self.wf());
            }
        }
        self.evict_over_limit();
    }

    /// Drops the least recently used entries while the cache holds too many
    /// bytes or entries.
    fn evict_over_limit(&mut self)
        ensures
            ({
                let e = evicted(old(self).model(), old(self).byte_count(), old(self).max_bytes(), old(self).max_entries());
                final(self).model() == e.0 && final(self).byte_count() == e.1
            }),
            final(self).max_bytes() == old(self).max_bytes(),
            final(self).max_entries() == old(self).max_entries(),
            old(self).wf() ==> final(self).wf(),
    {
        while (self.bytes > self.max_bytes || self.entries.len() > self.max_entries) && self.entries.len() > 0
            invariant
                evicted(self.model(), self.byte_count(), self.max_bytes(), self.max_entries()) == evicted(
                    old(self).model(),
                    old(self).byte_count(),
                    old(self).max_bytes(),
                    old(self).max_entries(),
                ),
                self.max_bytes() == old(self).max_bytes(),
                self.max_entries() == old(self).max_entries(),
                old(self).wf() ==> self.wf(),
            decreases self.entries@.len(),
        {
            let ghost before = self.model();
            let removed = self.entries.remove(0);
            self.bytes = self.bytes.saturating_sub(removed.bytes);
            proof {
                assert(self.model() =~= before.drop_first());
                assert(entry_view(removed) == before[0]);
                if old(self).wf() {
                    assert forall|a: int, b: int| 0 <= a < b < self.model().len() implies #[trigger] self.model()[a].0
                        != #[trigger] self.model()[b].0 by {
                        assert(self.model()[a] == before[a + 1]);
                        assert(self.model()[b] == before[b + 1]);
                    }
                }
            }
        }
    }
}

/// Where a shared load stands.
#[derive(Debug, Clone, Copy, PartialEq, Eq, Structural)]
pub enum ResourceState {
    Pending,
    Running,
}

/// A load shared by every row that shows the same thumbnail.
#[derive(Debug)]
pub struct ThumbnailResource {
    pub key: ThumbnailKey,
    pub id: u64,
    pub subscribers: usize,
    pub state: ResourceState,
}

/// A shared load as a plain value.
pub open spec fn resource_view(r: ThumbnailResource) -> ((Seq<char>, u32, Option<u64>, Option<i64>), u64, nat, ResourceState) {
    (key_view(r.key), r.id, r.subscribers as nat, r.state)
}

/// A load waiting in the queue: the thumbnail, and the number of the
/// shared load it belongs to.
#[derive(Debug)]
pub struct QueuedThumbnail {
    pub key: ThumbnailKey,
    pub resource_id: u64,
}

/// A queued load as a plain value.
pub open spec fn queued_view(q: QueuedThumbnail) -> ((Seq<char>, u32, Option<u64>, Option<i64>), u64) {
    (key_view(q.key), q.resource_id)
}

/// What a row gets when it asks for a thumbnail.
#[derive(Debug, Clone, PartialEq, Eq)]
pub enum Subscription {
    /// The thumbnail is cached.
    Cached(VisualState),
    /// The row shares a load already asked for.
    Joined { resource_id: u64 },
    /// A new load was queued; `workers` new workers are to be started.
    Started { resource_id: u64, workers: usize },
}

/// The position of the shared load of a thumbnail.
pub open spec fn resource_position(
    rs: Seq<((Seq<char>, u32, Option<u64>, Option<i64>), u64, nat, ResourceState)>,
    k: (Seq<char>, u32, Option<u64>, Option<i64>),
) -> Option<int>
    decreases rs.len(),
{
    if rs.len() == 0 {
        None
    } else if rs.last().0 == k {
        Some(rs.len() - 1)
    } else {
        resource_position(rs.drop_last(), k)
    }
}

/// A queued load that someone still waits for: its shared load is the one
/// known for its thumbnail, still pending, with subscribers.
pub open spec fn live_request(
    rs: Seq<((Seq<char>, u32, Option<u64>, Option<i64>), u64, nat, ResourceState)>,
    q: ((Seq<char>, u32, Option<u64>, Option<i64>), u64),
) -> bool {
    match resource_position(rs, q.0) {
        Some(i) => rs[i].1 == q.1 && rs[i].3 == ResourceState::Pending && rs[i].2 > 0,
        None => false,
    }
}

/// The number of queued loads at the front that nobody waits for.
pub open spec fn dead_prefix(
    rs: Seq<((Seq<char>, u32, Option<u64>, Option<i64>), u64, nat, ResourceState)>,
    pending: Seq<((Seq<char>, u32, Option<u64>, Option<i64>), u64)>,
) -> nat
    decreases pending.len(),
{
    if pending.len() == 0 || live_request(rs, pending[0]) {
        0
    } else {
        1 + dead_prefix(rs, pending.drop_first())
    }
}

proof fn lemma_resource_position(
    rs: Seq<((Seq<char>, u32, Option<u64>, Option<i64>), u64, nat, ResourceState)>,
    k: (Seq<char>, u32, Option<u64>, Option<i64>),
)
    ensures
        resource_position(rs, k) matches Some(i) ==> 0 <= i < rs.len() && rs[i].0 == k,
        resource_position(rs, k) is None ==> forall|i: int| 0 <= i < rs.len() ==> #[trigger] rs[i].0 != k,
    decreases rs.len(),
{
    if rs.len() > 0 && rs.last().0 != k {
        lemma_resource_position(rs.drop_last(), k);
        assert forall|i: int| 0 <= i < rs.len() - 1 implies #[trigger] rs[i] == rs.drop_last()[i] by {}
    }
}

/// The thumbnail loads of the result list: the cache, the shared loads by
/// thumbnail, the queue, and how many workers run.
pub struct ThumbnailPipeline {
    pending: Vec<QueuedThumbnail>,
    running_workers: usize,
    resources: Vec<ThumbnailResource>,
    cache: ThumbnailCache,
    next_resource_id: u64,
}

impl ThumbnailPipeline {
    /// The queued loads, oldest first.
    pub closed spec fn queue(&self) -> Seq<((Seq<char>, u32, Option<u64>, Option<i64>), u64)> {
        self.pending@.map_values(|q: QueuedThumbnail| queued_view(q))
    }

    /// The shared loads, one per thumbnail.
    pub closed spec fn loads(&self) -> Seq<((Seq<char>, u32, Option<u64>, Option<i64>), u64, nat, ResourceState)> {
        self.resources@.map_values(|r: ThumbnailResource| resource_view(r))
    }

    /// The number of workers running.
    pub closed spec fn workers(&self) -> nat {
        self.running_workers as nat
    }

    /// The number the next shared load gets.
    pub closed spec fn next_id(&self) -> u64 {
        self.next_resource_id
    }

    /// The cached thumbnails.
    pub closed spec fn cached(&self) -> Seq<((Seq<char>, u32, Option<u64>, Option<i64>), VisualState, nat)> {
        self.cache.model()
    }

    /// One shared load per thumbnail, at most the allowed number of workers,
    /// and a cache with each key once.
    pub open spec fn wf(&self) -> bool {
        &&& forall|i: int, j: int|
            0 <= i < j < self.loads().len() ==> #[trigger] self.loads()[i].0 != #[trigger] self.loads()[j].0
        &&& self.workers() <= MAX_CONCURRENT_THUMBNAIL_LOADS
        &&& self.cache_wf()
    }

    /// The bytes the cache counts.
    pub closed spec fn cached_bytes(&self) -> nat {
        self.cache.byte_count()
    }

    /// The most bytes the cache keeps.
    pub closed spec fn cache_max_bytes(&self) -> nat {
        self.cache.max_bytes()
    }

    /// The most entries the cache keeps.
    pub closed spec fn cache_max_entries(&self) -> nat {
        self.cache.max_entries()
    }

    /// The cache keeps each key once.
    pub closed spec fn cache_wf(&self) -> bool {
        self.cache.wf()
    }

    /// No load, no worker, an empty cache with the limits of the list.
    pub fn new() -> (p: ThumbnailPipeline)
        ensures
            p.wf(),
            p.queue().len() == 0,
            p.loads().len() == 0,
            p.workers() == 0,
            p.next_id() == 1,
            p.cached().len() == 0,
    {
        ThumbnailPipeline {
            pending: Vec::new(),
            running_workers: 0,
            resources: Vec::new(),
            cache: ThumbnailCache::new(),
            next_resource_id: 1,
        }
    }

    /// How many loads are queued.
    pub fn pending_len(&self) -> (n: usize)
        ensures
            n == self.queue().len(),
    {
        self.pending.len()
    }

    /// How many shared loads there are.
    pub fn resources_len(&self) -> (n: usize)
        ensures
            n == self.loads().len(),
    {
        self.resources.len()
    }

    /// How many workers run.
    pub fn running_workers(&self) -> (n: usize)
        ensures
            n == self.workers(),
    {
        self.running_workers
    }

    fn resource_index(&self, key: &ThumbnailKey) -> (p: Option<usize>)
        ensures
            match resource_position(self.loads(), key_view(*key)) {
                Some(i) => p matches Some(q) && q == i && 0 <= i < self.loads().len(),
                None => p is None,
            },
    {
        let ghost rs = self.loads();
        let mut i: usize = self.resources.len();
        proof {
            assert(rs.take(rs.len() as int) =~= rs);
            lemma_resource_position(rs, key_view(*key));
        }
        while i > 0
            invariant
                0 <= i <= self.resources@.len(),
                rs == self.loads(),
                resource_position(rs, key_view(*key)) == resource_position(rs.take(i as int), key_view(*key)),
            decreases i,
        {
            let ghost t = rs.take(i as int);
            proof {
                assert(t.last() == resource_view(self.resources@[i - 1]));
                assert(t.drop_last() =~= rs.take(i - 1));
            }
            if same_key(&self.resources[i - 1].key, key) {
                return Some(i - 1);
            }
            i = i - 1;
        }
        None
    }

    /// Asks for the thumbnail of a row: a cached one is handed out (and
    /// becomes the most recently used); a thumbnail already being loaded
    /// gets one more subscriber; otherwise a new shared load is queued
    /// under the next number, and a worker is started if fewer than the
    /// allowed number run.
    pub fn subscribe(&mut self, key: ThumbnailKey) -> (s: Subscription)
        requires
            old(self).wf(),
        ensures
            final(self).wf(),
            match key_position(old(self).cached(), key_view(key)) {
                Some(c) => s == Subscription::Cached(old(self).cached()[c].1) && final(self).loads()
                    == old(self).loads() && final(self).queue() == old(self).queue()
                    && final(self).workers() == old(self).workers(),
                None => match resource_position(old(self).loads(), key_view(key)) {
                    Some(i) => s == Subscription::Joined { resource_id: old(self).loads()[i].1 }
                        && final(self).loads() == old(self).loads().update(
                        i,
                        (
                            old(self).loads()[i].0,
                            old(self).loads()[i].1,
                            saturating_add(old(self).loads()[i].2, 1),
                            old(self).loads()[i].3,
                        ),
                    ) && final(self).queue() == old(self).queue() && final(self).workers() == old(
                        self,
                    ).workers(),
                    None => {
                        let id = old(self).next_id();
                        let started: nat = if old(self).workers() < MAX_CONCURRENT_THUMBNAIL_LOADS {
                            1
                        } else {
                            0
                        };
                        &&& s == Subscription::Started { resource_id: id, workers: started as usize }
                        &&& final(self).loads() == old(self).loads().push(
                            (key_view(key), id, 1nat, ResourceState::Pending),
                        )
                        &&& final(self).queue() == old(self).queue().push((key_view(key), id))
                        &&& final(self).workers() == old(self).workers() + started
                        &&& final(self).next_id() == id.wrapping_add(1)
                    },
                },
            },
    {
        let cached = self.cache.get(&key);
        if let Some(state) = cached {
            return Subscription::Cached(state);
        }
        if let Some(i) = self.resource_index(&key) {
            let ghost before = self.loads();
            let id = self.resources[i].id;
            let subscribers = self.resources[i].subscribers.saturating_add(1);
            self.resources[i].subscribers = subscribers;
            proof {
                assert(self.loads() =~= before.update(
                    i as int,
                    (before[i as int].0, before[i as int].1, saturating_add(before[i as int].2, 1), before[i as int].3),
                ));
                assert forall|a: int, b: int| 0 <= a < b < self.loads().len() implies #[trigger] self.loads()[a].0
                    != #[trigger] self.loads()[b].0 by {
                    assert(self.loads()[a].0 == before[a].0);
                    assert(self.loads()[b].0 == before[b].0);
                }
            }
            return Subscription::Joined { resource_id: id };
        }
        let id = self.next_resource_id;
        self.next_resource_id = self.next_resource_id.wrapping_add(1);
        let ghost before = self.loads();
        let ghost k = key_view(key);
        proof {
            lemma_resource_position(before, k);
        }
        let queued = QueuedThumbnail { key: copy_key(&key), resource_id: id };
        self.resources.push(ThumbnailResource { key, id, subscribers: 1, state: ResourceState::Pending });
        self.pending.push(queued);
        proof {
            assert(self.loads() =~= before.push((k, id, 1nat, ResourceState::Pending)));
            assert(self.queue() =~= old(self).queue().push((k, id)));
            assert forall|a: int, b: int| 0 <= a < b < self.loads().len() implies #[trigger] self.loads()[a].0
                != #[trigger] self.loads()[b].0 by {
                if b < before.len() {
                    assert(self.loads()[a] == before[a]);
                    assert(self.loads()[b] == before[b]);
                } else {
                    assert(self.loads()[a] == before[a]);
                }
            }
        }
        let workers = self.workers_to_start();
        Subscription::Started { resource_id: id, workers }
    }

    /// Starts a worker if fewer than the allowed number run.
    fn workers_to_start(&mut self) -> (n: usize)
        requires
            old(self).running_workers <= MAX_CONCURRENT_THUMBNAIL_LOADS,
        ensures
            old(self).running_workers < MAX_CONCURRENT_THUMBNAIL_LOADS ==> n == 1
                && final(self).running_workers == old(self).running_workers + 1,
            old(self).running_workers >= MAX_CONCURRENT_THUMBNAIL_LOADS ==> n == 0
                && final(self).running_workers == old(self).running_workers,
            final(self).pending == old(self).pending,
            final(self).resources == old(self).resources,
            final(self).cache == old(self).cache,
            final(self).next_resource_id == old(self).next_resource_id,
    {
        if self.running_workers >= MAX_CONCURRENT_THUMBNAIL_LOADS {
            return 0;
        }
        self.running_workers = self.running_workers + 1;
        1
    }

    /// A row no longer shows the thumbnail of the shared load `resource_id`:
    /// it loses a subscriber, and a load still pending that nobody waits
    /// for is dropped.
    pub fn unsubscribe(&mut self, key: &ThumbnailKey, resource_id: u64)
        requires
            old(self).wf(),
        ensures
            final(self).wf(),
            final(self).queue() == old(self).queue(),
            final(self).workers() == old(self).workers(),
            final(self).cached() == old(self).cached(),
            match resource_position(old(self).loads(), key_view(*key)) {
                Some(i) => if old(self).loads()[i].1 != resource_id {
                    final(self).loads() == old(self).loads()
                } else {
                    let left = saturating_sub(old(self).loads()[i].2, 1);
                    if left == 0 && old(self).loads()[i].3 == ResourceState::Pending {
                        final(self).loads() == old(self).loads().remove(i)
                    } else {
                        final(self).loads() == old(self).loads().update(
                            i,
                            (old(self).loads()[i].0, old(self).loads()[i].1, left, old(self).loads()[i].3),
                        )
                    }
                },
                None => final(self).loads() == old(self).loads(),
            },
    {
        let i = match self.resource_index(key) {
            Some(i) => i,
            None => {
                return;
            },
        };
        if self.resources[i].id != resource_id {
            return;
        }
        let ghost before = self.loads();
        let remaining = self.resources[i].subscribers.saturating_sub(1);
        if remaining == 0 && self.resources[i].state == ResourceState::Pending {
            self.resources.remove(i);
            proof {
                assert(self.loads() =~= before.remove(i as int));
                assert forall|a: int, b: int| 0 <= a < b < self.loads().len() implies #[trigger] self.loads()[a].0
                    != #[trigger] self.loads()[b].0 by {
                    let ba = if a < i { a } else { a + 1 };
                    let bb = if b < i { b } else { b + 1 };
                    assert(self.loads()[a] == before[ba]);
                    assert(self.loads()[b] == before[bb]);
                }
            }
        } else {
            self.resources[i].subscribers = remaining;
            proof {
                assert(self.loads() =~= before.update(
                    i as int,
                    (before[i as int].0, before[i as int].1, remaining as nat, before[i as int].3),
                ));
                assert forall|a: int, b: int| 0 <= a < b < self.loads().len() implies #[trigger] self.loads()[a].0
                    != #[trigger] self.loads()[b].0 by {
                    assert(self.loads()[a].0 == before[a].0);
                    assert(self.loads()[b].0 == before[b].0);
                }
            }
        }
    }

    /// The next load a worker runs: the queued loads nobody waits for are
    /// dropped from the front, and the first live one is taken and marked
    /// running; nothing when none is left.
    pub fn next_request(&mut self) -> (r: Option<QueuedThumbnail>)
        requires
            old(self).wf(),
        ensures
            final(self).wf(),
            ({
                let d = dead_prefix(old(self).loads(), old(self).queue());
                if d == old(self).queue().len() {
                    &&& r is None
                    &&& final(self).queue().len() == 0
                    &&& final(self).loads() == old(self).loads()
                } else {
                    let q = old(self).queue()[d as int];
                    let i = resource_position(old(self).loads(), q.0)->0;
                    &&& r matches Some(req) && queued_view(req) == q
                    &&& final(self).queue() == old(self).queue().skip(d as int + 1)
                    &&& final(self).loads() == old(self).loads().update(
                        i,
                        (old(self).loads()[i].0, old(self).loads()[i].1, old(self).loads()[i].2, ResourceState::Running),
                    )
                }
            }),
            final(self).workers() == old(self).workers(),
            final(self).cached() == old(self).cached(),
    {
        let ghost rs = self.loads();
        let ghost all = self.queue();
        let total = self.pending.len();
        let mut dropped: usize = 0;
        while self.pending.len() > 0
            invariant
                self.wf(),
                self.loads() == rs,
                rs == old(self).loads(),
                all == old(self).queue(),
                self.workers() == old(self).workers(),
                self.cached() == old(self).cached(),
                0 <= dropped <= all.len(),
                self.queue() == all.skip(dropped as int),
                dropped + self.queue().len() == all.len(),
                all.len() == total,
                dead_prefix(rs, all) == dropped + dead_prefix(rs, self.queue()),
            decreases self.pending@.len(),
        {
            let ghost before_q = self.queue();
            let request = self.pending.remove(0);
            let ghost q = queued_view(request);
            proof {
                assert(self.queue() =~= before_q.drop_first());
                assert(self.queue() =~= all.skip(dropped + 1));
                assert(all.skip(dropped as int)[0] == q);
                assert(all.skip(dropped as int).drop_first() =~= all.skip(dropped + 1));
            }
            let live = match self.resource_index(&request.key) {
                Some(i) => self.resources[i].id == request.resource_id && self.resources[i].state
                    == ResourceState::Pending && self.resources[i].subscribers > 0,
                None => false,
            };
            proof {
                lemma_resource_position(rs, q.0);
                assert(live == live_request(rs, q));
            }
            if live {
                let i = self.resource_index(&request.key).unwrap();
                self.resources[i].state = ResourceState::Running;
                proof {
                    assert(self.loads() =~= rs.update(
                        i as int,
                        (rs[i as int].0, rs[i as int].1, rs[i as int].2, ResourceState::Running),
                    ));
                    assert forall|a: int, b: int| 0 <= a < b < self.loads().len() implies #[trigger] self.loads()[a].0
                        != #[trigger] self.loads()[b].0 by {
                        assert(self.loads()[a].0 == rs[a].0);
                        assert(self.loads()[b].0 == rs[b].0);
                    }
                }
                return Some(request);
            }
            dropped = dropped + 1;
        }
        None
    }

    /// The shared load a finished request belongs to, if it is still the
    /// one known for its thumbnail.
    fn load_of(&self, request: &QueuedThumbnail) -> (p: Option<usize>)
        ensures
            match resource_position(self.loads(), queued_view(*request).0) {
                Some(i) => if self.loads()[i].1 == request.resource_id {
                    p matches Some(q) && q == i && 0 <= i < self.loads().len()
                } else {
                    p is None
                },
                None => p is None,
            },
    {
        match self.resource_index(&request.key) {
            Some(i) => if self.resources[i].id == request.resource_id {
                Some(i)
            } else {
                None
            },
            None => None,
        }
    }

    /// Whether a finished load is to be shown: its shared load still has
    /// subscribers.
    pub open spec fn delivers(
        loads: Seq<((Seq<char>, u32, Option<u64>, Option<i64>), u64, nat, ResourceState)>,
        q: ((Seq<char>, u32, Option<u64>, Option<i64>), u64),
    ) -> bool {
        match resource_position(loads, q.0) {
            Some(i) => loads[i].1 == q.1 && loads[i].2 > 0,
            None => false,
        }
    }

    /// The shared loads once a finished one is dropped.
    pub open spec fn without_load(
        loads: Seq<((Seq<char>, u32, Option<u64>, Option<i64>), u64, nat, ResourceState)>,
        q: ((Seq<char>, u32, Option<u64>, Option<i64>), u64),
    ) -> Seq<((Seq<char>, u32, Option<u64>, Option<i64>), u64, nat, ResourceState)> {
        match resource_position(loads, q.0) {
            Some(i) => if loads[i].1 == q.1 {
                loads.remove(i)
            } else {
                loads
            },
            None => loads,
        }
    }

    fn drop_load(&mut self, request: &QueuedThumbnail) -> (deliver: bool)
        requires
            old(self).wf(),
        ensures
            final(self).wf(),
            deliver == Self::delivers(old(self).loads(), queued_view(*request)),
            final(self).loads() == Self::without_load(old(self).loads(), queued_view(*request)),
            final(self).queue() == old(self).queue(),
            final(self).workers() == old(self).workers(),
            final(self).cache == old(self).cache,
    {
        match self.load_of(request) {
            Some(i) => {
                let ghost before = self.loads();
                let deliver = self.resources[i].subscribers > 0;
                self.resources.remove(i);
                proof {
                    assert(self.loads() =~= before.remove(i as int));
                    assert forall|a: int, b: int| 0 <= a < b < self.loads().len() implies #[trigger] self.loads()[a].0
                        != #[trigger] self.loads()[b].0 by {
                        let ba = if a < i { a } else { a + 1 };
                        let bb = if b < i { b } else { b + 1 };
                        assert(self.loads()[a] == before[ba]);
                        assert(self.loads()[b] == before[bb]);
                    }
                }
                deliver
            },
            None => false,
        }
    }

    /// A load finished with its preview (or none): the preview is cached,
    /// the shared load is dropped, and the answer says whether rows still
    /// wait for it.
    pub fn complete(&mut self, request: &QueuedThumbnail, source: Option<String>) -> (deliver: bool)
        requires
            old(self).wf(),
        ensures
            final(self).wf(),
            deliver == Self::delivers(old(self).loads(), queued_view(*request)),
            final(self).loads() == Self::without_load(old(self).loads(), queued_view(*request)),
            final(self).queue() == old(self).queue(),
            final(self).workers() == old(self).workers(),
            ({
                let k = queued_view(*request).0;
                match key_position(old(self).cached(), k) {
                    Some(i) => final(self).cached() == old(self).cached().remove(i).push(old(self).cached()[i]),
                    None => final(self).cached() == evicted(
                        old(self).cached().push((k, visual_state_of(source), source_bytes(source))),
                        saturating_add(old(self).cached_bytes(), source_bytes(source)),
                        old(self).cache_max_bytes(),
                        old(self).cache_max_entries(),
                    ).0,
                }
            }),
    {
        self.cache.insert(copy_key(&request.key), source);
        proof {
            assert(self.cache_wf());
            assert(self.loads() == old(self).loads());
            assert(self.workers() == old(self).workers());
        }
        self.drop_load(request)
    }

    /// A load failed: the shared load is dropped, and the answer says
    /// whether rows still wait for it (they show it as missing).
    pub fn fail(&mut self, request: &QueuedThumbnail) -> (deliver: bool)
        requires
            old(self).wf(),
        ensures
            final(self).wf(),
            deliver == Self::delivers(old(self).loads(), queued_view(*request)),
            final(self).loads() == Self::without_load(old(self).loads(), queued_view(*request)),
            final(self).queue() == old(self).queue(),
            final(self).workers() == old(self).workers(),
            final(self).cached() == old(self).cached(),
    {
        self.drop_load(request)
    }

    /// A worker stopped, finding the queue empty.
    pub fn worker_finished(&mut self)
        requires
            old(self).wf(),
        ensures
            final(self).wf(),
            final(self).workers() == saturating_sub(old(self).workers(), 1),
            final(self).queue() == old(self).queue(),
            final(self).loads() == old(self).loads(),
            final(self).cached() == old(self).cached(),
    {
        self.running_workers = self.running_workers.saturating_sub(1);
        proof {
            assert(self.loads() == old(self).loads());
            assert(self.cache_wf());
            assert(self.workers() <= MAX_CONCURRENT_THUMBNAIL_LOADS);
        }
    }
}

/// After a new thumbnail is added and the oldest entries dropped, the
/// cache holds at most its number of entries, and at most its number of
/// bytes unless it is empty; what is left are the most recently used
/// entries, in order.
pub proof fn law_eviction_respects_limits(
    m: Seq<((Seq<char>, u32, Option<u64>, Option<i64>), VisualState, nat)>,
    bytes: nat,
    max_bytes: nat,
    max_entries: nat,
)
    ensures
        ({
            let e = evicted(m, bytes, max_bytes, max_entries);
            &&& e.0.len() <= max_entries
            &&& e.1 <= max_bytes || e.0.len() == 0
            &&& e.0.len() <= m.len()
            &&& e.0 == m.skip(m.len() - e.0.len())
        }),
    decreases m.len(),
{
    if (bytes > max_bytes || m.len() > max_entries) && m.len() > 0 {
        law_eviction_respects_limits(m.drop_first(), saturating_sub(bytes, m[0].2), max_bytes, max_entries);
        let e = evicted(m, bytes, max_bytes, max_entries);
        assert(m.drop_first().skip(m.drop_first().len() - e.0.len()) =~= m.skip(m.len() - e.0.len()));
    } else {
        assert(m.skip(0) =~= m);
    }
}

proof fn lemma_key_position_some(
    m: Seq<((Seq<char>, u32, Option<u64>, Option<i64>), VisualState, nat)>,
    k: (Seq<char>, u32, Option<u64>, Option<i64>),
)
    ensures
        key_position(m, k) matches Some(i) ==> 0 <= i < m.len() && m[i].0 == k,
    decreases m.len(),
{
    if m.len() > 0 && m.last().0 != k {
        lemma_key_position_some(m.drop_last(), k);
    }
}

proof fn lemma_key_position_none(
    m: Seq<((Seq<char>, u32, Option<u64>, Option<i64>), VisualState, nat)>,
    k: (Seq<char>, u32, Option<u64>, Option<i64>),
)
    requires
        key_position(m, k) is None,
    ensures
        forall|i: int| 0 <= i < m.len() ==> #[trigger] m[i].0 != k,
    decreases m.len(),
{
    if m.len() > 0 {
        lemma_key_position_none(m.drop_last(), k);
        assert forall|i: int| 0 <= i < m.len() implies #[trigger] m[i].0 != k by {
            if i < m.len() - 1 {
                assert(m[i] == m.drop_last()[i]);
            }
        }
    }
}

proof fn lemma_remove_push_distinct(
    m: Seq<((Seq<char>, u32, Option<u64>, Option<i64>), VisualState, nat)>,
    i: int,
)
    requires
        0 <= i < m.len(),
        forall|a: int, b: int| 0 <= a < b < m.len() ==> #[trigger] m[a].0 != #[trigger] m[b].0,
    ensures
        ({
            let t = m.remove(i).push(m[i]);
            forall|a: int, b: int| 0 <= a < b < t.len() ==> #[trigger] t[a].0 != #[trigger] t[b].0
        }),
{
    let t = m.remove(i).push(m[i]);
    assert forall|a: int, b: int| 0 <= a < b < t.len() implies #[trigger] t[a].0 != #[trigger] t[b].0 by {
        let ma = if a < i { a } else if a < t.len() - 1 { a + 1 } else { i };
        let mb = if b < i { b } else if b < t.len() - 1 { b + 1 } else { i };
        assert(t[a] == m[ma]);
        assert(t[b] == m[mb]);
    }
}

/// At most 8 previews load at a time, and the preview cache holds at most
/// 512 previews and 24 MiB of picture data.
pub proof fn law_preview_limits()
    ensures
        MAX_CONCURRENT_THUMBNAIL_LOADS == 8,
        THUMBNAIL_CACHE_MAX_ENTRIES == 512,
        THUMBNAIL_CACHE_MAX_BYTES == 24 * 1024 * 1024,
{
}

} // verus!
