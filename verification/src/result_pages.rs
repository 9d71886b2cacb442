//! How the result list is fetched: in pages of a fixed size, the pages
//! around the visible rows, and a small cache that keeps the pages nearest
//! to the latest one fetched.

use vstd::prelude::*;

verus! {

/// The number of results in a page.
pub const PAGE_SIZE: u32 = 256;

/// The number of pages the cache keeps.
pub const PAGE_CACHE_LIMIT: usize = 8;

/// The page that holds a result, and its place in the page.
pub fn page_position(index: u32) -> (p: (u32, usize))
    ensures
        p.0 == index / PAGE_SIZE,
        p.1 == index % PAGE_SIZE,
        p.0 * PAGE_SIZE + p.1 == index,
{
    (index / PAGE_SIZE, (index % PAGE_SIZE) as usize)
}

/// The offset of the first result of a page (stopping at `u32::MAX`).
pub fn page_offset(page: u32) -> (offset: u32)
    ensures
        offset == (if page * PAGE_SIZE > u32::MAX {
            u32::MAX as int
        } else {
            page * PAGE_SIZE
        }),
{
    if (page as u64) * 256 > u32::MAX as u64 {
        u32::MAX
    } else {
        page * PAGE_SIZE
    }
}

/// The pages to fetch for the rows `[start, end)` of a list of `total`
/// results: from the page before the first visible one to the page after
/// the last, without going past the last page. `None` when no row is
/// visible.
pub fn pages_to_request(start: u32, end: u32, total: u32) -> (r: Option<(u32, u32)>)
    ensures
        end == 0 ==> r is None,
        end > 0 ==> ({
            let first_page = start / PAGE_SIZE;
            let last_page = (end - 1) / (PAGE_SIZE as int);
            let max_page = (if total == 0 {
                0
            } else {
                total - 1
            }) / (PAGE_SIZE as int);
            let from = if first_page == 0 {
                0
            } else {
                first_page - 1
            };
            let to = if last_page + 1 < max_page {
                last_page + 1
            } else {
                max_page
            };
            r == Some((from as u32, to as u32))
        }),
        end > 0 ==> (r matches Some(p) && forall|i: int|
            start <= i < end && i < total ==> p.0 <= #[trigger] (i / (PAGE_SIZE as int)) <= p.1),
{
    if end == 0 {
        return None;
    }
    proof {
        assert forall|i: int| start <= i < end && i < total implies (if start / PAGE_SIZE == 0 {
            0
        } else {
            start / PAGE_SIZE - 1
        }) <= #[trigger] (i / (PAGE_SIZE as int)) && i / (PAGE_SIZE as int) <= (end - 1) / (PAGE_SIZE as int)
            && i / (PAGE_SIZE as int) <= (total - 1) / (PAGE_SIZE as int) by {
            vstd::arithmetic::div_mod::lemma_div_is_ordered(start as int, i, PAGE_SIZE as int);
            vstd::arithmetic::div_mod::lemma_div_is_ordered(i, end - 1, PAGE_SIZE as int);
            vstd::arithmetic::div_mod::lemma_div_is_ordered(i, total - 1, PAGE_SIZE as int);
        }
    }
    let first_page = start / PAGE_SIZE;
    let last_page = (end - 1) / PAGE_SIZE;
    let max_page = total.saturating_sub(1) / PAGE_SIZE;
    let from = first_page.saturating_sub(1);
    let after = last_page.saturating_add(1);
    let to = if after < max_page {
        after
    } else {
        max_page
    };
    Some((from, to))
}

/// How far a page is from another.
pub open spec fn page_distance(page: u32, current: u32) -> nat {
    if page >= current {
        (page - current) as nat
    } else {
        (current - page) as nat
    }
}

/// Among the first `n` pages, the position of the last one of those
/// farthest from `current`.
pub open spec fn farthest_upto(pages: Seq<u32>, current: u32, n: int) -> int
    decreases n,
{
    if n <= 1 {
        0
    } else {
        let prev = farthest_upto(pages, current, n - 1);
        if page_distance(pages[n - 1], current) >= page_distance(pages[prev], current) {
            n - 1
        } else {
            prev
        }
    }
}

/// The pages left after dropping, one at a time, the farthest page from
/// `current` (the last of the farthest ones) while more than `limit` are
/// cached.
pub open spec fn kept_after_eviction(pages: Seq<u32>, current: u32, limit: nat) -> Seq<u32>
    decreases pages.len(),
{
    if pages.len() > limit && pages.len() > 0 {
        proof {
            lemma_farthest_upto(pages, current, pages.len() as int);
        }
        kept_after_eviction(pages.remove(farthest_upto(pages, current, pages.len() as int)), current, limit)
    } else {
        pages
    }
}

pub proof fn lemma_farthest_upto(pages: Seq<u32>, current: u32, n: int)
    requires
        1 <= n <= pages.len(),
    ensures
        0 <= farthest_upto(pages, current, n) < n,
        forall|k: int|
            0 <= k < n ==> page_distance(#[trigger] pages[k], current) <= page_distance(
                pages[farthest_upto(pages, current, n)],
                current,
            ),
    decreases n,
{
    if n > 1 {
        lemma_farthest_upto(pages, current, n - 1);
    }
}

/// The pages a cache keeps once the page `current` was fetched: at most
/// `PAGE_CACHE_LIMIT`, the farthest from `current` dropped first.
pub fn kept_pages(pages: &[u32], current: u32) -> (kept: Vec<u32>)
    ensures
        kept@ == kept_after_eviction(pages@, current, PAGE_CACHE_LIMIT as nat),
{
    let mut kept: Vec<u32> = Vec::new();
    let mut i: usize = 0;
    while i < pages.len()
        invariant
            0 <= i <= pages@.len(),
            kept@ == pages@.take(i as int),
        decreases pages@.len() - i,
    {
        kept.push(pages[i]);
        i = i + 1;
        proof {
            assert(kept@ =~= pages@.take(i as int));
        }
    }
    proof {
        assert(pages@.take(i as int) =~= pages@);
    }
    while kept.len() > PAGE_CACHE_LIMIT
        invariant
            kept_after_eviction(kept@, current, PAGE_CACHE_LIMIT as nat) == kept_after_eviction(
                pages@,
                current,
                PAGE_CACHE_LIMIT as nat,
            ),
        decreases kept@.len(),
    {
        let mut far: usize = 0;
        let mut j: usize = 1;
        while j < kept.len()
            invariant
                1 <= j <= kept@.len(),
                0 <= far < j,
                far == farthest_upto(kept@, current, j as int),
            decreases kept@.len() - j,
        {
            let dj = if kept[j] >= current {
                kept[j] - current
            } else {
                current - kept[j]
            };
            let df = if kept[far] >= current {
                kept[far] - current
            } else {
                current - kept[far]
            };
            proof {
                lemma_farthest_upto(kept@, current, j as int);
            }
            if dj >= df {
                far = j;
            }
            j = j + 1;
        }
        proof {
            lemma_farthest_upto(kept@, current, kept@.len() as int);
        }
        kept.remove(far);
    }
    kept
}

/// The page cache keeps the pages nearest to the latest one fetched: it
/// keeps its limit of pages (all of them when it has fewer), only pages it
/// had, and every page it keeps is at least as near as every page it
/// dropped.
pub proof fn law_kept_pages_are_the_nearest(pages: Seq<u32>, current: u32, limit: nat)
    requires
        pages.no_duplicates(),
    ensures
        ({
            let kept = kept_after_eviction(pages, current, limit);
            &&& kept.len() == (if pages.len() <= limit {
                pages.len()
            } else {
                limit
            })
            &&& forall|x: u32| #[trigger] kept.contains(x) ==> pages.contains(x)
            &&& forall|k: u32, d: u32|
                #[trigger] kept.contains(k) && #[trigger] pages.contains(d) && !kept.contains(d)
                    ==> page_distance(k, current) <= page_distance(d, current)
        }),
    decreases pages.len(),
{
    if pages.len() > limit && pages.len() > 0 {
        let f = farthest_upto(pages, current, pages.len() as int);
        lemma_farthest_upto(pages, current, pages.len() as int);
        let rest = pages.remove(f);
        assert(rest.no_duplicates()) by {
            assert forall|a: int, b: int| 0 <= a < b < rest.len() implies rest[a] != rest[b] by {
                let pa = if a < f { a } else { a + 1 };
                let pb = if b < f { b } else { b + 1 };
                assert(rest[a] == pages[pa] && rest[b] == pages[pb]);
            }
        }
        law_kept_pages_are_the_nearest(rest, current, limit);
        let kept = kept_after_eviction(pages, current, limit);
        assert(kept == kept_after_eviction(rest, current, limit));
        assert forall|x: u32| #[trigger] rest.contains(x) implies pages.contains(x) by {
            let i = choose|i: int| 0 <= i < rest.len() && rest[i] == x;
            let pi = if i < f { i } else { i + 1 };
            assert(pages[pi] == x);
        }
        assert forall|k: u32, d: u32|
            #[trigger] kept.contains(k) && #[trigger] pages.contains(d) && !kept.contains(d)
                implies page_distance(k, current) <= page_distance(d, current) by {
            assert(rest.contains(k));
            let ik = choose|ik: int| 0 <= ik < rest.len() && rest[ik] == k;
            let pk = if ik < f { ik } else { ik + 1 };
            assert(pages[pk] == k);
            let id = choose|id: int| 0 <= id < pages.len() && pages[id] == d;
            if id != f {
                let ri = if id < f { id } else { id - 1 };
                assert(rest[ri] == d);
                assert(rest.contains(d));
            } else {
                assert(page_distance(pages[pk], current) <= page_distance(pages[f], current));
            }
        }
    }
}

/// Results are fetched in pages of 256, and the cache keeps 8 pages.
pub proof fn law_page_limits()
    ensures
        PAGE_SIZE == 256,
        PAGE_CACHE_LIMIT == 8,
{
}

} // verus!
