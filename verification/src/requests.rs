//! The rules the desktop side applies to requests from the window: a search
//! answered only while it is the latest one, a selection acted on only if
//! it belongs to the current search, and preview sizes kept in bounds.

use vstd::prelude::*;

verus! {

/// The most disjoint ranges a selection may hold.
pub const MAX_SELECTION_RANGES: usize = 16_384;

/// Whether a request belongs to a search older than the latest one.
pub fn request_is_stale(request_id: u32, latest_generation: u32) -> (r: bool)
    ensures
        r == (request_id < latest_generation),
{
    request_id < latest_generation
}

/// The latest search once a search with this number has begun: numbers
/// never go back.
pub fn begin_generation(latest_generation: u32, request_id: u32) -> (latest: u32)
    ensures
        latest == (if request_id > latest_generation {
            request_id
        } else {
            latest_generation
        }),
{
    if request_id > latest_generation {
        request_id
    } else {
        latest_generation
    }
}

/// Why a selection cannot be acted on, if it cannot: it is empty, it has
/// too many ranges, or it was made in a search that is no longer the
/// latest.
pub open spec fn selection_problem(ranges: nat, request_id: u32, latest_generation: u32) -> Option<Seq<char>> {
    if ranges == 0 {
        Some("No items selected"@)
    } else if ranges > MAX_SELECTION_RANGES {
        Some("Invalid selection: too many disjoint ranges"@)
    } else if request_id != latest_generation {
        Some("The search changed since the selection was made. Try again."@)
    } else {
        None
    }
}

/// Checks a selection before its paths are looked up.
pub fn check_selection_request(ranges: usize, request_id: u32, latest_generation: u32) -> (r: Result<(), &'static str>)
    ensures
        match selection_problem(ranges as nat, request_id, latest_generation) {
            Some(m) => r matches Err(e) && e@ == m,
            None => r is Ok,
        },
{
    if ranges == 0 {
        return Err("No items selected");
    }
    if ranges > MAX_SELECTION_RANGES {
        return Err("Invalid selection: too many disjoint ranges");
    }
    if request_is_stale(request_id, latest_generation) || request_id != latest_generation {
        return Err("The search changed since the selection was made. Try again.");
    }
    Ok(())
}

/// Checks, once the paths of a selection are known, that no newer search
/// began meanwhile.
pub fn check_selection_result(request_id: u32, latest_generation: u32) -> (r: Result<(), &'static str>)
    ensures
        request_id == latest_generation ==> r is Ok,
        request_id != latest_generation ==> (r matches Err(e) && e@
            == "The search changed while preparing the operation."@),
{
    if request_id != latest_generation {
        return Err("The search changed while preparing the operation.");
    }
    Ok(())
}

/// Checks the size asked for a preview: thumbnails are between 32 and 256
/// pixels; icons take any size.
pub fn check_visual_request(size: u32, thumbnail: bool) -> (r: Result<(), &'static str>)
    ensures
        thumbnail && !(32 <= size <= 256) ==> (r matches Err(e) && e@
            == "File preview size must be between 32 and 256 pixels"@),
        !(thumbnail && !(32 <= size <= 256)) ==> r is Ok,
{
    if thumbnail && !(32 <= size && size <= 256) {
        return Err("File preview size must be between 32 and 256 pixels");
    }
    Ok(())
}

/// A selection is refused when it is empty, when it has more than 16 384
/// ranges, and when it was made in another search than the latest, in
/// that order; otherwise it is acted on.
pub proof fn law_selections_are_checked_in_order(ranges: nat, request_id: u32, latest_generation: u32)
    ensures
        ranges == 0 ==> selection_problem(ranges, request_id, latest_generation) == Some(seq!['N', 'o', ' ', 'i', 't', 'e', 'm', 's', ' ', 's', 'e', 'l', 'e', 'c', 't', 'e', 'd']),
        0 < ranges <= 16_384 && request_id == latest_generation ==> selection_problem(ranges, request_id, latest_generation) is None,
        ranges > 16_384 ==> selection_problem(ranges, request_id, latest_generation) == Some(seq!['I', 'n', 'v', 'a', 'l', 'i', 'd', ' ', 's', 'e', 'l', 'e', 'c', 't', 'i', 'o', 'n', ':', ' ', 't', 'o', 'o', ' ', 'm', 'a', 'n', 'y', ' ', 'd', 'i', 's', 'j', 'o', 'i', 'n', 't', ' ', 'r', 'a', 'n', 'g', 'e', 's']),
        0 < ranges <= 16_384 && request_id != latest_generation ==> selection_problem(ranges, request_id, latest_generation)
            == Some(seq!['T', 'h', 'e', ' ', 's', 'e', 'a', 'r', 'c', 'h', ' ', 'c', 'h', 'a', 'n', 'g', 'e', 'd', ' ', 's', 'i', 'n', 'c', 'e', ' ', 't', 'h', 'e', ' ', 's', 'e', 'l', 'e', 'c', 't', 'i', 'o', 'n', ' ', 'w', 'a', 's', ' ', 'm', 'a', 'd', 'e', '.', ' ', 'T', 'r', 'y', ' ', 'a', 'g', 'a', 'i', 'n', '.']),
{
    reveal_strlit("No items selected");
    reveal_strlit("Invalid selection: too many disjoint ranges");
    reveal_strlit("The search changed since the selection was made. Try again.");
    assert("No items selected"@ =~= seq!['N', 'o', ' ', 'i', 't', 'e', 'm', 's', ' ', 's', 'e', 'l', 'e', 'c', 't', 'e', 'd']);
    assert("Invalid selection: too many disjoint ranges"@ =~= seq!['I', 'n', 'v', 'a', 'l', 'i', 'd', ' ', 's', 'e', 'l', 'e', 'c', 't', 'i', 'o', 'n', ':', ' ', 't', 'o', 'o', ' ', 'm', 'a', 'n', 'y', ' ', 'd', 'i', 's', 'j', 'o', 'i', 'n', 't', ' ', 'r', 'a', 'n', 'g', 'e', 's']);
    assert("The search changed since the selection was made. Try again."@ =~= seq!['T', 'h', 'e', ' ', 's', 'e', 'a', 'r', 'c', 'h', ' ', 'c', 'h', 'a', 'n', 'g', 'e', 'd', ' ', 's', 'i', 'n', 'c', 'e', ' ', 't', 'h', 'e', ' ', 's', 'e', 'l', 'e', 'c', 't', 'i', 'o', 'n', ' ', 'w', 'a', 's', ' ', 'm', 'a', 'd', 'e', '.', ' ', 'T', 'r', 'y', ' ', 'a', 'g', 'a', 'i', 'n', '.']);
}

} // verus!
