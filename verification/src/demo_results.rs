//! The results the window shows when it runs without the desktop host: a
//! fixed set of made-up files and folders that answers any query.

use vstd::prelude::*;
use crate::model::{QueryRequest, SearchPage, SearchResult};
use crate::text::{
    chars_of, decimal, decimal_chars, find_last, last_index_of, push_chars, replace_char, replace_seq,
    string_of, sub_chars, trimmed, trim_chars,
};

verus! {

broadcast use vstd::string::group_string_axioms;

/// How many made-up results a non-blank query has.
pub const DEMO_TOTAL: u32 = 12_480;

/// `x` in decimal, with leading zeros up to `width` digits.
pub open spec fn zero_padded(x: nat, width: nat) -> Seq<char> {
    let digits = decimal(x);
    if digits.len() < width {
        Seq::new((width - digits.len()) as nat, |i: int| '0') + digits
    } else {
        digits
    }
}

fn zero_padded_chars(x: u32, width: usize) -> (r: Vec<char>)
    ensures
        r@ == zero_padded(x as nat, width as nat),
{
    let digits = decimal_chars(x as u128);
    if digits.len() >= width {
        return digits;
    }
    let mut r: Vec<char> = Vec::new();
    let pad = width - digits.len();
    let mut i: usize = 0;
    while i < pad
        invariant
            0 <= i <= pad,
            r@ == Seq::new(i as nat, |k: int| '0'),
        decreases pad - i,
    {
        r.push('0');
        proof {
            assert(r@ =~= Seq::new((i + 1) as nat, |k: int| '0'));
        }
        i = i + 1;
    }
    push_chars(&mut r, &digits);
    r
}

/// The extension of the made-up file at an index.
pub open spec fn demo_extension(index: nat) -> Seq<char> {
    let r = index % 6;
    if r == 0 {
        "rs"@
    } else if r == 1 {
        "pdf"@
    } else if r == 2 {
        "png"@
    } else if r == 3 {
        "md"@
    } else if r == 4 {
        "zip"@
    } else {
        "txt"@
    }
}

/// The name of the made-up result at an index: a folder `Projet NNNN` for
/// every eleventh, otherwise a file named after the query.
pub open spec fn demo_name(query: Seq<char>, index: nat) -> Seq<char> {
    if index % 11 == 0 {
        "Projet "@ + zero_padded(index, 4)
    } else {
        replace_seq(query, ' ', '-') + "-resultat-"@ + zero_padded(index, 5) + "."@ + demo_extension(index)
    }
}

/// The full path of the made-up result at an index.
pub open spec fn demo_path(query: Seq<char>, index: nat) -> Seq<char> {
    if index % 11 == 0 {
        "C:\\Users\\Public\\Documents\\"@ + demo_name(query, index)
    } else {
        "C:\\Users\\Public\\Documents\\Everything Modern\\"@ + demo_name(query, index)
    }
}

/// What comes before the last backslash of a path (nothing without one).
pub open spec fn before_last_backslash(path: Seq<char>) -> Seq<char> {
    let k = last_index_of(path, '\\');
    if k >= 0 {
        path.take(k)
    } else {
        Seq::empty()
    }
}

/// The made-up result at an index, as plain values: name, parent, full
/// path, size, modification time, folder or not.
pub open spec fn demo_item_matches(r: SearchResult, query: Seq<char>, index: nat) -> bool {
    let is_dir = index % 11 == 0;
    &&& r.id@ == "mock-"@ + decimal(index)
    &&& r.name@ == demo_name(query, index)
    &&& r.full_path@ == demo_path(query, index)
    &&& r.parent_path@ == before_last_backslash(demo_path(query, index))
    &&& r.size == (if is_dir { None } else { Some(((index + 1) * 48_713) as u64) })
    &&& r.modified_unix == Some((1_720_000_000 + index * 733) as i64)
    &&& r.is_dir == is_dir
}

fn demo_item(query: &str, index: u32) -> (r: SearchResult)
    ensures
        demo_item_matches(r, query@, index as nat),
{
    let is_dir = index % 11 == 0;
    let mut name: Vec<char>;
    if is_dir {
        name = chars_of("Projet ");
        push_chars(&mut name, &zero_padded_chars(index, 4));
    } else {
        let e = index % 6;
        let ext = if e == 0 {
            "rs"
        } else if e == 1 {
            "pdf"
        } else if e == 2 {
            "png"
        } else if e == 3 {
            "md"
        } else if e == 4 {
            "zip"
        } else {
            "txt"
        };
        name = replace_char(&chars_of(query), ' ', '-');
        push_chars(&mut name, &chars_of("-resultat-"));
        push_chars(&mut name, &zero_padded_chars(index, 5));
        push_chars(&mut name, &chars_of("."));
        push_chars(&mut name, &chars_of(ext));
        proof {
            assert(ext@ == demo_extension(index as nat));
        }
    }
    let mut path: Vec<char>;
    if is_dir {
        path = chars_of("C:\\Users\\Public\\Documents\\");
    } else {
        path = chars_of("C:\\Users\\Public\\Documents\\Everything Modern\\");
    }
    push_chars(&mut path, &name);
    let parent = match find_last(&path, '\\') {
        Some(k) => sub_chars(&path, 0, k),
        None => Vec::new(),
    };
    proof {
        assert(parent@ =~= before_last_backslash(path@));
    }
    let mut id = chars_of("mock-");
    push_chars(&mut id, &decimal_chars(index as u128));
    let size = if is_dir {
        None
    } else {
        Some((index as u64 + 1) * 48_713)
    };
    SearchResult {
        id: string_of(&id),
        name: string_of(&name),
        parent_path: string_of(&parent),
        full_path: string_of(&path),
        size,
        modified_unix: Some(1_720_000_000 + (index as i64) * 733),
        is_dir,
    }
}

/// The page of made-up results for a request: none for a blank query,
/// otherwise the results from the request's offset, as many as asked and
/// as there are.
pub fn mock_page(request: QueryRequest) -> (page: SearchPage)
    requires
        request.offset + request.limit <= u32::MAX,
    ensures
        page.request_id == request.request_id,
        page.offset == request.offset,
        page.total == (if trimmed(request.query@).len() == 0 { 0 } else { DEMO_TOTAL }),
        ({
            let end = if request.offset + request.limit < page.total {
                request.offset + request.limit
            } else {
                page.total as int
            };
            &&& page.items@.len() == (if end > request.offset { end - request.offset } else { 0 })
            &&& forall|k: int|
                0 <= k < page.items@.len() ==> demo_item_matches(
                    #[trigger] page.items@[k],
                    request.query@,
                    (request.offset + k) as nat,
                )
        }),
{
    let total = if trim_chars(&chars_of(request.query.as_str())).len() == 0 {
        0
    } else {
        DEMO_TOTAL
    };
    let end = if request.offset + request.limit < total {
        request.offset + request.limit
    } else {
        total
    };
    let mut items: Vec<SearchResult> = Vec::new();
    let mut index = request.offset;
    while index < end
        invariant
            request.offset <= index,
            index <= end || index == request.offset,
            end <= DEMO_TOTAL,
            items@.len() == index - request.offset,
            forall|k: int|
                0 <= k < items@.len() ==> demo_item_matches(
                    #[trigger] items@[k],
                    request.query@,
                    (request.offset + k) as nat,
                ),
        decreases end - index,
    {
        let item = demo_item(request.query.as_str(), index);
        items.push(item);
        index = index + 1;
    }
    SearchPage { request_id: request.request_id, offset: request.offset, total, items }
}

/// The made-up files cycle through the extensions `rs`, `pdf`, `png`,
/// `md`, `zip` and `txt`, every eleventh result is a folder `Projet NNNN`,
/// and numbers are padded with zeros to their width without changing
/// their digits.
pub proof fn law_demo_results_cycle(index: nat, x: nat, width: nat)
    ensures
        index % 6 == 0 ==> demo_extension(index) == seq!['r', 's'],
        index % 6 == 1 ==> demo_extension(index) == seq!['p', 'd', 'f'],
        index % 6 == 2 ==> demo_extension(index) == seq!['p', 'n', 'g'],
        index % 6 == 3 ==> demo_extension(index) == seq!['m', 'd'],
        index % 6 == 4 ==> demo_extension(index) == seq!['z', 'i', 'p'],
        index % 6 == 5 ==> demo_extension(index) == seq!['t', 'x', 't'],
        index % 11 == 0 ==> demo_name(Seq::empty(), index) == seq!['P', 'r', 'o', 'j', 'e', 't', ' '] + zero_padded(index, 4),
        zero_padded(x, width).len() == (if decimal(x).len() < width { width as int } else { decimal(x).len() as int }),
        zero_padded(x, width).skip(zero_padded(x, width).len() - decimal(x).len()) == decimal(x),
        forall|k: int| 0 <= k < zero_padded(x, width).len() - decimal(x).len() ==> #[trigger] zero_padded(x, width)[k] == '0',
{
    reveal_strlit("rs");
    assert("rs"@ =~= seq!['r', 's']);
    reveal_strlit("pdf");
    assert("pdf"@ =~= seq!['p', 'd', 'f']);
    reveal_strlit("png");
    assert("png"@ =~= seq!['p', 'n', 'g']);
    reveal_strlit("md");
    assert("md"@ =~= seq!['m', 'd']);
    reveal_strlit("zip");
    assert("zip"@ =~= seq!['z', 'i', 'p']);
    reveal_strlit("txt");
    assert("txt"@ =~= seq!['t', 'x', 't']);
    reveal_strlit("Projet ");
    assert("Projet "@ =~= seq!['P', 'r', 'o', 'j', 'e', 't', ' ']);
    let d = decimal(x);
    let z = zero_padded(x, width);
    if d.len() < width {
        assert(z.skip(z.len() - d.len()) =~= d);
    } else {
        assert(z.skip(0) =~= d);
    }
}

} // verus!
