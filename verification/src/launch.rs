//! What the command line asks of a launch: start hidden at sign-in, or
//! open with a search (`-s "query"`, as Everything itself takes it).

use vstd::prelude::*;
use crate::engine_config::strings_view;
use crate::text::{chars_eq, chars_eq_ignore_case, chars_of, eq_ignore_case, lower_seq, string_of};

verus! {

broadcast use vstd::string::group_string_axioms;

/// The argument that marks a launch at sign-in.
pub const AUTOSTART_ARG: &'static str = "--autostart";

/// The argument followed by the query to search for.
pub const SEARCH_ARG: &'static str = "-s";

/// Whether an argument is exactly the sign-in marker.
pub fn is_autostart_arg(arg: &str) -> (r: bool)
    ensures
        r == (arg@ == AUTOSTART_ARG@),
{
    chars_eq(&chars_of(arg), &chars_of(AUTOSTART_ARG))
}

/// Whether any argument is the sign-in marker.
pub fn string_args_include_autostart(args: &[String]) -> (r: bool)
    ensures
        r == strings_view(args@).contains(AUTOSTART_ARG@),
{
    let mut i: usize = 0;
    while i < args.len()
        invariant
            0 <= i <= args@.len(),
            forall|k: int| 0 <= k < i ==> #[trigger] args@[k]@ != AUTOSTART_ARG@,
        decreases args@.len() - i,
    {
        if is_autostart_arg(args[i].as_str()) {
            proof {
                assert(strings_view(args@)[i as int] == AUTOSTART_ARG@);
            }
            return true;
        }
        i = i + 1;
    }
    proof {
        assert forall|k: int| 0 <= k < strings_view(args@).len() implies #[trigger] strings_view(
            args@,
        )[k] != AUTOSTART_ARG@ by {
            assert(strings_view(args@)[k] == args@[k]@);
        }
    }
    false
}

/// The position of the first search marker (`-s`, in any ASCII case) at
/// or after `i`, if there is one.
pub open spec fn search_flag_from(args: Seq<Seq<char>>, i: int) -> Option<int>
    decreases args.len() - i,
{
    if i < 0 || i >= args.len() {
        None
    } else if eq_ignore_case(args[i], SEARCH_ARG@) {
        Some(i)
    } else {
        search_flag_from(args, i + 1)
    }
}

/// The query that the arguments ask to search for: the argument after the
/// first search marker, if the marker is not the last argument.
pub open spec fn launch_search_query(args: Seq<Seq<char>>) -> Option<Seq<char>> {
    match search_flag_from(args, 0) {
        Some(i) => if i + 1 < args.len() {
            Some(args[i + 1])
        } else {
            None
        },
        None => None,
    }
}

/// The query that the command line asks to search for.
pub fn search_query_from_args(args: &[String]) -> (q: Option<String>)
    ensures
        match launch_search_query(strings_view(args@)) {
            Some(query) => q matches Some(s) && s@ == query,
            None => q is None,
        },
{
    let ghost all = strings_view(args@);
    let flag = chars_of(SEARCH_ARG);
    let mut i: usize = 0;
    while i < args.len()
        invariant
            0 <= i <= args@.len(),
            all == strings_view(args@),
            flag@ == SEARCH_ARG@,
            search_flag_from(all, 0) == search_flag_from(all, i as int),
        decreases args@.len() - i,
    {
        proof {
            assert(all[i as int] == args@[i as int]@);
        }
        if chars_eq_ignore_case(&chars_of(args[i].as_str()), &flag) {
            if i + 1 < args.len() {
                proof {
                    assert(all[i + 1] == args@[i + 1]@);
                }
                return Some(string_of(&chars_of(args[i + 1].as_str())));
            }
            return None;
        }
        i = i + 1;
    }
    None
}

/// The query a launch brought, until the window takes it.
#[derive(Debug, Clone)]
pub struct LaunchState {
    pub pending_search_query: Option<String>,
}

impl LaunchState {
    /// The state of a launch, with the query it brought.
    pub fn new(pending_search_query: Option<String>) -> (s: LaunchState)
        ensures
            s.pending_search_query == pending_search_query,
    {
        LaunchState { pending_search_query }
    }

    /// Keeps the query of a later launch, in place of any earlier one.
    pub fn set_search_query(&mut self, query: String)
        ensures
            final(self).pending_search_query == Some(query),
    {
        self.pending_search_query = Some(query);
    }

    /// Hands the pending query out, once.
    pub fn take_search_query(&mut self) -> (q: Option<String>)
        ensures
            q == old(self).pending_search_query,
            final(self).pending_search_query is None,
    {
        self.pending_search_query.take()
    }
}

/// A launch searches for the argument that follows the first `-s` (in any
/// case); a launch without `-s`, or with `-s` last, searches for nothing.
pub proof fn law_dash_s_names_the_search(before: Seq<Seq<char>>, query: Seq<char>, rest: Seq<Seq<char>>)
    requires
        forall|k: int| 0 <= k < before.len() ==> !eq_ignore_case(#[trigger] before[k], seq!['-', 's']),
    ensures
        launch_search_query(before + seq![seq!['-', 's'], query] + rest) == Some(query),
        launch_search_query(before + seq![seq!['-', 'S'], query] + rest) == Some(query),
        launch_search_query(before) is None,
        launch_search_query(before.push(seq!['-', 's'])) is None,
{
    reveal_strlit("-s");
    assert(SEARCH_ARG@ =~= seq!['-', 's']);
    assert(lower_seq(seq!['-', 'S']) =~= seq!['-', 's']);
    assert(lower_seq(seq!['-', 's']) =~= seq!['-', 's']);
    let a = before + seq![seq!['-', 's'], query] + rest;
    let b = before + seq![seq!['-', 'S'], query] + rest;
    let c = before.push(seq!['-', 's']);
    lemma_no_flag_before(a, before.len() as int, 0);
    lemma_no_flag_before(b, before.len() as int, 0);
    lemma_no_flag_before(c, before.len() as int, 0);
    assert(a[before.len() as int] == seq!['-', 's'] && a[before.len() as int + 1] == query);
    assert(b[before.len() as int] == seq!['-', 'S'] && b[before.len() as int + 1] == query);
    assert(c[before.len() as int] == seq!['-', 's']);
    lemma_no_flag_before(before, before.len() as int, 0);
}

/// With no marker in `[i, n)`, the search for it from `i` goes on from `n`.
proof fn lemma_no_flag_before(args: Seq<Seq<char>>, n: int, i: int)
    requires
        0 <= i <= n <= args.len(),
        forall|k: int| i <= k < n ==> !eq_ignore_case(#[trigger] args[k], SEARCH_ARG@),
    ensures
        search_flag_from(args, i) == search_flag_from(args, n),
    decreases n - i,
{
    if i < n {
        lemma_no_flag_before(args, n, i + 1);
    }
}

} // verus!
