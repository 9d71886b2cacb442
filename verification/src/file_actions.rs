//! The decisions of the file actions on the results: renaming, and moving
//! a selection to the Recycle Bin through a confirmation that can be used
//! once. The interface performs each action and reports its outcome here.

use vstd::prelude::*;
use crate::model::{TrashOutcome, TrashPreparation};
use crate::text::{chars_of, decimal, decimal_chars, join_chars, join_with, push_chars, string_of};
use crate::windows_name::{name_error, name_error_text, validate_windows_name};

verus! {

broadcast use vstd::string::group_string_axioms;

/// A deletion that was prepared: how many items, and the confirmation.
#[derive(Debug, Clone, Copy, PartialEq, Eq, Structural)]
pub struct PendingTrash {
    pub count: usize,
    pub snapshot_id: u64,
}

/// Where a move to the Recycle Bin stands.
#[derive(Debug, Clone, Copy, PartialEq, Eq, Structural)]
pub enum TrashWorkflow {
    /// Nothing is under way.
    Idle,
    /// The paths of the selection are being looked up.
    Preparing,
    /// The user is asked to confirm.
    AwaitingConfirmation(PendingTrash),
    /// The confirmed deletion runs.
    Deleting(PendingTrash),
}

/// The deletion shown to the user, if one is asked for or runs.
pub open spec fn pending_of(w: TrashWorkflow) -> Option<PendingTrash> {
    match w {
        TrashWorkflow::AwaitingConfirmation(p) | TrashWorkflow::Deleting(p) => Some(p),
        TrashWorkflow::Idle | TrashWorkflow::Preparing => None,
    }
}

/// Starting a deletion: only from rest, and only with a selection; the
/// paths are then looked up.
pub open spec fn begin_next(w: TrashWorkflow, selection_empty: bool) -> (TrashWorkflow, bool) {
    if !selection_empty && w is Idle {
        (TrashWorkflow::Preparing, true)
    } else {
        (w, false)
    }
}

/// Cancelling: only a deletion that awaits its confirmation, whose
/// confirmation is then withdrawn.
pub open spec fn cancel_next(w: TrashWorkflow) -> (TrashWorkflow, Option<u64>) {
    match w {
        TrashWorkflow::AwaitingConfirmation(p) => (TrashWorkflow::Idle, Some(p.snapshot_id)),
        _ => (w, None),
    }
}

/// Confirming: only a deletion that awaits its confirmation, which then runs.
pub open spec fn submit_next(w: TrashWorkflow) -> (TrashWorkflow, Option<u64>) {
    match w {
        TrashWorkflow::AwaitingConfirmation(p) => (TrashWorkflow::Deleting(p), Some(p.snapshot_id)),
        _ => (w, None),
    }
}

/// A new search: a deletion asked for or running is dropped, and its
/// confirmation withdrawn.
pub open spec fn reset_next(w: TrashWorkflow) -> (TrashWorkflow, Option<u64>) {
    match w {
        TrashWorkflow::AwaitingConfirmation(p) | TrashWorkflow::Deleting(p) => (
            TrashWorkflow::Idle,
            Some(p.snapshot_id),
        ),
        _ => (w, None),
    }
}

/// The message about a deletion that failed for some items: how many were
/// deleted, how many failed, then each failure on a line of its own.
pub open spec fn outcome_text(deleted: usize, failures: Seq<Seq<char>>) -> Seq<char> {
    decimal(deleted as nat) + " item(s) deleted, "@ + decimal(failures.len()) + " failure(s):\n"@
        + join_with(failures, "\n"@)
}

/// The message to show after a deletion: none when every item went.
pub fn trash_outcome_message(outcome: &TrashOutcome) -> (m: Option<String>)
    ensures
        outcome.failures@.len() == 0 ==> m is None,
        outcome.failures@.len() > 0 ==> (m matches Some(t) && t@ == outcome_text(
            outcome.deleted,
            outcome.failures@.map_values(|f: String| f@),
        )),
{
    if outcome.failures.len() == 0 {
        return None;
    }
    let mut lines: Vec<Vec<char>> = Vec::new();
    let mut i: usize = 0;
    while i < outcome.failures.len()
        invariant
            0 <= i <= outcome.failures@.len(),
            lines@.map_values(|l: Vec<char>| l@) == outcome.failures@.map_values(|f: String| f@).take(
                i as int,
            ),
        decreases outcome.failures@.len() - i,
    {
        let line = chars_of(outcome.failures[i].as_str());
        assert(line@ == outcome.failures@[i as int]@);
        let ghost before = lines@.map_values(|l: Vec<char>| l@);
        lines.push(line);
        proof {
            assert(lines@.map_values(|l: Vec<char>| l@) =~= before.push(outcome.failures@[i as int]@));
            assert(lines@.map_values(|l: Vec<char>| l@) =~= outcome.failures@.map_values(
                |f: String| f@,
            ).take(i + 1));
        }
        i = i + 1;
    }
    proof {
        assert(outcome.failures@.map_values(|f: String| f@).take(i as int) =~= outcome.failures@.map_values(
            |f: String| f@,
        ));
    }
    let mut text = decimal_chars(outcome.deleted as u128);
    push_chars(&mut text, &chars_of(" item(s) deleted, "));
    push_chars(&mut text, &decimal_chars(outcome.failures.len() as u128));
    push_chars(&mut text, &chars_of(" failure(s):\n"));
    push_chars(&mut text, &join_chars(&lines, &chars_of("\n")));
    Some(string_of(&text))
}

impl TrashWorkflow {
    /// The deletion shown to the user, if one is asked for or runs.
    pub fn pending_trash(&self) -> (p: Option<PendingTrash>)
        ensures
            p == pending_of(*self),
    {
        match self {
            TrashWorkflow::AwaitingConfirmation(p) | TrashWorkflow::Deleting(p) => Some(*p),
            TrashWorkflow::Idle | TrashWorkflow::Preparing => None,
        }
    }

    pub fn is_preparing(&self) -> (b: bool)
        ensures
            b == (*self is Preparing),
    {
        matches!(self, TrashWorkflow::Preparing)
    }

    pub fn is_deleting(&self) -> (b: bool)
        ensures
            b == (*self is Deleting),
    {
        matches!(self, TrashWorkflow::Deleting(_))
    }

    /// Starts a deletion of the selection; true when its paths are to be
    /// looked up.
    pub fn begin(&mut self, selection_empty: bool) -> (send: bool)
        ensures
            (*final(self), send) == begin_next(*old(self), selection_empty),
    {
        if selection_empty || !matches!(self, TrashWorkflow::Idle) {
            return false;
        }
        *self = TrashWorkflow::Preparing;
        true
    }

    /// The paths were looked up: the deletion awaits its confirmation, or,
    /// when the lookup failed, nothing is under way and the failure is shown.
    pub fn prepared(&mut self, result: Result<TrashPreparation, String>) -> (error: Option<String>)
        ensures
            match result {
                Ok(p) => *final(self) == TrashWorkflow::AwaitingConfirmation(
                    PendingTrash { count: p.count, snapshot_id: p.snapshot_id },
                ) && error is None,
                Err(m) => *final(self) == TrashWorkflow::Idle && error == Some(m),
            },
    {
        match result {
            Ok(p) => {
                *self = TrashWorkflow::AwaitingConfirmation(
                    PendingTrash { count: p.count, snapshot_id: p.snapshot_id },
                );
                None
            },
            Err(m) => {
                *self = TrashWorkflow::Idle;
                Some(m)
            },
        }
    }

    /// Withdraws a deletion that awaits its confirmation; gives the
    /// confirmation to cancel.
    pub fn cancel(&mut self) -> (cancel: Option<u64>)
        ensures
            (*final(self), cancel) == cancel_next(*old(self)),
    {
        match *self {
            TrashWorkflow::AwaitingConfirmation(p) => {
                *self = TrashWorkflow::Idle;
                Some(p.snapshot_id)
            },
            _ => None,
        }
    }

    /// Confirms a deletion; gives the confirmation to run.
    pub fn submit(&mut self) -> (run: Option<u64>)
        ensures
            (*final(self), run) == submit_next(*old(self)),
    {
        match *self {
            TrashWorkflow::AwaitingConfirmation(p) => {
                *self = TrashWorkflow::Deleting(p);
                Some(p.snapshot_id)
            },
            _ => None,
        }
    }

    /// The confirmed deletion `pending` ended: at rest with the message
    /// about its failures, or, when it could not run, asking again for the
    /// confirmation with the reason shown.
    pub fn executed(&mut self, pending: PendingTrash, result: Result<TrashOutcome, String>) -> (error: Option<
        String,
    >)
        ensures
            match result {
                Ok(o) => *final(self) == TrashWorkflow::Idle && (o.failures@.len() == 0 ==> error is None)
                    && (o.failures@.len() > 0 ==> (error matches Some(t) && t@ == outcome_text(
                    o.deleted,
                    o.failures@.map_values(|f: String| f@),
                ))),
                Err(m) => *final(self) == TrashWorkflow::AwaitingConfirmation(pending) && error == Some(m),
            },
    {
        match result {
            Ok(o) => {
                *self = TrashWorkflow::Idle;
                trash_outcome_message(&o)
            },
            Err(m) => {
                *self = TrashWorkflow::AwaitingConfirmation(pending);
                Some(m)
            },
        }
    }

    /// A new search began: drops the deletion asked for or running; gives
    /// its confirmation to cancel.
    pub fn reset_for_new_search(&mut self) -> (cancel: Option<u64>)
        ensures
            (*final(self), cancel) == reset_next(*old(self)),
    {
        match *self {
            TrashWorkflow::AwaitingConfirmation(p) | TrashWorkflow::Deleting(p) => {
                *self = TrashWorkflow::Idle;
                Some(p.snapshot_id)
            },
            _ => None,
        }
    }
}

/// A confirmation runs at most once: confirming again, whatever the state,
/// runs nothing.
pub proof fn law_confirmation_submitted_once(w: TrashWorkflow)
    ensures
        submit_next(submit_next(w).0).1 is None,
        submit_next(w).1 is Some ==> w is AwaitingConfirmation,
{
}

/// Nothing runs without a confirmation: from rest, starting and then
/// confirming runs nothing until the paths were looked up.
pub proof fn law_no_deletion_without_confirmation(w: TrashWorkflow, selection_empty: bool)
    requires
        w is Idle,
    ensures
        submit_next(begin_next(w, selection_empty).0).1 is None,
        cancel_next(begin_next(w, selection_empty).0).1 is None,
{
}

/// What submitting a rename does.
#[derive(Debug, Clone, PartialEq, Eq)]
pub enum RenameDecision {
    /// The name did not change: the rename is closed.
    Cancel,
    /// The name is refused, with the reason to show.
    Invalid(String),
    /// The rename is sent.
    Submit,
}

/// The decision on a rename from `current_name` to `new_name`.
pub fn rename_decision(current_name: &str, new_name: &str) -> (d: RenameDecision)
    ensures
        new_name@ == current_name@ ==> d is Cancel,
        new_name@ != current_name@ ==> match name_error(new_name@) {
            Some(e) => d matches RenameDecision::Invalid(m) && m@ == name_error_text(e),
            None => d is Submit,
        },
{
    if crate::text::chars_eq(&chars_of(new_name), &chars_of(current_name)) {
        return RenameDecision::Cancel;
    }
    match validate_windows_name(new_name) {
        Ok(()) => RenameDecision::Submit,
        Err(e) => RenameDecision::Invalid(e.message()),
    }
}

/// The steps of a move to the Recycle Bin: starting with a selection from
/// rest looks the paths up (and does nothing otherwise); cancelling a
/// deletion that awaits its confirmation withdraws that confirmation and
/// returns to rest; confirming it runs it under the same confirmation; a
/// new search drops a deletion asked for or running and withdraws its
/// confirmation; every other step changes nothing and withdraws nothing.
pub proof fn law_trash_workflow_steps(w: TrashWorkflow, p: PendingTrash, selection_empty: bool)
    ensures
        begin_next(TrashWorkflow::Idle, false) == (TrashWorkflow::Preparing, true),
        begin_next(w, true) == (w, false),
        !(w is Idle) ==> begin_next(w, selection_empty) == (w, false),
        cancel_next(TrashWorkflow::AwaitingConfirmation(p)) == (TrashWorkflow::Idle, Some(p.snapshot_id)),
        submit_next(TrashWorkflow::AwaitingConfirmation(p)) == (TrashWorkflow::Deleting(p), Some(p.snapshot_id)),
        reset_next(TrashWorkflow::AwaitingConfirmation(p)) == (TrashWorkflow::Idle, Some(p.snapshot_id)),
        reset_next(TrashWorkflow::Deleting(p)) == (TrashWorkflow::Idle, Some(p.snapshot_id)),
        !(w is AwaitingConfirmation) ==> cancel_next(w) == (w, None::<u64>) && submit_next(w) == (w, None::<u64>),
        (w is Idle || w is Preparing) ==> reset_next(w) == (w, None::<u64>),
        pending_of(TrashWorkflow::AwaitingConfirmation(p)) == Some(p),
        pending_of(TrashWorkflow::Deleting(p)) == Some(p),
{
}

/// A deletion that failed for some items reports `N item(s) deleted, F
/// failure(s):` and then each failure on a line of its own.
pub proof fn law_partial_deletions_list_their_failures(deleted: usize, failures: Seq<Seq<char>>)
    ensures
        outcome_text(deleted, failures) == decimal(deleted as nat) + seq![' ', 'i', 't', 'e', 'm', '(', 's', ')', ' ', 'd', 'e', 'l', 'e', 't', 'e', 'd', ',', ' '] + decimal(failures.len()) + seq![' ', 'f', 'a', 'i', 'l', 'u', 'r', 'e', '(', 's', ')', ':', '\u{a}'] + join_with(failures, seq!['\u{a}']),
{
    reveal_strlit(" item(s) deleted, ");
    assert(" item(s) deleted, "@ =~= seq![' ', 'i', 't', 'e', 'm', '(', 's', ')', ' ', 'd', 'e', 'l', 'e', 't', 'e', 'd', ',', ' ']);
    reveal_strlit(" failure(s):\n");
    assert(" failure(s):\n"@ =~= seq![' ', 'f', 'a', 'i', 'l', 'u', 'r', 'e', '(', 's', ')', ':', '\u{a}']);
    reveal_strlit("\n");
    assert("\n"@ =~= seq!['\u{a}']);
}

} // verus!
