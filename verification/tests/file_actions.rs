use everything_next::file_actions::{
    rename_decision, trash_outcome_message, PendingTrash, RenameDecision, TrashWorkflow,
};
use everything_next::model::{TrashOutcome, TrashPreparation};

#[test]
fn a_deletion_needs_a_selection_and_a_rest_state() {
    let mut workflow = TrashWorkflow::Idle;
    assert!(!workflow.begin(true));
    assert_eq!(workflow, TrashWorkflow::Idle);
    assert!(workflow.begin(false));
    assert!(workflow.is_preparing());
    assert!(!workflow.begin(false));
    assert!(workflow.is_preparing());
}

#[test]
fn a_trash_confirmation_is_used_once() {
    let mut workflow = TrashWorkflow::Idle;
    assert!(workflow.begin(false));
    assert_eq!(workflow.prepared(Ok(TrashPreparation { snapshot_id: 7, count: 3 })), None);
    let pending = PendingTrash { count: 3, snapshot_id: 7 };
    assert_eq!(workflow.pending_trash(), Some(pending));
    assert_eq!(workflow.submit(), Some(7));
    assert!(workflow.is_deleting());
    assert_eq!(workflow.submit(), None);
    assert_eq!(workflow.cancel(), None);
    let outcome = TrashOutcome { deleted: 3, deleted_paths: vec![], failures: vec![] };
    assert_eq!(workflow.executed(pending, Ok(outcome)), None);
    assert_eq!(workflow, TrashWorkflow::Idle);
    assert_eq!(workflow.submit(), None);
}

#[test]
fn a_failed_lookup_or_run_is_reported() {
    let mut workflow = TrashWorkflow::Idle;
    assert!(workflow.begin(false));
    assert_eq!(workflow.prepared(Err("No items selected".to_string())), Some("No items selected".to_string()));
    assert_eq!(workflow, TrashWorkflow::Idle);

    assert!(workflow.begin(false));
    workflow.prepared(Ok(TrashPreparation { snapshot_id: 2, count: 1 }));
    let pending = workflow.pending_trash().unwrap();
    assert_eq!(workflow.submit(), Some(2));
    assert_eq!(workflow.executed(pending, Err("busy".to_string())), Some("busy".to_string()));
    assert_eq!(workflow, TrashWorkflow::AwaitingConfirmation(pending));
    assert_eq!(workflow.cancel(), Some(2));
    assert_eq!(workflow, TrashWorkflow::Idle);
}

#[test]
fn a_new_search_withdraws_the_confirmation() {
    let mut workflow = TrashWorkflow::AwaitingConfirmation(PendingTrash { count: 1, snapshot_id: 9 });
    assert_eq!(workflow.reset_for_new_search(), Some(9));
    assert_eq!(workflow, TrashWorkflow::Idle);
    let mut preparing = TrashWorkflow::Preparing;
    assert_eq!(preparing.reset_for_new_search(), None);
    assert!(preparing.is_preparing());
}

#[test]
fn failures_are_listed_after_a_deletion() {
    let outcome = TrashOutcome {
        deleted: 2,
        deleted_paths: vec!["a".into(), "b".into()],
        failures: vec!["C:\\x : denied".into(), "C:\\y : busy".into()],
    };
    assert_eq!(
        trash_outcome_message(&outcome),
        Some("2 item(s) deleted, 2 failure(s):\nC:\\x : denied\nC:\\y : busy".to_string())
    );
    let clean = TrashOutcome { deleted: 1, deleted_paths: vec!["a".into()], failures: vec![] };
    assert_eq!(trash_outcome_message(&clean), None);
}

#[test]
fn rename_decisions() {
    assert_eq!(rename_decision("report.pdf", "report.pdf"), RenameDecision::Cancel);
    assert_eq!(rename_decision("report.pdf", "final.pdf"), RenameDecision::Submit);
    assert_eq!(
        rename_decision("report.pdf", "CON"),
        RenameDecision::Invalid("This name is reserved by Windows.".to_string())
    );
    assert_eq!(
        rename_decision("report.pdf", "a:b"),
        RenameDecision::Invalid("This name contains a character that is not allowed on Windows.".to_string())
    );
}
