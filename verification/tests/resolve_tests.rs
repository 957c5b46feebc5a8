use ledger_sync::resolve::{complete_resolution, parse_action, plan_resolution, ResolutionAction};
use ledger_sync::store::{PendingConflict, SyncState};
use ledger_sync::summary::{get_last_change, AuditLogEntry};

fn state_with_conflict(archive: Option<String>) -> SyncState {
    let mut s = SyncState::new(
        0,
        String::from("server-id"),
        String::from("Server"),
        String::from("1234567890"),
        Vec::new(),
        None,
    );
    s.pair_device("1234567890", "peer-1", "Laptop", None).expect("pairs");
    s.set_pending_conflict(PendingConflict {
        device_id: String::from("peer-1"),
        device_name: String::from("Laptop"),
        local_last_change: String::from("2024-01-02T00:00:00Z"),
        remote_last_change: String::from("2024-01-03T00:00:00Z"),
        received_at: String::from("2024-01-04T00:00:00Z"),
        archive_path: archive,
        local_summary: None,
        remote_summary: None,
    });
    s
}

fn entry(id: i64, ts: &str) -> AuditLogEntry {
    AuditLogEntry {
        id,
        ts: String::from(ts),
        actor: None,
        action: String::from("CREATE"),
        entity_type: String::from("TRANSACTION"),
        entity_id: None,
        ref_id: None,
        payload_json: String::from("{}"),
        details: None,
    }
}

#[test]
fn action_labels() {
    assert_eq!(parse_action("KEEP_LOCAL"), Some(ResolutionAction::KeepLocal));
    assert_eq!(parse_action("USE_REMOTE"), Some(ResolutionAction::UseRemote));
    assert_eq!(parse_action("MERGE"), Some(ResolutionAction::Merge));
    assert_eq!(parse_action("keep_local"), None);
    assert_eq!(parse_action(""), None);
}

#[test]
fn no_pending_conflict_fails() {
    let s = SyncState::new(
        0,
        String::from("id"),
        String::from("n"),
        String::from("1234567890"),
        Vec::new(),
        None,
    );
    let e = plan_resolution(&s, "KEEP_LOCAL").err().expect("fails");
    assert_eq!(e.code, "SYNC_CONFLICT");
    assert_eq!(e.message, "Kein Konflikt vorhanden");
}

#[test]
fn unknown_action_fails() {
    let s = state_with_conflict(None);
    let e = plan_resolution(&s, "SOMETHING").err().expect("fails");
    assert_eq!(e.code, "SYNC_CONFLICT");
    assert_eq!(e.message, "Unbekannte Konfliktaktion");
}

#[test]
fn keep_local_plan_carries_no_data_work() {
    let s = state_with_conflict(Some(String::from("/tmp/a.zip")));
    let p = plan_resolution(&s, "KEEP_LOCAL").expect("plans");
    assert_eq!(p.action, ResolutionAction::KeepLocal);
    assert_eq!(p.device_id, "peer-1");
    assert_eq!(p.remote_last_change, "2024-01-03T00:00:00Z");
    assert_eq!(p.archive_path.as_deref(), Some("/tmp/a.zip"));
}

#[test]
fn data_actions_require_a_cached_archive() {
    let s = state_with_conflict(None);
    let e = plan_resolution(&s, "USE_REMOTE").err().expect("fails");
    assert_eq!(e.code, "SYNC_CONFLICT");
    assert_eq!(
        e.message,
        "Kein Remote-Datensatz fuer die Wiederherstellung vorhanden."
    );
    let e2 = plan_resolution(&s, "MERGE").err().expect("fails");
    assert_eq!(e2.code, "SYNC_CONFLICT");
    assert_eq!(e2.message, "Kein Remote-Datensatz zum Mergen vorhanden.");
    let s2 = state_with_conflict(Some(String::from("/tmp/a.zip")));
    let p = plan_resolution(&s2, "MERGE").expect("plans");
    assert_eq!(p.action, ResolutionAction::Merge);
    assert_eq!(p.archive_path.as_deref(), Some("/tmp/a.zip"));
}

#[test]
fn keep_local_leaves_business_data_and_clears_conflict() {
    // The business data: a change log whose logical timestamp must not
    // move when the operator keeps the local side.
    let log = vec![entry(1, "2024-01-01T00:00:00Z"), entry(2, "2024-01-02T00:00:00Z")];
    let before = get_last_change(&log);

    let mut s = state_with_conflict(Some(String::from("/tmp/a.zip")));
    let p = plan_resolution(&s, "KEEP_LOCAL").expect("plans");
    assert_eq!(p.action, ResolutionAction::KeepLocal);
    // Keeping local prescribes no restore and no merge; the log is not
    // touched by any resolver step.
    complete_resolution(&mut s, &p.device_id, &p.remote_last_change);

    assert!(s.get_pending_conflict().is_none());
    assert_eq!(get_last_change(&log), before);
    let d = &s.paired_devices[0];
    assert!(d.last_sync_at.is_some());
    assert_eq!(d.last_remote_change.as_deref(), Some("2024-01-03T00:00:00Z"));
}

#[test]
fn completion_marks_sync_with_conflict_remote_stamp() {
    let mut s = state_with_conflict(None);
    let p = plan_resolution(&s, "KEEP_LOCAL").expect("plans");
    complete_resolution(&mut s, &p.device_id, &p.remote_last_change);
    assert!(s.pending_conflict.is_none());
    assert_eq!(
        s.paired_devices[0].last_remote_change.as_deref(),
        Some("2024-01-03T00:00:00Z")
    );
}
