use ledger_sync::store::{PairedDevice, PendingConflict, SyncState};
use ledger_sync::timestamp::parse_rfc3339;

fn fresh_state() -> SyncState {
    SyncState::new(
        0,
        String::new(),
        String::from("Testgeraet"),
        String::from("1234567890"),
        Vec::new(),
        None,
    )
}

fn pending(archive: Option<String>) -> PendingConflict {
    PendingConflict {
        device_id: String::from("peer-1"),
        device_name: String::from("Laptop"),
        local_last_change: String::from("2024-01-02T00:00:00Z"),
        remote_last_change: String::from("2024-01-03T00:00:00Z"),
        received_at: String::from("2024-01-04T00:00:00Z"),
        archive_path: archive,
        local_summary: None,
        remote_summary: None,
    }
}

#[test]
fn new_fills_defaults() {
    let s = fresh_state();
    assert_eq!(s.port, 48080);
    assert!(!s.active);
    assert_eq!(s.device_id.len(), 20);
    assert!(s.device_id.chars().all(|c| c.is_ascii_alphanumeric()));
    assert_eq!(s.pair_code, "1234567890");
    assert!(s.paired_devices.is_empty());
    assert!(s.pending_conflict.is_none());
}

#[test]
fn new_generates_pair_code_when_empty() {
    let s = SyncState::new(
        9000,
        String::from("fixed-id"),
        String::from("Name"),
        String::new(),
        Vec::new(),
        None,
    );
    assert_eq!(s.port, 9000);
    assert_eq!(s.device_id, "fixed-id");
    assert_eq!(s.pair_code.len(), 10);
    assert!(s.pair_code.chars().all(|c| c.is_ascii_digit()));
}

#[test]
fn pairing_rejects_wrong_code() {
    let mut s = fresh_state();
    let r = s.pair_device("0000000000", "peer-1", "Laptop", None);
    let e = r.err().expect("wrong code must fail");
    assert_eq!(e.code, "SYNC_PAIR_CODE");
    assert!(s.paired_devices.is_empty());
}

#[test]
fn pairing_trims_the_presented_code() {
    let mut s = fresh_state();
    let r = s.pair_device("  1234567890\n", "peer-1", "Laptop", None);
    assert!(r.is_ok());
    assert_eq!(s.paired_devices.len(), 1);
}

#[test]
fn pairing_is_idempotent() {
    let mut s = fresh_state();
    let t1 = s
        .pair_device("1234567890", "peer-1", "Laptop", Some(String::from("10.0.0.5")))
        .expect("pairs");
    assert_eq!(t1.len(), 32);
    assert!(t1.chars().all(|c| c.is_ascii_alphanumeric()));
    // Re-pairing the same id with the correct secret returns the same
    // token and does not duplicate the entry.
    let t2 = s
        .pair_device("1234567890", "peer-1", "Laptop Neu", None)
        .expect("re-pairs");
    assert_eq!(t1, t2);
    assert_eq!(s.paired_devices.len(), 1);
    assert_eq!(s.paired_devices[0].device_name, "Laptop Neu");
    assert_eq!(s.paired_devices[0].last_known_ip.as_deref(), Some("10.0.0.5"));
    // A wrong secret still fails for a known peer.
    assert!(s.pair_device("9999999999", "peer-1", "Laptop", None).is_err());
}

#[test]
fn device_for_token_is_exact_match() {
    let mut s = fresh_state();
    let token = s.pair_device("1234567890", "peer-1", "Laptop", None).expect("pairs");
    assert!(s.device_for_token("peer-1", &token).is_some());
    assert!(s.device_for_token("peer-1", "wrong").is_none());
    assert!(s.device_for_token("peer-2", &token).is_none());
}

#[test]
fn update_device_seen_refreshes_metadata_only() {
    let mut s = fresh_state();
    s.pair_device("1234567890", "peer-1", "Laptop", None).expect("pairs");
    s.update_device_seen(
        "peer-1",
        Some("Laptop Zwei"),
        Some(String::from("10.0.0.9")),
        Some("2024-02-01T00:00:00Z"),
    );
    let d: &PairedDevice = &s.paired_devices[0];
    assert_eq!(d.device_name, "Laptop Zwei");
    assert_eq!(d.last_known_ip.as_deref(), Some("10.0.0.9"));
    assert_eq!(d.last_remote_change.as_deref(), Some("2024-02-01T00:00:00Z"));
    assert!(d.last_sync_at.is_none());
    // An unknown id changes nothing.
    s.update_device_seen("peer-9", Some("x"), None, None);
    assert_eq!(s.paired_devices.len(), 1);
}

#[test]
fn update_device_sync_sets_a_parseable_stamp() {
    let mut s = fresh_state();
    s.pair_device("1234567890", "peer-1", "Laptop", None).expect("pairs");
    s.update_device_sync("peer-1", Some("2024-02-01T00:00:00Z"));
    let d = &s.paired_devices[0];
    let stamp = d.last_sync_at.as_deref().expect("sync marked");
    assert!(parse_rfc3339(stamp).is_some());
    assert_eq!(d.last_remote_change.as_deref(), Some("2024-02-01T00:00:00Z"));
}

#[test]
fn update_device_sync_at_uses_given_instant() {
    let mut s = fresh_state();
    s.pair_device("1234567890", "peer-1", "Laptop", None).expect("pairs");
    s.update_device_sync_at("peer-1", None, "2024-03-01T00:00:00Z");
    assert_eq!(
        s.paired_devices[0].last_sync_at.as_deref(),
        Some("2024-03-01T00:00:00Z")
    );
}

#[test]
fn pending_conflict_is_single_and_clearable() {
    let mut s = fresh_state();
    s.set_pending_conflict(pending(None));
    s.set_pending_conflict(pending(Some(String::from("/tmp/archive.zip"))));
    let c = s.get_pending_conflict().as_ref().expect("pending");
    assert_eq!(c.archive_path.as_deref(), Some("/tmp/archive.zip"));
    s.clear_pending_conflict();
    assert!(s.get_pending_conflict().is_none());
}

#[test]
fn snapshot_reports_the_store() {
    let mut s = fresh_state();
    s.pair_device("1234567890", "peer-1", "Laptop", Some(String::from("10.0.0.5")))
        .expect("pairs");
    s.set_pending_conflict(pending(Some(String::from("/tmp/a.zip"))));
    let snap = s.snapshot();
    assert_eq!(snap.pair_code, "1234567890");
    assert_eq!(snap.paired_devices.len(), 1);
    assert_eq!(snap.paired_devices[0].device_id, "peer-1");
    assert_eq!(snap.paired_devices[0].last_known_ip.as_deref(), Some("10.0.0.5"));
    let info = snap.pending_conflict.expect("reported");
    assert_eq!(info.device_id, "peer-1");
    assert_eq!(info.remote_last_change, "2024-01-03T00:00:00Z");
}
