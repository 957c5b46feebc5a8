use ledger_sync::server::{
    authorize_request, backup_decision, handle_pair, handle_status, record_conflict,
    restore_decision, route_request, strip_query, AuthOutcome, HttpMethod, PullDecision,
    PushDecision, Route, SyncFailure,
};
use ledger_sync::store::{SyncConflictItem, SyncConflictSummary, SyncState};

fn paired_state() -> (SyncState, String) {
    let mut s = SyncState::new(
        0,
        String::from("server-id"),
        String::from("Server"),
        String::from("1234567890"),
        Vec::new(),
        None,
    );
    let token = s
        .pair_device("1234567890", "peer-1", "Laptop", None)
        .expect("pairs");
    (s, token)
}

#[test]
fn routes_dispatch_by_method_and_path() {
    assert_eq!(route_request(HttpMethod::Get, "/sync/status"), Route::Status);
    assert_eq!(route_request(HttpMethod::Post, "/sync/pair"), Route::Pair);
    assert_eq!(route_request(HttpMethod::Get, "/sync/backup"), Route::Backup);
    assert_eq!(route_request(HttpMethod::Post, "/sync/restore"), Route::Restore);
    assert_eq!(route_request(HttpMethod::Get, "/sync/pair"), Route::NotFound);
    assert_eq!(route_request(HttpMethod::Post, "/sync/status"), Route::NotFound);
    assert_eq!(route_request(HttpMethod::Get, "/other"), Route::NotFound);
    assert_eq!(route_request(HttpMethod::Other, "/sync/status"), Route::NotFound);
    assert_eq!(route_request(HttpMethod::Get, "/sync/backup?x=1"), Route::Backup);
}

#[test]
fn query_is_stripped() {
    assert_eq!(strip_query("/a/b?c=d"), "/a/b");
    assert_eq!(strip_query("/a/b"), "/a/b");
    assert_eq!(strip_query("?x"), "");
}

#[test]
fn failure_statuses_and_codes() {
    assert_eq!(SyncFailure::AuthMissingToken.http_status(), 401);
    assert_eq!(SyncFailure::AuthMissingToken.code(), "SYNC_AUTH");
    assert_eq!(SyncFailure::AuthMissingId.http_status(), 401);
    assert_eq!(SyncFailure::AuthUnknown.code(), "SYNC_AUTH");
    assert_eq!(SyncFailure::PairCode.http_status(), 401);
    assert_eq!(SyncFailure::PairCode.code(), "SYNC_PAIR_CODE");
    assert_eq!(SyncFailure::RemoteChangeMissing.http_status(), 400);
    assert_eq!(SyncFailure::Conflict.http_status(), 409);
    assert_eq!(SyncFailure::Conflict.code(), "SYNC_CONFLICT");
    assert_eq!(SyncFailure::RemoteNewer.http_status(), 409);
    assert_eq!(SyncFailure::RemoteNewer.code(), "SYNC_REMOTE_NEWER");
    assert_eq!(SyncFailure::LocalNewer.code(), "SYNC_LOCAL_NEWER");
    assert_eq!(SyncFailure::NotFound.http_status(), 404);
}

#[test]
fn backup_without_token_is_auth_failure() {
    // `GET /sync/backup` without a token header fails authorisation with
    // the AUTH code and a 401 status.
    let (mut s, _token) = paired_state();
    assert_eq!(
        route_request(HttpMethod::Get, "/sync/backup"),
        Route::Backup
    );
    let out = authorize_request(&mut s, Some("peer-1"), None, None);
    assert!(matches!(out, AuthOutcome::MissingToken));
    assert_eq!(SyncFailure::AuthMissingToken.http_status(), 401);
    assert_eq!(SyncFailure::AuthMissingToken.code(), "SYNC_AUTH");
}

#[test]
fn authorisation_cases() {
    let (mut s, token) = paired_state();
    assert!(matches!(
        authorize_request(&mut s, None, Some(token.as_str()), None),
        AuthOutcome::MissingId
    ));
    assert!(matches!(
        authorize_request(&mut s, Some("peer-1"), Some("bad-token"), None),
        AuthOutcome::Unknown
    ));
    assert!(matches!(
        authorize_request(&mut s, Some("peer-9"), Some(token.as_str()), None),
        AuthOutcome::Unknown
    ));
    match authorize_request(
        &mut s,
        Some("peer-1"),
        Some(token.as_str()),
        Some(String::from("10.0.0.7")),
    ) {
        AuthOutcome::Authorized(auth) => {
            assert_eq!(auth.device_id, "peer-1");
            assert_eq!(auth.device_name, "Laptop");
            assert!(auth.last_sync_at.is_none());
        }
        _ => panic!("expected authorisation"),
    }
    assert_eq!(s.paired_devices[0].last_known_ip.as_deref(), Some("10.0.0.7"));
}

#[test]
fn first_handshake_never_conflicts() {
    // Devices that never completed a sync have no sync point; a pull
    // proceeds even though both hold unsynced changes.
    let d = backup_decision(None, "2024-01-05T00:00:00Z", "2024-01-04T00:00:00Z");
    assert_eq!(d, PullDecision::Proceed);
    let d2 = restore_decision(None, "2024-01-04T00:00:00Z", "2024-01-05T00:00:00Z");
    assert_eq!(d2, PushDecision::Proceed);
}

#[test]
fn pull_decision_orders() {
    let t0 = "2024-01-01T00:00:00Z";
    let t1 = "2024-01-02T00:00:00Z";
    let t2 = "2024-01-03T00:00:00Z";
    assert_eq!(backup_decision(Some(t0), t1, t2), PullDecision::Conflict);
    assert_eq!(backup_decision(Some(t0), t0, t2), PullDecision::RemoteNewer);
    assert_eq!(backup_decision(Some(t0), t1, t1), PullDecision::Conflict);
    assert_eq!(backup_decision(Some(t0), t1, t0), PullDecision::Proceed);
}

#[test]
fn push_decision_orders() {
    let t0 = "2024-01-01T00:00:00Z";
    let t1 = "2024-01-02T00:00:00Z";
    let t2 = "2024-01-03T00:00:00Z";
    assert_eq!(restore_decision(Some(t0), t1, t2), PushDecision::Conflict);
    assert_eq!(restore_decision(Some(t0), t1, t0), PushDecision::LocalNewer);
    assert_eq!(restore_decision(Some(t0), t1, t1), PushDecision::Conflict);
    assert_eq!(restore_decision(Some(t0), t0, t2), PushDecision::Proceed);
}

#[test]
fn diverged_push_is_recorded_with_summaries() {
    // A and B synced at T0; both changed afterwards; B pushes with T2.
    let (mut s, token) = paired_state();
    s.update_device_sync_at("peer-1", None, "2024-01-01T00:00:00Z");
    let auth = match authorize_request(&mut s, Some("peer-1"), Some(token.as_str()), None) {
        AuthOutcome::Authorized(a) => a,
        _ => panic!("authorised"),
    };
    let local_last = "2024-01-02T00:00:00Z";
    let remote_last = "2024-01-03T00:00:00Z";
    let d = restore_decision(auth.last_sync_at.as_deref(), local_last, remote_last);
    assert_eq!(d, PushDecision::Conflict);
    let local_summary = SyncConflictSummary {
        tx_count: 2,
        income_total_cents: 1500,
        expense_total_cents: 500,
        last_items: vec![SyncConflictItem {
            date: String::from("2024-01-02"),
            label: String::from("Bar"),
            amount_cents: 1000,
            tx_type: String::from("INCOME"),
        }],
    };
    let remote_summary = SyncConflictSummary {
        tx_count: 3,
        income_total_cents: 2500,
        expense_total_cents: 0,
        last_items: Vec::new(),
    };
    record_conflict(
        &mut s,
        &auth,
        local_last,
        remote_last,
        Some(String::from("/tmp/conflict.zip")),
        Some(local_summary),
        Some(remote_summary),
    );
    let snap = s.snapshot();
    let info = snap.pending_conflict.expect("conflict stored");
    assert_eq!(info.device_id, "peer-1");
    assert_eq!(info.local_last_change, local_last);
    assert_eq!(info.remote_last_change, remote_last);
    let ls = info.local_summary.expect("local summary kept");
    assert_eq!(ls.tx_count, 2);
    assert_eq!(ls.last_items.len(), 1);
    assert_eq!(ls.last_items[0].label, "Bar");
    let rs = info.remote_summary.expect("remote summary kept");
    assert_eq!(rs.tx_count, 3);
}

#[test]
fn pair_endpoint_issues_token_and_identity() {
    let mut s = SyncState::new(
        0,
        String::from("server-id"),
        String::from("Server"),
        String::from("1234567890"),
        Vec::new(),
        None,
    );
    let resp = handle_pair(
        &mut s,
        "1234567890",
        "peer-1",
        "Laptop",
        None,
        String::from("2024-01-01T00:00:00Z"),
    )
    .expect("pairs");
    assert_eq!(resp.server_device_id, "server-id");
    assert_eq!(resp.server_device_name, "Server");
    assert_eq!(resp.last_change, "2024-01-01T00:00:00Z");
    assert_eq!(resp.device_token.len(), 32);
    let err = handle_pair(
        &mut s,
        "0000",
        "peer-2",
        "Anders",
        None,
        String::from("2024-01-01T00:00:00Z"),
    )
    .err()
    .expect("wrong code fails");
    assert_eq!(err.code, "SYNC_PAIR_CODE");
}

#[test]
fn status_reports_identity_and_last_change() {
    let (s, _) = paired_state();
    let r = handle_status(&s, String::from("2024-01-01T00:00:00Z"));
    assert_eq!(r.device_id, "server-id");
    assert_eq!(r.device_name, "Server");
    assert_eq!(r.last_change, "2024-01-01T00:00:00Z");
}
