use vstd::prelude::*;
use vstd::string::StrSliceExecFns;
use vstd::string::StringExecFns;

use crate::error::AppError;
use crate::store::PendingConflict;
use crate::store::SyncConflictSummary;
use crate::store::SyncState;
use crate::store::device_seen;
use crate::store::find_device;
use crate::store::lemma_find_device;
use crate::strutil::opt_str_view;
use crate::strutil::opt_view;
use crate::strutil::str_eq;
use crate::sys::now_rfc3339;
use crate::timestamp::has_conflict;
use crate::timestamp::is_after;
use crate::timestamp::parse_spec;
use crate::timestamp::spec_has_conflict;
use crate::timestamp::spec_is_after;

verus! {

// The HTTP endpoint set of the sync server. The handlers here are the
// decision and bookkeeping steps: the surrounding application reads
// requests, hands the header and body values in as plain values, performs
// the archive work the decisions call for, and writes the responses out.

#[derive(Debug, Clone, Copy, PartialEq, Eq, Structural)]
pub enum HttpMethod {
    Get,
    Post,
    Other,
}

#[derive(Debug, Clone, Copy, PartialEq, Eq, Structural)]
pub enum Route {
    Status,
    Pair,
    Backup,
    Restore,
    NotFound,
}

/// First position at or after `i` that holds `?`, or the end.
pub open spec fn query_start(s: Seq<char>, i: int) -> int
    decreases s.len() - i,
{
    if i < s.len() {
        if s[i] == '?' {
            i
        } else {
            query_start(s, i + 1)
        }
    } else {
        i
    }
}

/// The request path without its query part.
pub open spec fn strip_query_spec(s: Seq<char>) -> Seq<char> {
    s.subrange(0, query_start(s, 0))
}

/// Drop everything from the first `?` on.
pub fn strip_query(url: &str) -> (r: &str)
    ensures
        r@ == strip_query_spec(url@),
{
    let n = url.unicode_len();
    let mut i: usize = 0;
    while i < n
        invariant
            i <= n,
            n == url@.len(),
            query_start(url@, 0) == query_start(url@, i as int),
            forall|k: int| 0 <= k < i ==> url@[k] != '?',
        decreases n - i,
    {
        let c = url.get_char(i);
        if c == '?' {
            assert(query_start(url@, i as int) == i);
            return url.substring_char(0, i);
        }
        assert(query_start(url@, i as int) == query_start(url@, i as int + 1));
        i = i + 1;
    }
    assert(query_start(url@, i as int) == i);
    assert(url@.subrange(0, n as int) =~= url@);
    url
}

/// Which handler a request reaches, by method and query-stripped path.
pub open spec fn route_spec(m: HttpMethod, path: Seq<char>) -> Route {
    if m is Get && path == "/sync/status"@ {
        Route::Status
    } else if m is Post && path == "/sync/pair"@ {
        Route::Pair
    } else if m is Get && path == "/sync/backup"@ {
        Route::Backup
    } else if m is Post && path == "/sync/restore"@ {
        Route::Restore
    } else {
        Route::NotFound
    }
}

/// Dispatch a request line. Any unmatched route is `NotFound`.
pub fn route_request(method: HttpMethod, url: &str) -> (r: Route)
    ensures
        r == route_spec(method, strip_query_spec(url@)),
{
    let path = strip_query(url);
    match method {
        HttpMethod::Get => {
            if str_eq(path, "/sync/status") {
                Route::Status
            } else if str_eq(path, "/sync/backup") {
                Route::Backup
            } else {
                Route::NotFound
            }
        },
        HttpMethod::Post => {
            if str_eq(path, "/sync/pair") {
                Route::Pair
            } else if str_eq(path, "/sync/restore") {
                Route::Restore
            } else {
                Route::NotFound
            }
        },
        HttpMethod::Other => Route::NotFound,
    }
}

/// The failures the sync endpoints report, each with its stable code and
/// HTTP status.
#[derive(Debug, Clone, Copy, PartialEq, Eq, Structural)]
pub enum SyncFailure {
    AuthMissingId,
    AuthMissingToken,
    AuthUnknown,
    PairCode,
    PairBody,
    RemoteChangeMissing,
    Conflict,
    RemoteNewer,
    LocalNewer,
    NotFound,
}

impl SyncFailure {
    /// The HTTP status the failure is reported with.
    pub fn http_status(&self) -> (r: u16)
        ensures
            r == match *self {
                SyncFailure::AuthMissingId => 401u16,
                SyncFailure::AuthMissingToken => 401u16,
                SyncFailure::AuthUnknown => 401u16,
                SyncFailure::PairCode => 401u16,
                SyncFailure::PairBody => 400u16,
                SyncFailure::RemoteChangeMissing => 400u16,
                SyncFailure::Conflict => 409u16,
                SyncFailure::RemoteNewer => 409u16,
                SyncFailure::LocalNewer => 409u16,
                SyncFailure::NotFound => 404u16,
            },
    {
        match *self {
            SyncFailure::AuthMissingId => 401,
            SyncFailure::AuthMissingToken => 401,
            SyncFailure::AuthUnknown => 401,
            SyncFailure::PairCode => 401,
            SyncFailure::PairBody => 400,
            SyncFailure::RemoteChangeMissing => 400,
            SyncFailure::Conflict => 409,
            SyncFailure::RemoteNewer => 409,
            SyncFailure::LocalNewer => 409,
            SyncFailure::NotFound => 404,
        }
    }

    /// The stable machine-readable code of the failure.
    pub fn code(&self) -> (r: String)
        ensures
            r@ == match *self {
                SyncFailure::AuthMissingId => "SYNC_AUTH"@,
                SyncFailure::AuthMissingToken => "SYNC_AUTH"@,
                SyncFailure::AuthUnknown => "SYNC_AUTH"@,
                SyncFailure::PairCode => "SYNC_PAIR_CODE"@,
                SyncFailure::PairBody => "SYNC_PAIR"@,
                SyncFailure::RemoteChangeMissing => "SYNC_REMOTE_CHANGE"@,
                SyncFailure::Conflict => "SYNC_CONFLICT"@,
                SyncFailure::RemoteNewer => "SYNC_REMOTE_NEWER"@,
                SyncFailure::LocalNewer => "SYNC_LOCAL_NEWER"@,
                SyncFailure::NotFound => "SYNC_NOT_FOUND"@,
            },
    {
        match *self {
            SyncFailure::AuthMissingId => "SYNC_AUTH".to_owned(),
            SyncFailure::AuthMissingToken => "SYNC_AUTH".to_owned(),
            SyncFailure::AuthUnknown => "SYNC_AUTH".to_owned(),
            SyncFailure::PairCode => "SYNC_PAIR_CODE".to_owned(),
            SyncFailure::PairBody => "SYNC_PAIR".to_owned(),
            SyncFailure::RemoteChangeMissing => "SYNC_REMOTE_CHANGE".to_owned(),
            SyncFailure::Conflict => "SYNC_CONFLICT".to_owned(),
            SyncFailure::RemoteNewer => "SYNC_REMOTE_NEWER".to_owned(),
            SyncFailure::LocalNewer => "SYNC_LOCAL_NEWER".to_owned(),
            SyncFailure::NotFound => "SYNC_NOT_FOUND".to_owned(),
        }
    }

    /// The human-readable message of the failure.
    pub fn message(&self) -> (r: String)
        ensures
            r@ == match *self {
                SyncFailure::AuthMissingId => "Device-ID fehlt."@,
                SyncFailure::AuthMissingToken => "Device-Token fehlt."@,
                SyncFailure::AuthUnknown => "Zugriff verweigert."@,
                SyncFailure::PairCode => "Pairing-Code stimmt nicht."@,
                SyncFailure::PairBody => "Pairing-Daten sind ungueltig."@,
                SyncFailure::RemoteChangeMissing => "Remote-Stand fehlt."@,
                SyncFailure::Conflict => "Beide Seiten wurden geaendert."@,
                SyncFailure::RemoteNewer => "Remote-Daten sind aktueller."@,
                SyncFailure::LocalNewer => "Lokale Daten sind aktueller."@,
                SyncFailure::NotFound => "Route nicht gefunden"@,
            },
    {
        match *self {
            SyncFailure::AuthMissingId => "Device-ID fehlt.".to_owned(),
            SyncFailure::AuthMissingToken => "Device-Token fehlt.".to_owned(),
            SyncFailure::AuthUnknown => "Zugriff verweigert.".to_owned(),
            SyncFailure::PairCode => "Pairing-Code stimmt nicht.".to_owned(),
            SyncFailure::PairBody => "Pairing-Daten sind ungueltig.".to_owned(),
            SyncFailure::RemoteChangeMissing => "Remote-Stand fehlt.".to_owned(),
            SyncFailure::Conflict => "Beide Seiten wurden geaendert.".to_owned(),
            SyncFailure::RemoteNewer => "Remote-Daten sind aktueller.".to_owned(),
            SyncFailure::LocalNewer => "Lokale Daten sind aktueller.".to_owned(),
            SyncFailure::NotFound => "Route nicht gefunden".to_owned(),
        }
    }
}

/// The authenticated peer of a request, as the handlers need it.
#[derive(Debug)]
pub struct DeviceAuth {
    pub device_id: String,
    pub device_name: String,
    pub last_sync_at: Option<String>,
}

/// What authorising a request yields.
#[derive(Debug)]
pub enum AuthOutcome {
    MissingId,
    MissingToken,
    Unknown,
    Authorized(DeviceAuth),
}

/// Authorise a request from its identification headers: both must be
/// present and name a paired device with exactly that token. On success
/// the peer's metadata is opportunistically refreshed.
pub fn authorize_request(
    state: &mut SyncState,
    device_id: Option<&str>,
    device_token: Option<&str>,
    remote_ip: Option<String>,
) -> (r: AuthOutcome)
    requires
        old(state).wf(),
    ensures
        final(state).wf(),
        final(state).same_identity(*old(state)),
        final(state).pending_conflict == old(state).pending_conflict,
        device_id is None ==> r is MissingId && final(state).paired_devices == old(state).paired_devices,
        device_id is Some && device_token is None ==> r is MissingToken
            && final(state).paired_devices == old(state).paired_devices,
        device_id matches Some(did) ==> device_token matches Some(tok) ==> ({
            let ds = old(state).paired_devices@;
            let i = find_device(ds, did@);
            if i >= 0 && ds[i].token@ == tok@ {
                &&& r matches AuthOutcome::Authorized(auth)
                &&& auth.device_id@ == ds[i].device_id@
                &&& auth.device_name@ == ds[i].device_name@
                &&& opt_view(auth.last_sync_at) == opt_view(ds[i].last_sync_at)
                &&& final(state).paired_devices@.len() == ds.len()
                &&& (forall|k: int|
                    0 <= k < ds.len() && k != i ==> final(state).paired_devices@[k] == ds[k])
                &&& device_seen(
                    ds[i],
                    final(state).paired_devices@[i],
                    Some(ds[i].device_name@),
                    opt_view(remote_ip),
                    None,
                )
            } else {
                r is Unknown && final(state).paired_devices == old(state).paired_devices
            }
        }),
{
    let did = match device_id {
        Some(v) => v,
        None => { return AuthOutcome::MissingId; },
    };
    let tok = match device_token {
        Some(v) => v,
        None => { return AuthOutcome::MissingToken; },
    };
    proof {
        lemma_find_device(state.paired_devices@, did@);
    }
    match state.device_for_token(did, tok) {
        Some(device) => {
            proof {
                // Ids are unique, so the matching entry is the one found.
                let ds = state.paired_devices@;
                let j = choose|j: int|
                    0 <= j < ds.len() && (#[trigger] ds[j]).device_id@ == did@ && ds[j].token@
                        == tok@ && device.eq_view(ds[j]);
                assert(find_device(ds, did@) >= 0);
                assert(find_device(ds, did@) == j);
            }
            state.update_device_seen(
                did,
                Some(device.device_name.as_str()),
                remote_ip,
                None,
            );
            AuthOutcome::Authorized(
                DeviceAuth {
                    device_id: device.device_id,
                    device_name: device.device_name,
                    last_sync_at: device.last_sync_at,
                },
            )
        },
        None => AuthOutcome::Unknown,
    }
}

/// What a pull (`backup`) request decides after authorisation.
#[derive(Debug, Clone, Copy, PartialEq, Eq, Structural)]
pub enum PullDecision {
    Conflict,
    RemoteNewer,
    Proceed,
}

/// The pull decision: divergence wins; then nothing is served unless the
/// local data is strictly newer than the peer's.
pub open spec fn pull_decision_spec(
    last_sync: Option<Seq<char>>,
    local: Seq<char>,
    remote: Seq<char>,
) -> PullDecision {
    if spec_has_conflict(last_sync, local, remote) {
        PullDecision::Conflict
    } else if !spec_is_after(local, remote) {
        PullDecision::RemoteNewer
    } else {
        PullDecision::Proceed
    }
}

/// Decide a pull request from the three logical timestamps.
pub fn backup_decision(last_sync_at: Option<&str>, local_last: &str, remote_last: &str) -> (r:
    PullDecision)
    ensures
        r == pull_decision_spec(opt_str_view(last_sync_at), local_last@, remote_last@),
{
    if has_conflict(last_sync_at, local_last, remote_last) {
        PullDecision::Conflict
    } else if !is_after(local_last, remote_last) {
        PullDecision::RemoteNewer
    } else {
        PullDecision::Proceed
    }
}

/// What a push (`restore`) request decides after authorisation.
#[derive(Debug, Clone, Copy, PartialEq, Eq, Structural)]
pub enum PushDecision {
    Conflict,
    LocalNewer,
    Proceed,
}

/// The push decision: divergence wins; then nothing is applied unless the
/// peer's data is strictly newer than the local data.
pub open spec fn push_decision_spec(
    last_sync: Option<Seq<char>>,
    local: Seq<char>,
    remote: Seq<char>,
) -> PushDecision {
    if spec_has_conflict(last_sync, local, remote) {
        PushDecision::Conflict
    } else if !spec_is_after(remote, local) {
        PushDecision::LocalNewer
    } else {
        PushDecision::Proceed
    }
}

/// Decide a push request from the three logical timestamps.
pub fn restore_decision(last_sync_at: Option<&str>, local_last: &str, remote_last: &str) -> (r:
    PushDecision)
    ensures
        r == push_decision_spec(opt_str_view(last_sync_at), local_last@, remote_last@),
{
    if has_conflict(last_sync_at, local_last, remote_last) {
        PushDecision::Conflict
    } else if !is_after(remote_last, local_last) {
        PushDecision::LocalNewer
    } else {
        PushDecision::Proceed
    }
}

/// Store the divergence a request detected as the pending conflict,
/// replacing any previous one. The archive path is present only for an
/// inbound push whose body was cached; the summaries are whatever could
/// be computed for the operator.
pub fn record_conflict(
    state: &mut SyncState,
    auth: &DeviceAuth,
    local_last_change: &str,
    remote_last_change: &str,
    archive_path: Option<String>,
    local_summary: Option<SyncConflictSummary>,
    remote_summary: Option<SyncConflictSummary>,
)
    requires
        old(state).wf(),
    ensures
        final(state).wf(),
        final(state).same_identity(*old(state)),
        final(state).paired_devices == old(state).paired_devices,
        final(state).pending_conflict matches Some(c) && ({
            &&& c.device_id@ == auth.device_id@
            &&& c.device_name@ == auth.device_name@
            &&& c.local_last_change@ == local_last_change@
            &&& c.remote_last_change@ == remote_last_change@
            &&& parse_spec(c.received_at@) is Some
            &&& c.archive_path == archive_path
            &&& c.local_summary == local_summary
            &&& c.remote_summary == remote_summary
        }),
{
    let received_at = now_rfc3339();
    let conflict = PendingConflict {
        device_id: auth.device_id.clone(),
        device_name: auth.device_name.clone(),
        local_last_change: local_last_change.to_owned(),
        remote_last_change: remote_last_change.to_owned(),
        received_at,
        archive_path,
        local_summary,
        remote_summary,
    };
    state.set_pending_conflict(conflict);
}

/// The unauthenticated status reply: this device's identity and its
/// current logical change timestamp.
#[derive(Debug)]
pub struct StatusResponse {
    pub device_id: String,
    pub device_name: String,
    pub last_change: String,
}

/// Answer `GET /sync/status`.
pub fn handle_status(state: &SyncState, last_change: String) -> (r: StatusResponse)
    ensures
        r.device_id@ == state.device_id@,
        r.device_name@ == state.device_name@,
        r.last_change@ == last_change@,
{
    let (device_id, device_name) = state.device_identity();
    StatusResponse { device_id, device_name, last_change }
}

/// The reply to a successful pairing: the issued token, this device's
/// identity and its current logical change timestamp.
#[derive(Debug)]
pub struct PairResponse {
    pub device_token: String,
    pub server_device_id: String,
    pub server_device_name: String,
    pub last_change: String,
}

/// Answer `POST /sync/pair`: validate the presented code, pair or
/// re-pair the peer, and assemble the reply. Exactly a wrong code fails.
pub fn handle_pair(
    state: &mut SyncState,
    code: &str,
    device_id: &str,
    device_name: &str,
    remote_ip: Option<String>,
    last_change: String,
) -> (r: Result<PairResponse, AppError>)
    requires
        old(state).wf(),
    ensures
        final(state).wf(),
        final(state).same_identity(*old(state)),
        final(state).pending_conflict == old(state).pending_conflict,
        r is Err <==> crate::strutil::trim_spec(code@) != old(state).pair_code@,
        r matches Err(e) ==> e.code@ == "SYNC_PAIR_CODE"@ && final(state).paired_devices == old(
            state,
        ).paired_devices,
        r matches Ok(resp) ==> ({
            &&& resp.server_device_id@ == old(state).device_id@
            &&& resp.server_device_name@ == old(state).device_name@
            &&& resp.last_change@ == last_change@
            &&& ({
                let ds = old(state).paired_devices@;
                let i = find_device(ds, device_id@);
                &&& (i >= 0 ==> {
                    &&& resp.device_token@ == ds[i].token@
                    &&& final(state).paired_devices@.len() == ds.len()
                    &&& (forall|k: int|
                        0 <= k < ds.len() && k != i ==> final(state).paired_devices@[k] == ds[k])
                    &&& ({
                        let dn = final(state).paired_devices@[i];
                        &&& dn.device_id@ == ds[i].device_id@
                        &&& dn.token@ == ds[i].token@
                        &&& dn.last_sync_at == ds[i].last_sync_at
                        &&& dn.device_name@ == device_name@
                    })
                })
                &&& (i == -1 ==> {
                    &&& final(state).paired_devices@.len() == ds.len() + 1
                    &&& (forall|k: int|
                        0 <= k < ds.len() ==> final(state).paired_devices@[k] == ds[k])
                    &&& ({
                        let dn = final(state).paired_devices@[ds.len() as int];
                        &&& dn.device_id@ == device_id@
                        &&& dn.device_name@ == device_name@
                        &&& dn.token@ == resp.device_token@
                        &&& dn.last_sync_at is None
                    })
                })
            })
        }),
{
    let token = match state.pair_device(code, device_id, device_name, remote_ip) {
        Ok(t) => t,
        Err(e) => { return Err(e); },
    };
    let (server_device_id, server_device_name) = state.device_identity();
    Ok(
        PairResponse {
            device_token: token,
            server_device_id,
            server_device_name,
            last_change,
        },
    )
}

} // verus!
