use vstd::prelude::*;

use crate::error::AppError;
use crate::store::SyncState;
use crate::store::device_synced;
use crate::store::find_device;
use crate::strutil::clone_opt_string;
use crate::strutil::opt_view;
use crate::strutil::str_eq;
use crate::timestamp::parse_spec;

verus! {

// The conflict resolver: a state machine over the single pending
// conflict. The operator picks one of three actions; the application
// performs the file and database work the chosen plan prescribes, then
// commits the bookkeeping. A failed middle step leaves the conflict
// pending.

#[derive(Debug, Clone, Copy, PartialEq, Eq, Structural)]
pub enum ResolutionAction {
    /// Keep the local data untouched; only discard the cached archive.
    KeepLocal,
    /// Replace the local data with the cached pushed archive.
    UseRemote,
    /// Reconcile the cached pushed archive into the local data.
    Merge,
}

/// The action named by an operator-supplied label, if any.
pub open spec fn action_spec(s: Seq<char>) -> Option<ResolutionAction> {
    if s == "KEEP_LOCAL"@ {
        Some(ResolutionAction::KeepLocal)
    } else if s == "USE_REMOTE"@ {
        Some(ResolutionAction::UseRemote)
    } else if s == "MERGE"@ {
        Some(ResolutionAction::Merge)
    } else {
        None
    }
}

/// Parse an operator-supplied action label.
pub fn parse_action(action: &str) -> (r: Option<ResolutionAction>)
    ensures
        r == action_spec(action@),
{
    if str_eq(action, "KEEP_LOCAL") {
        Some(ResolutionAction::KeepLocal)
    } else if str_eq(action, "USE_REMOTE") {
        Some(ResolutionAction::UseRemote)
    } else if str_eq(action, "MERGE") {
        Some(ResolutionAction::Merge)
    } else {
        None
    }
}

/// What resolving the pending conflict requires: the action, the peer and
/// remote timestamp to mark the sync with, and the cached archive to
/// apply or discard. `KeepLocal` prescribes no change to business data:
/// only discarding the cached archive, if one exists.
#[derive(Debug)]
pub struct ResolutionPlan {
    pub action: ResolutionAction,
    pub device_id: String,
    pub remote_last_change: String,
    pub archive_path: Option<String>,
}

/// Decide how to act on the pending conflict. Fails exactly when no
/// conflict is pending, the label is unknown, or a data-applying action
/// lacks a cached archive (a pull-triggered conflict has none).
pub fn plan_resolution(state: &SyncState, action: &str) -> (r: Result<ResolutionPlan, AppError>)
    ensures
        ({
            match state.pending_conflict {
                None => r matches Err(e) && e.code@ == "SYNC_CONFLICT"@ && e.message@
                    == "Kein Konflikt vorhanden"@,
                Some(pc) => match action_spec(action@) {
                    None => r matches Err(e) && e.code@ == "SYNC_CONFLICT"@ && e.message@
                        == "Unbekannte Konfliktaktion"@,
                    Some(a) => {
                        if a is KeepLocal {
                            r matches Ok(p) && p.action == a && p.device_id@ == pc.device_id@
                                && p.remote_last_change@ == pc.remote_last_change@
                                && opt_view(p.archive_path) == opt_view(pc.archive_path)
                        } else {
                            match opt_view(pc.archive_path) {
                                Some(path) => r matches Ok(p) && p.action == a && p.device_id@
                                    == pc.device_id@ && p.remote_last_change@
                                    == pc.remote_last_change@ && opt_view(p.archive_path)
                                    == Some(path),
                                None => r matches Err(e) && e.code@ == "SYNC_CONFLICT"@
                                    && e.message@ == (if a is UseRemote {
                                    "Kein Remote-Datensatz fuer die Wiederherstellung vorhanden."@
                                } else {
                                    "Kein Remote-Datensatz zum Mergen vorhanden."@
                                }),
                            }
                        }
                    },
                },
            }
        }),
{
    let pending = match &state.pending_conflict {
        Some(pc) => pc,
        None => {
            return Err(AppError::new("SYNC_CONFLICT", "Kein Konflikt vorhanden"));
        },
    };
    let act = match parse_action(action) {
        Some(a) => a,
        None => {
            return Err(AppError::new("SYNC_CONFLICT", "Unbekannte Konfliktaktion"));
        },
    };
    match act {
        ResolutionAction::KeepLocal => Ok(
            ResolutionPlan {
                action: act,
                device_id: pending.device_id.clone(),
                remote_last_change: pending.remote_last_change.clone(),
                archive_path: clone_opt_string(&pending.archive_path),
            },
        ),
        ResolutionAction::UseRemote => {
            match &pending.archive_path {
                Some(path) => Ok(
                    ResolutionPlan {
                        action: act,
                        device_id: pending.device_id.clone(),
                        remote_last_change: pending.remote_last_change.clone(),
                        archive_path: Some(path.clone()),
                    },
                ),
                None => Err(
                    AppError::new(
                        "SYNC_CONFLICT",
                        "Kein Remote-Datensatz fuer die Wiederherstellung vorhanden.",
                    ),
                ),
            }
        },
        ResolutionAction::Merge => {
            match &pending.archive_path {
                Some(path) => Ok(
                    ResolutionPlan {
                        action: act,
                        device_id: pending.device_id.clone(),
                        remote_last_change: pending.remote_last_change.clone(),
                        archive_path: Some(path.clone()),
                    },
                ),
                None => Err(
                    AppError::new("SYNC_CONFLICT", "Kein Remote-Datensatz zum Mergen vorhanden."),
                ),
            }
        },
    }
}

/// Commit a resolved conflict: mark the sync with the peer as completed
/// using the conflict's remote timestamp, and clear the conflict. Only
/// the peer's sync bookkeeping changes; every other part of the store is
/// untouched — in particular, nothing of the business data, which the
/// resolver never holds, is reachable from here.
pub fn complete_resolution(state: &mut SyncState, device_id: &str, remote_last_change: &str)
    requires
        old(state).wf(),
    ensures
        final(state).wf(),
        final(state).same_identity(*old(state)),
        final(state).pending_conflict is None,
        ({
            let ds = old(state).paired_devices@;
            let i = find_device(ds, device_id@);
            &&& (i == -1 ==> final(state).paired_devices == old(state).paired_devices)
            &&& (i >= 0 ==> {
                &&& final(state).paired_devices@.len() == ds.len()
                &&& (forall|k: int|
                    0 <= k < ds.len() && k != i ==> final(state).paired_devices@[k] == ds[k])
                &&& (exists|now: Seq<char>|
                    parse_spec(now) is Some && #[trigger] device_synced(
                        ds[i],
                        final(state).paired_devices@[i],
                        Some(remote_last_change@),
                        now,
                    ))
            })
        }),
{
    state.update_device_sync(device_id, Some(remote_last_change));
    state.clear_pending_conflict();
}

} // verus!
