use vstd::prelude::*;
use vstd::pervasive::VecAdditionalExecFns;
use vstd::string::StrSliceExecFns;

use crate::error::AppError;
use crate::strutil::clone_opt_string;
use crate::strutil::opt_str_view;
use crate::strutil::opt_view;
use crate::strutil::str_eq;
use crate::strutil::str_trim;
use crate::strutil::trim_spec;
use crate::sys::generate_id;
use crate::sys::generate_pair_code;
use crate::sys::generate_token;
use crate::sys::is_alnum;
use crate::sys::now_rfc3339;
use crate::timestamp::is_digit;
use crate::timestamp::parse_spec;

verus! {

pub const PAIR_CODE_LEN: usize = 10;

pub const TOKEN_LEN: usize = 32;

pub const SYNC_PORT_FALLBACK: u16 = 48080;

/// A peer device paired with this one, with its bearer token and the
/// bookkeeping of the last synchronisation.
#[derive(Debug)]
pub struct PairedDevice {
    pub device_id: String,
    pub device_name: String,
    pub token: String,
    /// Set only after a successful, non-conflicting round trip or a
    /// resolved conflict.
    pub last_sync_at: Option<String>,
    /// The peer's last-seen logical change timestamp.
    pub last_remote_change: Option<String>,
    pub last_known_ip: Option<String>,
}

/// One record of a side's dataset shown to the operator while deciding a
/// conflict. Amounts are carried in cents.
#[derive(Debug)]
pub struct SyncConflictItem {
    pub date: String,
    pub label: String,
    pub amount_cents: i64,
    pub tx_type: String,
}

/// A lightweight description of one side's dataset, for operator
/// decision-making. Amounts are carried in cents.
#[derive(Debug)]
pub struct SyncConflictSummary {
    pub tx_count: i64,
    pub income_total_cents: i64,
    pub expense_total_cents: i64,
    pub last_items: Vec<SyncConflictItem>,
}

/// The single pending conflict: which peer triggered it, the two logical
/// timestamps observed at detection time, and what the operator may look
/// at before deciding.
#[derive(Debug)]
pub struct PendingConflict {
    pub device_id: String,
    pub device_name: String,
    pub local_last_change: String,
    pub remote_last_change: String,
    pub received_at: String,
    /// A locally cached copy of the peer's pushed archive; present only
    /// when the conflict arose from an inbound push.
    pub archive_path: Option<String>,
    pub local_summary: Option<SyncConflictSummary>,
    pub remote_summary: Option<SyncConflictSummary>,
}

/// A paired peer as shown in status output (without its token).
#[derive(Debug)]
pub struct SyncDeviceInfo {
    pub device_id: String,
    pub device_name: String,
    pub last_sync_at: Option<String>,
    pub last_remote_change: Option<String>,
    pub last_known_ip: Option<String>,
}

/// The pending conflict as shown in status output (without the archive
/// location).
#[derive(Debug)]
pub struct SyncConflictInfo {
    pub device_id: String,
    pub device_name: String,
    pub local_last_change: String,
    pub remote_last_change: String,
    pub received_at: String,
    pub local_summary: Option<SyncConflictSummary>,
    pub remote_summary: Option<SyncConflictSummary>,
}

/// Read-only view of the pairing store for status display.
#[derive(Debug)]
pub struct SyncSnapshot {
    pub pair_code: String,
    pub paired_devices: Vec<SyncDeviceInfo>,
    pub pending_conflict: Option<SyncConflictInfo>,
}

impl SyncConflictItem {
    /// Same content, compared through the fields' views.
    pub open spec fn eq_view(self, o: SyncConflictItem) -> bool {
        &&& self.date@ == o.date@
        &&& self.label@ == o.label@
        &&& self.amount_cents == o.amount_cents
        &&& self.tx_type@ == o.tx_type@
    }
}

impl SyncConflictSummary {
    /// Same content, compared through the fields' views.
    pub open spec fn eq_view(self, o: SyncConflictSummary) -> bool {
        &&& self.tx_count == o.tx_count
        &&& self.income_total_cents == o.income_total_cents
        &&& self.expense_total_cents == o.expense_total_cents
        &&& self.last_items@.len() == o.last_items@.len()
        &&& forall|i: int|
            0 <= i < self.last_items@.len() ==> self.last_items@[i].eq_view(#[trigger] o.last_items@[i])
    }
}

/// Same content of two optional summaries.
pub open spec fn opt_summary_eq(a: Option<SyncConflictSummary>, b: Option<SyncConflictSummary>) -> bool {
    match (a, b) {
        (Some(x), Some(y)) => x.eq_view(y),
        (None, None) => true,
        _ => false,
    }
}

impl PairedDevice {
    /// Same content, compared through the fields' views.
    pub open spec fn eq_view(self, o: PairedDevice) -> bool {
        &&& self.device_id@ == o.device_id@
        &&& self.device_name@ == o.device_name@
        &&& self.token@ == o.token@
        &&& opt_view(self.last_sync_at) == opt_view(o.last_sync_at)
        &&& opt_view(self.last_remote_change) == opt_view(o.last_remote_change)
        &&& opt_view(self.last_known_ip) == opt_view(o.last_known_ip)
    }
}

impl PendingConflict {
    /// Same content, compared through the fields' views.
    pub open spec fn eq_view(self, o: PendingConflict) -> bool {
        &&& self.device_id@ == o.device_id@
        &&& self.device_name@ == o.device_name@
        &&& self.local_last_change@ == o.local_last_change@
        &&& self.remote_last_change@ == o.remote_last_change@
        &&& self.received_at@ == o.received_at@
        &&& opt_view(self.archive_path) == opt_view(o.archive_path)
        &&& opt_summary_eq(self.local_summary, o.local_summary)
        &&& opt_summary_eq(self.remote_summary, o.remote_summary)
    }
}

impl SyncDeviceInfo {
    /// Whether this status entry reports the given paired device.
    pub open spec fn reports(self, d: PairedDevice) -> bool {
        &&& self.device_id@ == d.device_id@
        &&& self.device_name@ == d.device_name@
        &&& opt_view(self.last_sync_at) == opt_view(d.last_sync_at)
        &&& opt_view(self.last_remote_change) == opt_view(d.last_remote_change)
        &&& opt_view(self.last_known_ip) == opt_view(d.last_known_ip)
    }
}

impl SyncConflictInfo {
    /// Whether this status entry reports the given pending conflict.
    pub open spec fn reports(self, c: PendingConflict) -> bool {
        &&& self.device_id@ == c.device_id@
        &&& self.device_name@ == c.device_name@
        &&& self.local_last_change@ == c.local_last_change@
        &&& self.remote_last_change@ == c.remote_last_change@
        &&& self.received_at@ == c.received_at@
        &&& opt_summary_eq(self.local_summary, c.local_summary)
        &&& opt_summary_eq(self.remote_summary, c.remote_summary)
    }
}

impl Clone for SyncConflictItem {
    fn clone(&self) -> (r: Self)
        ensures
            r.eq_view(*self),
    {
        SyncConflictItem {
            date: self.date.clone(),
            label: self.label.clone(),
            amount_cents: self.amount_cents,
            tx_type: self.tx_type.clone(),
        }
    }
}

impl Clone for SyncConflictSummary {
    fn clone(&self) -> (r: Self)
        ensures
            r.eq_view(*self),
    {
        let mut items: Vec<SyncConflictItem> = Vec::new();
        let mut i: usize = 0;
        while i < self.last_items.len()
            invariant
                i <= self.last_items@.len(),
                items@.len() == i,
                forall|j: int| 0 <= j < i ==> items@[j].eq_view(#[trigger] self.last_items@[j]),
            decreases self.last_items@.len() - i,
        {
            items.push(self.last_items[i].clone());
            i = i + 1;
        }
        SyncConflictSummary {
            tx_count: self.tx_count,
            income_total_cents: self.income_total_cents,
            expense_total_cents: self.expense_total_cents,
            last_items: items,
        }
    }
}

/// Copy an optional summary, preserving its content.
pub fn clone_opt_summary(o: &Option<SyncConflictSummary>) -> (r: Option<SyncConflictSummary>)
    ensures
        opt_summary_eq(r, *o),
{
    match o {
        Some(s) => Some(s.clone()),
        None => None,
    }
}

impl Clone for PairedDevice {
    fn clone(&self) -> (r: Self)
        ensures
            r.eq_view(*self),
    {
        PairedDevice {
            device_id: self.device_id.clone(),
            device_name: self.device_name.clone(),
            token: self.token.clone(),
            last_sync_at: clone_opt_string(&self.last_sync_at),
            last_remote_change: clone_opt_string(&self.last_remote_change),
            last_known_ip: clone_opt_string(&self.last_known_ip),
        }
    }
}

impl Clone for PendingConflict {
    fn clone(&self) -> (r: Self)
        ensures
            r.eq_view(*self),
    {
        PendingConflict {
            device_id: self.device_id.clone(),
            device_name: self.device_name.clone(),
            local_last_change: self.local_last_change.clone(),
            remote_last_change: self.remote_last_change.clone(),
            received_at: self.received_at.clone(),
            archive_path: clone_opt_string(&self.archive_path),
            local_summary: clone_opt_summary(&self.local_summary),
            remote_summary: clone_opt_summary(&self.remote_summary),
        }
    }
}

/// No two paired devices share a device id.
pub open spec fn devices_wf(ds: Seq<PairedDevice>) -> bool {
    forall|i: int, j: int|
        0 <= i < j < ds.len() ==> (#[trigger] ds[i]).device_id@ != (#[trigger] ds[j]).device_id@
}

/// Index of the first device with the given id, `-1` when there is none.
pub open spec fn find_device(ds: Seq<PairedDevice>, id: Seq<char>) -> int
    decreases ds.len(),
{
    if ds.len() == 0 {
        -1
    } else if ds[0].device_id@ == id {
        0
    } else {
        let r = find_device(ds.skip(1), id);
        if r == -1 {
            -1
        } else {
            r + 1
        }
    }
}

/// `find_device` names the least index holding the id, or `-1` when no
/// entry holds it.
pub proof fn lemma_find_device(ds: Seq<PairedDevice>, id: Seq<char>)
    ensures
        -1 <= find_device(ds, id) < ds.len(),
        find_device(ds, id) >= 0 ==> ds[find_device(ds, id)].device_id@ == id,
        find_device(ds, id) >= 0 ==> forall|k: int|
            0 <= k < find_device(ds, id) ==> (#[trigger] ds[k]).device_id@ != id,
        find_device(ds, id) == -1 ==> forall|k: int|
            0 <= k < ds.len() ==> (#[trigger] ds[k]).device_id@ != id,
    decreases ds.len(),
{
    if ds.len() > 0 && ds[0].device_id@ != id {
        lemma_find_device(ds.skip(1), id);
        assert forall|k: int| 1 <= k < ds.len() implies ds.skip(1)[k - 1] == ds[k] by {}
    }
}

/// Find the first device with the given id.
fn find_device_index(ds: &Vec<PairedDevice>, device_id: &str) -> (r: Option<usize>)
    ensures
        match r {
            Some(i) => i < ds@.len() && find_device(ds@, device_id@) == i,
            None => find_device(ds@, device_id@) == -1,
        },
{
    proof {
        lemma_find_device(ds@, device_id@);
    }
    let mut i: usize = 0;
    while i < ds.len()
        invariant
            i <= ds@.len(),
            forall|k: int| 0 <= k < i ==> (#[trigger] ds@[k]).device_id@ != device_id@,
            -1 <= find_device(ds@, device_id@) < ds@.len(),
            find_device(ds@, device_id@) >= 0 ==> ds@[find_device(ds@, device_id@)].device_id@
                == device_id@,
            find_device(ds@, device_id@) >= 0 ==> forall|k: int|
                0 <= k < find_device(ds@, device_id@) ==> (#[trigger] ds@[k]).device_id@
                    != device_id@,
            find_device(ds@, device_id@) == -1 ==> forall|k: int|
                0 <= k < ds@.len() ==> (#[trigger] ds@[k]).device_id@ != device_id@,
        decreases ds@.len() - i,
    {
        if str_eq(ds[i].device_id.as_str(), device_id) {
            return Some(i);
        }
        i = i + 1;
    }
    None
}

/// The owned synchronisation context: this device's identity and pairing
/// secret, the paired peers with their credentials, and the at-most-one
/// pending conflict. It is rewritten wholesale by the surrounding
/// application on every mutation.
#[derive(Debug)]
pub struct SyncState {
    pub port: u16,
    pub active: bool,
    pub device_id: String,
    pub device_name: String,
    pub pair_code: String,
    pub paired_devices: Vec<PairedDevice>,
    pub pending_conflict: Option<PendingConflict>,
}

/// How one paired entry changes when peer metadata is seen on an
/// authenticated call: name, address and remote change marker are
/// refreshed where given; credentials and the sync marker stay.
pub open spec fn device_seen(
    dold: PairedDevice,
    dnew: PairedDevice,
    name: Option<Seq<char>>,
    ip: Option<Seq<char>>,
    rc: Option<Seq<char>>,
) -> bool {
    &&& dnew.device_id == dold.device_id
    &&& dnew.token == dold.token
    &&& dnew.last_sync_at == dold.last_sync_at
    &&& dnew.device_name@ == (match name {
        Some(n) => n,
        None => dold.device_name@,
    })
    &&& opt_view(dnew.last_known_ip) == (match ip {
        Some(p) => Some(p),
        None => opt_view(dold.last_known_ip),
    })
    &&& opt_view(dnew.last_remote_change) == (match rc {
        Some(r) => Some(r),
        None => opt_view(dold.last_remote_change),
    })
}

/// How one paired entry changes when a sync round completes at `now`:
/// the sync marker is set to `now`, the remote change marker is refreshed
/// where given, everything else stays.
pub open spec fn device_synced(
    dold: PairedDevice,
    dnew: PairedDevice,
    rc: Option<Seq<char>>,
    now: Seq<char>,
) -> bool {
    &&& dnew.device_id == dold.device_id
    &&& dnew.device_name == dold.device_name
    &&& dnew.token == dold.token
    &&& dnew.last_known_ip == dold.last_known_ip
    &&& opt_view(dnew.last_sync_at) == Some(now)
    &&& opt_view(dnew.last_remote_change) == (match rc {
        Some(r) => Some(r),
        None => opt_view(dold.last_remote_change),
    })
}

impl SyncState {
    /// Paired device ids are unique.
    pub open spec fn wf(self) -> bool {
        devices_wf(self.paired_devices@)
    }

    /// This device's identity and secret are unchanged between two states.
    pub open spec fn same_identity(self, o: SyncState) -> bool {
        &&& self.port == o.port
        &&& self.active == o.active
        &&& self.device_id == o.device_id
        &&& self.device_name == o.device_name
        &&& self.pair_code == o.pair_code
    }

    /// Build the context from loaded data, filling in what a first run
    /// lacks: a fresh device id and a fresh pairing code.
    pub fn new(
        port: u16,
        device_id: String,
        device_name: String,
        pair_code: String,
        paired_devices: Vec<PairedDevice>,
        pending_conflict: Option<PendingConflict>,
    ) -> (r: SyncState)
        requires
            devices_wf(paired_devices@),
        ensures
            r.wf(),
            r.port == (if port == 0 { SYNC_PORT_FALLBACK } else { port }),
            !r.active,
            device_id@.len() > 0 ==> r.device_id == device_id,
            device_id@.len() == 0 ==> r.device_id@.len() == 20 && (forall|i: int|
                0 <= i < 20 ==> is_alnum(#[trigger] r.device_id@[i])),
            r.device_name == device_name,
            pair_code@.len() > 0 ==> r.pair_code == pair_code,
            pair_code@.len() == 0 ==> r.pair_code@.len() == PAIR_CODE_LEN && (forall|i: int|
                0 <= i < 10 ==> is_digit(#[trigger] r.pair_code@[i])),
            r.paired_devices == paired_devices,
            r.pending_conflict == pending_conflict,
    {
        let device_id = if device_id.as_str().is_empty() {
            generate_id(20)
        } else {
            device_id
        };
        let pair_code = if pair_code.as_str().is_empty() {
            generate_pair_code()
        } else {
            pair_code
        };
        SyncState {
            port: if port == 0 {
                SYNC_PORT_FALLBACK
            } else {
                port
            },
            active: false,
            device_id,
            device_name,
            pair_code,
            paired_devices,
            pending_conflict,
        }
    }

    pub fn port(&self) -> (r: u16)
        ensures
            r == self.port,
    {
        self.port
    }

    pub fn is_active(&self) -> (r: bool)
        ensures
            r == self.active,
    {
        self.active
    }

    pub fn set_active(&mut self, active: bool)
        ensures
            final(self).active == active,
            final(self).port == old(self).port,
            final(self).device_id == old(self).device_id,
            final(self).device_name == old(self).device_name,
            final(self).pair_code == old(self).pair_code,
            final(self).paired_devices == old(self).paired_devices,
            final(self).pending_conflict == old(self).pending_conflict,
    {
        self.active = active;
    }

    /// This device's id and display name.
    pub fn device_identity(&self) -> (r: (String, String))
        ensures
            r.0@ == self.device_id@,
            r.1@ == self.device_name@,
    {
        (self.device_id.clone(), self.device_name.clone())
    }

    /// Authorise a pairing request. The presented code must match the
    /// stored pairing secret, whitespace-trimmed, even for an already
    /// known peer. A known peer gets its name and address refreshed and
    /// its existing token back; a new peer is appended with a fresh
    /// token. Exactly a wrong code fails.
    pub fn pair_device(
        &mut self,
        code: &str,
        device_id: &str,
        device_name: &str,
        last_known_ip: Option<String>,
    ) -> (r: Result<String, AppError>)
        requires
            old(self).wf(),
        ensures
            final(self).wf(),
            final(self).same_identity(*old(self)),
            final(self).pending_conflict == old(self).pending_conflict,
            r is Err <==> trim_spec(code@) != old(self).pair_code@,
            r matches Err(e) ==> e.code@ == "SYNC_PAIR_CODE"@ && final(self).paired_devices == old(
                self,
            ).paired_devices,
            r matches Ok(token) ==> ({
                let ds = old(self).paired_devices@;
                let i = find_device(ds, device_id@);
                &&& (i >= 0 ==> {
                    &&& token@ == ds[i].token@
                    &&& final(self).paired_devices@.len() == ds.len()
                    &&& (forall|k: int|
                        0 <= k < ds.len() && k != i ==> final(self).paired_devices@[k] == ds[k])
                    &&& ({
                        let dn = final(self).paired_devices@[i];
                        &&& dn.device_id@ == ds[i].device_id@
                        &&& dn.token@ == ds[i].token@
                        &&& dn.last_sync_at == ds[i].last_sync_at
                        &&& dn.last_remote_change == ds[i].last_remote_change
                        &&& dn.device_name@ == device_name@
                        &&& opt_view(dn.last_known_ip) == (match opt_view(last_known_ip) {
                            Some(p) => Some(p),
                            None => opt_view(ds[i].last_known_ip),
                        })
                    })
                })
                &&& (i == -1 ==> {
                    &&& final(self).paired_devices@.len() == ds.len() + 1
                    &&& (forall|k: int| 0 <= k < ds.len() ==> final(self).paired_devices@[k] == ds[k])
                    &&& ({
                        let dn = final(self).paired_devices@[ds.len() as int];
                        &&& dn.device_id@ == device_id@
                        &&& dn.device_name@ == device_name@
                        &&& dn.token@ == token@
                        &&& dn.last_sync_at is None
                        &&& dn.last_remote_change is None
                        &&& dn.last_known_ip == last_known_ip
                    })
                    &&& token@.len() == TOKEN_LEN
                    &&& (forall|k: int| 0 <= k < token@.len() ==> is_alnum(#[trigger] token@[k]))
                })
            }),
    {
        let trimmed = str_trim(code);
        if !str_eq(trimmed, self.pair_code.as_str()) {
            return Err(AppError::new("SYNC_PAIR_CODE", "Pairing-Code stimmt nicht."));
        }
        proof {
            lemma_find_device(self.paired_devices@, device_id@);
        }
        match find_device_index(&self.paired_devices, device_id) {
            Some(i) => {
                let ghost dsold = old(self).paired_devices@;
                let mut existing = self.paired_devices.remove(i);
                let token = existing.token.clone();
                existing.device_name = device_name.to_owned();
                if let Some(ip) = last_known_ip {
                    existing.last_known_ip = Some(ip);
                }
                self.paired_devices.insert(i, existing);
                proof {
                    assert(forall|k: int|
                        0 <= k < dsold.len() && k != i ==> self.paired_devices@[k] == dsold[k]);
                    assert(self.paired_devices@[i as int].device_id == dsold[i as int].device_id);
                    assert(devices_wf(self.paired_devices@));
                }
                Ok(token)
            },
            None => {
                let token = generate_token(TOKEN_LEN);
                let entry = PairedDevice {
                    device_id: device_id.to_owned(),
                    device_name: device_name.to_owned(),
                    token: token.clone(),
                    last_sync_at: None,
                    last_remote_change: None,
                    last_known_ip,
                };
                self.paired_devices.push(entry);
                assert(devices_wf(self.paired_devices@)) by {
                    let ds = old(self).paired_devices@;
                    assert(forall|k: int|
                        0 <= k < ds.len() ==> (#[trigger] ds[k]).device_id@ != device_id@);
                    assert(forall|k: int|
                        0 <= k < ds.len() ==> self.paired_devices@[k] == ds[k]);
                }
                Ok(token)
            },
        }
    }

    /// Exact-match lookup of a peer by id and bearer token, used to
    /// authorise requests. A copy of the entry is handed out exactly when
    /// one matches both.
    pub fn device_for_token(&self, device_id: &str, token: &str) -> (r: Option<PairedDevice>)
        ensures
            match r {
                Some(d) => exists|i: int|
                    0 <= i < self.paired_devices@.len() && (#[trigger] self.paired_devices@[i]).device_id@
                        == device_id@ && self.paired_devices@[i].token@ == token@
                        && d.eq_view(self.paired_devices@[i]),
                None => forall|i: int|
                    0 <= i < self.paired_devices@.len() ==> !((#[trigger] self.paired_devices@[i]).device_id@
                        == device_id@ && self.paired_devices@[i].token@ == token@),
            },
    {
        let mut i: usize = 0;
        while i < self.paired_devices.len()
            invariant
                i <= self.paired_devices@.len(),
                forall|k: int|
                    0 <= k < i ==> !((#[trigger] self.paired_devices@[k]).device_id@ == device_id@
                        && self.paired_devices@[k].token@ == token@),
            decreases self.paired_devices@.len() - i,
        {
            let d = &self.paired_devices[i];
            if str_eq(d.device_id.as_str(), device_id) && str_eq(d.token.as_str(), token) {
                return Some(d.clone());
            }
            i = i + 1;
        }
        None
    }

    /// Opportunistically refresh a peer's metadata on an authenticated
    /// call. An unknown id changes nothing.
    pub fn update_device_seen(
        &mut self,
        device_id: &str,
        device_name: Option<&str>,
        last_known_ip: Option<String>,
        remote_last_change: Option<&str>,
    )
        requires
            old(self).wf(),
        ensures
            final(self).wf(),
            final(self).same_identity(*old(self)),
            final(self).pending_conflict == old(self).pending_conflict,
            ({
                let ds = old(self).paired_devices@;
                let i = find_device(ds, device_id@);
                &&& (i == -1 ==> final(self).paired_devices == old(self).paired_devices)
                &&& (i >= 0 ==> {
                    &&& final(self).paired_devices@.len() == ds.len()
                    &&& (forall|k: int|
                        0 <= k < ds.len() && k != i ==> final(self).paired_devices@[k] == ds[k])
                    &&& device_seen(
                        ds[i],
                        final(self).paired_devices@[i],
                        opt_str_view(device_name),
                        opt_view(last_known_ip),
                        opt_str_view(remote_last_change),
                    )
                })
            }),
    {
        proof {
            lemma_find_device(self.paired_devices@, device_id@);
        }
        match find_device_index(&self.paired_devices, device_id) {
            Some(i) => {
                let ghost dsold = old(self).paired_devices@;
                let mut existing = self.paired_devices.remove(i);
                if let Some(n) = device_name {
                    existing.device_name = n.to_owned();
                }
                if let Some(ip) = last_known_ip {
                    existing.last_known_ip = Some(ip);
                }
                if let Some(rc) = remote_last_change {
                    existing.last_remote_change = Some(rc.to_owned());
                }
                self.paired_devices.insert(i, existing);
                proof {
                    assert(forall|k: int|
                        0 <= k < dsold.len() && k != i ==> self.paired_devices@[k] == dsold[k]);
                    assert(self.paired_devices@[i as int].device_id == dsold[i as int].device_id);
                    assert(devices_wf(self.paired_devices@));
                }
            },
            None => {},
        }
    }

    /// Mark a sync round with the peer as completed at the given instant.
    /// This is the only operation that advances `last_sync_at`.
    pub fn update_device_sync_at(
        &mut self,
        device_id: &str,
        remote_last_change: Option<&str>,
        now: &str,
    )
        requires
            old(self).wf(),
        ensures
            final(self).wf(),
            final(self).same_identity(*old(self)),
            final(self).pending_conflict == old(self).pending_conflict,
            ({
                let ds = old(self).paired_devices@;
                let i = find_device(ds, device_id@);
                &&& (i == -1 ==> final(self).paired_devices == old(self).paired_devices)
                &&& (i >= 0 ==> {
                    &&& final(self).paired_devices@.len() == ds.len()
                    &&& (forall|k: int|
                        0 <= k < ds.len() && k != i ==> final(self).paired_devices@[k] == ds[k])
                    &&& device_synced(
                        ds[i],
                        final(self).paired_devices@[i],
                        opt_str_view(remote_last_change),
                        now@,
                    )
                })
            }),
    {
        proof {
            lemma_find_device(self.paired_devices@, device_id@);
        }
        match find_device_index(&self.paired_devices, device_id) {
            Some(i) => {
                let ghost dsold = old(self).paired_devices@;
                let mut existing = self.paired_devices.remove(i);
                existing.last_sync_at = Some(now.to_owned());
                if let Some(rc) = remote_last_change {
                    existing.last_remote_change = Some(rc.to_owned());
                }
                self.paired_devices.insert(i, existing);
                proof {
                    assert(forall|k: int|
                        0 <= k < dsold.len() && k != i ==> self.paired_devices@[k] == dsold[k]);
                    assert(self.paired_devices@[i as int].device_id == dsold[i as int].device_id);
                    assert(devices_wf(self.paired_devices@));
                }
            },
            None => {},
        }
    }

    /// Mark a sync round with the peer as completed now. The stored
    /// instant is whatever the clock reports, rendered in the grammar the
    /// library's own parser accepts.
    pub fn update_device_sync(&mut self, device_id: &str, remote_last_change: Option<&str>)
        requires
            old(self).wf(),
        ensures
            final(self).wf(),
            final(self).same_identity(*old(self)),
            final(self).pending_conflict == old(self).pending_conflict,
            ({
                let ds = old(self).paired_devices@;
                let i = find_device(ds, device_id@);
                &&& (i == -1 ==> final(self).paired_devices == old(self).paired_devices)
                &&& (i >= 0 ==> {
                    &&& final(self).paired_devices@.len() == ds.len()
                    &&& (forall|k: int|
                        0 <= k < ds.len() && k != i ==> final(self).paired_devices@[k] == ds[k])
                    &&& (exists|now: Seq<char>|
                        parse_spec(now) is Some && #[trigger] device_synced(
                            ds[i],
                            final(self).paired_devices@[i],
                            opt_str_view(remote_last_change),
                            now,
                        ))
                })
            }),
    {
        let now = now_rfc3339();
        self.update_device_sync_at(device_id, remote_last_change, now.as_str());
    }

    /// Record a detected divergence, replacing any previous one: at most
    /// one conflict is pending at a time.
    pub fn set_pending_conflict(&mut self, conflict: PendingConflict)
        requires
            old(self).wf(),
        ensures
            final(self).wf(),
            final(self).same_identity(*old(self)),
            final(self).paired_devices == old(self).paired_devices,
            final(self).pending_conflict == Some(conflict),
    {
        self.pending_conflict = Some(conflict);
    }

    /// Forget the pending conflict.
    pub fn clear_pending_conflict(&mut self)
        requires
            old(self).wf(),
        ensures
            final(self).wf(),
            final(self).same_identity(*old(self)),
            final(self).paired_devices == old(self).paired_devices,
            final(self).pending_conflict is None,
    {
        self.pending_conflict = None;
    }

    /// The pending conflict, if any.
    pub fn get_pending_conflict(&self) -> (r: &Option<PendingConflict>)
        ensures
            r == &self.pending_conflict,
    {
        &self.pending_conflict
    }

    /// Read-only view for status display: the pairing code, every paired
    /// peer, and the pending conflict if one exists.
    pub fn snapshot(&self) -> (r: SyncSnapshot)
        ensures
            r.pair_code@ == self.pair_code@,
            r.paired_devices@.len() == self.paired_devices@.len(),
            forall|i: int|
                0 <= i < r.paired_devices@.len() ==> (#[trigger] r.paired_devices@[i]).reports(
                    self.paired_devices@[i],
                ),
            r.pending_conflict is Some <==> self.pending_conflict is Some,
            self.pending_conflict matches Some(pc) ==> (r.pending_conflict matches Some(info)
                && info.reports(pc)),
    {
        let mut infos: Vec<SyncDeviceInfo> = Vec::new();
        let mut i: usize = 0;
        while i < self.paired_devices.len()
            invariant
                i <= self.paired_devices@.len(),
                infos@.len() == i,
                forall|k: int|
                    0 <= k < i ==> (#[trigger] infos@[k]).reports(self.paired_devices@[k]),
            decreases self.paired_devices@.len() - i,
        {
            let d = &self.paired_devices[i];
            infos.push(SyncDeviceInfo {
                device_id: d.device_id.clone(),
                device_name: d.device_name.clone(),
                last_sync_at: clone_opt_string(&d.last_sync_at),
                last_remote_change: clone_opt_string(&d.last_remote_change),
                last_known_ip: clone_opt_string(&d.last_known_ip),
            });
            i = i + 1;
        }
        let pending = match &self.pending_conflict {
            Some(c) => Some(SyncConflictInfo {
                device_id: c.device_id.clone(),
                device_name: c.device_name.clone(),
                local_last_change: c.local_last_change.clone(),
                remote_last_change: c.remote_last_change.clone(),
                received_at: c.received_at.clone(),
                local_summary: clone_opt_summary(&c.local_summary),
                remote_summary: clone_opt_summary(&c.remote_summary),
            }),
            None => None,
        };
        SyncSnapshot { pair_code: self.pair_code.clone(), paired_devices: infos, pending_conflict: pending }
    }
}

/// Pairing is idempotent: once a peer is on the list, looking its id up
/// again finds exactly that entry — so a re-pair with the correct secret
/// returns the stored token and appends nothing, as `pair_device`'s
/// contract then states.
pub proof fn lemma_pair_idempotent(ds: Seq<PairedDevice>, d: PairedDevice)
    requires
        find_device(ds, d.device_id@) == -1,
    ensures
        find_device(ds.push(d), d.device_id@) == ds.len() as int,
        ds.push(d)[find_device(ds.push(d), d.device_id@)].token == d.token,
    decreases ds.len(),
{
    lemma_find_device(ds, d.device_id@);
    lemma_find_device(ds.push(d), d.device_id@);
    let i = find_device(ds.push(d), d.device_id@);
    assert(ds.push(d)[ds.len() as int] == d);
    if i == -1 {
        assert(ds.push(d)[ds.len() as int].device_id@ == d.device_id@);
        assert(false);
    }
    if i < ds.len() as int {
        assert(ds.push(d)[i] == ds[i]);
        assert(false);
    }
}

} // verus!
