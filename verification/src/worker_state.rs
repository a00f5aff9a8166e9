use vstd::prelude::*;

use crate::protocol::CommandResponse;
use crate::scan::ScanCandidateInfo;
use crate::text::text;

verus! {

/// How long heartbeats may keep failing, from the first miss, before the link is dropped.
pub const HEARTBEAT_DISCONNECT_GRACE_MS: u64 = 12000;

/// How many missed heartbeats in a row drop the link.
pub const HEARTBEAT_FAILURE_THRESHOLD: u8 = 3;

/// The bookkeeping of the Bluetooth worker. The scanner, the scanned peripherals and the
/// session themselves stay with the caller; this records whether they are held, the names
/// of the scanned devices in the order they were found, which scan is current, and the
/// heartbeat's failures. Times are milliseconds on the caller's monotonic clock.
pub struct WorkerState {
    has_client: bool,
    discovered: Vec<ScanCandidateInfo>,
    has_session: bool,
    active_scan_id: Option<u64>,
    next_scan_id: u64,
    has_cancel: bool,
    heartbeat_failures: u8,
    heartbeat_abnormal_since: Option<u64>,
    heartbeat_disconnect_deadline: Option<u64>,
}

/// The worker's bookkeeping as values.
pub struct WorkerView {
    pub has_client: bool,
    pub discovered: Seq<ScanCandidateInfo>,
    pub has_session: bool,
    pub active_scan_id: Option<u64>,
    pub next_scan_id: u64,
    pub has_cancel: bool,
    pub heartbeat_failures: u8,
    pub heartbeat_abnormal_since: Option<u64>,
    pub heartbeat_disconnect_deadline: Option<u64>,
}

impl View for WorkerState {
    type V = WorkerView;

    closed spec fn view(&self) -> WorkerView {
        WorkerView {
            has_client: self.has_client,
            discovered: self.discovered@,
            has_session: self.has_session,
            active_scan_id: self.active_scan_id,
            next_scan_id: self.next_scan_id,
            has_cancel: self.has_cancel,
            heartbeat_failures: self.heartbeat_failures,
            heartbeat_abnormal_since: self.heartbeat_abnormal_since,
            heartbeat_disconnect_deadline: self.heartbeat_disconnect_deadline,
        }
    }
}

/// `v` with no heartbeat failures on record.
pub open spec fn heartbeat_cleared(v: WorkerView) -> WorkerView {
    WorkerView {
        heartbeat_failures: 0,
        heartbeat_abnormal_since: None,
        heartbeat_disconnect_deadline: None,
        ..v
    }
}

/// `v` with no scan, no scanner, no devices and no session.
pub open spec fn idle(v: WorkerView) -> WorkerView {
    heartbeat_cleared(
        WorkerView {
            has_session: false,
            has_client: false,
            discovered: Seq::empty(),
            active_scan_id: None,
            has_cancel: false,
            ..v
        },
    )
}

/// `v` after a missed heartbeat at `now`: one more failure (at most 255); the first miss
/// opens the grace window, which ends `HEARTBEAT_DISCONNECT_GRACE_MS` later.
pub open spec fn after_heartbeat_failure(v: WorkerView, now: u64) -> WorkerView {
    WorkerView {
        heartbeat_failures: if v.heartbeat_failures == 255 {
            255
        } else {
            (v.heartbeat_failures + 1) as u8
        },
        heartbeat_abnormal_since: if v.heartbeat_abnormal_since is None {
            Some(now)
        } else {
            v.heartbeat_abnormal_since
        },
        heartbeat_disconnect_deadline: if v.heartbeat_abnormal_since is None {
            Some((now + HEARTBEAT_DISCONNECT_GRACE_MS) as u64)
        } else {
            v.heartbeat_disconnect_deadline
        },
        ..v
    }
}

/// `v` once a new scan has begun under the next identifier.
pub open spec fn after_begin_scan(v: WorkerView) -> WorkerView {
    heartbeat_cleared(
        WorkerView {
            next_scan_id: (v.next_scan_id + 1) as u64,
            has_client: true,
            discovered: Seq::empty(),
            has_session: false,
            active_scan_id: Some(v.next_scan_id),
            has_cancel: true,
            ..v
        },
    )
}

/// A scanned device with this name is on record.
pub open spec fn has_name(devices: Seq<ScanCandidateInfo>, name: Seq<char>) -> bool {
    exists|k: int| 0 <= k < devices.len() && #[trigger] devices[k].name@ == name
}

/// The first scanned device with this name.
pub open spec fn first_named(devices: Seq<ScanCandidateInfo>, name: Seq<char>, k: int) -> bool {
    0 <= k < devices.len() && devices[k].name@ == name && forall|j: int|
        0 <= j < k ==> #[trigger] devices[j].name@ != name
}

impl WorkerState {
    pub fn new() -> (s: WorkerState)
        ensures
            s@ == idle(s@),
            s@.next_scan_id == 0,
    {
        let s = WorkerState {
            has_client: false,
            discovered: Vec::new(),
            has_session: false,
            active_scan_id: None,
            next_scan_id: 0,
            has_cancel: false,
            heartbeat_failures: 0,
            heartbeat_abnormal_since: None,
            heartbeat_disconnect_deadline: None,
        };
        assert(s@ =~= idle(s@));
        s
    }

    /// Starts a scan under a fresh identifier; the caller now holds a scanner and a way to
    /// cancel the scan.
    pub fn begin_scan(&mut self) -> (scan_id: u64)
        requires
            old(self)@.next_scan_id < u64::MAX,
        ensures
            scan_id == old(self)@.next_scan_id,
            final(self)@ == after_begin_scan(old(self)@),
    {
        let scan_id = self.next_scan_id;
        self.next_scan_id = self.next_scan_id + 1;
        self.has_client = true;
        self.discovered.clear();
        self.has_session = false;
        self.active_scan_id = Some(scan_id);
        self.has_cancel = true;
        self.reset_heartbeat_failures();
        assert(self@.discovered =~= Seq::<ScanCandidateInfo>::empty());
        scan_id
    }

    /// Records a scanned device unless one with its name is recorded already; tells
    /// whether it was added.
    pub fn add_discovered_device(&mut self, device: ScanCandidateInfo) -> (added: bool)
        ensures
            added == !has_name(old(self)@.discovered, device.name@),
            final(self)@ == (WorkerView {
                discovered: if added {
                    old(self)@.discovered.push(device)
                } else {
                    old(self)@.discovered
                },
                ..old(self)@
            }),
    {
        let mut k: usize = 0;
        while k < self.discovered.len()
            invariant
                self@ == old(self)@,
                k <= self.discovered@.len(),
                forall|j: int| 0 <= j < k ==> #[trigger] self.discovered@[j].name@ != device.name@,
            decreases self.discovered@.len() - k,
        {
            if crate::text::text_eq(self.discovered[k].name.as_str(), device.name.as_str()) {
                assert(self.discovered@[k as int].name@ == device.name@);
                return false;
            }
            k = k + 1;
        }
        self.discovered.push(device);
        true
    }

    /// Ends a scan if it is the current one; tells whether it was.
    pub fn finish_scan(&mut self, scan_id: u64) -> (was_current: bool)
        ensures
            was_current == (old(self)@.active_scan_id == Some(scan_id)),
            final(self)@ == if was_current {
                WorkerView { active_scan_id: None, has_cancel: false, ..old(self)@ }
            } else {
                old(self)@
            },
    {
        let current = match self.active_scan_id {
            Some(id) => id == scan_id,
            None => false,
        };
        if current {
            self.active_scan_id = None;
            self.has_cancel = false;
        }
        current
    }

    /// Gives up the current scan's cancellation, when there is one; the caller then sends
    /// the cancellation. Tells whether there was one.
    pub fn cancel_scan(&mut self) -> (cancelled: bool)
        ensures
            cancelled == old(self)@.has_cancel,
            final(self)@ == if cancelled {
                WorkerView { active_scan_id: None, has_cancel: false, ..old(self)@ }
            } else {
                old(self)@
            },
    {
        if !self.has_cancel {
            return false;
        }
        self.has_cancel = false;
        self.active_scan_id = None;
        true
    }

    pub fn is_active_scan(&self, scan_id: u64) -> (r: bool)
        ensures
            r == (self@.active_scan_id == Some(scan_id)),
    {
        match self.active_scan_id {
            Some(id) => id == scan_id,
            None => false,
        }
    }

    /// Hands over the scanner and the position of the scanned device named `name`. The
    /// scanner is handed over, and so given up, before the device is looked for.
    pub fn take_connection_target(&mut self, name: &str) -> (r: Result<usize, String>)
        ensures
            !old(self)@.has_client ==> (r matches Err(e) && e@ == "No scanned devices available"@
                && final(self)@ == old(self)@),
            old(self)@.has_client ==> final(self)@ == (WorkerView { has_client: false, ..old(self)@ }),
            old(self)@.has_client ==> match r {
                Ok(k) => first_named(old(self)@.discovered, name@, k as int),
                Err(e) => !has_name(old(self)@.discovered, name@) && e@ == "Scanned device '"@
                    + name@ + "' is no longer available"@,
            },
    {
        if !self.has_client {
            return Err(text("No scanned devices available"));
        }
        self.has_client = false;
        let mut k: usize = 0;
        while k < self.discovered.len()
            invariant
                self@ == (WorkerView { has_client: false, ..old(self)@ }),
                old(self)@.has_client,
                k <= self.discovered@.len(),
                forall|j: int| 0 <= j < k ==> #[trigger] self.discovered@[j].name@ != name@,
            decreases self.discovered@.len() - k,
        {
            if crate::text::text_eq(self.discovered[k].name.as_str(), name) {
                return Ok(k);
            }
            k = k + 1;
        }
        let mut msg = text("Scanned device '");
        msg.append(name);
        msg.append("' is no longer available");
        Err(msg)
    }

    /// The connection is up: the scan and its devices are done with.
    pub fn activate_session(&mut self)
        ensures
            final(self)@ == heartbeat_cleared(
                WorkerView {
                    has_session: true,
                    has_client: false,
                    discovered: Seq::empty(),
                    active_scan_id: None,
                    has_cancel: false,
                    ..old(self)@
                },
            ),
    {
        self.has_session = true;
        self.has_client = false;
        self.discovered.clear();
        self.active_scan_id = None;
        self.has_cancel = false;
        self.reset_heartbeat_failures();
        assert(self@.discovered =~= Seq::<ScanCandidateInfo>::empty());
    }

    pub fn has_active_session(&self) -> (r: bool)
        ensures
            r == self@.has_session,
    {
        self.has_session
    }

    /// Hands over the session, if there is one.
    pub fn take_active_session(&mut self) -> (had: bool)
        ensures
            had == old(self)@.has_session,
            final(self)@ == (WorkerView { has_session: false, ..old(self)@ }),
    {
        let had = self.has_session;
        self.has_session = false;
        had
    }

    pub fn reset_heartbeat_failures(&mut self)
        ensures
            final(self)@ == heartbeat_cleared(old(self)@),
    {
        self.heartbeat_failures = 0;
        self.heartbeat_abnormal_since = None;
        self.heartbeat_disconnect_deadline = None;
    }

    /// Counts a missed heartbeat at `now`; the first miss opens the grace window, which
    /// later misses keep.
    pub fn record_heartbeat_failure(&mut self, now: u64) -> (failures: u8)
        requires
            now <= u64::MAX - HEARTBEAT_DISCONNECT_GRACE_MS,
        ensures
            final(self)@ == after_heartbeat_failure(old(self)@, now),
            failures == final(self)@.heartbeat_failures,
    {
        if self.heartbeat_abnormal_since.is_none() {
            self.heartbeat_abnormal_since = Some(now);
            self.heartbeat_disconnect_deadline = Some(now + HEARTBEAT_DISCONNECT_GRACE_MS);
        }
        self.heartbeat_failures = if self.heartbeat_failures == 255 {
            255
        } else {
            self.heartbeat_failures + 1
        };
        self.heartbeat_failures
    }

    pub fn heartbeat_disconnect_deadline(&self) -> (r: Option<u64>)
        ensures
            r == self@.heartbeat_disconnect_deadline,
    {
        self.heartbeat_disconnect_deadline
    }

    pub fn heartbeat_failures(&self) -> (r: u8)
        ensures
            r == self@.heartbeat_failures,
    {
        self.heartbeat_failures
    }

    /// Whether the grace window after the first missed heartbeat is over at `now`.
    pub fn heartbeat_deadline_elapsed(&self, now: u64) -> (r: bool)
        ensures
            r == (self@.heartbeat_disconnect_deadline matches Some(d) && now >= d),
    {
        match self.heartbeat_disconnect_deadline {
            Some(deadline) => now >= deadline,
            None => false,
        }
    }

    /// Whether enough heartbeats were missed in a row to drop the link.
    pub fn heartbeat_failure_threshold_reached(&self) -> (r: bool)
        ensures
            r == (self@.heartbeat_failures >= HEARTBEAT_FAILURE_THRESHOLD),
    {
        self.heartbeat_failures >= HEARTBEAT_FAILURE_THRESHOLD
    }

    pub fn reset_to_idle(&mut self)
        ensures
            final(self)@ == idle(old(self)@),
    {
        self.has_session = false;
        self.has_client = false;
        self.discovered.clear();
        self.active_scan_id = None;
        self.has_cancel = false;
        self.reset_heartbeat_failures();
        assert(self@.discovered =~= Seq::<ScanCandidateInfo>::empty());
    }
}

/// The grace window is opened by the first missed heartbeat, ends
/// `HEARTBEAT_DISCONNECT_GRACE_MS` after it, and later misses never move its end.
pub proof fn lemma_grace_deadline_is_kept(v: WorkerView, first: u64, later: u64)
    requires
        v.heartbeat_abnormal_since is None,
        first <= u64::MAX - HEARTBEAT_DISCONNECT_GRACE_MS,
        later <= u64::MAX - HEARTBEAT_DISCONNECT_GRACE_MS,
    ensures
        after_heartbeat_failure(v, first).heartbeat_disconnect_deadline == Some(
            (first + HEARTBEAT_DISCONNECT_GRACE_MS) as u64,
        ),
        after_heartbeat_failure(after_heartbeat_failure(v, first), later).heartbeat_disconnect_deadline
            == after_heartbeat_failure(v, first).heartbeat_disconnect_deadline,
{
}

/// Results of a scan that a later scan superseded are not taken for the current scan's.
pub proof fn lemma_superseded_scan_is_stale(old_id: u64, v: WorkerView)
    requires
        old_id < v.next_scan_id,
        v.next_scan_id < u64::MAX,
    ensures
        after_begin_scan(v).active_scan_id != Some(old_id),
        after_begin_scan(v).next_scan_id > v.next_scan_id,
{
}

/// Checks the answer to a heartbeat: it must answer the heartbeat's request and succeed.
pub fn check_heartbeat_response(request_id: &str, response: &CommandResponse) -> (r: Result<
    (),
    String,
>)
    ensures
        response.id@ != request_id@ ==> (r matches Err(e) && e@
            == "Heartbeat response id mismatch: expected "@ + request_id@ + ", got "@
            + response.id@),
        response.id@ == request_id@ && !response.ok ==> (r matches Err(e) && e@
            == "Heartbeat failed: "@ + response.code@ + " "@ + response.text@),
        response.id@ == request_id@ && response.ok ==> r is Ok,
{
    if !crate::text::text_eq(response.id.as_str(), request_id) {
        let mut msg = text("Heartbeat response id mismatch: expected ");
        msg.append(request_id);
        msg.append(", got ");
        msg.append(response.id.as_str());
        return Err(msg);
    }
    if !response.ok {
        let mut msg = text("Heartbeat failed: ");
        msg.append(response.code.as_str());
        msg.append(" ");
        msg.append(response.text.as_str());
        return Err(msg);
    }
    Ok(())
}

} // verus!
