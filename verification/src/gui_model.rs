use vstd::prelude::*;

use crate::cli_text::{candidate_label, format_scan_candidate_label as candidate_label_text, Lang};
use crate::responses::WifiNetwork;
use crate::scan::ScanCandidateInfo;
use crate::text::{joined, string_views, join_texts, text};

verus! {

/// The actions of the desktop client that report progress and outcome.
#[derive(Clone, Copy, Debug, Eq, Hash, PartialEq, Structural)]
pub enum ActionSlot {
    DeviceScan,
    Connect,
    Disconnect,
    WifiScan,
    Provision,
    Status,
    Ping,
    Help,
    RawSend,
    LogsCopy,
    LogsClear,
}

/// How many action slots there are.
pub const ACTION_SLOT_COUNT: usize = 11;

impl ActionSlot {
    pub open spec fn slot_index(self) -> int {
        match self {
            ActionSlot::DeviceScan => 0,
            ActionSlot::Connect => 1,
            ActionSlot::Disconnect => 2,
            ActionSlot::WifiScan => 3,
            ActionSlot::Provision => 4,
            ActionSlot::Status => 5,
            ActionSlot::Ping => 6,
            ActionSlot::Help => 7,
            ActionSlot::RawSend => 8,
            ActionSlot::LogsCopy => 9,
            ActionSlot::LogsClear => 10,
        }
    }

    /// The position of this slot in the feedback table.
    pub fn index(&self) -> (r: usize)
        ensures
            r == self.slot_index(),
            r < ACTION_SLOT_COUNT,
    {
        match self {
            ActionSlot::DeviceScan => 0,
            ActionSlot::Connect => 1,
            ActionSlot::Disconnect => 2,
            ActionSlot::WifiScan => 3,
            ActionSlot::Provision => 4,
            ActionSlot::Status => 5,
            ActionSlot::Ping => 6,
            ActionSlot::Help => 7,
            ActionSlot::RawSend => 8,
            ActionSlot::LogsCopy => 9,
            ActionSlot::LogsClear => 10,
        }
    }
}

#[derive(Clone, Copy, Debug, Eq, PartialEq, Structural)]
pub enum ActionPhase {
    Idle,
    Running,
    Succeeded,
    Failed,
}

/// The latest progress or outcome of one action; `sequence` orders records over all slots.
#[derive(Clone, Debug, PartialEq)]
pub struct ActionFeedback {
    pub slot: ActionSlot,
    pub phase: ActionPhase,
    pub detail: Option<String>,
    pub error: Option<String>,
    pub request_id: Option<String>,
    pub sequence: u64,
}

#[derive(Clone, Copy, Debug, PartialEq, Eq, Structural)]
pub enum DisconnectReason {
    Manual,
    HeartbeatFailed,
}

#[derive(Clone, Copy, Debug, Eq, PartialEq, Structural)]
pub enum ThemePreference {
    Light,
    Dark,
    System,
}

impl Default for ThemePreference {
    fn default() -> (r: ThemePreference)
        ensures
            r == ThemePreference::System,
    {
        ThemePreference::System
    }
}

#[derive(Clone, Debug, PartialEq)]
pub struct DiagnosticResultCard {
    pub title: String,
    pub ok: bool,
    pub code: String,
    pub lines: Vec<String>,
}

#[derive(Clone, Debug, PartialEq)]
pub struct ProvisionResultCard {
    pub ok: bool,
    pub code: String,
    pub status: String,
    pub ssid: String,
    pub ip: Option<String>,
    pub text: String,
}

#[derive(Clone, Debug, PartialEq)]
pub struct CommandResultSummary {
    pub request_id: String,
    pub code: String,
    pub text: String,
    pub ok: bool,
}

/// What the Bluetooth worker reports to the interface.
#[derive(Clone, Debug, PartialEq)]
pub enum UiEvent {
    Log(String),
    ActionStarted { slot: ActionSlot, request_id: Option<String> },
    ActionSucceeded { slot: ActionSlot, request_id: Option<String>, detail: Option<String> },
    ActionFailed { slot: ActionSlot, request_id: Option<String>, error: String },
    ScanStarted,
    ScanCandidateDiscovered(ScanCandidateInfo),
    ScanFinished,
    ScanStopped,
    ConnectingToCandidate(String),
    ConnectedDeviceSelected(String),
    HeartbeatOk { at: String },
    HeartbeatMissed(u8),
    Disconnected { reason: DisconnectReason },
    WifiScanLoaded(Vec<WifiNetwork>),
    DiagnosticResult(DiagnosticResultCard),
    ProvisionResult(ProvisionResultCard),
    CommandCompleted(CommandResultSummary),
    ConnectionFailed(String),
    Error(String),
}

#[derive(Clone, Copy, Debug, PartialEq, Eq, Structural)]
pub enum Tab {
    Provision,
    Diagnostic,
    Logs,
}

/// The state of the desktop client's window. `action_feedback` holds one entry per
/// action slot, at the slot's index.
pub struct AppModel {
    pub lang: Lang,
    pub theme_preference: ThemePreference,
    pub current_tab: Tab,
    pub device_name: String,
    pub connected_device_name: Option<String>,
    pub logs: Vec<String>,
    pub is_scanning: bool,
    pub is_connecting: bool,
    pub is_connected: bool,
    pub active_action: Option<ActionSlot>,
    pub action_feedback: Vec<Option<ActionFeedback>>,
    pub heartbeat_ok: bool,
    pub heartbeat_failures: u8,
    pub last_heartbeat_at: Option<String>,
    pub scan_candidates: Vec<ScanCandidateInfo>,
    pub ssid_input: String,
    pub pwd_input: String,
    pub wifi_list: Vec<WifiNetwork>,
    pub diagnostic_result: Option<DiagnosticResultCard>,
    pub provision_result: Option<ProvisionResultCard>,
    pub command_input: String,
    pub next_feedback_sequence: u64,
}

/// The model as values: texts by their characters, lists by their elements.
pub struct ModelView {
    pub lang: Lang,
    pub theme_preference: ThemePreference,
    pub current_tab: Tab,
    pub device_name: Seq<char>,
    pub connected_device_name: Option<Seq<char>>,
    pub logs: Seq<Seq<char>>,
    pub is_scanning: bool,
    pub is_connecting: bool,
    pub is_connected: bool,
    pub active_action: Option<ActionSlot>,
    pub feedback: Seq<Option<ActionFeedback>>,
    pub heartbeat_ok: bool,
    pub heartbeat_failures: u8,
    pub last_heartbeat_at: Option<Seq<char>>,
    pub scan_candidates: Seq<ScanCandidateInfo>,
    pub ssid_input: Seq<char>,
    pub pwd_input: Seq<char>,
    pub wifi_list: Seq<WifiNetwork>,
    pub diagnostic_result: Option<DiagnosticResultCard>,
    pub provision_result: Option<ProvisionResultCard>,
    pub command_input: Seq<char>,
    pub next_feedback_sequence: u64,
}

pub open spec fn opt_text(o: Option<String>) -> Option<Seq<char>> {
    match o {
        Some(s) => Some(s@),
        None => None,
    }
}

impl View for AppModel {
    type V = ModelView;

    open spec fn view(&self) -> ModelView {
        ModelView {
            lang: self.lang,
            theme_preference: self.theme_preference,
            current_tab: self.current_tab,
            device_name: self.device_name@,
            connected_device_name: opt_text(self.connected_device_name),
            logs: string_views(self.logs@),
            is_scanning: self.is_scanning,
            is_connecting: self.is_connecting,
            is_connected: self.is_connected,
            active_action: self.active_action,
            feedback: self.action_feedback@,
            heartbeat_ok: self.heartbeat_ok,
            heartbeat_failures: self.heartbeat_failures,
            last_heartbeat_at: opt_text(self.last_heartbeat_at),
            scan_candidates: self.scan_candidates@,
            ssid_input: self.ssid_input@,
            pwd_input: self.pwd_input@,
            wifi_list: self.wifi_list@,
            diagnostic_result: self.diagnostic_result,
            provision_result: self.provision_result,
            command_input: self.command_input@,
            next_feedback_sequence: self.next_feedback_sequence,
        }
    }
}

/// The feedback table has one entry per slot, each entry sits at its slot's index, and
/// the sequence numbers are distinct and no greater than the last one handed out.
pub open spec fn feedback_wf(feedback: Seq<Option<ActionFeedback>>, next: u64) -> bool {
    &&& feedback.len() == ACTION_SLOT_COUNT
    &&& forall|i: int|
        0 <= i < feedback.len() ==> (#[trigger] feedback[i] matches Some(f) ==> f.slot.slot_index()
            == i && f.sequence <= next)
    &&& forall|i: int, j: int|
        0 <= i < feedback.len() && 0 <= j < feedback.len() && i != j && #[trigger] feedback[i]
            is Some && #[trigger] feedback[j] is Some ==> feedback[i]->0.sequence
            != feedback[j]->0.sequence
}

/// Recording feedback keeps the table well formed, and the new entry is the latest: its
/// sequence number is above that of every other slot's entry.
pub proof fn lemma_recorded_feedback_is_latest(
    m: ModelView,
    slot: ActionSlot,
    phase: ActionPhase,
    request_id: Option<String>,
    detail: Option<String>,
    error: Option<String>,
)
    requires
        feedback_wf(m.feedback, m.next_feedback_sequence),
        m.next_feedback_sequence < u64::MAX,
    ensures
        ({
            let after = with_feedback(m, slot, phase, request_id, detail, error);
            &&& feedback_wf(after.feedback, after.next_feedback_sequence)
            &&& after.next_feedback_sequence == m.next_feedback_sequence + 1
            &&& after.feedback[slot.slot_index()] == Some(
                ActionFeedback { slot, phase, detail, error, request_id, sequence: after.next_feedback_sequence },
            )
            &&& forall|i: int|
                0 <= i < ACTION_SLOT_COUNT && i != slot.slot_index() ==> (#[trigger] after.feedback[i] matches Some(f)
                    ==> f.sequence < after.next_feedback_sequence && after.feedback[i] == m.feedback[i])
        }),
{
    let after = with_feedback(m, slot, phase, request_id, detail, error);
    let k = slot.slot_index();
    assert(0 <= k < ACTION_SLOT_COUNT);
    assert forall|i: int| 0 <= i < after.feedback.len() implies (#[trigger] after.feedback[i] matches Some(f)
        ==> f.slot.slot_index() == i && f.sequence <= after.next_feedback_sequence) by {
        if i != k {
            assert(after.feedback[i] == m.feedback[i]);
        }
    }
    assert forall|i: int, j: int|
        0 <= i < after.feedback.len() && 0 <= j < after.feedback.len() && i != j && #[trigger] after.feedback[i]
            is Some && #[trigger] after.feedback[j] is Some implies after.feedback[i]->0.sequence
            != after.feedback[j]->0.sequence by {
        if i == k {
            assert(m.feedback[j] is Some);
        } else if j == k {
            assert(m.feedback[i] is Some);
        } else {
            assert(m.feedback[i] is Some && m.feedback[j] is Some);
        }
    }
}

/// The log window keeps at most this many lines.
pub const LOG_LIMIT: usize = 100;

/// `logs` with `line` appended, dropping the oldest line once there are more than
/// `LOG_LIMIT`.
pub open spec fn logs_after_push(logs: Seq<Seq<char>>, line: Seq<char>) -> Seq<Seq<char>> {
    let pushed = logs.push(line);
    if pushed.len() > LOG_LIMIT {
        pushed.drop_first()
    } else {
        pushed
    }
}

/// `m` with one more feedback record for `slot`, numbered after every earlier one.
pub open spec fn with_feedback(
    m: ModelView,
    slot: ActionSlot,
    phase: ActionPhase,
    request_id: Option<String>,
    detail: Option<String>,
    error: Option<String>,
) -> ModelView {
    let next = (m.next_feedback_sequence + 1) as u64;
    ModelView {
        next_feedback_sequence: next,
        feedback: m.feedback.update(
            slot.slot_index(),
            Some(ActionFeedback { slot, phase, detail, error, request_id, sequence: next }),
        ),
        ..m
    }
}

/// `m` after the connection is dropped: no scan, no connection, no heartbeat, no candidates.
pub open spec fn link_reset(m: ModelView) -> ModelView {
    ModelView {
        is_scanning: false,
        is_connecting: false,
        is_connected: false,
        active_action: None,
        heartbeat_ok: false,
        heartbeat_failures: 0,
        last_heartbeat_at: None,
        connected_device_name: None,
        scan_candidates: Seq::empty(),
        ..m
    }
}

pub open spec fn cleared_active(m: ModelView, slot: ActionSlot) -> Option<ActionSlot> {
    if m.active_action == Some(slot) {
        None
    } else {
        m.active_action
    }
}

/// `"[CMD] {request_id} {code}: {text}"`.
pub open spec fn command_log_line(r: CommandResultSummary) -> Seq<char> {
    "[CMD] "@ + r.request_id@ + " "@ + r.code@ + ": "@ + r.text@
}

/// `"[ERR] {error}"`.
pub open spec fn error_log_line(err: Seq<char>) -> Seq<char> {
    "[ERR] "@ + err
}

/// Whether handling `e` records action feedback.
pub open spec fn records_feedback(e: UiEvent) -> bool {
    e is ActionStarted || e is ActionSucceeded || e is ActionFailed
}

/// The model after one event.
pub open spec fn reduced(m: ModelView, e: UiEvent) -> ModelView {
    match e {
        UiEvent::Log(line) => ModelView { logs: logs_after_push(m.logs, line@), ..m },
        UiEvent::ActionStarted { slot, request_id } => with_feedback(
            ModelView { active_action: Some(slot), ..m },
            slot,
            ActionPhase::Running,
            request_id,
            None,
            None,
        ),
        UiEvent::ActionSucceeded { slot, request_id, detail } => with_feedback(
            ModelView { active_action: cleared_active(m, slot), ..m },
            slot,
            ActionPhase::Succeeded,
            request_id,
            detail,
            None,
        ),
        UiEvent::ActionFailed { slot, request_id, error } => with_feedback(
            ModelView { active_action: cleared_active(m, slot), ..m },
            slot,
            ActionPhase::Failed,
            request_id,
            None,
            Some(error),
        ),
        UiEvent::ScanStarted => ModelView {
            is_scanning: true,
            is_connecting: false,
            is_connected: false,
            heartbeat_ok: false,
            heartbeat_failures: 0,
            last_heartbeat_at: None,
            connected_device_name: None,
            scan_candidates: Seq::empty(),
            ..m
        },
        UiEvent::ScanCandidateDiscovered(c) => ModelView {
            scan_candidates: m.scan_candidates.push(c),
            ..m
        },
        UiEvent::ScanFinished => ModelView { is_scanning: false, ..m },
        UiEvent::ScanStopped => ModelView { is_scanning: false, ..m },
        UiEvent::ConnectingToCandidate(name) => ModelView {
            is_scanning: false,
            is_connecting: true,
            is_connected: false,
            heartbeat_ok: false,
            heartbeat_failures: 0,
            last_heartbeat_at: None,
            connected_device_name: Some(name@),
            ..m
        },
        UiEvent::ConnectedDeviceSelected(name) => ModelView {
            is_scanning: false,
            is_connecting: false,
            is_connected: true,
            heartbeat_ok: true,
            heartbeat_failures: 0,
            last_heartbeat_at: None,
            connected_device_name: Some(name@),
            scan_candidates: Seq::empty(),
            ..m
        },
        UiEvent::HeartbeatOk { at } => ModelView {
            heartbeat_ok: true,
            heartbeat_failures: 0,
            last_heartbeat_at: Some(at@),
            ..m
        },
        UiEvent::HeartbeatMissed(failures) => ModelView {
            heartbeat_ok: false,
            heartbeat_failures: failures,
            ..m
        },
        UiEvent::Disconnected { .. } => link_reset(m),
        UiEvent::WifiScanLoaded(networks) => ModelView { wifi_list: networks@, ..m },
        UiEvent::DiagnosticResult(card) => ModelView { diagnostic_result: Some(card), ..m },
        UiEvent::ProvisionResult(card) => ModelView { provision_result: Some(card), ..m },
        UiEvent::CommandCompleted(r) => ModelView {
            logs: logs_after_push(m.logs, command_log_line(r)),
            ..m
        },
        UiEvent::ConnectionFailed(err) => {
            let r = link_reset(m);
            ModelView { logs: logs_after_push(r.logs, error_log_line(err@)), ..r }
        },
        UiEvent::Error(err) => ModelView {
            is_scanning: false,
            is_connecting: false,
            logs: logs_after_push(m.logs, error_log_line(err@)),
            ..m
        },
    }
}

impl AppModel {
    pub open spec fn wf(&self) -> bool {
        feedback_wf(self.action_feedback@, self.next_feedback_sequence)
    }

    /// Records the progress or outcome of an action in its slot, under a fresh sequence
    /// number.
    pub fn record_action_feedback(
        &mut self,
        slot: ActionSlot,
        phase: ActionPhase,
        request_id: Option<String>,
        detail: Option<String>,
        error: Option<String>,
    )
        requires
            old(self).wf(),
            old(self).next_feedback_sequence < u64::MAX,
        ensures
            final(self).wf(),
            final(self)@ == with_feedback(old(self)@, slot, phase, request_id, detail, error),
    {
        self.next_feedback_sequence = self.next_feedback_sequence + 1;
        let feedback = ActionFeedback {
            slot,
            phase,
            detail,
            error,
            request_id,
            sequence: self.next_feedback_sequence,
        };
        let i = slot.index();
        self.action_feedback.set(i, Some(feedback));
        proof {
            let fb = self.action_feedback@;
            let before = old(self).action_feedback@;
            assert forall|a: int, b: int|
                0 <= a < fb.len() && 0 <= b < fb.len() && a != b && #[trigger] fb[a] is Some
                    && #[trigger] fb[b] is Some implies fb[a]->0.sequence != fb[b]->0.sequence by {
                if a == i {
                    assert(before[b] is Some);
                } else if b == i {
                    assert(before[a] is Some);
                } else {
                    assert(before[a] is Some && before[b] is Some);
                }
            }
            assert forall|a: int| 0 <= a < fb.len() implies (#[trigger] fb[a] matches Some(f)
                ==> f.slot.slot_index() == a && f.sequence <= self.next_feedback_sequence) by {
                if a != i {
                    assert(fb[a] == before[a]);
                }
            }
        }
    }
}

impl Default for AppModel {
    fn default() -> (m: AppModel)
        ensures
            m.wf(),
            m.lang == Lang::Zh,
            m.theme_preference == ThemePreference::System,
            m.current_tab == Tab::Provision,
            m.device_name@ == "Yundrone_UAV"@,
            m.connected_device_name is None,
            m@.logs == seq!["[SYS] Init GUI engine..."@],
            !m.is_scanning && !m.is_connecting && !m.is_connected,
            m.active_action is None,
            forall|i: int| 0 <= i < m.action_feedback@.len() ==> #[trigger] m.action_feedback@[i]
                is None,
            !m.heartbeat_ok,
            m.heartbeat_failures == 0,
            m.last_heartbeat_at is None,
            m.scan_candidates@.len() == 0,
            m.ssid_input@.len() == 0,
            m.pwd_input@.len() == 0,
            m.wifi_list@.len() == 0,
            m.diagnostic_result is None,
            m.provision_result is None,
            m.command_input@.len() == 0,
            m.next_feedback_sequence == 0,
    {
        let mut feedback: Vec<Option<ActionFeedback>> = Vec::new();
        let mut i: usize = 0;
        while i < ACTION_SLOT_COUNT
            invariant
                i <= ACTION_SLOT_COUNT,
                feedback@.len() == i,
                forall|k: int| 0 <= k < i ==> #[trigger] feedback@[k] is None,
            decreases ACTION_SLOT_COUNT - i,
        {
            feedback.push(None);
            i = i + 1;
        }
        let mut logs: Vec<String> = Vec::new();
        logs.push(text("[SYS] Init GUI engine..."));
        let m = AppModel {
            lang: Lang::Zh,
            theme_preference: ThemePreference::System,
            current_tab: Tab::Provision,
            device_name: text("Yundrone_UAV"),
            connected_device_name: None,
            logs,
            is_scanning: false,
            is_connecting: false,
            is_connected: false,
            active_action: None,
            action_feedback: feedback,
            heartbeat_ok: false,
            heartbeat_failures: 0,
            last_heartbeat_at: None,
            scan_candidates: Vec::new(),
            ssid_input: String::new(),
            pwd_input: String::new(),
            wifi_list: Vec::new(),
            diagnostic_result: None,
            provision_result: None,
            command_input: String::new(),
            next_feedback_sequence: 0,
        };
        assert(m@.logs =~= seq!["[SYS] Init GUI engine..."@]);
        m
    }
}

/// The label of a scan candidate in the device list.
pub fn format_scan_candidate_label(candidate: &ScanCandidateInfo) -> (r: String)
    ensures
        r@ == candidate_label(*candidate),
{
    candidate_label_text(candidate)
}

/// The text of the connection badge, plain ASCII so that every font renders it.
pub fn header_badge_text() -> (r: &'static str)
    ensures
        r@ == "BLE"@,
{
    "BLE"
}

/// The log lines joined by single newlines.
pub fn export_logs(logs: &[String]) -> (r: String)
    ensures
        r@ == joined(string_views(logs@), "\n"@),
{
    join_texts(logs, "\n")
}

pub fn clear_logs(model: &mut AppModel)
    ensures
        final(model)@ == (ModelView { logs: Seq::empty(), ..old(model)@ }),
{
    model.logs.clear();
    assert(final(model)@.logs =~= Seq::<Seq<char>>::empty());
}

/// `slots` has a recorded feedback whose sequence number is `seq`.
pub open spec fn feedback_in(m: ModelView, slots: Seq<ActionSlot>, f: ActionFeedback) -> bool {
    exists|k: int| 0 <= k < slots.len() && m.feedback[#[trigger] slots[k].slot_index()] == Some(f)
}

/// The most recent feedback among `slots`, if any of them has one.
pub fn latest_feedback_for_slots<'a>(model: &'a AppModel, slots: &[ActionSlot]) -> (r: Option<
    &'a ActionFeedback,
>)
    requires
        model.wf(),
    ensures
        r is None <==> forall|k: int| 0 <= k < slots@.len() ==> model@.feedback[#[trigger] slots@[k].slot_index()] is None,
        r matches Some(f) ==> feedback_in(model@, slots@, *f) && forall|k: int|
            0 <= k < slots@.len() ==> (#[trigger] model@.feedback[slots@[k].slot_index()] matches Some(g)
                ==> g.sequence <= f.sequence),
{
    let mut best: Option<&ActionFeedback> = None;
    let mut k: usize = 0;
    while k < slots.len()
        invariant
            model.wf(),
            k <= slots@.len(),
            best is None <==> forall|j: int| 0 <= j < k ==> model@.feedback[#[trigger] slots@[j].slot_index()] is None,
            best matches Some(f) ==> (exists|j: int| 0 <= j < k && model@.feedback[#[trigger] slots@[j].slot_index()] == Some(*f)) && forall|j: int|
                0 <= j < k ==> (#[trigger] model@.feedback[slots@[j].slot_index()] matches Some(g)
                    ==> g.sequence <= f.sequence),
        decreases slots@.len() - k,
    {
        let i = slots[k].index();
        match model.action_feedback[i].as_ref() {
            Some(f) => {
                let replace = match best {
                    Some(b) => b.sequence <= f.sequence,
                    None => true,
                };
                if replace {
                    best = Some(f);
                }
            },
            None => {},
        }
        k = k + 1;
    }
    best
}

} // verus!
