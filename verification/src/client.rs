//! The host's side of a conversation with a plugin: what to do about what the plugin sends, and about
//! its silence.
use vstd::prelude::*;

use crate::excerpt::{fitting_head, head_fitting};
use crate::digest::utf8;
use crate::framing::{debug_form, debug_text, FrameError};
use crate::protocol::{plugin_error, plugin_error_text, Inbound, Notification, Payload, Response};
use crate::strmap::StrMap;
use crate::text::{cat, cat5, cat6, cat7, copy, decimal, number, same};
use crate::wire::{Capabilities, LogParams, Manifest, ManifestDiagnosticHookModel};

verus! {

/// The version of the protocol that the host speaks.
pub const PROTOCOL_VERSION: u32 = 1;

/// How long a plugin may take to go after each step of a shutdown, in milliseconds.
pub const SHUTDOWN_GRACE_MS: u64 = 2000;

/// How long a query may take, in seconds.
pub const DEFAULT_QUERY_TIMEOUT_SECS: u64 = 30;

/// How long an install may take, in seconds.
pub const DEFAULT_INSTALL_TIMEOUT_SECS: u64 = 1800;

/// Receives the log entries that a plugin sends while a call waits.
pub trait Notifier {
    fn on_log(&mut self, params: &LogParams);
}

/// Discards log entries.
pub struct NoopNotifier;

impl Notifier for NoopNotifier {
    fn on_log(&mut self, params: &LogParams)
        ensures
            *final(self) == *old(self),
    {
    }
}

/// What the reader of a plugin's messages reports.
#[derive(Debug)]
pub enum ReaderMessage {
    Inbound(Inbound),
    /// There are no more messages; why, where the stream did not just end.
    Closed(Option<FrameError>),
}

/// What the reader reports of the next message. `None` in place of a message means that its body
/// could not be understood.
pub fn reader_message(next: Result<Option<Inbound>, FrameError>) -> (r: ReaderMessage)
    ensures
        match next {
            Ok(Some(m)) => r == ReaderMessage::Inbound(m),
            Ok(None) => r == ReaderMessage::Closed(None),
            Err(FrameError::UnexpectedEof { .. }) => r == ReaderMessage::Closed(None),
            Err(e) => r == ReaderMessage::Closed(Some(e)),
        },
{
    match next {
        Ok(Some(m)) => ReaderMessage::Inbound(m),
        Ok(None) => ReaderMessage::Closed(None),
        Err(FrameError::UnexpectedEof { .. }) => ReaderMessage::Closed(None),
        Err(e) => ReaderMessage::Closed(Some(e)),
    }
}

/// A body for a log line: at most 120 bytes of it.
pub fn preview(body: &str) -> (r: String)
    ensures
        r@ == (if utf8(body@).len() <= 120 {
            body@
        } else {
            fitting_head(body@, 120) + "…"@
        }),
{
    let mut bytes: Vec<u8> = Vec::new();
    crate::digest::push_text(&mut bytes, body);
    if bytes.len() <= 120 {
        copy(body)
    } else {
        let h = head_fitting(body, 120);
        cat(h.as_str(), "…")
    }
}

/// A request that waits for its reply.
#[derive(Debug)]
pub struct PendingCall {
    /// The plugin's adapter, as far as it is known.
    pub adapter_id: String,
    pub id: u64,
    pub method: String,
    /// How long the call may take, in words.
    pub timeout: String,
}

/// What happened while a call waited.
#[derive(Debug)]
pub enum CallEvent {
    Received(ReaderMessage),
    TimedOut,
    /// The reader is gone.
    Disconnected,
}

/// What to do next in a call.
#[derive(Debug)]
pub enum CallAction {
    /// Go on waiting.
    Wait,
    /// Hand a log entry to the notifier, and go on waiting.
    Log(LogParams),
    /// Warn of a log entry that makes no sense, and go on waiting.
    WarnMalformedLog(String),
    /// The call succeeded: return what the reply holds.
    Succeed,
    /// The call failed; whether to kill the plugin first, and what to say.
    Fail { kill: bool, message: String },
}

/// What is said where no reply came in time.
pub open spec fn timed_out_text(c: PendingCall) -> Seq<char> {
    "plugin "@ + c.adapter_id@ + " timed out after "@ + c.timeout@ + " waiting for response to "@ + debug_form(
        c.method@,
    )
}

/// What is said where the plugin's output ended.
pub open spec fn closed_text(c: PendingCall, error: Option<FrameError>) -> Seq<char> {
    "plugin "@ + c.adapter_id@ + " stdout closed before responding to "@ + debug_form(c.method@) + (match error {
        Some(e) => ": "@ + e.deep_view().text(),
        None => ""@,
    })
}

/// What an action does: log a given entry, warn, succeed, or fail in a given way.
pub open spec fn acts(c: PendingCall, event: CallEvent, action: CallAction) -> bool {
    match event {
        CallEvent::TimedOut => {
            action matches CallAction::Fail { kill, message } && kill && message@ == timed_out_text(c)
        },
        CallEvent::Disconnected => {
            action matches CallAction::Fail { kill, message } && !kill && message@ == "plugin "@ + c.adapter_id@
                + " reader channel disconnected mid-call ("@ + debug_form(c.method@) + ")"@
        },
        CallEvent::Received(ReaderMessage::Closed(error)) => {
            action matches CallAction::Fail { kill, message } && !kill && message@ == closed_text(c, error)
        },
        CallEvent::Received(ReaderMessage::Inbound(Inbound::Notification(n))) => if n.method@
            != "notifications/log"@ {
            action is Wait
        } else {
            match n.payload {
                Payload::Absent => action is Wait,
                Payload::Log(p) => action == CallAction::Log(p),
                Payload::Other(e) => action == CallAction::WarnMalformedLog(e),
            }
        },
        CallEvent::Received(ReaderMessage::Inbound(Inbound::Response(r))) => if r.id != c.id {
            action matches CallAction::Fail { kill, message } && kill && message@ == "plugin "@ + c.adapter_id@
                + " sent response for id="@ + decimal(r.id as nat) + " while waiting on id="@ + decimal(
                c.id as nat,
            )
        } else {
            match r.error {
                Some(e) => {
                    action matches CallAction::Fail { kill, message } && !kill && message@ == plugin_error_text(
                        c.adapter_id@,
                        c.method@,
                        e,
                    )
                },
                None => action is Succeed,
            }
        },
    }
}

/// What to do about what happened while a call waited.
pub fn next_action(c: &PendingCall, event: CallEvent) -> (r: CallAction)
    ensures
        acts(*c, event, r),
{
    match event {
        CallEvent::TimedOut => {
            let m = debug_text(c.method.as_str());
            CallAction::Fail {
                kill: true,
                message: cat6(
                    "plugin ",
                    c.adapter_id.as_str(),
                    " timed out after ",
                    c.timeout.as_str(),
                    " waiting for response to ",
                    m.as_str(),
                ),
            }
        },
        CallEvent::Disconnected => {
            let m = debug_text(c.method.as_str());
            CallAction::Fail {
                kill: false,
                message: cat5(
                    "plugin ",
                    c.adapter_id.as_str(),
                    " reader channel disconnected mid-call (",
                    m.as_str(),
                    ")",
                ),
            }
        },
        CallEvent::Received(ReaderMessage::Closed(error)) => {
            let m = debug_text(c.method.as_str());
            let detail = match error {
                Some(e) => {
                    let t = e.message();
                    cat(": ", t.as_str())
                },
                None => copy(""),
            };
            CallAction::Fail {
                kill: false,
                message: cat5(
                    "plugin ",
                    c.adapter_id.as_str(),
                    " stdout closed before responding to ",
                    m.as_str(),
                    detail.as_str(),
                ),
            }
        },
        CallEvent::Received(ReaderMessage::Inbound(Inbound::Notification(n))) => {
            if !same(n.method.as_str(), "notifications/log") {
                return CallAction::Wait;
            }
            match n.payload {
                Payload::Absent => CallAction::Wait,
                Payload::Log(p) => CallAction::Log(p),
                Payload::Other(e) => CallAction::WarnMalformedLog(e),
            }
        },
        CallEvent::Received(ReaderMessage::Inbound(Inbound::Response(r))) => {
            if r.id != c.id {
                let got = number(r.id);
                let want = number(c.id);
                return CallAction::Fail {
                    kill: true,
                    message: cat6(
                        "plugin ",
                        c.adapter_id.as_str(),
                        " sent response for id=",
                        got.as_str(),
                        " while waiting on id=",
                        want.as_str(),
                    ),
                };
            }
            match r.error {
                Some(e) => CallAction::Fail {
                    kill: false,
                    message: plugin_error(c.adapter_id.as_str(), c.method.as_str(), &e),
                },
                None => CallAction::Succeed,
            }
        },
    }
}

/// Why a plugin is refused: it speaks another version, or is not the one that was asked for.
pub open spec fn refusal(program: Seq<char>, expected_id: Seq<char>, m: Manifest) -> Option<Seq<char>> {
    if m.protocol_version != PROTOCOL_VERSION {
        Some(
            "plugin "@ + program + " announced protocol_version="@ + decimal(m.protocol_version as nat)
                + ", host speaks "@ + decimal(PROTOCOL_VERSION as nat) + " — refusing to load"@,
        )
    } else if m.adapter_id@ != expected_id {
        Some(
            "plugin binary "@ + program + " announced adapter_id="@ + debug_form(m.adapter_id@)
                + " but its PATH name expects "@ + debug_form(expected_id) + " — refusing to load"@,
        )
    } else {
        None
    }
}

/// Why a plugin is refused; `None` where it is accepted.
pub fn check_manifest(program: &str, expected_id: &str, m: &Manifest) -> (r: Option<String>)
    ensures
        r.deep_view() == refusal(program@, expected_id@, *m),
{
    if m.protocol_version != PROTOCOL_VERSION {
        let theirs = number(m.protocol_version as u64);
        let ours = number(PROTOCOL_VERSION as u64);
        return Some(
            cat7(
                "plugin ",
                program,
                " announced protocol_version=",
                theirs.as_str(),
                ", host speaks ",
                ours.as_str(),
                " — refusing to load",
            ),
        );
    }
    if !same(m.adapter_id.as_str(), expected_id) {
        let theirs = debug_text(m.adapter_id.as_str());
        let ours = debug_text(expected_id);
        return Some(
            cat7(
                "plugin binary ",
                program,
                " announced adapter_id=",
                theirs.as_str(),
                " but its PATH name expects ",
                ours.as_str(),
                " — refusing to load",
            ),
        );
    }
    None
}

/// What a host knows of a plugin before the handshake: nothing.
pub fn placeholder_manifest() -> (r: Manifest)
    ensures
        r.protocol_version == 0,
        r.adapter_id@.len() == 0,
        r.display_name@.len() == 0,
        r.fingerprint_files@.len() == 0,
        r.default_tasks@.len() == 0,
        r.capabilities == (Capabilities {
            detect: true,
            required_toolchain: true,
            resolved_toolchain_fingerprint: false,
            install: true,
        }),
        r.diagnostic_hooks@ == Map::<Seq<char>, ManifestDiagnosticHookModel>::empty(),
{
    proof {
        reveal_strlit("");
    }
    Manifest {
        protocol_version: 0,
        adapter_id: copy(""),
        display_name: copy(""),
        fingerprint_files: Vec::new(),
        default_tasks: Vec::new(),
        capabilities: Capabilities::default(),
        diagnostic_hooks: StrMap::new(),
    }
}

/// Whether a child process still runs.
#[derive(Debug, Clone, Copy, PartialEq, Eq, Structural)]
pub enum ChildState {
    Exited,
    Running,
    /// It could not be found out.
    Unknown,
}

/// What to do while waiting for a child process.
#[derive(Debug, Clone, Copy, PartialEq, Eq, Structural)]
pub enum WaitStep {
    Exited,
    GiveUp,
    /// Sleep, then look again; both in milliseconds.
    Sleep { for_ms: u64, next_backoff_ms: u64 },
}

/// How long the first sleep may be, in milliseconds.
pub const FIRST_BACKOFF_MS: u64 = 10;

/// What to do while waiting for a child process: look again after sleeps that double up to 100
/// milliseconds and never pass the deadline.
pub fn wait_step(state: ChildState, left_ms: u64, backoff_ms: u64) -> (r: WaitStep)
    ensures
        r == waited(state, left_ms, backoff_ms),
{
    match state {
        ChildState::Exited => WaitStep::Exited,
        ChildState::Unknown => WaitStep::GiveUp,
        ChildState::Running => if left_ms == 0 {
            WaitStep::GiveUp
        } else {
            WaitStep::Sleep {
                for_ms: if backoff_ms < left_ms {
                    backoff_ms
                } else {
                    left_ms
                },
                next_backoff_ms: if backoff_ms < 50 {
                    2 * backoff_ms
                } else {
                    100
                },
            }
        },
    }
}

/// How far a shutdown has come.
#[derive(Debug, Clone, Copy, PartialEq, Eq, Structural)]
pub enum ShutdownStage {
    /// The plugin was asked to go.
    Asked,
    /// It was sent a termination signal.
    Terminated,
}

/// What to do next in a shutdown.
#[derive(Debug, Clone, Copy, PartialEq, Eq, Structural)]
pub enum ShutdownAction {
    /// The plugin is gone.
    Done,
    /// Send a termination signal, and wait again.
    Terminate,
    /// Kill it.
    Kill,
}

/// What to do next in a shutdown, once the time to wait is over: nothing where the plugin is gone, or
/// else the next harsher thing.
pub fn escalate(stage: ShutdownStage, exited: bool) -> (r: ShutdownAction)
    ensures
        r == escalated(stage, exited),
{
    if exited {
        ShutdownAction::Done
    } else {
        match stage {
            ShutdownStage::Asked => ShutdownAction::Terminate,
            ShutdownStage::Terminated => ShutdownAction::Kill,
        }
    }
}

/// A call succeeds only on a reply to its own request that is no error.
pub proof fn law_success_needs_the_own_reply(c: PendingCall, event: CallEvent, action: CallAction)
    requires
        acts(c, event, action),
        action is Succeed,
    ensures
        event matches CallEvent::Received(ReaderMessage::Inbound(Inbound::Response(r))) && r.id == c.id
            && r.error is None,
{
}

/// Notifications never end a call.
pub proof fn law_notifications_do_not_end_a_call(c: PendingCall, n: Notification, action: CallAction)
    requires
        acts(c, CallEvent::Received(ReaderMessage::Inbound(Inbound::Notification(n))), action),
    ensures
        !(action is Succeed),
        !(action is Fail),
{
}

/// A reply to the own request ends a call: it succeeds where the reply is no error, and fails, with the
/// plugin left running, where it is one.
pub proof fn law_the_own_reply_ends_a_call(c: PendingCall, event: CallEvent, action: CallAction)
    requires
        acts(c, event, action),
    ensures
        event matches CallEvent::Received(ReaderMessage::Inbound(Inbound::Response(r))) ==> {
            &&& r.id == c.id && r.error is None ==> action is Succeed
            &&& r.id == c.id && r.error is Some ==> (action matches CallAction::Fail { kill, .. } && !kill)
            &&& r.id != c.id ==> (action matches CallAction::Fail { kill, .. } && kill)
        },
        event is TimedOut ==> (action matches CallAction::Fail { kill, .. } && kill),
        event is Disconnected ==> (action matches CallAction::Fail { kill, .. } && !kill),
        event matches CallEvent::Received(ReaderMessage::Closed(_)) ==> (action matches CallAction::Fail { kill, .. }
            && !kill),
{
}

/// A log entry reaches the notifier, and one that makes no sense is warned of; other notifications are
/// passed over.
pub proof fn law_log_entries_are_handed_on(c: PendingCall, n: Notification, action: CallAction)
    requires
        acts(c, CallEvent::Received(ReaderMessage::Inbound(Inbound::Notification(n))), action),
    ensures
        n.method@ == "notifications/log"@ ==> {
            &&& n.payload matches Payload::Log(p) ==> action == CallAction::Log(p)
            &&& n.payload is Other ==> action is WarnMalformedLog
            &&& n.payload is Absent ==> action is Wait
        },
        n.method@ != "notifications/log"@ ==> action is Wait,
{
}

/// A plugin is accepted if and only if it speaks the host's version and is the one that was asked for.
pub proof fn law_which_plugins_are_accepted(program: Seq<char>, expected_id: Seq<char>, m: Manifest)
    ensures
        refusal(program, expected_id, m) is None <==> m.protocol_version == PROTOCOL_VERSION && m.adapter_id@
            == expected_id,
{
}

/// What to do while waiting for a child process.
pub open spec fn waited(state: ChildState, left_ms: u64, backoff_ms: u64) -> WaitStep {
    match state {
        ChildState::Exited => WaitStep::Exited,
        ChildState::Unknown => WaitStep::GiveUp,
        ChildState::Running => if left_ms == 0 {
            WaitStep::GiveUp
        } else {
            WaitStep::Sleep {
                for_ms: if backoff_ms < left_ms {
                    backoff_ms
                } else {
                    left_ms
                },
                next_backoff_ms: if 2 * backoff_ms < 100 {
                    (2 * backoff_ms) as u64
                } else {
                    100
                },
            }
        },
    }
}

/// A wait ends once the child is gone, or the time is over, or nothing can be found out; until then no sleep
/// passes the deadline, and each may be twice as long as the one before it, up to a bound.
pub proof fn law_waits_end(state: ChildState, left_ms: u64, backoff_ms: u64)
    ensures
        waited(state, left_ms, backoff_ms) == WaitStep::Exited <==> state == ChildState::Exited,
        waited(state, left_ms, backoff_ms) == WaitStep::GiveUp <==> state == ChildState::Unknown || (state
            == ChildState::Running && left_ms == 0),
        waited(state, left_ms, backoff_ms) matches WaitStep::Sleep { for_ms, next_backoff_ms } ==> {
            &&& for_ms <= left_ms && for_ms <= backoff_ms
            &&& for_ms == left_ms || for_ms == backoff_ms
            &&& next_backoff_ms <= 100
            &&& next_backoff_ms == 100 || next_backoff_ms == 2 * backoff_ms
            &&& backoff_ms <= 50 ==> next_backoff_ms == 2 * backoff_ms
        },
{
}

/// What to do next in a shutdown.
pub open spec fn escalated(stage: ShutdownStage, exited: bool) -> ShutdownAction {
    if exited {
        ShutdownAction::Done
    } else {
        match stage {
            ShutdownStage::Asked => ShutdownAction::Terminate,
            ShutdownStage::Terminated => ShutdownAction::Kill,
        }
    }
}

/// A plugin that is gone is left alone; one that stays is terminated before it is killed.
pub proof fn law_shutdowns_escalate(stage: ShutdownStage, exited: bool)
    ensures
        escalated(stage, exited) == ShutdownAction::Done <==> exited,
        !exited && stage == ShutdownStage::Asked ==> escalated(stage, exited) == ShutdownAction::Terminate,
        !exited && stage == ShutdownStage::Terminated ==> escalated(stage, exited) == ShutdownAction::Kill,
{
}

} // verus!
