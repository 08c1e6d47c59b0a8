use monad::client::{
    check_manifest, escalate, next_action, placeholder_manifest, preview, reader_message, wait_step,
    CallAction, CallEvent, ChildState, NoopNotifier, Notifier, PendingCall, ReaderMessage,
    ShutdownAction, ShutdownStage, WaitStep, FIRST_BACKOFF_MS, PROTOCOL_VERSION,
};
use monad::framing::FrameError;
use monad::protocol::{plugin_error, ErrorCode, Inbound, Notification, Payload, Response, RpcError};
use monad::strmap::StrMap;
use monad::wire::{Capabilities, LogLevel, LogParams, LogStream, Manifest};

#[test]
fn error_code_roundtrip() {
    for code in [
        ErrorCode::ParseError,
        ErrorCode::InvalidRequest,
        ErrorCode::MethodNotFound,
        ErrorCode::InstallFailed,
        ErrorCode::PluginInternal,
    ] {
        assert_eq!(ErrorCode::from_i32(code.to_i32()), Some(code));
    }
    assert_eq!(ErrorCode::from_i32(9999), None);
}

#[test]
fn error_codes_have_their_numbers() {
    assert_eq!(ErrorCode::ParseError.to_i32(), -32700);
    assert_eq!(ErrorCode::InvalidRequest.to_i32(), -32600);
    assert_eq!(ErrorCode::MethodNotFound.to_i32(), -32601);
    assert_eq!(ErrorCode::InvalidParams.to_i32(), -32602);
    assert_eq!(ErrorCode::InternalError.to_i32(), -32603);
    assert_eq!(ErrorCode::InstallFailed.to_i32(), 2001);
    assert_eq!(ErrorCode::ToolchainUnparseable.to_i32(), 2002);
    assert_eq!(ErrorCode::PluginIo.to_i32(), 2003);
    assert_eq!(ErrorCode::PluginInternal.to_i32(), 2099);
}

fn manifest(version: u32, id: &str) -> Manifest {
    Manifest {
        protocol_version: version,
        adapter_id: id.into(),
        display_name: "fixture".into(),
        fingerprint_files: vec!["fixture.toml".into()],
        default_tasks: vec![],
        capabilities: Capabilities::default(),
        diagnostic_hooks: StrMap::new(),
    }
}

#[test]
fn handshake_succeeds_with_ok_fixture() {
    let m = manifest(PROTOCOL_VERSION, "fixture");
    assert_eq!(check_manifest("monad-plugin-fixture", "fixture", &m), None);
}

#[test]
fn wrong_protocol_version_is_rejected() {
    let msg = check_manifest("monad-plugin-fixture", "fixture", &manifest(99, "fixture")).unwrap();
    assert!(msg.contains("protocol_version"), "expected version error, got: {msg}");
    assert_eq!(
        msg,
        "plugin monad-plugin-fixture announced protocol_version=99, host speaks 1 — refusing to load"
    );
}

#[test]
fn wrong_adapter_id_is_rejected() {
    let msg = check_manifest("monad-plugin-fixture", "fixture", &manifest(1, "not-fixture")).unwrap();
    assert!(msg.contains("adapter_id"), "expected id error, got: {msg}");
    assert_eq!(
        msg,
        "plugin binary monad-plugin-fixture announced adapter_id=\"not-fixture\" but its PATH name expects \"fixture\" — refusing to load"
    );
}

fn call(method: &str) -> PendingCall {
    PendingCall {
        adapter_id: "fixture".into(),
        id: 2,
        method: method.into(),
        timeout: "150ms".into(),
    }
}

fn response(id: u64, error: Option<RpcError>) -> CallEvent {
    CallEvent::Received(ReaderMessage::Inbound(Inbound::Response(Response { id, error })))
}

fn failure(action: CallAction) -> (bool, String) {
    match action {
        CallAction::Fail { kill, message } => (kill, message),
        other => panic!("expected a failure, got {other:?}"),
    }
}

#[test]
fn timeout_kills_child() {
    let (kill, message) = failure(next_action(&call("hang"), CallEvent::TimedOut));
    assert!(kill);
    assert!(message.contains("timed out"));
    assert_eq!(
        message,
        "plugin fixture timed out after 150ms waiting for response to \"hang\""
    );
}

#[test]
fn child_crash_mid_call_is_clear_error() {
    let c = call("trigger-crash");
    let closed = reader_message(Err(FrameError::UnexpectedEof { while_doing: "headers" }));
    let (kill, message) = failure(next_action(&c, CallEvent::Received(closed)));
    assert!(!kill);
    assert!(message.contains("stdout closed"));
    assert_eq!(
        message,
        "plugin fixture stdout closed before responding to \"trigger-crash\""
    );
    let (kill, message) = failure(next_action(&c, CallEvent::Disconnected));
    assert!(!kill);
    assert!(message.contains("disconnected"));
}

fn log(method: &str, payload: Payload) -> CallEvent {
    CallEvent::Received(ReaderMessage::Inbound(Inbound::Notification(Notification {
        method: method.into(),
        payload,
    })))
}

fn entry(level: LogLevel, stream: Option<LogStream>, message: &str) -> LogParams {
    LogParams { level, stream, message: message.into() }
}

struct Capturing(Vec<(LogLevel, Option<LogStream>, String)>);

impl Notifier for Capturing {
    fn on_log(&mut self, params: &LogParams) {
        self.0.push((params.level, params.stream, params.message.clone()));
    }
}

#[test]
fn notifications_drain_to_notifier_inline() {
    let c = call("emit-and-return");
    let mut captured = Capturing(vec![]);
    let mut done = false;
    for event in [
        log("notifications/log", Payload::Log(entry(LogLevel::Info, Some(LogStream::Stdout), "first"))),
        log("notifications/log", Payload::Log(entry(LogLevel::Warn, None, "second"))),
        response(2, None),
    ] {
        match next_action(&c, event) {
            CallAction::Log(p) => captured.on_log(&p),
            CallAction::Succeed => done = true,
            other => panic!("{other:?}"),
        }
    }
    assert!(done);
    assert_eq!(captured.0.len(), 2);
    assert_eq!(captured.0[0].0, LogLevel::Info);
    assert_eq!(captured.0[0].1, Some(LogStream::Stdout));
    assert_eq!(captured.0[1].0, LogLevel::Warn);
}

#[test]
fn other_notifications_are_passed_over() {
    let c = call("m");
    for event in [
        log("notifications/progress", Payload::Log(entry(LogLevel::Info, None, "x"))),
        log("notifications/log", Payload::Absent),
    ] {
        assert!(matches!(next_action(&c, event), CallAction::Wait));
    }
    match next_action(&c, log("notifications/log", Payload::Other("missing field".into()))) {
        CallAction::WarnMalformedLog(e) => assert_eq!(e, "missing field"),
        other => panic!("{other:?}"),
    }
}

#[test]
fn a_reply_to_another_request_ends_the_plugin() {
    let (kill, message) = failure(next_action(&call("m"), response(7, None)));
    assert!(kill);
    assert_eq!(message, "plugin fixture sent response for id=7 while waiting on id=2");
}

#[test]
fn error_replies_fail_the_call() {
    let err = RpcError { code: 2001, message: "boom".into() };
    assert_eq!(err.text(), "rpc error 2001: boom");
    let want = plugin_error("fixture", "install", &err);
    assert_eq!(want, "plugin fixture returned error for install: code=2001 msg=\"boom\"");
    let (kill, message) = failure(next_action(&call("install"), response(2, Some(err))));
    assert!(!kill);
    assert_eq!(message, want);
}

#[test]
fn broken_streams_say_why() {
    let closed = reader_message(Err(FrameError::MissingContentLength));
    let (_, message) = failure(next_action(&call("m"), CallEvent::Received(closed)));
    assert_eq!(
        message,
        "plugin fixture stdout closed before responding to \"m\": missing Content-Length header"
    );
    assert!(matches!(reader_message(Ok(None)), ReaderMessage::Closed(None)));
    let inbound = Inbound::Response(Response { id: 1, error: None });
    assert!(matches!(reader_message(Ok(Some(inbound))), ReaderMessage::Inbound(_)));
}

#[test]
fn previews_are_short() {
    assert_eq!(preview("short"), "short");
    let long = "x".repeat(121);
    assert_eq!(preview(&long), format!("{}…", "x".repeat(120)));
    let wide = "é".repeat(61);
    assert_eq!(preview(&wide), format!("{}…", "é".repeat(60)));
}

#[test]
fn nothing_is_known_before_the_handshake() {
    let m = placeholder_manifest();
    assert_eq!(m.protocol_version, 0);
    assert_eq!(m.adapter_id, "");
    assert!(m.capabilities.detect);
    assert!(m.capabilities.install);
    assert!(!m.capabilities.resolved_toolchain_fingerprint);
    let mut quiet = NoopNotifier;
    quiet.on_log(&entry(LogLevel::Error, Some(LogStream::Stderr), "x"));
}

#[test]
fn waiting_backs_off_up_to_the_deadline() {
    assert_eq!(wait_step(ChildState::Exited, 0, 10), WaitStep::Exited);
    assert_eq!(wait_step(ChildState::Unknown, 50, 10), WaitStep::GiveUp);
    assert_eq!(wait_step(ChildState::Running, 0, 10), WaitStep::GiveUp);
    let mut left = 2000;
    let mut backoff = FIRST_BACKOFF_MS;
    let mut slept = vec![];
    while let WaitStep::Sleep { for_ms, next_backoff_ms } = wait_step(ChildState::Running, left, backoff) {
        slept.push(for_ms);
        left -= for_ms;
        backoff = next_backoff_ms;
    }
    assert_eq!(&slept[..6], &[10, 20, 40, 80, 100, 100]);
    assert_eq!(slept.iter().sum::<u64>(), 2000);
}

#[test]
fn shutdowns_escalate() {
    assert_eq!(escalate(ShutdownStage::Asked, true), ShutdownAction::Done);
    assert_eq!(escalate(ShutdownStage::Asked, false), ShutdownAction::Terminate);
    assert_eq!(escalate(ShutdownStage::Terminated, true), ShutdownAction::Done);
    assert_eq!(escalate(ShutdownStage::Terminated, false), ShutdownAction::Kill);
}
