use monitorhop::addr::{IpAddr, SocketAddr};
use monitorhop::emulation::{ClipboardEmulation, ClipboardError};
use monitorhop::frontend::{
    bundle_environment, bundle_paths, exit_result, is_gtk_theme_parser_warning, local_commit_str,
    start, system_calls, window_calls, DaemonLink, FrontendEvent, GtkError, IpcMsg, LinkStep,
    LogField, QuitBackstop, Start, SystemChange, WindowCall, RECONNECT_ATTEMPTS, RECONNECT_PAUSE,
};
use monitorhop::client::{ClientConfig, ClientState};
use monitorhop::single_instance::AcquireError;

fn addr() -> SocketAddr {
    SocketAddr::new(IpAddr::V4(0x0a00_0001), 4252)
}

fn toast(event: FrontendEvent) -> String {
    let mut calls = window_calls(event);
    assert_eq!(calls.len(), 1);
    match calls.remove(0) {
        WindowCall::ShowToast(text) => text,
        _ => panic!("a text is shown"),
    }
}

#[test]
fn device_events_are_shown() {
    let fingerprint = || "fp".to_string();
    assert_eq!(
        toast(FrontendEvent::DeviceConnected { fingerprint: fingerprint(), addr: addr() }),
        "device connected: 10.0.0.1:4252"
    );
    assert_eq!(
        toast(FrontendEvent::DeviceEntered {
            fingerprint: fingerprint(),
            addr: addr(),
            pos: "left".into()
        }),
        "device entered: 10.0.0.1:4252 (left)"
    );
    assert_eq!(
        toast(FrontendEvent::IncomingDisconnected(addr())),
        "10.0.0.1:4252 disconnected"
    );
    assert_eq!(toast(FrontendEvent::Error("oops".into())), "oops");
}

#[test]
fn a_state_event_updates_both_parts() {
    let calls = window_calls(FrontendEvent::State(
        3,
        ClientConfig::default(),
        ClientState::default(),
    ));
    assert_eq!(calls.len(), 2);
    assert!(matches!(calls[0], WindowCall::UpdateClientConfig(3, _)));
    assert!(matches!(calls[1], WindowCall::UpdateClientState(3, _)));
    assert!(window_calls(FrontendEvent::NoSuchClient(3)).is_empty());
    let calls = window_calls(FrontendEvent::PortChanged(5000, None));
    assert!(matches!(calls[0], WindowCall::UpdatePort(5000, None)));
}

#[test]
fn a_lost_daemon_is_looked_for() {
    let mut link = DaemonLink::new();
    assert!(matches!(
        link.received(Some(IpcMsg::Event(FrontendEvent::Deleted(1)))),
        LinkStep::Show(FrontendEvent::Deleted(1))
    ));
    assert!(matches!(
        link.received(Some(IpcMsg::Disconnected)),
        LinkStep::TryAfter(RECONNECT_PAUSE)
    ));
    for _ in 1..RECONNECT_ATTEMPTS {
        assert!(matches!(link.looked(false), LinkStep::TryAfter(RECONNECT_PAUSE)));
    }
    assert!(matches!(link.looked(false), LinkStep::Exit));
    link.received(Some(IpcMsg::Disconnected));
    assert!(matches!(link.looked(true), LinkStep::Resume));
    assert!(link.looks_left.is_none());
    assert!(matches!(link.received(None), LinkStep::Exit));
}

#[test]
fn the_window_starts_unless_another_is_open() {
    assert_eq!(start(&Ok(())), Start::Run);
    assert_eq!(start(&Err(AcquireError::AlreadyRunning)), Start::Quit);
    assert_eq!(start(&Err(AcquireError::Bind("x".into()))), Start::RunWithoutLock);
    assert_eq!(exit_result(0), Ok(()));
    assert_eq!(exit_result(-2), Err(GtkError::NonZeroExitCode(-2)));
    assert_eq!(
        GtkError::NonZeroExitCode(-2).describe(),
        "gtk frontend exited with non zero exit code: -2"
    );
}

#[test]
fn an_unknown_commit_has_a_placeholder() {
    assert_eq!(local_commit_str(Some(*b"abcdef01")), "abcdef01");
    assert_eq!(local_commit_str(Some([0x80; 8])), "????????");
    assert_eq!(local_commit_str(None), "????????");
}

fn field(key: &str, value: Option<&str>) -> LogField {
    LogField { key: key.into(), value: value.map(|v| v.into()) }
}

#[test]
fn theme_warnings_are_recognised() {
    let message = "Theme parser warning: gtk.css:3: odd";
    let warning = vec![field("GLIB_DOMAIN", Some("Gtk")), field("MESSAGE", Some(message))];
    assert!(is_gtk_theme_parser_warning(&warning));
    let other = vec![field("GLIB_DOMAIN", Some("GLib")), field("MESSAGE", Some(message))];
    assert!(!is_gtk_theme_parser_warning(&other));
    let later = vec![
        field("GLIB_DOMAIN", Some("Gtk")),
        field("MESSAGE", Some(message)),
        field("MESSAGE", Some("other")),
    ];
    assert!(!is_gtk_theme_parser_warning(&later));
    assert!(!is_gtk_theme_parser_warning(&vec![field("GLIB_DOMAIN", None)]));
}

#[test]
fn a_bundle_points_to_its_resources() {
    let (share, schemas) = bundle_paths(b"/A.app/Contents");
    assert_eq!(share, b"/A.app/Contents/Resources/share".to_vec());
    assert_eq!(schemas, b"/A.app/Contents/Resources/share/glib-2.0/schemas".to_vec());
    assert!(bundle_environment(b"/A.app/Contents", false, true).is_none());
    let env = bundle_environment(b"/A.app/Contents", true, true).unwrap();
    assert_eq!(env.schemas, Some(schemas));
    assert_eq!(env.data, share);
    assert_eq!(env.prefix, "/A.app/Contents/Resources");
    let odd = bundle_environment(b"/\xff", true, true).unwrap();
    assert_eq!(odd.data, b"/\xff/Resources/share".to_vec());
    assert_eq!(odd.prefix, "/\u{fffd}/Resources");
    assert!(bundle_environment(b"/A", true, false).unwrap().schemas.is_none());
}

#[test]
fn changes_of_the_system_reach_the_window() {
    let shown = |macos: bool, hidden: bool| {
        let calls = system_calls(SystemChange::Started { macos, hidden });
        calls.iter().all(|call| matches!(call, WindowCall::Present)) && calls.len() == 1
    };
    assert!(shown(true, false) && shown(false, true) && shown(false, false));
    assert!(system_calls(SystemChange::Started { macos: true, hidden: true }).is_empty());
    let granted = system_calls(SystemChange::AccessibilityGranted);
    assert!(matches!(
        granted[..],
        [WindowCall::Present, WindowCall::RefreshStatus, WindowCall::ShowRelaunchRequired]
    ));
    let revoked = system_calls(SystemChange::AccessibilityRevoked);
    assert!(matches!(revoked[..], [WindowCall::Quit]));
}

#[test]
fn a_forced_exit_is_prepared_once() {
    let mut backstop = QuitBackstop::new();
    assert!(backstop.request());
    assert!(!backstop.request());
}

#[test]
fn the_clipboard_is_opened_when_it_is_needed() {
    let mut clipboard = ClipboardEmulation::new(false).unwrap();
    assert!(clipboard.must_open());
    match clipboard.opened(Err("no display".into())) {
        Err(e) => assert_eq!(e.describe(), "Failed to access clipboard: no display"),
        Ok(()) => panic!("no clipboard"),
    }
    assert!(clipboard.must_open());
    assert!(clipboard.opened(Ok(())).is_ok());
    assert!(!clipboard.must_open());
    match clipboard.set(Err("busy".into())) {
        Err(e) => assert_eq!(e.describe(), "Failed to set clipboard: busy"),
        Ok(()) => panic!("the clipboard is busy"),
    }
    assert!(clipboard.set(Ok(())).is_ok());
    assert_eq!(clipboard.get(Ok("text".into())).unwrap(), "text");
    assert!(matches!(clipboard.get(Err("x".into())), Err(ClipboardError::Access(_))));
    assert_eq!(
        ClipboardError::of_task("panicked").describe(),
        "Failed to access clipboard: Task join error: panicked"
    );
    assert!(!ClipboardEmulation::new(true).unwrap().must_open());
}
