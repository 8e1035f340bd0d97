use monitorhop::client::ConnectionMode;
use monitorhop::client_object::{AddrEntry, LatencyState};
use monitorhop::client_row::{
    address_menu, dns_button_class, parse_port, ClientRow, RowEvent, RowRequest,
};
use monitorhop::daemon::{
    teardown_step, ChildStatus, DaemonSupervisor, SupervisorAction, TeardownAction,
    MAX_BACKOFF_MS, MIN_BACKOFF_MS, POLL_MS, TEARDOWN_MS, TEARDOWN_POLL_MS,
};
use monitorhop::desktop_install::{
    desktop_entry, ensure_first_launch, install_paths, marker_paths, packaged_entry_paths,
    xdg_data_home, xdg_state_home, FirstLaunch, HomeError,
};
use monitorhop::firewall::{
    closing_lines, command_ended, command_line, failure_message, open_run, plan_for_host, run,
    shell_join, CommandOutcome, Host, RunStep,
};
use monitorhop::glyph_font::{cache_dir, font_paths, needs_write, omarchy_available};
use monitorhop::launch::{role, start_service, Role};
use monitorhop::network::IfaceKind;
use monitorhop::power::{power_action, PowerAction};
use monitorhop::release_shortcut::{
    bind_button, canonicalize_mods, capturing_markup, chord_markup, escape, split_chord,
    super_markup, trigger_label, CaptureEffect, DEFAULT_RELEASE_CHORD,
};
use monitorhop::scancode::{is_modifier, keyval_to_scancode, Linux};
use monitorhop::single_instance::{
    after_bind, before_bind, AcquireError, BindOutcome, LockProbe, LockResult, LockStep,
};

fn words(list: &[&str]) -> Vec<String> {
    list.iter().map(|w| w.to_string()).collect()
}

fn linux(ufw: bool, firewalld: bool, nftables: bool, iptables: bool) -> Host {
    Host::Linux { ufw, firewalld, nftables, iptables }
}

#[test]
fn ufw_comes_first() {
    let plan = plan_for_host(linux(true, true, true, true), 4252, false).unwrap();
    assert_eq!(plan.backend, "ufw");
    assert!(plan.apply);
    assert_eq!(
        plan.commands,
        vec![words(&["ufw", "allow", "4252/udp", "comment", "monitorhop"])]
    );
    let plan = plan_for_host(linux(true, false, false, false), 4252, true).unwrap();
    assert_eq!(plan.commands, vec![words(&["ufw", "delete", "allow", "4252/udp"])]);
}

#[test]
fn other_firewalls_have_their_commands() {
    let plan = plan_for_host(linux(false, true, true, true), 80, true).unwrap();
    assert_eq!(plan.backend, "firewalld");
    assert_eq!(
        plan.commands,
        vec![
            words(&["firewall-cmd", "--permanent", "--remove-port=80/udp"]),
            words(&["firewall-cmd", "--reload"]),
        ]
    );
    let plan = plan_for_host(linux(false, false, true, true), 80, false).unwrap();
    assert_eq!(plan.backend, "nftables");
    assert!(!plan.apply);
    assert_eq!(
        plan.commands,
        vec![words(&[
            "nft", "add", "rule", "inet", "filter", "input", "udp", "dport", "80", "accept"
        ])]
    );
    let plan = plan_for_host(linux(false, false, false, true), 80, false).unwrap();
    assert_eq!(plan.backend, "iptables");
    assert_eq!(plan.commands.len(), 2);
    assert_eq!(plan.commands[1][0], "ip6tables");
    assert!(plan_for_host(linux(false, false, false, false), 80, false).is_none());
    assert!(plan_for_host(Host::Other, 80, false).is_none());
    let plan = plan_for_host(Host::Windows, 80, false).unwrap();
    assert_eq!(plan.commands[0][5], "name=MonitorHop (UDP 80)");
    assert_eq!(plan.commands[0][9], "localport=80");
    let plan = plan_for_host(Host::MacOs, 80, false).unwrap();
    assert!(plan.commands.is_empty() && !plan.apply);
    assert!(plan.note.unwrap().ends_with("(UDP port 80.)"));
}

#[test]
fn commands_are_shown_before_they_run() {
    let plan = plan_for_host(Host::Windows, 80, true);
    let opening = open_run(&plan, 80, true, true);
    assert!(!opening.proceed);
    assert_eq!(
        opening.out,
        words(&[
            "Removing a rule for UDP/80 via Windows Firewall ...",
            "Would run:",
            "  netsh advfirewall firewall delete rule \"name=MonitorHop (UDP 80)\"",
            "  (run from an Administrator command prompt)",
        ])
    );
    let opening = open_run(&plan, 80, true, false);
    assert!(opening.proceed);
    assert_eq!(opening.out.len(), 1);
    let plan = plan.unwrap();
    assert_eq!(
        command_line(&plan.commands[0]),
        "+ netsh advfirewall firewall delete rule \"name=MonitorHop (UDP 80)\""
    );
    assert_eq!(
        closing_lines(&plan),
        words(&["  (run from an Administrator command prompt)", "Done."])
    );
    let site = plan_for_host(linux(false, false, false, true), 80, false);
    let opening = open_run(&site, 80, false, false);
    assert!(!opening.proceed);
    assert_eq!(
        opening.out[1],
        "Your iptables ruleset is site-specific, so run this yourself:"
    );
    let opening = open_run(&None, 80, false, false);
    assert_eq!(opening.err.len(), 1);
    assert!(opening.out.is_empty() && !opening.proceed);
    assert_eq!(
        opening.err[0],
        "monitorhop firewall: no supported firewall detected. Allow UDP port 80 inbound \
         manually if your host blocks it."
    );
}

#[test]
fn a_run_stops_at_the_first_failure() {
    let plan = plan_for_host(linux(false, true, false, false), 80, false).unwrap();
    let index = match run(&plan, 0) {
        RunStep::Execute { index, line } => {
            assert_eq!(line, "+ firewall-cmd --permanent --add-port=80/udp");
            index
        }
        RunStep::Exit { .. } => panic!("a command is left"),
    };
    let index = match command_ended(&plan, index, &CommandOutcome::Success) {
        RunStep::Execute { index, line } => {
            assert_eq!(line, "+ firewall-cmd --reload");
            index
        }
        RunStep::Exit { .. } => panic!("a command is left"),
    };
    match command_ended(&plan, index, &CommandOutcome::Success) {
        RunStep::Exit { out, err, code } => {
            assert_eq!(out, words(&["Done."]));
            assert!(err.is_empty());
            assert_eq!(code, 0);
        }
        RunStep::Execute { .. } => panic!("no command is left"),
    }
    match command_ended(&plan, 0, &CommandOutcome::NotStarted("gone".into())) {
        RunStep::Exit { out, err, code } => {
            assert!(out.is_empty());
            assert_eq!(err, words(&["monitorhop firewall: could not run `firewall-cmd`: gone"]));
            assert_eq!(code, 1);
        }
        RunStep::Execute { .. } => panic!("the run has failed"),
    }
}

#[test]
fn failed_commands_are_explained() {
    let command = words(&["ufw", "allow", "a b"]);
    assert_eq!(shell_join(&command), "ufw allow \"a b\"");
    assert_eq!(failure_message(&command, &CommandOutcome::Success), None);
    assert_eq!(
        failure_message(&command, &CommandOutcome::Failed("exit status: 1".into())).unwrap(),
        "monitorhop firewall: `ufw allow \"a b\"` failed (exit status: 1). You probably need \
         to re-run with sudo / as administrator."
    );
    assert_eq!(
        failure_message(&command, &CommandOutcome::NotStarted("no such file".into())).unwrap(),
        "monitorhop firewall: could not run `ufw`: no such file"
    );
}

#[test]
fn chords_are_shown_in_order() {
    let mods = vec![Linux::KeyRightmeta, Linux::KeyLeftAlt, Linux::KeyLeftCtrl, Linux::KeyRightCtrl];
    assert_eq!(
        canonicalize_mods(&mods),
        vec![Linux::KeyLeftCtrl, Linux::KeyLeftAlt, Linux::KeyRightmeta]
    );
    let (mods, trigger) = split_chord(&vec![Linux::KeyLeftShift, Linux::KeyA]);
    assert_eq!(mods, vec![Linux::KeyLeftShift]);
    assert_eq!(trigger, Some(Linux::KeyA));
    assert_eq!(trigger_label(Linux::KeyEnter, "KeyEnter"), "↵");
    assert_eq!(trigger_label(Linux::KeyPageup, "KeyPageup"), "PgUp");
    assert_eq!(chord_markup(&vec![], "", false), "Click to set");
    assert!(chord_markup(&vec![Linux::KeyLeftCtrl, Linux::KeyA], "", false).ends_with(">A</span>"));
    assert!(chord_markup(&vec![Linux::KeyLeftCtrl, Linux::KeyA], "", false).contains("⌃"));
    assert!(super_markup(false).ends_with(">⌘</span>"));
    assert!(super_markup(true).starts_with("<span face=\"omarchy\""));
    assert!(capturing_markup().contains("Press a shortcut…"));
}

#[test]
fn markup_is_escaped() {
    assert_eq!(escape("a<b>&\"c'"), "a&lt;b&gt;&amp;&quot;c&apos;");
    assert_eq!(escape("tab\tç\u{1}"), "tab\tç&#x1;");
    assert_eq!(escape("\u{7f}\u{85}\u{9f}"), "&#x7f;\u{85}&#x9f;");
}

#[test]
fn letters_mean_the_same_key_in_both_cases() {
    assert_eq!(keyval_to_scancode(0x61), Some(Linux::KeyA));
    assert_eq!(keyval_to_scancode(0x41), Some(Linux::KeyA));
    assert_eq!(keyval_to_scancode(0xffe3), Some(Linux::KeyLeftCtrl));
    assert_eq!(keyval_to_scancode(0x1234_5678), None);
    assert!(is_modifier(Linux::KeyRightalt));
    assert!(!is_modifier(Linux::KeyA));
}

#[test]
fn a_chord_is_recorded() {
    let mut handle = bind_button();
    assert_eq!(handle.state.last_chord, DEFAULT_RELEASE_CHORD.to_vec());
    assert!(handle.state.key_pressed(0x61).0);
    assert!(matches!(handle.state.clicked(), CaptureEffect::Begin));
    assert!(!handle.set_chord(vec![Linux::KeyF1]));
    let (pass, effect) = handle.state.key_pressed(0xffeb);
    assert!(!pass && matches!(effect, CaptureEffect::Nothing));
    handle.state.key_pressed(0xffe1);
    handle.state.key_pressed(0xffe3);
    handle.state.key_released(0xffe1);
    match handle.state.key_pressed(0x78).1 {
        CaptureEffect::Finish(chord) => assert_eq!(
            chord,
            vec![Linux::KeyLeftCtrl, Linux::KeyLeftMeta, Linux::KeyX]
        ),
        _ => panic!("the chord is complete"),
    }
    assert!(!handle.state.capturing);
    assert!(matches!(handle.state.clicked(), CaptureEffect::Begin));
    assert!(matches!(handle.state.key_pressed(0xff1b).1, CaptureEffect::Cancel));
    assert_eq!(
        handle.state.last_chord,
        vec![Linux::KeyLeftCtrl, Linux::KeyLeftMeta, Linux::KeyX]
    );
    assert!(handle.set_chord(vec![Linux::KeyF1]));
    assert_eq!(handle.state.last_chord, vec![Linux::KeyF1]);
}

#[test]
fn ports_are_parsed_as_numbers() {
    for text in ["4252", "0", "65535", "+80", "0080", "65536", "", "+", "-1", "8 0", "９", "0x10"] {
        assert_eq!(parse_port(text), text.parse::<u16>().ok(), "{}", text);
    }
}

fn entry(ip: &str, latency: LatencyState, active: bool, kind: Option<IfaceKind>) -> AddrEntry {
    AddrEntry { ip: ip.into(), latency, active, kind }
}

#[test]
fn the_address_menu_lists_every_address() {
    let entries = vec![
        entry("10.0.0.1", LatencyState::Rtt(5_300), true, Some(IfaceKind::Wired)),
        entry("10.0.0.2", LatencyState::Rtt(74_000), false, None),
        entry("10.0.0.3", LatencyState::Unmeasured, false, None),
    ];
    let menu = address_menu(&entries, ConnectionMode::Fastest, &None);
    assert_eq!(
        menu.labels,
        words(&["Auto", "Fastest", "● 10.0.0.1 — Wired · 5.3 ms", "10.0.0.2 — 74 ms", "10.0.0.3"])
    );
    assert_eq!(menu.selected, 1);
    let locked = Some("10.0.0.9".to_string());
    let menu = address_menu(&entries, ConnectionMode::Auto, &locked);
    assert_eq!(menu.labels[5], "10.0.0.9 — locked");
    assert_eq!(menu.selected, 5);

    let mut row = ClientRow::new();
    assert!(row.set_addresses(&entries, ConnectionMode::Auto, &None).is_some());
    assert!(row.set_addresses(&entries, ConnectionMode::Auto, &None).is_none());
    assert!(row.set_addresses(&entries, ConnectionMode::Fastest, &None).is_some());
    assert_eq!(row.connection_choice(0), "auto");
    assert_eq!(row.connection_choice(1), "fastest");
    assert_eq!(row.connection_choice(3), "10.0.0.2");
    assert_eq!(row.connection_choice(9), "auto");
    assert_ne!(dns_button_class(true), dns_button_class(false));
}

#[test]
fn a_row_passes_on_what_the_user_asks_for() {
    let row = ClientRow::new();
    assert!(matches!(row.request(RowEvent::DeleteClicked), Some(RowRequest::Delete)));
    assert!(matches!(row.request(RowEvent::DnsClicked), Some(RowRequest::Dns)));
    assert!(matches!(
        row.request(RowEvent::PortChanged("4253".into())),
        Some(RowRequest::PortChange(4253))
    ));
    assert!(row.request(RowEvent::PortChanged("x".into())).is_none());
    assert!(matches!(
        row.request(RowEvent::HostnameChanged("desk".into())),
        Some(RowRequest::HostnameChange(name)) if name == "desk"
    ));
    assert!(matches!(
        row.request(RowEvent::PositionSelected(2)),
        Some(RowRequest::PositionChange(2))
    ));
    assert!(matches!(
        row.request(RowEvent::EnableSwitched(true)),
        Some(RowRequest::Activate(true))
    ));
    assert!(matches!(
        row.request(RowEvent::ClipboardSendSwitched(false)),
        Some(RowRequest::ClipboardSendChange(false))
    ));
    assert!(matches!(
        row.request(RowEvent::AddressSelected(1)),
        Some(RowRequest::ConnectionChoice(choice)) if choice == "fastest"
    ));
}

#[test]
fn desktop_integration_happens_once() {
    assert_eq!(ensure_first_launch(false, false, false, false), FirstLaunch::InstallAndMark);
    assert_eq!(ensure_first_launch(false, true, false, false), FirstLaunch::Nothing);
    assert_eq!(ensure_first_launch(true, false, false, false), FirstLaunch::Nothing);
    assert_eq!(ensure_first_launch(false, false, true, false), FirstLaunch::Mark);
    assert_eq!(ensure_first_launch(false, false, false, true), FirstLaunch::Mark);
}

#[test]
fn desktop_files_lie_where_launchers_look() {
    assert_eq!(xdg_data_home(None, Some(b"/home/u")).unwrap(), b"/home/u/.local/share".to_vec());
    assert_eq!(xdg_state_home(Some(b"/s"), Some(b"/home/u")).unwrap(), b"/s".to_vec());
    assert_eq!(xdg_data_home(None, None).unwrap_err(), HomeError::NoDataHome);
    assert_eq!(
        xdg_state_home(None, None).unwrap_err().describe(),
        "neither XDG_STATE_HOME nor HOME is set"
    );
    assert_eq!(marker_paths(b"/s").file, b"/s/monitorhop/desktop-install-done".to_vec());
    let paths = install_paths(b"/d");
    assert_eq!(paths.entry, b"/d/applications/dev.monitorhop.MonitorHop.desktop".to_vec());
    assert_eq!(
        paths.icon,
        b"/d/icons/hicolor/scalable/apps/dev.monitorhop.MonitorHop.svg".to_vec()
    );
    assert_eq!(
        packaged_entry_paths(Some(b"/a:/b/")),
        vec![
            b"/a/applications/dev.monitorhop.MonitorHop.desktop".to_vec(),
            b"/b/applications/dev.monitorhop.MonitorHop.desktop".to_vec(),
        ]
    );
    assert_eq!(packaged_entry_paths(None).len(), 2);
    assert_eq!(packaged_entry_paths(Some(b"")), packaged_entry_paths(None));
    assert_eq!(packaged_entry_paths(Some(b"/a:/b\xff:/c")), packaged_entry_paths(None));
    assert_eq!(
        desktop_entry("[Desktop Entry]\nExec=monitorhop\nName=x\n", "/opt/m"),
        "[Desktop Entry]\nExec=/opt/m\nName=x\n"
    );
}

#[test]
fn fonts_are_cached() {
    assert!(omarchy_available(Some(true)));
    assert!(!omarchy_available(Some(false)) && !omarchy_available(None));
    assert_eq!(cache_dir(None, Some(b"/h")).unwrap(), b"/h/.cache/monitorhop/fonts".to_vec());
    assert_eq!(cache_dir(None, None), None);
    assert_eq!(font_paths(b"/f").omarchy, b"/f/monitorhop-omarchy.ttf".to_vec());
    assert!(needs_write(None, 5) && needs_write(Some(4), 5) && !needs_write(Some(5), 5));
}

#[test]
fn a_second_window_raises_the_first() {
    assert_eq!(before_bind(LockProbe::Absent), LockStep::Bind);
    assert_eq!(before_bind(LockProbe::Stale), LockStep::RemoveThenBind);
    assert_eq!(before_bind(LockProbe::Answered), LockStep::AlreadyRunning);
    assert_eq!(after_bind(BindOutcome::Bound), LockResult::Acquired);
    assert_eq!(after_bind(BindOutcome::InUse), LockResult::PingAndQuit);
    assert_eq!(after_bind(BindOutcome::Failed), LockResult::BindError);
    assert_eq!(
        AcquireError::AlreadyRunning.describe(),
        "another monitorhop preferences window is already running"
    );
    assert_eq!(AcquireError::Bind("x".into()).describe(), "could not bind the GUI lock: x");
    assert_eq!(
        AcquireError::SocketPath("x".into()).describe(),
        "could not determine the GUI lock path: x"
    );
}

#[test]
fn a_crashing_daemon_is_restarted_ever_later() {
    let mut supervisor = DaemonSupervisor::new(0);
    let mut pauses = Vec::new();
    for now in 1..=9 {
        match supervisor.poll(ChildStatus::ExitedAbnormally, false, now) {
            SupervisorAction::RestartAfter(ms) => pauses.push(ms),
            _ => panic!("the daemon is restarted"),
        }
        supervisor.restarted(now % 2 == 0, now);
    }
    assert_eq!(
        pauses,
        vec![MIN_BACKOFF_MS, 1_000, 2_000, 4_000, 8_000, 16_000, MAX_BACKOFF_MS, 30_000, 30_000]
    );
    assert!(matches!(
        supervisor.poll(ChildStatus::ExitedAbnormally, false, 20_000),
        SupervisorAction::RestartAfter(MIN_BACKOFF_MS)
    ));
    assert!(matches!(
        supervisor.poll(ChildStatus::Running, false, 0),
        SupervisorAction::Sleep(POLL_MS)
    ));
    assert!(matches!(
        supervisor.poll(ChildStatus::ExitedCleanly, false, 0),
        SupervisorAction::Stop
    ));
    assert!(matches!(
        supervisor.poll(ChildStatus::ExitedAbnormally, true, 0),
        SupervisorAction::Stop
    ));
}

#[test]
fn a_daemon_that_hangs_is_killed() {
    assert!(matches!(
        teardown_step(ChildStatus::Running, 0),
        TeardownAction::Sleep(TEARDOWN_POLL_MS)
    ));
    assert!(matches!(teardown_step(ChildStatus::Running, TEARDOWN_MS), TeardownAction::Kill));
    assert!(matches!(teardown_step(ChildStatus::ExitedCleanly, 0), TeardownAction::Done));
    assert!(matches!(teardown_step(ChildStatus::Unknown, 0), TeardownAction::Done));
}

#[test]
fn waking_up_is_signalled() {
    assert_eq!(power_action(0xe000_0270), PowerAction::AllowSleep);
    assert_eq!(power_action(0xe000_0280), PowerAction::AllowSleep);
    assert_eq!(power_action(0xe000_0300), PowerAction::SignalWake);
    assert_eq!(power_action(1), PowerAction::Ignore);
}

#[test]
fn the_started_process_is_the_daemon() {
    assert_eq!(role(&words(&["daemon"])), Role::Gui);
    assert_eq!(role(&words(&["monitorhop", "-v", "daemon"])), Role::Daemon);
    assert_eq!(role(&words(&[])), Role::Gui);
    assert_eq!(Role::Gui.name(), "gui");
    let args = start_service(&words(&["monitorhop", "-v"]));
    assert_eq!(args, words(&["-v", "daemon"]));
    assert_eq!(start_service(&words(&[])), words(&["daemon"]));
}
