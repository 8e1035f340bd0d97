use monitorhop::addr::{AddrSet, IpAddr, SocketAddr};
use monitorhop::clipboard::{encode_clipboard_transfer, ClipboardFrame};
use monitorhop::client::{ClientHandle, ClientManager, ConfigClient, ConnectionMode};
use monitorhop::connect::{
    bind_addr_for, disconnect, hello_step, ping_step, plan_dial, quantize, receive_step,
    reset_handle, send_step, wait_step, AckOutcome, ClipboardSend, ConnectionError, DialAction,
    DialOutcome, DialRace, HelloStep, PingStep, ReceiveAction, SendStep, TransferStep, WaitStep,
    CLIPBOARD_MAX_ATTEMPTS, CLIPBOARD_MAX_REPEATS, CONNECTION_POLL_MS,
    DEFAULT_CONNECTION_TIMEOUT_MS, HELLO_MAX_ATTEMPTS,
    HELLO_RETRY_INTERVAL_MS, PINGS_PER_ROUND, PING_INTERVAL_MS,
};
use monitorhop::datagram::{decode_proto_datagram, DecodedDatagram};
use monitorhop::dialer::Dialer;
use monitorhop::listen::{
    clipboard_ack, enumerate_listenable_addrs, find_conn, is_authorized, is_listenable_addr,
    reply_targets,
    InboundAction, InboundPeer, InterfaceAction, InterfaceEvent, ListenSupervisor,
    ListenerCreationError, TurnedAway,
};
use monitorhop::locks::LockMap;
use monitorhop::proto::{Position, ProtoEvent};
use monitorhop::retry::{RetryGate, INITIAL_RETRY_BACKOFF_MS, MAX_RETRY_BACKOFF_MS};

fn ip(a: u8) -> IpAddr {
    IpAddr::V4(u32::from_be_bytes([192, 168, 1, a]))
}

fn at(a: u8) -> SocketAddr {
    SocketAddr::new(ip(a), 4252)
}

fn set(ips: &[IpAddr]) -> AddrSet {
    let mut set = AddrSet::new();
    for ip in ips {
        set.insert(*ip);
    }
    set
}

fn manager(ips: &[IpAddr]) -> (ClientManager, ClientHandle) {
    let mut cm = ClientManager::default();
    let handle = cm.add_with_config(ConfigClient {
        ips: set(ips),
        hostname: None,
        port: 4252,
        pos: Position::Left,
        active: true,
        enter_hook: None,
        mode: ConnectionMode::Auto,
        network_locks: LockMap::new(),
        clipboard_send: false,
    });
    (cm, handle)
}

fn wire(event: &ProtoEvent) -> Vec<u8> {
    let (buf, len) = event.encode();
    buf[..len].to_vec()
}

fn text_event(content: &str) -> ProtoEvent {
    ProtoEvent::Clipboard { from_fingerprint: "fp".into(), content: content.into() }
}

#[test]
fn attempts_are_spaced_ever_further() {
    let mut gate = RetryGate::new();
    let ips = set(&[ip(1)]);
    assert!(gate.should_attempt(1, &ips, None, 0));
    let mut now = 0;
    let mut pause = INITIAL_RETRY_BACKOFF_MS;
    for _ in 0..8 {
        gate.record_retry_failure(1, &ips, None, now);
        assert!(!gate.should_attempt(1, &ips, None, now + pause - 1));
        assert!(gate.should_attempt(1, &ips, None, now + pause));
        now += pause;
        pause = if pause * 2 < MAX_RETRY_BACKOFF_MS { pause * 2 } else { MAX_RETRY_BACKOFF_MS };
    }
    assert_eq!(pause, MAX_RETRY_BACKOFF_MS);
}

#[test]
fn new_addresses_open_the_gate() {
    let mut gate = RetryGate::new();
    gate.record_retry_failure(1, &set(&[ip(1)]), None, 100);
    assert!(!gate.should_attempt(1, &set(&[ip(1)]), None, 100));
    assert!(gate.should_attempt(1, &set(&[ip(1), ip(2)]), None, 100));
    gate.record_retry_failure(1, &set(&[ip(1)]), None, 100);
    assert!(gate.should_attempt(1, &set(&[ip(1)]), Some(ip(1)), 100));
    gate.record_retry_failure(2, &set(&[ip(1)]), None, 100);
    gate.clear(2);
    assert!(gate.should_attempt(2, &set(&[ip(1)]), None, 100));
}

#[test]
fn one_dial_runs_at_a_time() {
    let (mut cm, h) = manager(&[ip(1)]);
    let mut dialer = Dialer::new();
    assert!(dialer.request_connection(&cm, h, None, 0));
    assert!(!dialer.request_connection(&cm, h, None, 0));
    let plan = dialer.begin(&cm, h, None, 0).unwrap();
    assert_eq!(plan.addrs, vec![at(1)]);
    dialer.failed(h, &set(&[ip(1)]), None, 0);
    assert!(!dialer.request_connection(&cm, h, None, 1));
    assert!(dialer.request_connection(&cm, h, None, INITIAL_RETRY_BACKOFF_MS));
    dialer.connected(&mut cm, h, at(1));
    assert_eq!(cm.active_addr(h), Some(at(1)));
    assert_eq!(dialer.reset_handle(&mut cm, h), Some(at(1)));
    assert_eq!(cm.active_addr(h), None);
}

#[test]
fn a_client_without_addresses_is_not_dialled() {
    let (cm, h) = manager(&[]);
    let mut dialer = Dialer::new();
    dialer.request_connection(&cm, h, None, 0);
    assert!(matches!(dialer.begin(&cm, h, None, 0), Err(ConnectionError::NotConnected)));
    assert!(plan_dial(&cm, h + 1, None).is_none());
}

#[test]
fn the_preferred_address_has_a_head_start() {
    let (cm, h) = manager(&[ip(1), ip(2)]);
    let plan = plan_dial(&cm, h, Some(ip(2))).unwrap();
    assert_eq!(plan.preferred, Some(at(2)));
    let (mut race, action) = DialRace::start(&plan);
    assert!(matches!(action, DialAction::Dial(list) if list == vec![at(2)]));
    assert!(matches!(race.head_start_over(), DialAction::Dial(list) if list == vec![at(1)]));
    assert!(matches!(race.outcome(DialOutcome::Failed(at(2))), DialAction::Wait));
    assert!(matches!(race.outcome(DialOutcome::Connected(at(1))), DialAction::Take(a) if a == at(1)));

    let plan = plan_dial(&cm, h, None).unwrap();
    let (mut race, action) = DialRace::start(&plan);
    assert!(matches!(action, DialAction::Dial(list) if list.len() == 2));
    assert!(matches!(race.outcome(DialOutcome::Failed(at(1))), DialAction::Wait));
    assert!(matches!(race.outcome(DialOutcome::Failed(at(2))), DialAction::GiveUp));
}

#[test]
fn sockets_are_bound_in_the_family_of_the_peer() {
    assert_eq!(bind_addr_for(&at(1)), "0.0.0.0:0");
    assert_eq!(bind_addr_for(&SocketAddr::new(IpAddr::V6(1), 1)), "[::]:0");
}

#[test]
fn events_wait_for_a_connection() {
    let (mut cm, h) = manager(&[ip(1)]);
    let ping = ProtoEvent::Ping;
    assert!(matches!(send_step(&ping, &cm, h, false), SendStep::RequestConnection));
    cm.set_active_addr(h, Some(at(1)));
    cm.set_alive(h, true);
    assert!(matches!(send_step(&ping, &cm, h, true), SendStep::Deliver(a) if a == at(1)));
    assert!(matches!(send_step(&text_event("x"), &cm, h, true), SendStep::Transfer));
    cm.set_alive(h, false);
    assert!(matches!(
        send_step(&ProtoEvent::Leave(0), &cm, h, true),
        SendStep::TargetDisabled
    ));
    assert!(matches!(
        wait_step(&cm, h, true, 0),
        WaitStep::RequestAndSleep(CONNECTION_POLL_MS)
    ));
    assert!(matches!(
        wait_step(&cm, h, true, DEFAULT_CONNECTION_TIMEOUT_MS),
        WaitStep::NotConnected
    ));
    cm.set_alive(h, true);
    assert!(matches!(wait_step(&cm, h, true, 0), WaitStep::Ready(a) if a == at(1)));
}

#[test]
fn transfers_are_repeated_until_acknowledged() {
    let mut send = ClipboardSend::prepare(&text_event("hello"), 5).unwrap();
    let hash = send.expected_hash;
    assert_eq!(send.datagrams.len(), 2);
    assert_eq!(CLIPBOARD_MAX_ATTEMPTS, 5);
    for _ in 0..CLIPBOARD_MAX_REPEATS {
        assert!(matches!(send.answered(AckOutcome::NoAnswer), TransferStep::Resend));
    }
    assert!(matches!(
        send.answered(AckOutcome::NoAnswer),
        TransferStep::Fail(ConnectionError::Timeout)
    ));
    let mut send = ClipboardSend::prepare(&text_event("hello"), 5).unwrap();
    assert!(matches!(
        send.answered(AckOutcome::Ack { hash: [0; 32], accepted: true }),
        TransferStep::Resend
    ));
    assert!(matches!(
        send.answered(AckOutcome::Ack { hash, accepted: true }),
        TransferStep::Done
    ));
    assert!(matches!(
        send.answered(AckOutcome::Ack { hash, accepted: false }),
        TransferStep::Fail(ConnectionError::ClipboardRejected)
    ));
    let large = text_event(&"x".repeat(2 * 1024 * 1024 + 1));
    assert!(matches!(
        ClipboardSend::prepare(&large, 5),
        Err(ConnectionError::ClipboardRejected)
    ));
}

#[test]
fn greetings_and_pings_are_bounded() {
    assert!(matches!(hello_step(0, false), HelloStep::SendAndSleep(HELLO_RETRY_INTERVAL_MS)));
    assert!(matches!(hello_step(HELLO_MAX_ATTEMPTS, false), HelloStep::Close));
    assert!(matches!(hello_step(3, true), HelloStep::Done));
    assert!(matches!(ping_step(0, false, false), PingStep::SendAndSleep(PING_INTERVAL_MS)));
    assert!(matches!(ping_step(PINGS_PER_ROUND, false, true), PingStep::NextRound));
    assert!(matches!(ping_step(PINGS_PER_ROUND, false, false), PingStep::Close));
    assert!(matches!(ping_step(1, true, false), PingStep::Close));
}

#[test]
fn replies_update_the_client() {
    let (mut cm, h) = manager(&[ip(1)]);
    let action = receive_step(&mut cm, h, at(1), Some(4_321), &wire(&ProtoEvent::Pong(true)));
    assert!(matches!(action, ReceiveAction::Answered));
    assert!(cm.alive(h));
    let (_, state) = cm.get_state(h).unwrap();
    assert_eq!(state.latencies.get(&ip(1)), Some(Some(quantize(4_321))));
    let action = receive_step(&mut cm, h, at(1), None, &wire(&ProtoEvent::hello(*b"12345678")));
    assert!(matches!(action, ReceiveAction::Greeted(_)));
    assert_eq!(cm.get_state(h).unwrap().1.peer_commit, Some(*b"12345678"));
    let foreign = ProtoEvent::Hello { magic: *b"LAN-MOUS", commit: *b"00000000" };
    let action = receive_step(&mut cm, h, at(1), None, &wire(&foreign));
    assert!(matches!(action, ReceiveAction::Refuse));
    assert_eq!(cm.get_state(h).unwrap().1.peer_commit, Some(*b"12345678"));
    let action = receive_step(&mut cm, h, at(1), None, &wire(&ProtoEvent::Leave(3)));
    assert!(matches!(action, ReceiveAction::Forward(ProtoEvent::Leave(3))));
    assert!(matches!(receive_step(&mut cm, h, at(1), None, &[255]), ReceiveAction::Ignore));
    let ack = clipboard_ack(7, [1; 32], true);
    assert!(matches!(
        receive_step(&mut cm, h, at(1), None, &ack),
        ReceiveAction::Acknowledge { transfer_id: 7, accepted: true, .. }
    ));
}

#[test]
fn a_lost_connection_is_forgotten() {
    let (mut cm, h) = manager(&[ip(1)]);
    cm.set_active_addr(h, Some(at(1)));
    cm.set_peer_commit(h, Some(*b"12345678"));
    disconnect(&mut cm, h);
    assert_eq!(cm.active_addr(h), None);
    assert_eq!(cm.get_state(h).unwrap().1.peer_commit, None);
    let mut gate = RetryGate::new();
    gate.record_retry_failure(h, &set(&[ip(1)]), None, 0);
    cm.set_active_addr(h, Some(at(1)));
    assert_eq!(reset_handle(&mut cm, &mut gate, h), Some(at(1)));
    assert!(gate.should_attempt(h, &set(&[ip(1)]), None, 0));
}

#[test]
fn connection_errors_are_described() {
    let errors = [
        ConnectionError::NotConnected,
        ConnectionError::TargetEmulationDisabled,
        ConnectionError::Timeout,
        ConnectionError::ClipboardRejected,
    ];
    let mut texts: Vec<&str> = errors.iter().map(|e| e.describe()).collect();
    texts.sort();
    texts.dedup();
    assert_eq!(texts.len(), 4);
}

#[test]
fn listeners_follow_the_interfaces() {
    let mut supervisor = ListenSupervisor::new(4252);
    assert_eq!(supervisor.startup_fallback(), Some(IpAddr::V4(0)));
    let todo = supervisor.reconcile(&vec![ip(1), ip(2)]);
    assert!(todo.to_drop.is_empty());
    assert_eq!(todo.to_bind.len(), 2);
    supervisor.bound(ip(1));
    supervisor.bound(ip(2));
    assert_eq!(supervisor.startup_fallback(), None);
    let todo = supervisor.reconcile(&vec![ip(2), ip(3)]);
    assert_eq!(todo.to_drop, vec![ip(1)]);
    assert_eq!(todo.to_bind, vec![ip(3)]);
    assert_eq!(
        supervisor.interface_event(InterfaceEvent::Up(ip(3))),
        InterfaceAction::Bind(ip(3))
    );
    supervisor.bound(ip(3));
    assert_eq!(supervisor.interface_event(InterfaceEvent::Up(ip(3))), InterfaceAction::Nothing);
    assert_eq!(
        supervisor.interface_event(InterfaceEvent::Down(ip(3))),
        InterfaceAction::Drop(ip(3))
    );
    assert_eq!(supervisor.interface_event(InterfaceEvent::Down(ip(3))), InterfaceAction::Nothing);
    assert_eq!(supervisor.interface_event(InterfaceEvent::Error), InterfaceAction::Nothing);
}

#[test]
fn a_port_that_cannot_be_bound_is_not_taken() {
    let mut supervisor = ListenSupervisor::new(4252);
    supervisor.bound(ip(1));
    assert_eq!(supervisor.begin_port_change(&vec![ip(1)]), vec![ip(1)]);
    assert!(matches!(
        supervisor.finish_port_change(5000),
        Err(ListenerCreationError::NoBoundListener)
    ));
    assert_eq!(supervisor.port(), 4252);
    supervisor.begin_port_change(&vec![ip(1)]);
    supervisor.bound(ip(1));
    assert!(matches!(supervisor.finish_port_change(5000), Ok(5000)));
    assert_eq!(supervisor.port(), 5000);
}

#[test]
fn local_addresses_are_not_listened_on() {
    let link_local = IpAddr::V6(0xfe80_0000_0000_0000_0000_0000_0000_0001);
    assert!(is_listenable_addr(ip(1)));
    assert!(!is_listenable_addr(IpAddr::V4(0x7f00_0001)));
    assert!(!is_listenable_addr(link_local));
    assert!(!is_listenable_addr(IpAddr::V4(0)));
    assert!(!is_listenable_addr(IpAddr::V4(u32::from_be_bytes([224, 0, 0, 251]))));
    assert!(!is_listenable_addr(IpAddr::V4(u32::from_be_bytes([169, 254, 3, 4]))));
    assert!(!is_listenable_addr(IpAddr::V6(0xff02_0000_0000_0000_0000_0000_0000_00fb)));
    assert!(!is_listenable_addr(IpAddr::V6(1)));
    assert_eq!(enumerate_listenable_addrs(&vec![IpAddr::V4(0x7f00_0001), ip(1)]), vec![ip(1)]);
}

#[test]
fn peers_must_greet_with_the_magic() {
    let mut peer = InboundPeer::new();
    assert!(peer.hello_overdue() && !peer.has_greeted());
    let foreign = ProtoEvent::Hello { magic: *b"LAN-MOUS", commit: *b"00000000" };
    assert!(matches!(peer.receive(&wire(&foreign)), InboundAction::Refuse));
    assert!(!peer.has_greeted());
    assert!(matches!(
        peer.receive(&wire(&ProtoEvent::hello(*b"12345678"))),
        InboundAction::Message(ProtoEvent::Hello { .. })
    ));
    assert!(peer.has_greeted() && !peer.hello_overdue());
    assert!(matches!(peer.receive(&[200]), InboundAction::Ignore));
    assert!(matches!(
        peer.receive(&wire(&ProtoEvent::Ping)),
        InboundAction::Message(ProtoEvent::Ping)
    ));
}

#[test]
fn peers_send_their_clipboard() {
    let mut peer = InboundPeer::new();
    let (datagrams, hash) = encode_clipboard_transfer(&text_event("olá"), 9).unwrap();
    assert!(matches!(peer.receive(&datagrams[0]), InboundAction::Ignore));
    match peer.receive(&datagrams[1]) {
        InboundAction::Clipboard(transfer) => {
            assert_eq!(transfer.content, "olá");
            let ack = clipboard_ack(transfer.transfer_id, transfer.content_hash, true);
            match decode_proto_datagram(&ack) {
                Some(DecodedDatagram::Clipboard(ClipboardFrame::Ack {
                    transfer_id,
                    content_hash,
                    accepted,
                })) => {
                    assert_eq!(transfer_id, 9);
                    assert_eq!(content_hash, hash);
                    assert!(accepted);
                }
                _ => panic!("an acknowledgement"),
            }
        }
        _ => panic!("the transfer is complete"),
    }
}

#[test]
fn strangers_are_turned_away_in_turn() {
    let mut turned_away = TurnedAway::new();
    let mut keys = vec!["other".to_string(), "known".to_string()];
    assert!(turned_away.verify_peer(&keys, "known".into()));
    assert!(!turned_away.verify_peer(&keys, "a".into()));
    assert!(!turned_away.verify_peer(&keys, "b".into()));
    assert!(is_authorized(&keys, "other") && !is_authorized(&keys, "b"));
    assert_eq!(turned_away.next().as_deref(), Some("a"));
    assert_eq!(turned_away.next().as_deref(), Some("b"));
    assert_eq!(turned_away.next(), None);
    keys.push("a".to_string());
    assert!(turned_away.verify_peer(&keys, "a".into()));
    keys.retain(|key| key != "known");
    assert!(!turned_away.verify_peer(&keys, "known".into()));
    assert_eq!(turned_away.next().as_deref(), Some("known"));
}

#[test]
fn replies_go_to_the_connections_of_the_peer() {
    let open = vec![at(1), at(2), at(1)];
    assert_eq!(find_conn(&open, at(1)), Some(0));
    assert_eq!(find_conn(&open, at(3)), None);
    assert_eq!(reply_targets(&open, at(1)), vec![0, 2]);
    assert!(reply_targets(&open, at(3)).is_empty());
}

#[test]
fn listener_errors_are_described() {
    let text = ListenerCreationError::WebrtcUtil("in use".into()).describe();
    assert!(text.contains("in use"));
    let text = ListenerCreationError::WebrtcDtls("no key".into()).describe();
    assert!(text.contains("no key"));
    assert!(!ListenerCreationError::NoBoundListener.describe().is_empty());
}
