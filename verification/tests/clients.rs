use monitorhop::addr::{AddrMap, AddrSet, IpAddr, SocketAddr};
use monitorhop::client::{
    ClientHandle, ClientManager, ClientState, ConfigClient, ConnectionMode, DEFAULT_PORT,
};
use monitorhop::client_object::{
    address_entries, format_latency, iface_label, peer_commit_to_string, ClientObject,
    LatencyState,
};
use monitorhop::latency::{elapsed_micros, probe_addr, probes, ProbeOutcome};
use monitorhop::locks::LockMap;
use monitorhop::network::{
    current_network_id, default_interface_kind, iface_kind, is_routable_ip, is_v6_link_local,
    is_virtual_name, local_addresses_with_kind, IfaceKind, InterfaceType, NetInterface, Subnet,
};
use monitorhop::proto::Position;

fn v4(a: u8, b: u8, c: u8, d: u8) -> IpAddr {
    IpAddr::V4(u32::from_be_bytes([a, b, c, d]))
}

fn ip(a: u8) -> IpAddr {
    v4(192, 168, 1, a)
}

fn addr_set(ips: &[IpAddr]) -> AddrSet {
    let mut set = AddrSet::new();
    for ip in ips {
        set.insert(*ip);
    }
    set
}

fn client_with_ips(ips: &[IpAddr]) -> ConfigClient {
    ConfigClient {
        ips: addr_set(ips),
        hostname: None,
        port: 4252,
        pos: Position::Left,
        active: false,
        enter_hook: None,
        mode: ConnectionMode::Auto,
        network_locks: LockMap::new(),
        clipboard_send: false,
    }
}

fn manager_with_ips(ips: &[IpAddr]) -> (ClientManager, ClientHandle) {
    let mut cm = ClientManager::default();
    let handle = cm.add_with_config(client_with_ips(ips));
    (cm, handle)
}

const NET_A: &str = "gw:aa:bb:cc:dd:ee:01";
const NET_B: &str = "gw:aa:bb:cc:dd:ee:02";

#[test]
fn network_lock_only_applies_on_its_own_network() {
    let (mut cm, h) = manager_with_ips(&[ip(10), ip(20)]);
    assert!(cm.set_network_lock(h, NET_A, ip(10)));
    assert!(cm.recompute_active_lock(h, Some(NET_A)));
    assert_eq!(cm.get_active_lock(h), Some(ip(10)));
    assert!(cm.recompute_active_lock(h, Some(NET_B)));
    assert_eq!(cm.get_active_lock(h), None);
    assert!(cm.recompute_active_lock(h, Some(NET_A)));
    assert_eq!(cm.get_active_lock(h), Some(ip(10)));
}

#[test]
fn setting_mode_clears_current_network_lock_only() {
    let (mut cm, h) = manager_with_ips(&[ip(10)]);
    cm.set_network_lock(h, NET_A, ip(10));
    cm.set_network_lock(h, NET_B, ip(10));
    assert!(cm.set_mode(h, ConnectionMode::Fastest, Some(NET_A)));
    assert_eq!(cm.get_mode(h), ConnectionMode::Fastest);
    cm.recompute_active_lock(h, Some(NET_A));
    assert_eq!(cm.get_active_lock(h), None);
    cm.recompute_active_lock(h, Some(NET_B));
    assert_eq!(cm.get_active_lock(h), Some(ip(10)));
}

#[test]
fn lowest_latency_addr_picks_min_reachable() {
    let (mut cm, h) = manager_with_ips(&[ip(10), ip(20), ip(30)]);
    cm.set_latency(h, ip(10), Some(5000));
    cm.set_latency(h, ip(20), Some(900));
    cm.set_latency(h, ip(30), None);
    assert_eq!(cm.lowest_latency_addr(h), Some(ip(20)));
}

#[test]
fn discovered_ips_fold_into_candidates() {
    let (mut cm, h) = manager_with_ips(&[ip(10)]);
    assert!(cm.set_discovered_ips(h, vec![ip(20), ip(30)]));
    let (_, state) = cm.get_state(h).unwrap();
    assert!(state.ips.contains(&ip(10)));
    assert!(state.ips.contains(&ip(20)));
    assert!(state.ips.contains(&ip(30)));
}

#[test]
fn set_latency_only_for_known_addresses() {
    let (mut cm, h) = manager_with_ips(&[ip(10), ip(20)]);
    assert!(cm.set_latency(h, ip(10), Some(800)));
    assert!(!cm.set_latency(h, ip(10), Some(800)));
    assert!(cm.set_latency(h, ip(10), Some(900)));
    assert!(!cm.set_latency(h, ip(99), Some(100)));
    let (_, state) = cm.get_state(h).unwrap();
    assert_eq!(state.latencies.get(&ip(10)), Some(Some(900)));
    assert_eq!(state.latencies.get(&ip(99)), None);
}

#[test]
fn update_ips_prunes_stale_latencies() {
    let (mut cm, h) = manager_with_ips(&[ip(10), ip(20)]);
    cm.set_latency(h, ip(10), Some(800));
    cm.set_latency(h, ip(20), None);
    cm.set_fix_ips(h, vec![ip(10)]);
    let (_, state) = cm.get_state(h).unwrap();
    assert!(state.latencies.contains_key(&ip(10)));
    assert!(
        !state.latencies.contains_key(&ip(20)),
        "latency for a removed address must be pruned"
    );
}

#[test]
fn probe_targets_skips_clients_without_candidates() {
    let (mut cm, with) = manager_with_ips(&[ip(10), ip(20)]);
    let empty = cm.add_client();
    let targets = cm.probe_targets();
    let with_entry = targets.iter().find(|(h, _, _)| *h == with).unwrap();
    assert_eq!(with_entry.1, 4252);
    assert_eq!(with_entry.2.len(), 2);
    assert!(
        !targets.iter().any(|(h, _, _)| *h == empty),
        "a client with no candidate ips must not be a probe target"
    );
}

#[test]
fn handles_of_removed_clients_are_free_again() {
    let mut cm = ClientManager::default();
    let first = cm.add_client();
    let second = cm.add_client();
    assert_ne!(first, second);
    assert!(cm.remove_client(first).is_some());
    assert!(cm.remove_client(first).is_none());
    assert!(cm.get_state(first).is_none());
    let third = cm.add_client();
    assert_eq!(third, first);
    let mut handles = cm.registered_clients();
    handles.sort();
    assert_eq!(handles, vec![first, second]);
}

#[test]
fn a_new_client_has_the_defaults() {
    let mut cm = ClientManager::default();
    let h = cm.add_client();
    let (config, state) = cm.get_state(h).unwrap();
    assert_eq!(config.port, DEFAULT_PORT);
    assert_eq!(config.pos, Position::Left);
    assert_eq!(config.mode, ConnectionMode::Auto);
    assert!(config.hostname.is_none() && config.cmd.is_none() && !config.clipboard_send);
    assert!(state.ips.is_empty() && !state.active && !state.alive && !state.resolving);
    assert_eq!(cm.get_client_states().len(), 1);
    assert_eq!(cm.clients().len(), 1);
}

#[test]
fn clients_change_independently() {
    let mut cm = ClientManager::default();
    let a = cm.add_with_config(client_with_ips(&[ip(10)]));
    let b = cm.add_with_config(client_with_ips(&[ip(20)]));
    cm.set_hostname(a, Some("alpha".into()));
    cm.set_enter_hook(a, Some("beep".into()));
    cm.set_alive(a, true);
    cm.set_resolving(a, true);
    cm.set_port(a, 5000);
    assert_eq!(cm.get_hostname(a).as_deref(), Some("alpha"));
    assert_eq!(cm.get_enter_cmd(a).as_deref(), Some("beep"));
    assert_eq!(cm.get_port(a), Some(5000));
    assert!(cm.alive(a));
    assert_eq!(cm.get_hostname(b), None);
    assert_eq!(cm.get_enter_cmd(b), None);
    assert_eq!(cm.get_port(b), Some(4252));
    assert!(!cm.alive(b));
    assert!(!cm.get_state(b).unwrap().1.resolving);
}

#[test]
fn an_unknown_client_is_left_out() {
    let mut cm = ClientManager::default();
    assert!(!cm.activate_client(7));
    assert!(!cm.deactivate_client(7));
    assert!(!cm.set_latency(7, ip(1), Some(1)));
    cm.set_port(7, 1);
    assert_eq!(cm.get_port(7), None);
    assert_eq!(cm.get_pos(7), None);
    assert!(cm.get_ips(7).is_none());
    assert_eq!(cm.get_mode(7), ConnectionMode::Auto);
    assert!(!cm.alive(7));
    assert!(cm.clients().is_empty());
}

#[test]
fn activation_and_position_are_found() {
    let (mut cm, h) = manager_with_ips(&[ip(10)]);
    assert_eq!(cm.client_at(Position::Left), None);
    assert!(cm.activate_client(h));
    assert!(!cm.activate_client(h));
    assert_eq!(cm.client_at(Position::Left), Some(h));
    assert_eq!(cm.active_clients(), vec![h]);
    assert_eq!(cm.get_client(SocketAddr::new(ip(10), 9)), Some(h));
    assert_eq!(cm.get_client(SocketAddr::new(ip(11), 9)), None);
    assert!(cm.clipboard_send_targets().is_empty());
    assert!(cm.set_clipboard_send(h, true));
    assert!(!cm.set_clipboard_send(h, true));
    assert_eq!(cm.clipboard_send_targets(), vec![h]);
    assert!(cm.deactivate_client(h));
    assert!(!cm.deactivate_client(h));
    assert!(cm.active_clients().is_empty());
    assert!(cm.clipboard_send_targets().is_empty());
}

#[test]
fn a_new_position_of_an_active_client_is_captured() {
    let (mut cm, h) = manager_with_ips(&[ip(10)]);
    assert!(!cm.set_pos(h, Position::Right));
    assert_eq!(cm.get_pos(h), Some(Position::Right));
    cm.activate_client(h);
    assert!(!cm.set_pos(h, Position::Right));
    assert!(cm.set_pos(h, Position::Top));
    assert_eq!(cm.client_at(Position::Top), Some(h));
}

#[test]
fn candidates_are_the_union_of_their_sources() {
    let (mut cm, h) = manager_with_ips(&[ip(1)]);
    cm.set_dns_ips(h, vec![ip(2), ip(1)]);
    cm.set_discovered_ips(h, vec![ip(3)]);
    let ips = cm.get_ips(h).unwrap();
    assert!(ips.same_set(&addr_set(&[ip(1), ip(2), ip(3)])));
    cm.set_fix_ips(h, vec![]);
    let ips = cm.get_ips(h).unwrap();
    assert!(ips.same_set(&addr_set(&[ip(1), ip(2), ip(3)])));
    cm.set_dns_ips(h, vec![]);
    assert!(cm.get_ips(h).unwrap().same_set(&addr_set(&[ip(3)])));
    assert!(!cm.set_discovered_ips(h, vec![ip(3)]));
}

#[test]
fn a_much_faster_address_is_an_upgrade_once() {
    let (mut cm, h) = manager_with_ips(&[ip(1), ip(2)]);
    cm.set_mode(h, ConnectionMode::Fastest, None);
    cm.set_latency(h, ip(1), Some(90_000));
    cm.set_latency(h, ip(2), Some(2_000));
    cm.set_active_addr(h, Some(SocketAddr::new(ip(1), 4252)));
    assert_eq!(cm.active_addr(h), Some(SocketAddr::new(ip(1), 4252)));
    assert_eq!(cm.fastest_upgrade_candidate(h), Some(ip(2)));
    cm.set_active_addr(h, Some(SocketAddr::new(ip(2), 4252)));
    assert_eq!(cm.fastest_upgrade_candidate(h), None);
}

#[test]
fn an_upgrade_is_twice_as_fast_and_saves_15_ms() {
    let (mut cm, h) = manager_with_ips(&[ip(1), ip(2)]);
    cm.set_active_addr(h, Some(SocketAddr::new(ip(1), 4252)));
    let mut upgrade = |active: u32, best: u32| {
        cm.set_latency(h, ip(1), Some(active));
        cm.set_latency(h, ip(2), Some(best));
        cm.fastest_upgrade_candidate(h)
    };
    assert_eq!(upgrade(30_000, 15_000), Some(ip(2)));
    assert_eq!(upgrade(30_000, 15_001), None);
    assert_eq!(upgrade(15_000, 0), Some(ip(2)));
    assert_eq!(upgrade(14_999, 0), None);
    assert_eq!(upgrade(u32::MAX, u32::MAX - 1), None);
}

#[test]
fn interfaces_of_candidates_are_kept() {
    let (mut cm, h) = manager_with_ips(&[ip(1)]);
    let mut kinds = AddrMap::new();
    kinds.insert(ip(1), IfaceKind::WiFi);
    assert!(cm.set_interfaces(h, kinds.clone()));
    assert!(!cm.set_interfaces(h, kinds));
    let (_, state) = cm.get_state(h).unwrap();
    assert_eq!(state.interfaces.get(&ip(1)), Some(IfaceKind::WiFi));
}

#[test]
fn announced_interfaces_are_merged() {
    let (mut cm, h) = manager_with_ips(&[ip(10), ip(20)]);
    let kinds = |entries: &[(IpAddr, IfaceKind)]| {
        let mut map = AddrMap::new();
        for (ip, kind) in entries {
            map.insert(*ip, *kind);
        }
        map
    };
    assert!(cm.set_interfaces(h, kinds(&[(ip(10), IfaceKind::Wired)])));
    assert!(cm.set_interfaces(h, kinds(&[(ip(20), IfaceKind::WiFi), (ip(99), IfaceKind::Wired)])));
    let (_, state) = cm.get_state(h).unwrap();
    assert_eq!(state.interfaces.get(&ip(10)), Some(IfaceKind::Wired));
    assert_eq!(state.interfaces.get(&ip(20)), Some(IfaceKind::WiFi));
    assert_eq!(state.interfaces.get(&ip(99)), None);
    assert!(!cm.set_interfaces(h, kinds(&[(ip(99), IfaceKind::Wired)])));
    assert!(cm.set_interfaces(h, kinds(&[(ip(10), IfaceKind::WiFi)])));
    let (_, state) = cm.get_state(h).unwrap();
    assert_eq!(state.interfaces.get(&ip(10)), Some(IfaceKind::WiFi));
}

#[test]
fn a_free_handle_is_given_out_again() {
    let mut cm = ClientManager::default();
    let first = cm.add_client();
    let second = cm.add_client();
    assert!(cm.remove_client(first).is_some());
    cm.set_port(second, 4000);
    assert!(cm.remove_client(first).is_none());
    assert_eq!(cm.add_client(), first);
}

#[test]
fn format_latency_scales_units_and_states() {
    assert_eq!(format_latency(&LatencyState::Unknown), "…");
    assert_eq!(format_latency(&LatencyState::Unmeasured), "—");
    assert_eq!(format_latency(&LatencyState::Rtt(800)), "0.8 ms");
    assert_eq!(format_latency(&LatencyState::Rtt(5_300)), "5.3 ms");
    assert_eq!(format_latency(&LatencyState::Rtt(74_000)), "74 ms");
}

fn float_text(us: u32) -> String {
    let ms = us as f64 / 1000.0;
    if ms < 10.0 {
        format!("{ms:.1} ms")
    } else {
        format!("{ms:.0} ms")
    }
}

#[test]
fn shown_latency_is_that_of_floating_point() {
    let mut us: u32 = 0;
    while us < 10_000 {
        assert_eq!(format_latency(&LatencyState::Rtt(us)), float_text(us), "{}", us);
        us += 1;
    }
    while us < 4_000_000_000 {
        assert_eq!(format_latency(&LatencyState::Rtt(us)), float_text(us), "{}", us);
        us += 40_037;
    }
    for us in [10_499, 10_500, 10_501, 11_500, 12_500, 999_500, u32::MAX] {
        assert_eq!(format_latency(&LatencyState::Rtt(us)), float_text(us), "{}", us);
    }
}

#[test]
fn address_entries_are_sorted_with_latency_and_active_flag() {
    let mut latencies = AddrMap::new();
    latencies.insert(ip(20), Some(800u32));
    latencies.insert(ip(30), None);
    let mut interfaces = AddrMap::new();
    interfaces.insert(ip(20), IfaceKind::Wired);
    interfaces.insert(ip(30), IfaceKind::WiFi);
    let state = ClientState {
        ips: addr_set(&[ip(20), ip(10), ip(30)]),
        latencies,
        interfaces,
        active_addr: Some(SocketAddr::new(ip(20), 4252)),
        ..Default::default()
    };
    let entries = address_entries(&state);
    assert_eq!(
        entries.iter().map(|e| e.ip.as_str()).collect::<Vec<_>>(),
        vec!["192.168.1.10", "192.168.1.20", "192.168.1.30"]
    );
    assert_eq!(entries[0].latency, LatencyState::Unknown);
    assert!(!entries[0].active);
    assert_eq!(entries[0].kind, None);
    assert_eq!(entries[1].latency, LatencyState::Rtt(800));
    assert!(entries[1].active, "active address must be flagged");
    assert_eq!(entries[1].kind, Some(IfaceKind::Wired));
    assert_eq!(entries[2].latency, LatencyState::Unmeasured);
    assert_eq!(entries[2].kind, Some(IfaceKind::WiFi));
}

#[test]
fn iface_labels_are_human_readable() {
    assert_eq!(iface_label(Some(IfaceKind::Wired)), Some("Wired"));
    assert_eq!(iface_label(Some(IfaceKind::WiFi)), Some("Wi-Fi"));
    assert_eq!(iface_label(None), None);
}

#[test]
fn a_client_object_shows_its_client() {
    let (mut cm, h) = manager_with_ips(&[ip(9), ip(100)]);
    cm.set_peer_commit(h, Some(*b"0123abcd"));
    cm.set_hostname(h, Some("desk".into()));
    let (config, state) = cm.get_state(h).unwrap();
    let mut object = ClientObject::new(h, config, state);
    let data = object.get_data();
    assert_eq!(data.handle, h);
    assert_eq!(data.hostname.as_deref(), Some("desk"));
    assert_eq!(data.port, 4252);
    assert_eq!(data.position, "left");
    assert_eq!(data.peer_commit.as_deref(), Some("0123abcd"));
    let mut ips = data.ips.clone();
    ips.sort();
    assert_eq!(ips, vec!["192.168.1.100", "192.168.1.9"]);
    assert_eq!(object.addresses().len(), 2);
    assert_eq!(object.mode(), ConnectionMode::Auto);
    object.set_mode(ConnectionMode::Fastest);
    assert_eq!(object.mode(), ConnectionMode::Fastest);
    assert_eq!(object.active_lock(), None);
    object.set_active_lock(Some("192.168.1.9".into()));
    assert_eq!(object.active_lock().as_deref(), Some("192.168.1.9"));
    object.set_addresses(Vec::new());
    assert!(object.addresses().is_empty());
}

#[test]
fn commits_that_are_no_text_are_left_out() {
    assert_eq!(peer_commit_to_string(Some(*b"abcd1234")).as_deref(), Some("abcd1234"));
    assert_eq!(peer_commit_to_string(Some([0xff; 8])), None);
    assert_eq!(peer_commit_to_string(None), None);
}

#[test]
fn addresses_have_their_usual_text() {
    assert_eq!(v4(10, 0, 255, 1).to_text(), "10.0.255.1");
    let cases: [(u128, &str); 6] = [
        (0, "::"),
        (1, "::1"),
        (0xfe80_0000_0000_0000_0000_0000_0000_0001, "fe80::1"),
        (0x2001_0db8_0000_0000_0001_0000_0000_0001, "2001:db8::1:0:0:1"),
        (0x2001_0db8_0000_0001_0001_0001_0001_0001, "2001:db8:0:1:1:1:1:1"),
        (0x0000_0000_0000_0000_0000_ffff_c0a8_0105, "::ffff:192.168.1.5"),
    ];
    for (bits, text) in cases {
        assert_eq!(IpAddr::V6(bits).to_text(), text);
    }
    let mut scoped = SocketAddr::new(IpAddr::V6(1), 80);
    assert_eq!(scoped.to_text(), "[::1]:80");
    scoped.scope_id = 3;
    assert_eq!(scoped.to_text(), "[::1%3]:80");
    assert_eq!(SocketAddr::new(ip(5), 4252).to_text(), "192.168.1.5:4252");
}

#[test]
fn refused_connection_counts_as_reachable() {
    assert!(
        probe_addr(ProbeOutcome::Refused, 150).is_some(),
        "a refused (RST) connection should be treated as reachable"
    );
    assert_eq!(probe_addr(ProbeOutcome::Connected, 150), Some(150));
}

#[test]
fn unroutable_address_times_out_as_unreachable() {
    assert!(
        probe_addr(ProbeOutcome::TimedOut, 1_000_000).is_none(),
        "an unroutable address should be reported as unreachable"
    );
    assert!(probe_addr(ProbeOutcome::Failed, 10).is_none());
}

#[test]
fn long_round_trips_are_clamped() {
    assert_eq!(elapsed_micros(12), 12);
    assert_eq!(elapsed_micros(u32::MAX as u128 + 1), u32::MAX);
}

#[test]
fn every_candidate_is_probed_on_its_port() {
    let list = probes(&vec![(1, 4252, vec![ip(1), ip(2)]), (2, 5000, vec![ip(3)])]);
    assert_eq!(
        list,
        vec![
            (1, SocketAddr::new(ip(1), 4252)),
            (1, SocketAddr::new(ip(2), 4252)),
            (2, SocketAddr::new(ip(3), 5000)),
        ]
    );
}

#[test]
fn classifies_interface_types() {
    assert_eq!(iface_kind(InterfaceType::GigabitEthernet), IfaceKind::Wired);
    assert_eq!(iface_kind(InterfaceType::Wireless80211), IfaceKind::WiFi);
    assert_eq!(iface_kind(InterfaceType::Tunnel), IfaceKind::Other);
    assert_eq!(iface_kind(InterfaceType::Loopback), IfaceKind::Other);
    assert_eq!(iface_kind(InterfaceType::Bridge), IfaceKind::Other);
    assert_eq!(default_interface_kind(None), None);
    assert_eq!(default_interface_kind(Some(InterfaceType::Ethernet)), Some(IfaceKind::Wired));
}

#[test]
fn routable_filter_excludes_loopback_and_link_local() {
    assert!(is_routable_ip(&v4(192, 168, 1, 5)));
    assert!(!is_routable_ip(&v4(127, 0, 0, 1)));
    assert!(!is_routable_ip(&v4(169, 254, 1, 1)));
    assert!(!is_routable_ip(&IpAddr::V6(0xfe80_0000_0000_0000_0000_0000_0000_0001)));
    assert!(is_routable_ip(&IpAddr::V6(0xfdb7_7db7_0000_0000_0000_0000_0000_0001)));
    assert!(is_v6_link_local(0xfebf_0000_0000_0000_0000_0000_0000_0001));
    assert!(!is_v6_link_local(0xfec0_0000_0000_0000_0000_0000_0000_0001));
}

#[test]
fn virtual_names_are_skipped() {
    assert!(is_virtual_name("docker0"));
    assert!(is_virtual_name("br-1a2b3c"));
    assert!(is_virtual_name("veth9f8e"));
    assert!(!is_virtual_name("enp191s0"));
    assert!(!is_virtual_name("wlan0"));
}

#[test]
fn only_routable_addresses_of_real_interfaces_are_announced() {
    let interfaces = vec![
        NetInterface {
            name: "lo".into(),
            if_type: InterfaceType::Loopback,
            ipv4: vec![u32::from_be_bytes([127, 0, 0, 1])],
            ipv6: vec![1],
        },
        NetInterface {
            name: "enp1s0".into(),
            if_type: InterfaceType::Ethernet,
            ipv4: vec![u32::from_be_bytes([192, 168, 1, 7])],
            ipv6: vec![0xfe80_0000_0000_0000_0000_0000_0000_0007],
        },
        NetInterface {
            name: "docker0".into(),
            if_type: InterfaceType::Bridge,
            ipv4: vec![u32::from_be_bytes([172, 17, 0, 1])],
            ipv6: vec![],
        },
    ];
    let (addrs, kinds) = local_addresses_with_kind(&interfaces);
    assert_eq!(addrs, vec![ip(7)]);
    assert_eq!(kinds.entries(), vec![(ip(7), IfaceKind::Wired)]);
}

#[test]
fn a_network_is_known_by_its_gateway_or_subnet() {
    let subnet = || Some(Subnet { network: "10.1.0.0".into(), prefix_len: 16 });
    let by_gateway = current_network_id(Some("aa:bb:cc:dd:ee:01"), subnet());
    assert_eq!(by_gateway.as_deref(), Some(NET_A));
    let by_subnet = current_network_id(None, subnet());
    assert_eq!(by_subnet.as_deref(), Some("net:10.1.0.0/16"));
    assert_eq!(current_network_id(None, None), None);
}

#[test]
fn addresses_are_told_apart_by_their_texts() {
    let mapped = IpAddr::V6(0xffff_0a00_0001);
    let addresses = [
        IpAddr::V4(0x0a00_0001),
        mapped,
        IpAddr::V6(0x0a00_0001),
        IpAddr::V6(0),
        IpAddr::V6(1),
        IpAddr::V6(1 << 112),
        IpAddr::V6((1 << 112) | 1),
        IpAddr::V6((1 << 112) | (1 << 16)),
        IpAddr::V6(u128::MAX),
    ];
    assert_eq!(mapped.to_text(), "::ffff:10.0.0.1");
    for (i, a) in addresses.iter().enumerate() {
        for (k, b) in addresses.iter().enumerate() {
            assert_eq!(a.to_text() == b.to_text(), i == k);
        }
    }
    let (cm, h) = manager_with_ips(&addresses);
    let mut reversed = addresses;
    reversed.reverse();
    let (other, g) = manager_with_ips(&reversed);
    let order = |cm: &ClientManager, h| -> Vec<String> {
        let (_, state) = cm.get_state(h).unwrap();
        address_entries(&state).into_iter().map(|e| e.ip).collect()
    };
    assert_eq!(order(&cm, h), order(&other, g));
    assert!(order(&cm, h).windows(2).all(|pair| pair[0] < pair[1]));
}
