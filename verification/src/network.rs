//! Interfaces and addresses of the local network.
use vstd::prelude::*;
use vstd::string::StringExecFns;
use crate::addr::{entry_map, AddrMap, IpAddr};
use crate::text::{decimal, push_decimal, same_text, starts_with, str_view};

verus! {

/// The coarse kind of a network interface, as it is shown to the user.
#[derive(Debug, PartialEq, Eq, Clone, Copy, Structural)]
pub enum IfaceKind {
    Wired,
    WiFi,
    Other,
}

/// The type of a network interface, as the system reports it.
#[derive(Debug, PartialEq, Eq, Clone, Copy, Structural)]
pub enum InterfaceType {
    Ethernet,
    Ethernet3Megabit,
    FastEthernetT,
    FastEthernetFx,
    GigabitEthernet,
    Wireless80211,
    PeerToPeerWireless,
    Loopback,
    Tunnel,
    Bridge,
    /// Any other type.
    Unclassified,
}

/// A network interface of this host.
#[derive(Debug)]
pub struct NetInterface {
    pub name: String,
    pub if_type: InterfaceType,
    pub ipv4: Vec<u32>,
    pub ipv6: Vec<u128>,
}

/// A subnet: its address as text, and the length of its prefix.
#[derive(Debug)]
pub struct Subnet {
    pub network: String,
    pub prefix_len: u8,
}

pub open spec fn kind_of(if_type: InterfaceType) -> IfaceKind {
    match if_type {
        InterfaceType::Ethernet
        | InterfaceType::Ethernet3Megabit
        | InterfaceType::FastEthernetT
        | InterfaceType::FastEthernetFx
        | InterfaceType::GigabitEthernet => IfaceKind::Wired,
        InterfaceType::Wireless80211 | InterfaceType::PeerToPeerWireless => IfaceKind::WiFi,
        _ => IfaceKind::Other,
    }
}

/// The coarse kind of an interface type: what is clearly neither Ethernet nor
/// Wi-Fi is `Other`.
pub fn iface_kind(if_type: InterfaceType) -> (kind: IfaceKind)
    ensures
        kind == kind_of(if_type),
{
    match if_type {
        InterfaceType::Ethernet
        | InterfaceType::Ethernet3Megabit
        | InterfaceType::FastEthernetT
        | InterfaceType::FastEthernetFx
        | InterfaceType::GigabitEthernet => IfaceKind::Wired,
        InterfaceType::Wireless80211 | InterfaceType::PeerToPeerWireless => IfaceKind::WiFi,
        _ => IfaceKind::Other,
    }
}

/// The kind of the interface that holds the default route, where there is one.
pub fn default_interface_kind(if_type: Option<InterfaceType>) -> (kind: Option<IfaceKind>)
    ensures
        kind == (match if_type {
            Some(t) => Some(kind_of(t)),
            None => None,
        }),
{
    match if_type {
        Some(t) => Some(iface_kind(t)),
        None => None,
    }
}

/// The name begins like that of a container bridge, a virtual machine's
/// network or a tunnel.
pub open spec fn virtual_name(name: Seq<char>) -> bool {
    ||| "docker"@.is_prefix_of(name)
    ||| "br-"@.is_prefix_of(name)
    ||| "virbr"@.is_prefix_of(name)
    ||| "veth"@.is_prefix_of(name)
    ||| "vmnet"@.is_prefix_of(name)
    ||| "vboxnet"@.is_prefix_of(name)
    ||| "tap"@.is_prefix_of(name)
    ||| "tun"@.is_prefix_of(name)
    ||| "utun"@.is_prefix_of(name)
    ||| "zt"@.is_prefix_of(name)
}

/// Whether an interface is virtual by its name: no peer on the network can
/// reach its addresses.
pub fn is_virtual_name(name: &str) -> (is_virtual: bool)
    ensures
        is_virtual == virtual_name(name@),
{
    starts_with(name, "docker") || starts_with(name, "br-") || starts_with(name, "virbr")
        || starts_with(name, "veth") || starts_with(name, "vmnet") || starts_with(name, "vboxnet")
        || starts_with(name, "tap") || starts_with(name, "tun") || starts_with(name, "utun")
        || starts_with(name, "zt")
}

/// The address is one that a peer can reach: not loopback (`127.0.0.0/8`,
/// `::1`), not unspecified (`0.0.0.0`, `::`), not link-local
/// (`169.254.0.0/16`, `fe80::/10`).
pub open spec fn routable(ip: IpAddr) -> bool {
    match ip {
        IpAddr::V4(v4) => v4 != 0 && v4 / 0x100_0000 != 127 && v4 / 0x1_0000 != 0xa9fe,
        IpAddr::V6(v6) => v6 != 0 && v6 != 1 && !v6_link_local(v6),
    }
}

/// The first ten bits are those of `fe80::/10`.
pub open spec fn v6_link_local(v6: u128) -> bool {
    v6 / 0x40_0000_0000_0000_0000_0000_0000_0000 == 0x3fa
}

/// Whether an IPv6 address is link-local.
pub fn is_v6_link_local(v6: u128) -> (link_local: bool)
    ensures
        link_local == v6_link_local(v6),
{
    v6 / 0x40_0000_0000_0000_0000_0000_0000_0000 == 0x3fa
}

/// Whether a peer can reach the address.
pub fn is_routable_ip(ip: &IpAddr) -> (is_routable: bool)
    ensures
        is_routable == routable(*ip),
{
    match *ip {
        IpAddr::V4(v4) => v4 != 0 && v4 / 0x100_0000 != 127 && v4 / 0x1_0000 != 0xa9fe,
        IpAddr::V6(v6) => v6 != 0 && v6 != 1 && !is_v6_link_local(v6),
    }
}

/// The hardware address that stands for none.
pub open spec fn usable_mac(mac: Seq<char>) -> bool {
    mac.len() > 0 && mac != "00:00:00:00:00:00"@
}

pub open spec fn network_id(gateway_mac: Option<Seq<char>>, subnet: Option<Subnet>) -> Option<
    Seq<char>,
> {
    match (gateway_mac, subnet) {
        (Some(mac), _) if usable_mac(mac) => Some("gw:"@ + mac),
        (_, Some(net)) => Some("net:"@ + net.network@ + "/"@ + decimal(net.prefix_len as nat)),
        (_, None) => None,
    }
}

/// Names the network that this host is on: by the hardware address of the
/// default gateway, or else by the subnet of the default interface. `None`
/// where neither is known; then no lock applies.
pub fn current_network_id(gateway_mac: Option<&str>, subnet: Option<Subnet>) -> (id: Option<String>)
    ensures
        match id {
            Some(text) => network_id(str_view(gateway_mac), subnet) == Some(text@),
            None => network_id(str_view(gateway_mac), subnet) is None,
        },
{
    if let Some(mac) = gateway_mac {
        if !mac.is_empty() && !same_text(mac, "00:00:00:00:00:00") {
            let mut id = String::new();
            id.append("gw:");
            id.append(mac);
            assert(id@ =~= "gw:"@ + mac@);
            return Some(id);
        }
    }
    match subnet {
        Some(net) => {
            let mut id = String::new();
            id.append("net:");
            id.append(net.network.as_str());
            id.append("/");
            push_decimal(&mut id, net.prefix_len as u64);
            assert(id@ =~= "net:"@ + net.network@ + "/"@ + decimal(net.prefix_len as nat));
            Some(id)
        },
        None => None,
    }
}

/// The addresses of an interface: IPv4 first.
pub open spec fn interface_addrs(iface: NetInterface) -> Seq<IpAddr> {
    iface.ipv4@.map_values(|v4: u32| IpAddr::V4(v4)) + iface.ipv6@.map_values(
        |v6: u128| IpAddr::V6(v6),
    )
}

/// The addresses among `addrs` that a peer can reach, each with the kind.
pub open spec fn tagged(addrs: Seq<IpAddr>, kind: IfaceKind) -> Seq<(IpAddr, IfaceKind)>
    decreases addrs.len(),
{
    if addrs.len() == 0 {
        seq![]
    } else if routable(addrs.last()) {
        tagged(addrs.drop_last(), kind).push((addrs.last(), kind))
    } else {
        tagged(addrs.drop_last(), kind)
    }
}

/// The addresses of all interfaces that are announced to the peers: those of
/// wired and wireless ones that are not virtual.
pub open spec fn announced(interfaces: Seq<NetInterface>) -> Seq<(IpAddr, IfaceKind)>
    decreases interfaces.len(),
{
    if interfaces.len() == 0 {
        seq![]
    } else {
        let last = interfaces.last();
        if kind_of(last.if_type) == IfaceKind::Other || virtual_name(last.name@) {
            announced(interfaces.drop_last())
        } else {
            announced(interfaces.drop_last()) + tagged(
                interface_addrs(last),
                kind_of(last.if_type),
            )
        }
    }
}

/// The addresses of a list of tagged addresses.
pub open spec fn untagged(list: Seq<(IpAddr, IfaceKind)>) -> Seq<IpAddr> {
    list.map_values(|e: (IpAddr, IfaceKind)| e.0)
}

/// Takes in an address where a peer can reach it.
fn announce(addrs: &mut Vec<IpAddr>, kinds: &mut AddrMap<IfaceKind>, ip: IpAddr, kind: IfaceKind)
    ensures
        final(addrs)@ == (if routable(ip) {
            old(addrs)@.push(ip)
        } else {
            old(addrs)@
        }),
        final(kinds)@ == (if routable(ip) {
            old(kinds)@.insert(ip, kind)
        } else {
            old(kinds)@
        }),
{
    if is_routable_ip(&ip) {
        addrs.push(ip);
        kinds.insert(ip, kind);
    }
}

proof fn lemma_tagged_step(
    list: Seq<(IpAddr, IfaceKind)>,
    addrs: Seq<IpAddr>,
    n: int,
    kind: IfaceKind,
)
    requires
        0 <= n < addrs.len(),
    ensures
        ({
            let then = list + tagged(addrs.take(n), kind);
            let now = list + tagged(addrs.take(n + 1), kind);
            if routable(addrs[n]) {
                &&& untagged(now) == untagged(then).push(addrs[n])
                &&& entry_map(now) == entry_map(then).insert(addrs[n], kind)
            } else {
                now == then
            }
        }),
{
    let then = list + tagged(addrs.take(n), kind);
    let now = list + tagged(addrs.take(n + 1), kind);
    assert(addrs.take(n + 1).drop_last() =~= addrs.take(n));
    if routable(addrs[n]) {
        assert(now =~= then.push((addrs[n], kind)));
        assert(untagged(now) =~= untagged(then).push(addrs[n]));
        assert(now.drop_last() =~= then);
    }
}

/// `addrs` and `kinds` are what is announced to the peers.
pub open spec fn are_announced(
    interfaces: Seq<NetInterface>,
    addrs: Seq<IpAddr>,
    kinds: Map<IpAddr, IfaceKind>,
) -> bool {
    &&& addrs == untagged(announced(interfaces))
    &&& kinds == entry_map(announced(interfaces))
}

/// The addresses of this host that are announced to the peers, and the kind of
/// the interface of each. Where two interfaces hold the same address, the
/// later one gives its kind.
pub fn local_addresses_with_kind(interfaces: &Vec<NetInterface>) -> (local: (
    Vec<IpAddr>,
    AddrMap<IfaceKind>,
))
    ensures
        are_announced(interfaces@, local.0@, local.1@),
{
    let mut addrs: Vec<IpAddr> = Vec::new();
    let mut kinds: AddrMap<IfaceKind> = AddrMap::new();
    let mut i: usize = 0;
    assert(addrs@ =~= untagged(announced(interfaces@.take(0))));
    while i < interfaces.len()
        invariant
            i <= interfaces@.len(),
            addrs@ == untagged(announced(interfaces@.take(i as int))),
            kinds@ == entry_map(announced(interfaces@.take(i as int))),
        decreases interfaces@.len() - i,
    {
        let iface = &interfaces[i];
        let ghost before = announced(interfaces@.take(i as int));
        proof {
            assert(interfaces@.take(i + 1).drop_last() =~= interfaces@.take(i as int));
            assert(interfaces@.take(i + 1).last() == *iface);
        }
        let kind: IfaceKind = iface_kind(iface.if_type);
        if kind != IfaceKind::Other && !is_virtual_name(iface.name.as_str()) {
            let ghost all = interface_addrs(*iface);
            assert(before + tagged(all.take(0), kind) =~= before);
            let mut j: usize = 0;
            while j < iface.ipv4.len()
                invariant
                    j <= iface.ipv4@.len(),
                    all == interface_addrs(*iface),
                    addrs@ == untagged(before + tagged(all.take(j as int), kind)),
                    kinds@ == entry_map(before + tagged(all.take(j as int), kind)),
                decreases iface.ipv4@.len() - j,
            {
                proof {
                    lemma_tagged_step(before, all, j as int, kind);
                }
                announce(&mut addrs, &mut kinds, IpAddr::V4(iface.ipv4[j]), kind);
                j += 1;
            }
            let mut k: usize = 0;
            while k < iface.ipv6.len()
                invariant
                    k <= iface.ipv6@.len(),
                    all == interface_addrs(*iface),
                    addrs@ == untagged(
                        before + tagged(all.take(iface.ipv4@.len() + k as int), kind),
                    ),
                    kinds@ == entry_map(
                        before + tagged(all.take(iface.ipv4@.len() + k as int), kind),
                    ),
                decreases iface.ipv6@.len() - k,
            {
                proof {
                    lemma_tagged_step(before, all, iface.ipv4@.len() + k as int, kind);
                }
                announce(&mut addrs, &mut kinds, IpAddr::V6(iface.ipv6[k]), kind);
                k += 1;
            }
            assert(all.take(iface.ipv4@.len() + k as int) =~= all);
        }
        i += 1;
    }
    assert(interfaces@.take(i as int) =~= interfaces@);
    (addrs, kinds)
}

/// No address is announced that a peer cannot reach, and none of an interface
/// that is neither wired nor wireless.
pub proof fn law_announced_addresses_are_routable(interfaces: Seq<NetInterface>, i: int)
    requires
        0 <= i < announced(interfaces).len(),
    ensures
        routable(announced(interfaces)[i].0),
        announced(interfaces)[i].1 != IfaceKind::Other,
    decreases interfaces.len(),
{
    if interfaces.len() > 0 {
        let before = announced(interfaces.drop_last());
        if i < before.len() {
            law_announced_addresses_are_routable(interfaces.drop_last(), i);
        } else {
            let last = interfaces.last();
            lemma_tagged_routable(
                interface_addrs(last),
                kind_of(last.if_type),
                i - before.len(),
            );
        }
    }
}

proof fn lemma_tagged_routable(addrs: Seq<IpAddr>, kind: IfaceKind, i: int)
    requires
        0 <= i < tagged(addrs, kind).len(),
    ensures
        routable(tagged(addrs, kind)[i].0),
        tagged(addrs, kind)[i].1 == kind,
    decreases addrs.len(),
{
    if addrs.len() > 0 {
        let before = tagged(addrs.drop_last(), kind);
        if i < before.len() {
            lemma_tagged_routable(addrs.drop_last(), kind, i);
        }
    }
}

/// A peer can reach an address unless it is loopback, unspecified or link-local.
pub proof fn law_reachable_addresses(ip: IpAddr)
    ensures
        routable(ip) <==> match ip {
            IpAddr::V4(v4) => v4 != 0 && !(0x7f00_0000 <= v4 <= 0x7fff_ffff) && !(0xa9fe_0000 <= v4
                <= 0xa9fe_ffff),
            IpAddr::V6(v6) => v6 > 1 && !(0xfe80_0000_0000_0000_0000_0000_0000_0000 <= v6
                <= 0xfebf_ffff_ffff_ffff_ffff_ffff_ffff_ffff),
        },
{
}

/// Ethernet is wired, IEEE 802.11 is wireless, and everything else is neither.
pub proof fn law_interfaces_are_classified(if_type: InterfaceType)
    ensures
        kind_of(if_type) is WiFi <==> if_type is Wireless80211 || if_type is PeerToPeerWireless,
        kind_of(if_type) is Other <==> if_type is Loopback || if_type is Tunnel || if_type is Bridge
            || if_type is Unclassified,
{
}

/// What is announced: the addresses that a peer can reach, of wired and wireless
/// interfaces that are not virtual, each with the kind of such an interface.
pub proof fn law_what_is_announced(
    interfaces: Seq<NetInterface>,
    ip: IpAddr,
    kind: IfaceKind,
)
    ensures
        announced(interfaces).contains((ip, kind)) <==> exists|i: int|
            0 <= i < interfaces.len() && announces(#[trigger] interfaces[i], ip, kind),
    decreases interfaces.len(),
{
    if interfaces.len() > 0 {
        let front = interfaces.drop_last();
        let last = interfaces.last();
        let before = announced(front);
        let all = announced(interfaces);
        law_what_is_announced(front, ip, kind);
        let more = tagged(interface_addrs(last), kind_of(last.if_type));
        lemma_tagged_members(interface_addrs(last), kind_of(last.if_type), ip, kind);
        lemma_interface_addrs(last, ip);
        assert(interfaces[interfaces.len() - 1] == last);
        if kind_of(last.if_type) != IfaceKind::Other && !virtual_name(last.name@) {
            assert(all == before + more);
            if before.contains((ip, kind)) {
                let k = choose|k: int| 0 <= k < before.len() && before[k] == (ip, kind);
                assert(all[k] == (ip, kind));
            }
            if more.contains((ip, kind)) {
                let k = choose|k: int| 0 <= k < more.len() && more[k] == (ip, kind);
                assert(all[before.len() + k] == (ip, kind));
            }
            if all.contains((ip, kind)) {
                let k = choose|k: int| 0 <= k < all.len() && all[k] == (ip, kind);
                if k < before.len() {
                    assert(before[k] == (ip, kind));
                } else {
                    assert(more[k - before.len()] == (ip, kind));
                }
            }
        }
        if before.contains((ip, kind)) {
            let i = choose|i: int|
                0 <= i < front.len() && announces(#[trigger] front[i], ip, kind);
            assert(interfaces[i] == front[i]);
        }
        if exists|i: int|
            0 <= i < interfaces.len() && announces(#[trigger] interfaces[i], ip, kind) {
            let i = choose|i: int|
                0 <= i < interfaces.len() && announces(#[trigger] interfaces[i], ip, kind);
            if i < front.len() {
                assert(front[i] == interfaces[i]);
            }
        }
    }
}

/// An interface has the address, a peer can reach it, and the interface is a
/// wired or wireless one of that kind and not virtual.
pub open spec fn announces(iface: NetInterface, ip: IpAddr, kind: IfaceKind) -> bool {
    &&& match ip {
        IpAddr::V4(v4) => iface.ipv4@.contains(v4),
        IpAddr::V6(v6) => iface.ipv6@.contains(v6),
    }
    &&& routable(ip)
    &&& kind_of(iface.if_type) == kind
    &&& kind != IfaceKind::Other
    &&& !virtual_name(iface.name@)
}

proof fn lemma_interface_addrs(iface: NetInterface, ip: IpAddr)
    ensures
        interface_addrs(iface).contains(ip) <==> match ip {
            IpAddr::V4(v4) => iface.ipv4@.contains(v4),
            IpAddr::V6(v6) => iface.ipv6@.contains(v6),
        },
{
    let all = interface_addrs(iface);
    match ip {
        IpAddr::V4(v4) => {
            if iface.ipv4@.contains(v4) {
                let k = choose|k: int| 0 <= k < iface.ipv4@.len() && iface.ipv4@[k] == v4;
                assert(all[k] == ip);
            }
            if all.contains(ip) {
                let k = choose|k: int| 0 <= k < all.len() && all[k] == ip;
                assert(iface.ipv4@[k] == v4);
            }
        },
        IpAddr::V6(v6) => {
            let n = iface.ipv4@.len();
            if iface.ipv6@.contains(v6) {
                let k = choose|k: int| 0 <= k < iface.ipv6@.len() && iface.ipv6@[k] == v6;
                assert(all[n + k] == ip);
            }
            if all.contains(ip) {
                let k = choose|k: int| 0 <= k < all.len() && all[k] == ip;
                assert(iface.ipv6@[k - n] == v6);
            }
        },
    }
}

proof fn lemma_tagged_members(addrs: Seq<IpAddr>, own: IfaceKind, ip: IpAddr, kind: IfaceKind)
    ensures
        tagged(addrs, own).contains((ip, kind)) <==> addrs.contains(ip) && routable(ip) && kind
            == own,
    decreases addrs.len(),
{
    if addrs.len() > 0 {
        let front = addrs.drop_last();
        let before = tagged(front, own);
        let all = tagged(addrs, own);
        lemma_tagged_members(front, own, ip, kind);
        assert(addrs.contains(ip) <==> front.contains(ip) || ip == addrs.last()) by {
            if front.contains(ip) {
                let k = choose|k: int| 0 <= k < front.len() && front[k] == ip;
                assert(addrs[k] == ip);
            }
            if addrs.contains(ip) && ip != addrs.last() {
                let k = choose|k: int| 0 <= k < addrs.len() && addrs[k] == ip;
                assert(front[k] == ip);
            }
            assert(addrs[addrs.len() - 1] == addrs.last());
        }
        if routable(addrs.last()) {
            assert(all == before.push((addrs.last(), own)));
            if before.contains((ip, kind)) {
                let k = choose|k: int| 0 <= k < before.len() && before[k] == (ip, kind);
                assert(all[k] == (ip, kind));
            }
            if all.contains((ip, kind)) {
                let k = choose|k: int| 0 <= k < all.len() && all[k] == (ip, kind);
                if k < before.len() {
                    assert(before[k] == (ip, kind));
                }
            }
            assert(all[before.len() as int] == (addrs.last(), own));
        }
    }
}

/// Interfaces of containers, virtual machines and tunnels are virtual by their
/// names, whatever follows; those of network cards are not.
pub proof fn law_virtual_interfaces_have_such_names(rest: Seq<char>, name: Seq<char>)
    ensures
        virtual_name("docker"@ + rest),
        virtual_name("br-"@ + rest),
        virtual_name("virbr"@ + rest),
        virtual_name("veth"@ + rest),
        virtual_name("vmnet"@ + rest),
        virtual_name("vboxnet"@ + rest),
        virtual_name("tap"@ + rest),
        virtual_name("tun"@ + rest),
        virtual_name("utun"@ + rest),
        virtual_name("zt"@ + rest),
        virtual_name(name) ==> name.len() > 1 && (name[0] == 'd' || name[0] == 'b' || name[0]
            == 'v' || name[0] == 't' || name[0] == 'u' || name[0] == 'z'),
{
    reveal_strlit("docker");
    reveal_strlit("br-");
    reveal_strlit("virbr");
    reveal_strlit("veth");
    reveal_strlit("vmnet");
    reveal_strlit("vboxnet");
    reveal_strlit("tap");
    reveal_strlit("tun");
    reveal_strlit("utun");
    reveal_strlit("zt");
    lemma_begins("docker"@, rest, name);
    lemma_begins("br-"@, rest, name);
    lemma_begins("virbr"@, rest, name);
    lemma_begins("veth"@, rest, name);
    lemma_begins("vmnet"@, rest, name);
    lemma_begins("vboxnet"@, rest, name);
    lemma_begins("tap"@, rest, name);
    lemma_begins("tun"@, rest, name);
    lemma_begins("utun"@, rest, name);
    lemma_begins("zt"@, rest, name);
}

proof fn lemma_begins(a: Seq<char>, rest: Seq<char>, name: Seq<char>)
    requires
        a.len() > 1,
    ensures
        a.is_prefix_of(a + rest),
        a.is_prefix_of(name) ==> name.len() > 1 && name[0] == a[0],
{
    assert(a =~= (a + rest).subrange(0, a.len() as int));
    if a.is_prefix_of(name) {
        assert(name.subrange(0, a.len() as int)[0] == name[0]);
    }
}

/// A network is named by the hardware address of its gateway, so that two with
/// the same subnet are told apart; by its subnet where that address is unknown;
/// and has no name where neither is known.
pub proof fn law_networks_are_told_apart(
    mac: Seq<char>,
    other: Seq<char>,
    subnet: Option<Subnet>,
    another: Option<Subnet>,
)
    requires
        mac.len() > 0,
        mac != "00:00:00:00:00:00"@,
        other.len() > 0,
        other != "00:00:00:00:00:00"@,
    ensures
        network_id(Some(mac), subnet) == network_id(Some(other), another) <==> mac == other,
        network_id(Some(mac), subnet) is Some,
        network_id(None, subnet) is Some <==> subnet is Some,
        network_id(Some("00:00:00:00:00:00"@), subnet) == network_id(None, subnet),
        network_id(Some(Seq::empty()), subnet) == network_id(None, subnet),
        network_id(None, subnet) != network_id(Some(mac), another),
        network_id(Some(mac), subnet) == Some("gw:"@ + mac),
        subnet matches Some(net) ==> network_id(None, subnet) == Some(
            "net:"@ + net.network@ + "/"@ + decimal(net.prefix_len as nat),
        ),
{
    reveal_strlit("gw:");
    reveal_strlit("net:");
    let a = "gw:"@ + mac;
    let b = "gw:"@ + other;
    if a == b {
        assert(mac =~= a.skip(3));
        assert(other =~= b.skip(3));
    }
    if let Some(net) = subnet {
        let text = "net:"@ + net.network@ + "/"@ + decimal(net.prefix_len as nat);
        assert(text[0] == 'n');
        assert(a[0] == 'g');
    }
}

/// The peers learn of every address at which they can reach this host by wire or
/// by air, and of no other, each with the kind of an interface that has it.
pub proof fn law_peers_learn_of_every_address(
    interfaces: Seq<NetInterface>,
    addrs: Seq<IpAddr>,
    kinds: Map<IpAddr, IfaceKind>,
    ip: IpAddr,
)
    requires
        are_announced(interfaces, addrs, kinds),
    ensures
        addrs.contains(ip) <==> kinds.contains_key(ip),
        addrs.contains(ip) <==> exists|i: int, kind: IfaceKind|
            0 <= i < interfaces.len() && #[trigger] announces(interfaces[i], ip, kind),
        kinds.contains_key(ip) ==> exists|i: int|
            0 <= i < interfaces.len() && announces(#[trigger] interfaces[i], ip, kinds[ip]),
{
    let list = announced(interfaces);
    lemma_entry_map_members(list, ip);
    if addrs.contains(ip) {
        let k = choose|k: int| 0 <= k < addrs.len() && addrs[k] == ip;
        assert(list[k].0 == ip);
        assert(list.contains(list[k]));
        law_what_is_announced(interfaces, ip, list[k].1);
        let i = choose|i: int|
            0 <= i < interfaces.len() && announces(#[trigger] interfaces[i], ip, list[k].1);
        assert(announces(interfaces[i], ip, list[k].1));
    }
    if exists|i: int, kind: IfaceKind|
        0 <= i < interfaces.len() && #[trigger] announces(interfaces[i], ip, kind) {
        let (i, kind) = choose|i: int, kind: IfaceKind|
            0 <= i < interfaces.len() && #[trigger] announces(interfaces[i], ip, kind);
        law_what_is_announced(interfaces, ip, kind);
        let k = choose|k: int| 0 <= k < list.len() && list[k] == (ip, kind);
        assert(addrs[k] == ip);
    }
    if kinds.contains_key(ip) {
        law_what_is_announced(interfaces, ip, kinds[ip]);
        let k = choose|k: int| 0 <= k < list.len() && list[k] == (ip, kinds[ip]);
        assert(addrs[k] == ip);
    }
}

proof fn lemma_entry_map_members(list: Seq<(IpAddr, IfaceKind)>, ip: IpAddr)
    ensures
        entry_map(list).contains_key(ip) ==> list.contains((ip, entry_map(list)[ip])),
        (exists|k: int| 0 <= k < list.len() && (#[trigger] list[k]).0 == ip) ==> entry_map(
            list,
        ).contains_key(ip),
    decreases list.len(),
{
    if list.len() > 0 {
        let front = list.drop_last();
        lemma_entry_map_members(front, ip);
        assert(list[list.len() - 1] == list.last());
        if entry_map(list).contains_key(ip) && list.last().0 != ip {
            let k = choose|k: int| 0 <= k < front.len() && front[k] == (ip, entry_map(front)[ip]);
            assert(list[k] == front[k]);
        }
        if exists|k: int| 0 <= k < list.len() && (#[trigger] list[k]).0 == ip {
            let k = choose|k: int| 0 <= k < list.len() && (#[trigger] list[k]).0 == ip;
            if k < front.len() {
                assert(front[k].0 == ip);
            }
        }
    }
}

} // verus!
