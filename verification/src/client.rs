//! The table of clients: their configuration, their state, and the rules by
//! which both change.
use vstd::prelude::*;
use slab::Slab;
use crate::addr::{
    copy_list, entry_map, lemma_entry_map, same_list, ip_le, AddrMap, AddrSet, IpAddr, SocketAddr,
};
use crate::locks::LockMap;
use crate::network::IfaceKind;
use crate::proto::Position;
use crate::text::{copy_text, same_optional_text, str_view, text_view};

verus! {

/// Names a client.
pub type ClientHandle = u64;

/// The port on which a peer listens unless it is told otherwise.
pub const DEFAULT_PORT: u16 = 4252;

/// How the address of a client is chosen where none is locked.
#[derive(Debug, PartialEq, Eq, Clone, Copy, Structural)]
pub enum ConnectionMode {
    /// The address that answers first.
    Auto,
    /// The address with the lowest latency.
    Fastest,
}

/// What the user sets of a client.
#[derive(Debug)]
pub struct ClientConfig {
    pub hostname: Option<String>,
    /// Addresses that the user listed.
    pub fix_ips: Vec<IpAddr>,
    pub port: u16,
    pub pos: Position,
    /// The command to run when the cursor enters the client.
    pub cmd: Option<String>,
    pub mode: ConnectionMode,
    pub network_locks: LockMap,
    /// Whether clipboard content is sent to the client.
    pub clipboard_send: bool,
}

/// What is known of a client at run time.
#[derive(Debug)]
pub struct ClientState {
    pub active: bool,
    /// The address of the live connection.
    pub active_addr: Option<SocketAddr>,
    pub alive: bool,
    /// Addresses that name resolution gave.
    pub dns_ips: Vec<IpAddr>,
    /// Addresses that the peer announced.
    pub discovered_ips: Vec<IpAddr>,
    /// All candidate addresses.
    pub ips: AddrSet,
    pub resolving: bool,
    pub peer_commit: Option<[u8; 8]>,
    /// The address that is locked on the present network.
    pub active_lock: Option<IpAddr>,
    /// The latest round trip of each probed address in microseconds, or none
    /// where the probe failed.
    pub latencies: AddrMap<Option<u32>>,
    pub interfaces: AddrMap<IfaceKind>,
}

/// A client as the configuration file holds it.
#[derive(Debug)]
pub struct ConfigClient {
    pub ips: AddrSet,
    pub hostname: Option<String>,
    pub port: u16,
    pub pos: Position,
    pub active: bool,
    pub enter_hook: Option<String>,
    pub mode: ConnectionMode,
    pub network_locks: LockMap,
    pub clipboard_send: bool,
}

/// What a [`ClientConfig`] says.
#[verifier::ext_equal]
pub struct ConfigView {
    pub hostname: Option<Seq<char>>,
    pub fix_ips: Seq<IpAddr>,
    pub port: u16,
    pub pos: Position,
    pub cmd: Option<Seq<char>>,
    pub mode: ConnectionMode,
    pub network_locks: Map<Seq<char>, IpAddr>,
    pub clipboard_send: bool,
}

/// What a [`ClientState`] says.
#[verifier::ext_equal]
pub struct StateView {
    pub active: bool,
    pub active_addr: Option<SocketAddr>,
    pub alive: bool,
    pub dns_ips: Seq<IpAddr>,
    pub discovered_ips: Seq<IpAddr>,
    pub ips: Set<IpAddr>,
    pub resolving: bool,
    pub peer_commit: Option<[u8; 8]>,
    pub active_lock: Option<IpAddr>,
    pub latencies: Map<IpAddr, Option<u32>>,
    pub interfaces: Map<IpAddr, IfaceKind>,
}

/// The configuration and the state of a client.
#[verifier::ext_equal]
pub struct ClientView {
    pub config: ConfigView,
    pub state: StateView,
}

impl View for ClientConfig {
    type V = ConfigView;

    open spec fn view(&self) -> ConfigView {
        ConfigView {
            hostname: text_view(self.hostname),
            fix_ips: self.fix_ips@,
            port: self.port,
            pos: self.pos,
            cmd: text_view(self.cmd),
            mode: self.mode,
            network_locks: self.network_locks@,
            clipboard_send: self.clipboard_send,
        }
    }
}

impl View for ClientState {
    type V = StateView;

    open spec fn view(&self) -> StateView {
        StateView {
            active: self.active,
            active_addr: self.active_addr,
            alive: self.alive,
            dns_ips: self.dns_ips@,
            discovered_ips: self.discovered_ips@,
            ips: self.ips@,
            resolving: self.resolving,
            peer_commit: self.peer_commit,
            active_lock: self.active_lock,
            latencies: self.latencies@,
            interfaces: self.interfaces@,
        }
    }
}

pub open spec fn client_view(client: (ClientConfig, ClientState)) -> ClientView {
    ClientView { config: client.0@, state: client.1@ }
}

/// The collection `slab::Slab`, opaque here.
#[verifier::external_type_specification]
#[verifier::external_body]
#[verifier::reject_recursive_types(T)]
pub struct ExSlab<T>(slab::Slab<T>);

/// The values that a slab holds, by their keys.
pub uninterp spec fn slab_contents(slab: Slab<(ClientConfig, ClientState)>) -> Map<
    usize,
    (ClientConfig, ClientState),
>;

/// The key that a slab will give to the next value.
pub uninterp spec fn slab_vacant_key(slab: Slab<(ClientConfig, ClientState)>) -> usize;

/// `Slab::new` makes a slab that holds nothing and whose next key is zero.
#[verifier::external_body]
fn slab_new() -> (empty: Slab<(ClientConfig, ClientState)>)
    ensures
        slab_contents(empty).dom() == Set::<usize>::empty(),
        slab_vacant_key(empty) == 0,
{
    Slab::new()
}

/// `Slab::insert` stores the value under the slab's vacant key, which no other
/// value has, and returns that key. Which key is vacant next is not stated.
#[verifier::external_body]
fn slab_insert(
    slab: &mut Slab<(ClientConfig, ClientState)>,
    value: (ClientConfig, ClientState),
) -> (key: usize)
    ensures
        key == slab_vacant_key(*old(slab)),
        !slab_contents(*old(slab)).contains_key(key),
        slab_contents(*final(slab)) == slab_contents(*old(slab)).insert(key, value),
{
    slab.insert(value)
}

/// `Slab::get` finds the value of a key, where there is one.
#[verifier::external_body]
fn slab_get(slab: &Slab<(ClientConfig, ClientState)>, key: usize) -> (value: Option<
    &(ClientConfig, ClientState),
>)
    ensures
        match value {
            Some(v) => slab_contents(*slab).contains_key(key) && *v == slab_contents(*slab)[key],
            None => !slab_contents(*slab).contains_key(key),
        },
{
    slab.get(key)
}

/// `Slab::get_mut` lends the value of a key for change, where there is one:
/// what is put in its place takes its key, and nothing else changes.
#[verifier::external_body]
fn slab_get_mut(slab: &mut Slab<(ClientConfig, ClientState)>, key: usize) -> (value: Option<
    &mut (ClientConfig, ClientState),
>)
    ensures
        slab_contents(*old(slab)).contains_key(key) ==> value.is_some() && *value.unwrap()
            == slab_contents(*old(slab))[key] && slab_contents(*final(slab)) == slab_contents(
            *old(slab),
        ).insert(key, *final(value.unwrap())),
        !slab_contents(*old(slab)).contains_key(key) ==> value.is_none() && slab_contents(
            *final(slab),
        ) == slab_contents(*old(slab)),
        slab_vacant_key(*final(slab)) == slab_vacant_key(*old(slab)),
{
    slab.get_mut(key)
}

/// `Slab::try_remove` takes the value of a key out, where there is one; the
/// key is then the next to be given out.
#[verifier::external_body]
fn slab_try_remove(slab: &mut Slab<(ClientConfig, ClientState)>, key: usize) -> (value: Option<
    (ClientConfig, ClientState),
>)
    ensures
        match value {
            Some(v) => slab_contents(*old(slab)).contains_key(key) && v == slab_contents(
                *old(slab),
            )[key] && slab_contents(*final(slab)) == slab_contents(*old(slab)).remove(key)
                && slab_vacant_key(*final(slab)) == key,
            None => !slab_contents(*old(slab)).contains_key(key) && *final(slab) == *old(slab),
        },
{
    slab.try_remove(key)
}

/// `Slab::iter` walks the values in ascending order of their keys: these are
/// the keys.
#[verifier::external_body]
fn slab_keys(slab: &Slab<(ClientConfig, ClientState)>) -> (keys: Vec<usize>)
    ensures
        forall|i: int, j: int| 0 <= i < j < keys@.len() ==> keys@[i] < keys@[j],
        forall|k: usize| keys@.contains(k) <==> slab_contents(*slab).contains_key(k),
{
    slab.iter().map(|(key, _)| key).collect()
}

/// The clients by their handles.
pub struct ClientManager {
    clients: Slab<(ClientConfig, ClientState)>,
}

impl View for ClientManager {
    type V = Map<usize, ClientView>;

    closed spec fn view(&self) -> Map<usize, ClientView> {
        slab_contents(self.clients).map_values(|c: (ClientConfig, ClientState)| client_view(c))
    }
}

impl ClientManager {
    /// The key of the next client to be added.
    pub closed spec fn next_key(self) -> usize {
        slab_vacant_key(self.clients)
    }
}

impl Clone for ClientConfig {
    fn clone(&self) -> (config: Self)
        ensures
            config@ == self@,
    {
        ClientConfig {
            hostname: copy_text(&self.hostname),
            fix_ips: copy_list(&self.fix_ips),
            port: self.port,
            pos: self.pos,
            cmd: copy_text(&self.cmd),
            mode: self.mode,
            network_locks: self.network_locks.clone(),
            clipboard_send: self.clipboard_send,
        }
    }
}

impl Clone for ClientState {
    fn clone(&self) -> (state: Self)
        ensures
            state@ == self@,
    {
        ClientState {
            active: self.active,
            active_addr: self.active_addr,
            alive: self.alive,
            dns_ips: copy_list(&self.dns_ips),
            discovered_ips: copy_list(&self.discovered_ips),
            ips: self.ips.clone(),
            resolving: self.resolving,
            peer_commit: self.peer_commit,
            active_lock: self.active_lock,
            latencies: self.latencies.clone(),
            interfaces: self.interfaces.clone(),
        }
    }
}

/// A client that has not been configured.
pub open spec fn default_config() -> ConfigView {
    ConfigView {
        hostname: None,
        fix_ips: Seq::empty(),
        port: DEFAULT_PORT,
        pos: Position::Left,
        cmd: None,
        mode: ConnectionMode::Auto,
        network_locks: Map::empty(),
        clipboard_send: false,
    }
}

/// A client of which nothing is known.
pub open spec fn default_state() -> StateView {
    StateView {
        active: false,
        active_addr: None,
        alive: false,
        dns_ips: Seq::empty(),
        discovered_ips: Seq::empty(),
        ips: Set::empty(),
        resolving: false,
        peer_commit: None,
        active_lock: None,
        latencies: Map::empty(),
        interfaces: Map::empty(),
    }
}

impl Default for ConnectionMode {
    fn default() -> (mode: Self)
        ensures
            mode == ConnectionMode::Auto,
    {
        ConnectionMode::Auto
    }
}

impl Default for ClientConfig {
    fn default() -> (config: Self)
        ensures
            config@ == default_config(),
    {
        ClientConfig {
            hostname: None,
            fix_ips: Vec::new(),
            port: DEFAULT_PORT,
            pos: Position::Left,
            cmd: None,
            mode: ConnectionMode::Auto,
            network_locks: LockMap::new(),
            clipboard_send: false,
        }
    }
}

impl Default for ClientState {
    fn default() -> (state: Self)
        ensures
            state@ == default_state(),
    {
        ClientState {
            active: false,
            active_addr: None,
            alive: false,
            dns_ips: Vec::new(),
            discovered_ips: Vec::new(),
            ips: AddrSet::new(),
            resolving: false,
            peer_commit: None,
            active_lock: None,
            latencies: AddrMap::new(),
            interfaces: AddrMap::new(),
        }
    }
}

impl Default for ClientManager {
    /// A table without clients.
    fn default() -> (manager: Self)
        ensures
            manager@ == Map::<usize, ClientView>::empty(),
            manager.next_key() == 0,
    {
        let manager = ClientManager { clients: slab_new() };
        assert(manager@ =~= Map::<usize, ClientView>::empty());
        manager
    }
}

/// The clients after `change` was made to one of them: all as before where
/// there is none with that handle.
pub open spec fn changed(
    clients: Map<usize, ClientView>,
    handle: ClientHandle,
    change: spec_fn(ClientView) -> ClientView,
) -> Map<usize, ClientView> {
    if clients.contains_key(handle as usize) {
        clients.insert(handle as usize, change(clients[handle as usize]))
    } else {
        clients
    }
}

/// The client with its candidate addresses gathered anew: those that were
/// listed, resolved or announced. What is known of other addresses is dropped.
pub open spec fn refolded(client: ClientView) -> ClientView {
    let ips = client.config.fix_ips.to_set().union(client.state.dns_ips.to_set()).union(
        client.state.discovered_ips.to_set(),
    );
    ClientView {
        config: client.config,
        state: StateView {
            ips,
            latencies: client.state.latencies.restrict(ips),
            interfaces: client.state.interfaces.restrict(ips),
            ..client.state
        },
    }
}

/// The client with another configuration.
pub open spec fn with_config(client: ClientView, config: ConfigView) -> ClientView {
    ClientView { config, ..client }
}

/// The client in another state.
pub open spec fn with_state(client: ClientView, state: StateView) -> ClientView {
    ClientView { state, ..client }
}

/// The client with another command for when the cursor enters it.
pub open spec fn with_enter_hook(client: ClientView, cmd: Option<Seq<char>>) -> ClientView {
    ClientView { config: ConfigView { cmd, ..client.config }, ..client }
}

/// The client whose name is being resolved, or not.
pub open spec fn with_resolving(client: ClientView, resolving: bool) -> ClientView {
    ClientView { state: StateView { resolving, ..client.state }, ..client }
}

/// The client with another address of the live connection.
pub open spec fn with_active_addr(client: ClientView, active_addr: Option<SocketAddr>) -> ClientView {
    ClientView { state: StateView { active_addr, ..client.state }, ..client }
}

/// The client that takes input, or not.
pub open spec fn with_alive(client: ClientView, alive: bool) -> ClientView {
    ClientView { state: StateView { alive, ..client.state }, ..client }
}

/// The client with another commit of its build.
pub open spec fn with_peer_commit(client: ClientView, peer_commit: Option<[u8; 8]>) -> ClientView {
    ClientView { state: StateView { peer_commit, ..client.state }, ..client }
}

/// The client that is active, or not.
pub open spec fn with_activity(client: ClientView, active: bool) -> ClientView {
    ClientView { state: StateView { active, ..client.state }, ..client }
}

/// The client at another position.
pub open spec fn with_pos(client: ClientView, pos: Position) -> ClientView {
    ClientView { config: ConfigView { pos, ..client.config }, ..client }
}

/// The client to which clipboard content is sent, or not.
pub open spec fn with_clipboard_send(client: ClientView, clipboard_send: bool) -> ClientView {
    ClientView { config: ConfigView { clipboard_send, ..client.config }, ..client }
}

/// The client with other listed addresses.
pub open spec fn with_fix_ips(client: ClientView, fix_ips: Seq<IpAddr>) -> ClientView {
    refolded(ClientView { config: ConfigView { fix_ips, ..client.config }, ..client })
}

/// The client with other resolved addresses.
pub open spec fn with_dns_ips(client: ClientView, dns_ips: Seq<IpAddr>) -> ClientView {
    refolded(ClientView { state: StateView { dns_ips, ..client.state }, ..client })
}

/// The client with other announced addresses: nothing changes where it has
/// those.
pub open spec fn with_discovered(client: ClientView, discovered_ips: Seq<IpAddr>) -> ClientView {
    if client.state.discovered_ips == discovered_ips {
        client
    } else {
        refolded(ClientView { state: StateView { discovered_ips, ..client.state }, ..client })
    }
}

/// The interface kinds of a client with announced ones merged in: an announced
/// kind replaces the one that was known of the address, the others stay. Only
/// candidate addresses are kept.
pub open spec fn merged_interfaces(
    state: StateView,
    interfaces: Map<IpAddr, IfaceKind>,
) -> Map<IpAddr, IfaceKind> {
    state.interfaces.union_prefer_right(interfaces).restrict(state.ips)
}

/// The client with announced interface kinds merged in.
pub open spec fn with_interfaces(
    client: ClientView,
    interfaces: Map<IpAddr, IfaceKind>,
) -> ClientView {
    ClientView {
        state: StateView {
            interfaces: merged_interfaces(client.state, interfaces),
            ..client.state
        },
        ..client
    }
}

/// The client with a measured round trip, where the address is a candidate.
pub open spec fn with_latency(client: ClientView, ip: IpAddr, rtt: Option<u32>) -> ClientView {
    if client.state.ips.contains(ip) {
        ClientView {
            state: StateView {
                latencies: client.state.latencies.insert(ip, rtt),
                ..client.state
            },
            ..client
        }
    } else {
        client
    }
}

/// The client with an address locked on a network.
pub open spec fn with_network_lock(client: ClientView, network: Seq<char>, ip: IpAddr) -> ClientView {
    ClientView {
        config: ConfigView {
            network_locks: client.config.network_locks.insert(network, ip),
            ..client.config
        },
        ..client
    }
}

/// The client with the lock that applies on the present network.
pub open spec fn with_resolved_lock(client: ClientView, network: Option<Seq<char>>) -> ClientView {
    ClientView {
        state: StateView { active_lock: lock_on(client.config, network), ..client.state },
        ..client
    }
}

/// `found` is the first client, in the order of the keys, that `wanted` holds
/// of.
pub open spec fn finds_first(
    clients: Map<usize, ClientView>,
    wanted: spec_fn(ClientView) -> bool,
    found: Option<ClientHandle>,
) -> bool {
    match found {
        Some(handle) => exists|k: usize|
            handle == k as u64 && clients.contains_key(k) && #[trigger] wanted(clients[k])
                && forall|j: usize|
                j < k && clients.contains_key(j) ==> !(#[trigger] wanted(clients[j])),
        None => forall|j: usize| clients.contains_key(j) ==> !(#[trigger] wanted(clients[j])),
    }
}

/// The handles of the clients that `wanted` holds of, in the order of the
/// keys.
pub open spec fn lists_all(
    clients: Map<usize, ClientView>,
    wanted: spec_fn(ClientView) -> bool,
    handles: Seq<ClientHandle>,
) -> bool {
    &&& forall|i: int, j: int| 0 <= i < j < handles.len() ==> handles[i] < handles[j]
    &&& forall|i: int|
        0 <= i < handles.len() ==> handles[i] == (#[trigger] handles[i] as usize) as u64
            && clients.contains_key(handles[i] as usize) && wanted(clients[handles[i] as usize])
    &&& forall|k: usize|
        clients.contains_key(k) && #[trigger] wanted(clients[k]) ==> handles.contains(k as u64)
}

/// The client is reached at `ip`: it is a candidate, or the live connection
/// runs there. Only active clients are.
pub open spec fn reached_at(client: ClientView, ip: IpAddr) -> bool {
    client.state.active && (client.state.ips.contains(ip) || (
    client.state.active_addr matches Some(addr) && addr.ip == ip))
}

/// An active client stands at the position.
pub open spec fn stands_at(client: ClientView, pos: Position) -> bool {
    client.state.active && client.config.pos == pos
}

/// Clipboard content is sent to the client.
pub open spec fn takes_clipboard(client: ClientView) -> bool {
    client.config.clipboard_send && client.state.active
}

/// `ip` is the reachable address with the lowest latency `us`; of two with the
/// same latency the lower address counts.
pub open spec fn is_fastest(latencies: Map<IpAddr, Option<u32>>, us: u32, ip: IpAddr) -> bool {
    &&& latencies.contains_key(ip) && latencies[ip] == Some(us)
    &&& forall|other: IpAddr|
        #![trigger latencies[other]]
        latencies.contains_key(other) && latencies[other] is Some ==> us < latencies[other]->0
            || us == latencies[other]->0 && ip_le(ip, other)
}

/// The least gain for which a connection is moved to another address.
pub const MIN_ABSOLUTE_GAIN_US: u32 = 15_000;

/// `ip` is the fastest address, and substantially faster than the address of
/// the live connection: at least twice as fast, and at least 15 ms better.
pub open spec fn is_upgrade(state: StateView, ip: IpAddr) -> bool {
    &&& state.active_addr matches Some(active)
    &&& ip != active.ip
    &&& state.latencies.contains_key(active.ip)
    &&& state.latencies[active.ip] matches Some(active_us)
    &&& exists|us: u32| #[trigger]
        is_fastest(state.latencies, us, ip) && 2 * us <= active_us && active_us - us
            >= MIN_ABSOLUTE_GAIN_US
}

/// The candidate addresses but for the one of the live connection.
pub open spec fn inactive_candidates(state: StateView) -> Set<IpAddr> {
    match state.active_addr {
        Some(active) => state.ips.remove(active.ip),
        None => state.ips,
    }
}

/// The lock that applies on a network.
pub open spec fn lock_on(config: ConfigView, network: Option<Seq<char>>) -> Option<IpAddr> {
    match network {
        Some(net) => if config.network_locks.contains_key(net) {
            Some(config.network_locks[net])
        } else {
            None
        },
        None => None,
    }
}

/// The reachable address with the lowest latency.
fn fastest(latencies: &AddrMap<Option<u32>>) -> (best: Option<(u32, IpAddr)>)
    ensures
        match best {
            Some((us, ip)) => is_fastest(latencies@, us, ip),
            None => forall|ip: IpAddr|
                latencies@.contains_key(ip) ==> #[trigger] latencies@[ip] is None,
        },
{
    let entries = latencies.entries();
    let mut best: Option<(u32, IpAddr)> = None;
    let mut i: usize = 0;
    while i < entries.len()
        invariant
            i <= entries@.len(),
            match best {
                Some((us, ip)) => {
                    &&& exists|k: int| 0 <= k < i && #[trigger] entries@[k] == (ip, Some(us))
                    &&& forall|k: int|
                        0 <= k < i && (#[trigger] entries@[k]).1 is Some ==> us < entries@[k].1->0
                            || us == entries@[k].1->0 && ip_le(ip, entries@[k].0)
                },
                None => forall|k: int| 0 <= k < i ==> (#[trigger] entries@[k]).1 is None,
            },
        decreases entries@.len() - i,
    {
        let (ip, rtt): (IpAddr, Option<u32>) = entries[i];
        if let Some(us) = rtt {
            let better: bool = match best {
                Some((best_us, best_ip)) => us < best_us || us == best_us && ip.le(&best_ip),
                None => true,
            };
            if better {
                best = Some((us, ip));
                assert(entries@[i as int] == (ip, Some(us)));
            }
        }
        i += 1;
    }
    proof {
        lemma_entry_map(entries@);
        match best {
            Some((us, ip)) => {
                let k = choose|k: int| 0 <= k < i && #[trigger] entries@[k] == (ip, Some(us));
                assert(latencies@.contains_key(entries@[k].0));
                assert forall|other: IpAddr|
                    #![trigger latencies@[other]]
                    latencies@.contains_key(other) && latencies@[other] is Some implies us
                    < latencies@[other]->0 || us == latencies@[other]->0 && ip_le(ip, other) by {
                    let j = choose|j: int|
                        0 <= j < entries@.len() && (#[trigger] entries@[j]).0 == other;
                    assert(latencies@[entries@[j].0] == entries@[j].1);
                }
            },
            None => {
                assert forall|ip: IpAddr| latencies@.contains_key(ip) implies #[trigger] latencies@[ip] is None by {
                    let j = choose|j: int|
                        0 <= j < entries@.len() && (#[trigger] entries@[j]).0 == ip;
                    assert(latencies@[entries@[j].0] == entries@[j].1);
                }
            },
        }
    }
    best
}

/// Whether both maps give every address the same kind.
fn same_kinds(a: &AddrMap<IfaceKind>, b: &AddrMap<IfaceKind>) -> (same: bool)
    ensures
        same == (a@ == b@),
{
    let within: bool = kinds_within(a, b) && kinds_within(b, a);
    proof {
        if within {
            assert(a@ =~= b@);
        }
    }
    within
}

/// Whether `b` gives every address of `a` the same kind.
fn kinds_within(a: &AddrMap<IfaceKind>, b: &AddrMap<IfaceKind>) -> (within: bool)
    ensures
        within == (forall|ip: IpAddr| #[trigger]
            a@.contains_key(ip) ==> b@.contains_key(ip) && b@[ip] == a@[ip]),
{
    let entries = a.entries();
    proof {
        lemma_entry_map(entries@);
    }
    let mut i: usize = 0;
    while i < entries.len()
        invariant
            i <= entries@.len(),
            a@ == entry_map(entries@),
            forall|k: int|
                0 <= k < entries@.len() ==> a@.contains_key((#[trigger] entries@[k]).0)
                    && a@[entries@[k].0] == entries@[k].1,
            forall|k: int|
                0 <= k < i ==> b@.contains_key((#[trigger] entries@[k]).0) && b@[entries@[k].0]
                    == entries@[k].1,
        decreases entries@.len() - i,
    {
        let same: bool = match b.get(&entries[i].0) {
            Some(kind) => kind == entries[i].1,
            None => false,
        };
        if !same {
            assert(a@.contains_key(entries@[i as int].0));
            return false;
        }
        i += 1;
    }
    assert forall|ip: IpAddr| #[trigger] a@.contains_key(ip) implies b@.contains_key(ip) && b@[ip]
        == a@[ip] by {
        let j = choose|j: int| 0 <= j < entries@.len() && (#[trigger] entries@[j]).0 == ip;
        assert(b@.contains_key(entries@[j].0));
    }
    true
}

/// Gathers the candidate addresses of a client anew.
fn refold(client: &mut (ClientConfig, ClientState))
    ensures
        client_view(*final(client)) == refolded(client_view(*old(client))),
{
    let mut ips = AddrSet::new();
    ips.insert_all(&client.0.fix_ips);
    ips.insert_all(&client.1.dns_ips);
    ips.insert_all(&client.1.discovered_ips);
    proof {
        let whole = refolded(client_view(*old(client))).state.ips;
        assert(ips@ =~= whole);
    }
    let latencies = client.1.latencies.restricted(&ips);
    let interfaces = client.1.interfaces.restricted(&ips);
    client.1.ips = ips;
    client.1.latencies = latencies;
    client.1.interfaces = interfaces;
}

/// Which clients are meant.
#[derive(Clone, Copy)]
enum Selection {
    All,
    Active,
    ClipboardTargets,
}

impl Selection {
    spec fn includes(self, client: ClientView) -> bool {
        match self {
            Selection::All => true,
            Selection::Active => client.state.active,
            Selection::ClipboardTargets => client.config.clipboard_send && client.state.active,
        }
    }
}

impl ClientManager {
    /// Sets the configuration of a client.
    pub fn set_config(&mut self, handle: ClientHandle, config: ClientConfig)
        ensures
            final(self).next_key() == old(self).next_key(),
            final(self)@ == changed(
                old(self)@,
                handle,
                (|c: ClientView| with_config(c, config@)),
            ),
    {
        let ghost before = self@;
        if let Some(client) = slab_get_mut(&mut self.clients, handle as usize) {
            client.0 = config;
        }
        assert(self@ =~= changed(
            before,
            handle,
            (|c: ClientView| with_config(c, config@)),
        ));
    }

    /// Sets the state of a client.
    pub fn set_state(&mut self, handle: ClientHandle, state: ClientState)
        ensures
            final(self).next_key() == old(self).next_key(),
            final(self)@ == changed(
                old(self)@,
                handle,
                (|c: ClientView| with_state(c, state@)),
            ),
    {
        let ghost before = self@;
        if let Some(client) = slab_get_mut(&mut self.clients, handle as usize) {
            client.1 = state;
        }
        assert(self@ =~= changed(
            before,
            handle,
            (|c: ClientView| with_state(c, state@)),
        ));
    }

    /// Sets the command to run when the cursor enters the client.
    pub fn set_enter_hook(&mut self, handle: ClientHandle, enter_hook: Option<String>)
        ensures
            final(self).next_key() == old(self).next_key(),
            final(self)@ == changed(
                old(self)@,
                handle,
                (|c: ClientView| with_enter_hook(c, text_view(enter_hook))),
            ),
    {
        let ghost before = self@;
        if let Some(client) = slab_get_mut(&mut self.clients, handle as usize) {
            client.0.cmd = enter_hook;
        }
        assert(self@ =~= changed(
            before,
            handle,
            (|c: ClientView| with_enter_hook(c, text_view(enter_hook))),
        ));
    }

    /// Sets whether the name of the client is being resolved.
    pub fn set_resolving(&mut self, handle: ClientHandle, status: bool)
        ensures
            final(self).next_key() == old(self).next_key(),
            final(self)@ == changed(
                old(self)@,
                handle,
                (|c: ClientView| with_resolving(c, status)),
            ),
    {
        let ghost before = self@;
        if let Some(client) = slab_get_mut(&mut self.clients, handle as usize) {
            client.1.resolving = status;
        }
        assert(self@ =~= changed(
            before,
            handle,
            (|c: ClientView| with_resolving(c, status)),
        ));
    }

    /// Sets the address of the live connection.
    pub fn set_active_addr(&mut self, handle: ClientHandle, addr: Option<SocketAddr>)
        ensures
            final(self).next_key() == old(self).next_key(),
            final(self)@ == changed(
                old(self)@,
                handle,
                (|c: ClientView| with_active_addr(c, addr)),
            ),
    {
        let ghost before = self@;
        if let Some(client) = slab_get_mut(&mut self.clients, handle as usize) {
            client.1.active_addr = addr;
        }
        assert(self@ =~= changed(
            before,
            handle,
            (|c: ClientView| with_active_addr(c, addr)),
        ));
    }

    /// Sets whether the client responds.
    pub fn set_alive(&mut self, handle: ClientHandle, alive: bool)
        ensures
            final(self).next_key() == old(self).next_key(),
            final(self)@ == changed(
                old(self)@,
                handle,
                (|c: ClientView| with_alive(c, alive)),
            ),
    {
        let ghost before = self@;
        if let Some(client) = slab_get_mut(&mut self.clients, handle as usize) {
            client.1.alive = alive;
        }
        assert(self@ =~= changed(
            before,
            handle,
            (|c: ClientView| with_alive(c, alive)),
        ));
    }

    /// Sets the commit hash of the client's build.
    pub fn set_peer_commit(&mut self, handle: ClientHandle, commit: Option<[u8; 8]>)
        ensures
            final(self).next_key() == old(self).next_key(),
            final(self)@ == changed(
                old(self)@,
                handle,
                (|c: ClientView| with_peer_commit(c, commit)),
            ),
    {
        let ghost before = self@;
        if let Some(client) = slab_get_mut(&mut self.clients, handle as usize) {
            client.1.peer_commit = commit;
        }
        assert(self@ =~= changed(
            before,
            handle,
            (|c: ClientView| with_peer_commit(c, commit)),
        ));
    }

    /// Sets the listed addresses of a client, and gathers its candidates anew.
    pub fn set_fix_ips(&mut self, handle: ClientHandle, fix_ips: Vec<IpAddr>)
        ensures
            final(self).next_key() == old(self).next_key(),
            final(self)@ == changed(
                old(self)@,
                handle,
                (|c: ClientView| with_fix_ips(c, fix_ips@)),
            ),
    {
        let ghost before = self@;
        if let Some(client) = slab_get_mut(&mut self.clients, handle as usize) {
            client.0.fix_ips = fix_ips;
            refold(client);
        }
        assert(self@ =~= changed(
            before,
            handle,
            (|c: ClientView| with_fix_ips(c, fix_ips@)),
        ));
    }

    /// Sets the resolved addresses of a client, and gathers its candidates anew.
    pub fn set_dns_ips(&mut self, handle: ClientHandle, dns_ips: Vec<IpAddr>)
        ensures
            final(self).next_key() == old(self).next_key(),
            final(self)@ == changed(
                old(self)@,
                handle,
                (|c: ClientView| with_dns_ips(c, dns_ips@)),
            ),
    {
        let ghost before = self@;
        if let Some(client) = slab_get_mut(&mut self.clients, handle as usize) {
            client.1.dns_ips = dns_ips;
            refold(client);
        }
        assert(self@ =~= changed(
            before,
            handle,
            (|c: ClientView| with_dns_ips(c, dns_ips@)),
        ));
    }
}

/// The client with another hostname: nothing changes where it has that one.
pub open spec fn renamed(client: ClientView, hostname: Option<Seq<char>>) -> ClientView {
    if client.config.hostname == hostname {
        client
    } else {
        refolded(
            ClientView {
                config: ConfigView { hostname, ..client.config },
                state: StateView { active_addr: None, dns_ips: Seq::empty(), ..client.state },
            },
        )
    }
}

/// The client with another base mode and without the lock of the network.
pub open spec fn with_mode(
    client: ClientView,
    mode: ConnectionMode,
    network: Option<Seq<char>>,
) -> ClientView {
    ClientView {
        config: ConfigView {
            mode,
            network_locks: match network {
                Some(net) => client.config.network_locks.remove(net),
                None => client.config.network_locks,
            },
            ..client.config
        },
        ..client
    }
}

/// The client with another port: nothing changes where it has that one.
pub open spec fn with_port(client: ClientView, port: u16) -> ClientView {
    if client.config.port == port {
        client
    } else {
        ClientView {
            config: ConfigView { port, ..client.config },
            state: StateView {
                active_addr: match client.state.active_addr {
                    Some(addr) => Some(
                        SocketAddr { ip: addr.ip, port, flow_info: 0, scope_id: 0 },
                    ),
                    None => None,
                },
                ..client.state
            },
        }
    }
}

impl ClientManager {
    /// Activates a client. Returns whether it was inactive.
    pub fn activate_client(&mut self, handle: ClientHandle) -> (activated: bool)
        ensures
            final(self).next_key() == old(self).next_key(),
            final(self)@ == changed(
                old(self)@,
                handle,
                (|c: ClientView| with_activity(c, true)),
            ),
            activated == (final(self)@ != old(self)@),
            activated == (old(self)@.contains_key(handle as usize) && !old(self)@[handle as usize].state.active),
    {
        let ghost before = self@;
        let activated: bool = match slab_get_mut(&mut self.clients, handle as usize) {
            Some(client) => {
                let was: bool = client.1.active;
                client.1.active = true;
                !was
            },
            None => false,
        };
        assert(self@ =~= changed(
            before,
            handle,
            (|c: ClientView| with_activity(c, true)),
        ));
        proof {
            if activated {
                assert(self@[handle as usize] != before[handle as usize]);
            } else {
                assert(self@ =~= before);
            }
        }
        activated
    }

    /// Deactivates a client. Returns whether it was active.
    pub fn deactivate_client(&mut self, handle: ClientHandle) -> (deactivated: bool)
        ensures
            final(self).next_key() == old(self).next_key(),
            final(self)@ == changed(
                old(self)@,
                handle,
                (|c: ClientView| with_activity(c, false)),
            ),
            deactivated == (final(self)@ != old(self)@),
            deactivated == (old(self)@.contains_key(handle as usize) && old(self)@[handle as usize].state.active),
    {
        let ghost before = self@;
        let deactivated: bool = match slab_get_mut(&mut self.clients, handle as usize) {
            Some(client) => {
                let was: bool = client.1.active;
                client.1.active = false;
                was
            },
            None => false,
        };
        assert(self@ =~= changed(
            before,
            handle,
            (|c: ClientView| with_activity(c, false)),
        ));
        proof {
            if deactivated {
                assert(self@[handle as usize] != before[handle as usize]);
            } else {
                assert(self@ =~= before);
            }
        }
        deactivated
    }

    /// Sets the position of a client. Returns whether capture has to move: the
    /// position is another one and the client is active.
    pub fn set_pos(&mut self, handle: ClientHandle, pos: Position) -> (recapture: bool)
        ensures
            final(self).next_key() == old(self).next_key(),
            final(self)@ == changed(
                old(self)@,
                handle,
                (|c: ClientView| with_pos(c, pos)),
            ),
            recapture == recaptures(old(self)@, handle, pos),
    {
        let ghost before = self@;
        let recapture: bool = match slab_get_mut(&mut self.clients, handle as usize) {
            Some(client) => {
                let moved: bool = client.0.pos != pos && client.1.active;
                client.0.pos = pos;
                moved
            },
            None => false,
        };
        assert(self@ =~= changed(
            before,
            handle,
            (|c: ClientView| with_pos(c, pos)),
        ));
        recapture
    }

    /// Sets whether clipboard content is sent to the client. Returns whether that
    /// is new.
    pub fn set_clipboard_send(&mut self, handle: ClientHandle, enabled: bool) -> (moved: bool)
        ensures
            final(self).next_key() == old(self).next_key(),
            final(self)@ == changed(
                old(self)@,
                handle,
                (|c: ClientView| with_clipboard_send(c, enabled)),
            ),
            moved == (final(self)@ != old(self)@),
            moved == (old(self)@.contains_key(handle as usize) && old(self)@[handle as usize].config.clipboard_send != enabled),
    {
        let ghost before = self@;
        let moved: bool = match slab_get_mut(&mut self.clients, handle as usize) {
            Some(client) => {
                let moved: bool = client.0.clipboard_send != enabled;
                client.0.clipboard_send = enabled;
                moved
            },
            None => false,
        };
        assert(self@ =~= changed(
            before,
            handle,
            (|c: ClientView| with_clipboard_send(c, enabled)),
        ));
        proof {
            if moved {
                assert(self@[handle as usize] != before[handle as usize]);
            } else {
                assert(self@ =~= before);
            }
        }
        moved
    }

    /// Sets the hostname of a client. Where it is another one, the live address
    /// and the resolved addresses no longer count. Returns whether it is another
    /// one.
    pub fn set_hostname(&mut self, handle: ClientHandle, hostname: Option<String>) -> (moved: bool)
        ensures
            final(self).next_key() == old(self).next_key(),
            final(self)@ == changed(
                old(self)@,
                handle,
                (|c: ClientView| renamed(c, text_view(hostname))),
            ),
            moved == (final(self)@ != old(self)@),
            moved == (old(self)@.contains_key(handle as usize) && old(self)@[handle as usize].config.hostname != text_view(hostname)),
    {
        let ghost before = self@;
        let moved: bool = match slab_get_mut(&mut self.clients, handle as usize) {
            Some(client) => {
                if same_optional_text(&client.0.hostname, &hostname) {
                    false
                } else {
                    client.0.hostname = hostname;
                    client.1.active_addr = None;
                    client.1.dns_ips = Vec::new();
                    refold(client);
                    true
                }
            },
            None => false,
        };
        assert(self@ =~= changed(
            before,
            handle,
            (|c: ClientView| renamed(c, text_view(hostname))),
        ));
        proof {
            if moved {
                assert(self@[handle as usize] != before[handle as usize]);
            } else {
                assert(self@ =~= before);
            }
        }
        moved
    }

    /// Sets the base mode of a client, and releases the lock of the present
    /// network. Returns whether either changed anything.
    pub fn set_mode(&mut self, handle: ClientHandle, mode: ConnectionMode, current_network: Option<&str>) -> (moved: bool)
        ensures
            final(self).next_key() == old(self).next_key(),
            final(self)@ == changed(
                old(self)@,
                handle,
                (|c: ClientView| with_mode(c, mode, str_view(current_network))),
            ),
            moved == (final(self)@ != old(self)@),
            moved == (old(self)@.contains_key(handle as usize) && (old(self)@[handle as usize].config.mode != mode || lock_on(old(self)@[handle as usize].config, str_view(current_network)) is Some)),
    {
        let ghost before = self@;
        let moved: bool = match slab_get_mut(&mut self.clients, handle as usize) {
            Some(client) => {
                let mut moved: bool = client.0.mode != mode;
                client.0.mode = mode;
                if let Some(network) = current_network {
                    if client.0.network_locks.remove(network).is_some() {
                        moved = true;
                    }
                }
                moved
            },
            None => false,
        };
        assert(self@ =~= changed(
            before,
            handle,
            (|c: ClientView| with_mode(c, mode, str_view(current_network))),
        ));
        proof {
            if moved {
                assert(self@[handle as usize] != before[handle as usize]);
            } else {
                if let Some(net) = str_view(current_network) {
                    if before.contains_key(handle as usize) {
                        let locks = before[handle as usize].config.network_locks;
                        assert(locks.remove(net) =~= locks);
                    }
                }
                assert(self@ =~= before);
            }
        }
        moved
    }

    /// Locks `ip` on the present network. Returns whether another lock, or none,
    /// applied there.
    pub fn set_network_lock(&mut self, handle: ClientHandle, current_network: &str, ip: IpAddr) -> (moved: bool)
        ensures
            final(self).next_key() == old(self).next_key(),
            final(self)@ == changed(
                old(self)@,
                handle,
                (|c: ClientView| with_network_lock(c, current_network@, ip)),
            ),
            moved == (final(self)@ != old(self)@),
            moved == (old(self)@.contains_key(handle as usize) && lock_on(old(self)@[handle as usize].config, Some(current_network@)) != Some(ip)),
    {
        let ghost before = self@;
        let moved: bool = match slab_get_mut(&mut self.clients, handle as usize) {
            Some(client) => {
                if client.0.network_locks.get(current_network) == Some(ip) {
                    assert(client.0.network_locks@ =~= client.0.network_locks@.insert(
                        current_network@,
                        ip,
                    ));
                    false
                } else {
                    client.0.network_locks.insert(current_network, ip);
                    true
                }
            },
            None => false,
        };
        assert(self@ =~= changed(
            before,
            handle,
            (|c: ClientView| with_network_lock(c, current_network@, ip)),
        ));
        proof {
            if moved {
                assert(self@[handle as usize] != before[handle as usize]);
            } else {
                assert(self@ =~= before);
            }
        }
        moved
    }

    /// Resolves which lock applies on the present network. Returns whether it is
    /// another one than before.
    pub fn recompute_active_lock(&mut self, handle: ClientHandle, current_network: Option<&str>) -> (moved: bool)
        ensures
            final(self).next_key() == old(self).next_key(),
            final(self)@ == changed(
                old(self)@,
                handle,
                (|c: ClientView| with_resolved_lock(c, str_view(current_network))),
            ),
            moved == (final(self)@ != old(self)@),
            moved == (old(self)@.contains_key(handle as usize) && old(self)@[handle as usize].state.active_lock != lock_on(old(self)@[handle as usize].config, str_view(current_network))),
    {
        let ghost before = self@;
        let moved: bool = match slab_get_mut(&mut self.clients, handle as usize) {
            Some(client) => {
                let lock: Option<IpAddr> = match current_network {
                    Some(network) => client.0.network_locks.get(network),
                    None => None,
                };
                let moved: bool = client.1.active_lock != lock;
                client.1.active_lock = lock;
                moved
            },
            None => false,
        };
        assert(self@ =~= changed(
            before,
            handle,
            (|c: ClientView| with_resolved_lock(c, str_view(current_network))),
        ));
        proof {
            if moved {
                assert(self@[handle as usize] != before[handle as usize]);
            } else {
                assert(self@ =~= before);
            }
        }
        moved
    }

    /// Sets the announced addresses of a client, and gathers its candidates anew
    /// where they are others. Returns whether they are.
    pub fn set_discovered_ips(&mut self, handle: ClientHandle, discovered: Vec<IpAddr>) -> (moved: bool)
        ensures
            final(self).next_key() == old(self).next_key(),
            final(self)@ == changed(
                old(self)@,
                handle,
                (|c: ClientView| with_discovered(c, discovered@)),
            ),
            moved == (final(self)@ != old(self)@),
            moved == (old(self)@.contains_key(handle as usize) && old(self)@[handle as usize].state.discovered_ips != discovered@),
    {
        let ghost before = self@;
        let moved: bool = match slab_get_mut(&mut self.clients, handle as usize) {
            Some(client) => {
                if same_list(&client.1.discovered_ips, &discovered) {
                    false
                } else {
                    client.1.discovered_ips = discovered;
                    refold(client);
                    true
                }
            },
            None => false,
        };
        assert(self@ =~= changed(
            before,
            handle,
            (|c: ClientView| with_discovered(c, discovered@)),
        ));
        proof {
            if moved {
                assert(self@[handle as usize] != before[handle as usize]);
            } else {
                assert(self@ =~= before);
            }
        }
        moved
    }

    /// Merges the interface kinds that the peer announced into the known ones,
    /// of candidate addresses only. Returns whether any is new or gone.
    pub fn set_interfaces(&mut self, handle: ClientHandle, interfaces: AddrMap<IfaceKind>) -> (moved: bool)
        ensures
            final(self).next_key() == old(self).next_key(),
            final(self)@ == changed(
                old(self)@,
                handle,
                (|c: ClientView| with_interfaces(c, interfaces@)),
            ),
            moved == (final(self)@ != old(self)@),
            moved == (old(self)@.contains_key(handle as usize) && old(self)@[handle as usize].state.interfaces != merged_interfaces(old(self)@[handle as usize].state, interfaces@)),
    {
        let ghost before = self@;
        let moved: bool = match slab_get_mut(&mut self.clients, handle as usize) {
            Some(client) => {
                let mut merged: AddrMap<IfaceKind> = client.1.interfaces.clone();
                merged.insert_all(&interfaces);
                let kept: AddrMap<IfaceKind> = merged.restricted(&client.1.ips);
                if same_kinds(&client.1.interfaces, &kept) {
                    false
                } else {
                    client.1.interfaces = kept;
                    true
                }
            },
            None => false,
        };
        assert(self@ =~= changed(
            before,
            handle,
            (|c: ClientView| with_interfaces(c, interfaces@)),
        ));
        proof {
            if moved {
                assert(self@[handle as usize] != before[handle as usize]);
            } else {
                assert(self@ =~= before);
            }
        }
        moved
    }

    /// Records the latest round trip of a candidate address, or that the probe
    /// failed; other addresses are ignored. Returns whether that is new.
    pub fn set_latency(&mut self, handle: ClientHandle, ip: IpAddr, rtt_micros: Option<u32>) -> (moved: bool)
        ensures
            final(self).next_key() == old(self).next_key(),
            final(self)@ == changed(
                old(self)@,
                handle,
                (|c: ClientView| with_latency(c, ip, rtt_micros)),
            ),
            moved == (final(self)@ != old(self)@),
            moved == (old(self)@.contains_key(handle as usize) && old(self)@[handle as usize].state.ips.contains(ip) && !(old(self)@[handle as usize].state.latencies.contains_key(ip) && old(self)@[handle as usize].state.latencies[ip] == rtt_micros)),
    {
        let ghost before = self@;
        let moved: bool = match slab_get_mut(&mut self.clients, handle as usize) {
            Some(client) => {
                if !client.1.ips.contains(&ip) {
                    false
                } else if client.1.latencies.get(&ip) == Some(rtt_micros) {
                    assert(client.1.latencies@ =~= client.1.latencies@.insert(ip, rtt_micros));
                    false
                } else {
                    client.1.latencies.insert(ip, rtt_micros);
                    true
                }
            },
            None => false,
        };
        assert(self@ =~= changed(
            before,
            handle,
            (|c: ClientView| with_latency(c, ip, rtt_micros)),
        ));
        proof {
            if moved {
                assert(self@[handle as usize] != before[handle as usize]);
            } else {
                assert(self@ =~= before);
            }
        }
        moved
    }

    /// Sets the port of a client. The live connection is taken to be at the new
    /// port.
    pub fn set_port(&mut self, handle: ClientHandle, port: u16)
        ensures
            final(self).next_key() == old(self).next_key(),
            final(self)@ == changed(old(self)@, handle, (|c: ClientView| with_port(c, port))),
    {
        let ghost before = self@;
        if let Some(client) = slab_get_mut(&mut self.clients, handle as usize) {
            if client.0.port != port {
                client.0.port = port;
                client.1.active_addr = match client.1.active_addr {
                    Some(addr) => Some(SocketAddr::new(addr.ip, port)),
                    None => None,
                };
            }
        }
        assert(self@ =~= changed(before, handle, (|c: ClientView| with_port(c, port))));
    }
}

/// The client with the given handle.
pub open spec fn lookup(clients: Map<usize, ClientView>, handle: ClientHandle) -> Option<
    ClientView,
> {
    if clients.contains_key(handle as usize) {
        Some(clients[handle as usize])
    } else {
        None
    }
}

/// The hostname of a client.
pub open spec fn hostname_of(clients: Map<usize, ClientView>, handle: ClientHandle) -> Option<
    Seq<char>,
> {
    match lookup(clients, handle) {
        Some(c) => c.config.hostname,
        None => None,
    }
}

/// The position of a client.
pub open spec fn pos_of(clients: Map<usize, ClientView>, handle: ClientHandle) -> Option<Position> {
    match lookup(clients, handle) {
        Some(c) => Some(c.config.pos),
        None => None,
    }
}

/// The command to run when the cursor enters a client.
pub open spec fn enter_cmd_of(clients: Map<usize, ClientView>, handle: ClientHandle) -> Option<
    Seq<char>,
> {
    match lookup(clients, handle) {
        Some(c) => c.config.cmd,
        None => None,
    }
}

/// The address of the live connection of a client.
pub open spec fn active_addr_of(clients: Map<usize, ClientView>, handle: ClientHandle) -> Option<
    SocketAddr,
> {
    match lookup(clients, handle) {
        Some(c) => c.state.active_addr,
        None => None,
    }
}

/// Whether a client takes input.
pub open spec fn alive_of(clients: Map<usize, ClientView>, handle: ClientHandle) -> bool {
    match lookup(clients, handle) {
        Some(c) => c.state.alive,
        None => false,
    }
}

/// The port of a client.
pub open spec fn client_port(clients: Map<usize, ClientView>, handle: ClientHandle) -> Option<u16> {
    match lookup(clients, handle) {
        Some(c) => Some(c.config.port),
        None => None,
    }
}

/// The base mode of a client.
pub open spec fn mode_of(clients: Map<usize, ClientView>, handle: ClientHandle) -> ConnectionMode {
    match lookup(clients, handle) {
        Some(c) => c.config.mode,
        None => ConnectionMode::Auto,
    }
}

/// The lock of a client that applies on the present network.
pub open spec fn active_lock_of(clients: Map<usize, ClientView>, handle: ClientHandle) -> Option<
    IpAddr,
> {
    match lookup(clients, handle) {
        Some(c) => c.state.active_lock,
        None => None,
    }
}

/// Whether input has to be captured elsewhere once a client has moved.
pub open spec fn recaptures(
    clients: Map<usize, ClientView>,
    handle: ClientHandle,
    pos: Position,
) -> bool {
    clients.contains_key(handle as usize) && clients[handle as usize].config.pos != pos
        && clients[handle as usize].state.active
}

/// A client has been added under the key that was next.
pub open spec fn adds(
    before: Map<usize, ClientView>,
    next_key: usize,
    handle: ClientHandle,
    after: Map<usize, ClientView>,
) -> bool {
    &&& handle == next_key as u64
    &&& !before.contains_key(handle as usize)
    &&& after == before.insert(
        handle as usize,
        ClientView { config: default_config(), state: default_state() },
    )
}

/// A client of the configuration file has been added under the key that was
/// next.
pub open spec fn adds_configured(
    before: Map<usize, ClientView>,
    next_key: usize,
    entry: ConfigClient,
    handle: ClientHandle,
    after: Map<usize, ClientView>,
) -> bool {
    &&& handle == next_key as u64
    &&& !before.contains_key(handle as usize)
    &&& after.contains_key(handle as usize)
    &&& after == before.insert(handle as usize, after[handle as usize])
    &&& configured(entry, after[handle as usize].config)
    &&& after[handle as usize].state == (StateView {
        active: entry.active,
        ips: entry.ips@,
        ..default_state()
    })
}

/// A client has been removed, where there was one.
pub open spec fn removes(
    before: Map<usize, ClientView>,
    handle: ClientHandle,
    removed: Option<(ClientConfig, ClientState)>,
    after: Map<usize, ClientView>,
) -> bool {
    &&& match removed {
        Some(c) => lookup(before, handle) == Some(client_view(c)),
        None => lookup(before, handle) is None,
    }
    &&& after == before.remove(handle as usize)
}

/// What the configuration file says of a client, as its configuration: the
/// order of the addresses is open.
pub open spec fn configured(entry: ConfigClient, config: ConfigView) -> bool {
    &&& config.hostname == text_view(entry.hostname)
    &&& config.fix_ips.no_duplicates()
    &&& config.fix_ips.to_set() == entry.ips@
    &&& config.port == entry.port
    &&& config.pos == entry.pos
    &&& config.cmd == text_view(entry.enter_hook)
    &&& config.mode == entry.mode
    &&& config.network_locks == entry.network_locks@
    &&& config.clipboard_send == entry.clipboard_send
}

impl ClientManager {
    /// Adds a client with default configuration and state.
    pub fn add_client(&mut self) -> (handle: ClientHandle)
        ensures
            adds(old(self)@, old(self).next_key(), handle, final(self)@),
    {
        let ghost before = self@;
        let client: (ClientConfig, ClientState) = (
            ClientConfig::default(),
            ClientState::default(),
        );
        let key: usize = slab_insert(&mut self.clients, client);
        assert(self@ =~= before.insert(
            key,
            ClientView { config: default_config(), state: default_state() },
        ));
        key as ClientHandle
    }

    /// Adds a client as the configuration file holds it.
    pub fn add_with_config(&mut self, config_client: ConfigClient) -> (handle: ClientHandle)
        ensures
            adds_configured(
                old(self)@,
                old(self).next_key(),
                config_client,
                handle,
                final(self)@,
            ),
    {
        let ghost before = self@;
        let fix_ips: Vec<IpAddr> = config_client.ips.to_list();
        let mut state = ClientState::default();
        state.active = config_client.active;
        state.ips = config_client.ips.clone();
        let config = ClientConfig {
            hostname: config_client.hostname,
            fix_ips,
            port: config_client.port,
            pos: config_client.pos,
            cmd: config_client.enter_hook,
            mode: config_client.mode,
            network_locks: config_client.network_locks,
            clipboard_send: config_client.clipboard_send,
        };
        let ghost client = ClientView { config: config@, state: state@ };
        let handle: ClientHandle = self.add_client();
        self.set_config(handle, config);
        self.set_state(handle, state);
        assert(self@ =~= before.insert(handle as usize, client));
        handle
    }

    /// Removes a client, and hands it out.
    pub fn remove_client(&mut self, client: ClientHandle) -> (removed: Option<
        (ClientConfig, ClientState),
    >)
        ensures
            removes(old(self)@, client, removed, final(self)@),
            final(self).next_key() == (if removed is Some {
                client as usize
            } else {
                old(self).next_key()
            }),
    {
        let ghost before = self@;
        let removed = slab_try_remove(&mut self.clients, client as usize);
        assert(self@ =~= before.remove(client as usize));
        removed
    }

    /// The configuration and the state of a client.
    pub fn get_state(&self, handle: ClientHandle) -> (client: Option<(ClientConfig, ClientState)>)
        ensures
            match client {
                Some(c) => lookup(self@, handle) == Some(client_view(c)),
                None => lookup(self@, handle) is None,
            },
    {
        match slab_get(&self.clients, handle as usize) {
            Some(c) => Some((c.0.clone(), c.1.clone())),
            None => None,
        }
    }

    /// The hostname of a client.
    pub fn get_hostname(&self, handle: ClientHandle) -> (hostname: Option<String>)
        ensures
            text_view(hostname) == hostname_of(self@, handle),
    {
        match slab_get(&self.clients, handle as usize) {
            Some(c) => copy_text(&c.0.hostname),
            None => None,
        }
    }

    /// The position of a client.
    pub fn get_pos(&self, handle: ClientHandle) -> (pos: Option<Position>)
        ensures
            pos == pos_of(self@, handle),
    {
        match slab_get(&self.clients, handle as usize) {
            Some(c) => Some(c.0.pos),
            None => None,
        }
    }

    /// The command to run when the cursor enters the client.
    pub fn get_enter_cmd(&self, handle: ClientHandle) -> (cmd: Option<String>)
        ensures
            text_view(cmd) == enter_cmd_of(self@, handle),
    {
        match slab_get(&self.clients, handle as usize) {
            Some(c) => copy_text(&c.0.cmd),
            None => None,
        }
    }

    /// The address of the live connection.
    pub fn active_addr(&self, handle: ClientHandle) -> (addr: Option<SocketAddr>)
        ensures
            addr == active_addr_of(self@, handle),
    {
        match slab_get(&self.clients, handle as usize) {
            Some(c) => c.1.active_addr,
            None => None,
        }
    }

    /// Whether the client responds.
    pub fn alive(&self, handle: ClientHandle) -> (alive: bool)
        ensures
            alive == alive_of(self@, handle),
    {
        match slab_get(&self.clients, handle as usize) {
            Some(c) => c.1.alive,
            None => false,
        }
    }

    /// The port of a client.
    pub fn get_port(&self, handle: ClientHandle) -> (port: Option<u16>)
        ensures
            port == client_port(self@, handle),
    {
        match slab_get(&self.clients, handle as usize) {
            Some(c) => Some(c.0.port),
            None => None,
        }
    }

    /// The candidate addresses of a client.
    pub fn get_ips(&self, handle: ClientHandle) -> (ips: Option<AddrSet>)
        ensures
            match ips {
                Some(set) => lookup(self@, handle) matches Some(c) && c.state.ips == set@,
                None => lookup(self@, handle) is None,
            },
    {
        match slab_get(&self.clients, handle as usize) {
            Some(c) => Some(c.1.ips.clone()),
            None => None,
        }
    }

    /// The base mode of a client: `Auto` where there is none with that handle.
    pub fn get_mode(&self, handle: ClientHandle) -> (mode: ConnectionMode)
        ensures
            mode == mode_of(self@, handle),
    {
        match slab_get(&self.clients, handle as usize) {
            Some(c) => c.0.mode,
            None => ConnectionMode::Auto,
        }
    }

    /// The lock that applies on the present network, as it was last resolved.
    pub fn get_active_lock(&self, handle: ClientHandle) -> (lock: Option<IpAddr>)
        ensures
            lock == active_lock_of(self@, handle),
    {
        match slab_get(&self.clients, handle as usize) {
            Some(c) => c.1.active_lock,
            None => None,
        }
    }

    /// The reachable address with the lowest latency, for
    /// [`ConnectionMode::Fastest`].
    pub fn lowest_latency_addr(&self, handle: ClientHandle) -> (addr: Option<IpAddr>)
        ensures
            match addr {
                Some(ip) => lookup(self@, handle) matches Some(c) && exists|us: u32| #[trigger]
                    is_fastest(c.state.latencies, us, ip),
                None => lookup(self@, handle) matches Some(c) ==> forall|ip: IpAddr|
                    c.state.latencies.contains_key(ip) ==> #[trigger] c.state.latencies[ip] is None,
            },
    {
        match slab_get(&self.clients, handle as usize) {
            Some(c) => match fastest(&c.1.latencies) {
                Some((us, ip)) => {
                    assert(is_fastest(c.1.latencies@, us, ip));
                    Some(ip)
                },
                None => None,
            },
            None => None,
        }
    }

    /// The address to which the live connection should move in
    /// [`ConnectionMode::Fastest`]: none where it is already fast enough, or
    /// where too little has been measured.
    pub fn fastest_upgrade_candidate(&self, handle: ClientHandle) -> (addr: Option<IpAddr>)
        ensures
            match addr {
                Some(ip) => lookup(self@, handle) matches Some(c) && is_upgrade(c.state, ip),
                None => lookup(self@, handle) matches Some(c) ==> forall|ip: IpAddr|
                    !is_upgrade(c.state, ip),
            },
    {
        let c = match slab_get(&self.clients, handle as usize) {
            Some(c) => c,
            None => {
                return None;
            },
        };
        let active: IpAddr = match c.1.active_addr {
            Some(addr) => addr.ip,
            None => {
                return None;
            },
        };
        let active_us: u32 = match c.1.latencies.get(&active) {
            Some(Some(us)) => us,
            _ => {
                return None;
            },
        };
        let (best_us, best_ip): (u32, IpAddr) = match fastest(&c.1.latencies) {
            Some(best) => best,
            None => {
                return None;
            },
        };
        proof {
            let latencies = c.1.latencies@;
            assert forall|us: u32, ip: IpAddr| #[trigger] is_fastest(latencies, us, ip) implies us
                == best_us && ip == best_ip by {
                assert(latencies[ip] == Some(us));
                assert(latencies[best_ip] == Some(best_us));
            }
        }
        if best_ip != active && best_us < active_us && best_us <= active_us - best_us && active_us
            - best_us >= MIN_ABSOLUTE_GAIN_US {
            assert(is_fastest(c.1.latencies@, best_us, best_ip));
            Some(best_ip)
        } else {
            None
        }
    }

    /// The first active client that is reached at the address's IP.
    pub fn get_client(&self, addr: SocketAddr) -> (found: Option<ClientHandle>)
        ensures
            finds_first(self@, |c: ClientView| reached_at(c, addr.ip), found),
    {
        let ghost wanted = |c: ClientView| reached_at(c, addr.ip);
        let keys = slab_keys(&self.clients);
        let mut i: usize = 0;
        while i < keys.len()
            invariant
                i <= keys@.len(),
                forall|a: int, b: int| 0 <= a < b < keys@.len() ==> keys@[a] < keys@[b],
                forall|k: usize| keys@.contains(k) <==> self@.contains_key(k),
                forall|a: int| 0 <= a < i ==> !reached_at(self@[#[trigger] keys@[a]], addr.ip),
                wanted == (|c: ClientView| reached_at(c, addr.ip)),
            decreases keys@.len() - i,
        {
            let key: usize = keys[i];
            assert(keys@.contains(key));
            if let Some(c) = slab_get(&self.clients, key) {
                let live: bool = match c.1.active_addr {
                    Some(a) => a.ip == addr.ip,
                    None => false,
                };
                if c.1.active && (c.1.ips.contains(&addr.ip) || live) {
                    proof {
                        assert(wanted(self@[key]));
                        assert forall|j: usize| j < key && self@.contains_key(j) implies !(
                        #[trigger] wanted(self@[j])) by {
                            assert(keys@.contains(j));
                            let a = choose|a: int| 0 <= a < keys@.len() && keys@[a] == j;
                            if a >= i {
                                assert(keys@[a] >= key);
                            }
                        }
                    }
                    return Some(key as ClientHandle);
                }
            }
            i += 1;
        }
        proof {
            assert forall|j: usize| self@.contains_key(j) implies !(#[trigger] wanted(
                self@[j],
            )) by {
                assert(keys@.contains(j));
            }
        }
        None
    }

    /// The first active client at a position.
    pub fn client_at(&self, pos: Position) -> (found: Option<ClientHandle>)
        ensures
            finds_first(self@, |c: ClientView| stands_at(c, pos), found),
    {
        let ghost wanted = |c: ClientView| stands_at(c, pos);
        let keys = slab_keys(&self.clients);
        let mut i: usize = 0;
        while i < keys.len()
            invariant
                i <= keys@.len(),
                forall|a: int, b: int| 0 <= a < b < keys@.len() ==> keys@[a] < keys@[b],
                forall|k: usize| keys@.contains(k) <==> self@.contains_key(k),
                forall|a: int| 0 <= a < i ==> !wanted(self@[#[trigger] keys@[a]]),
                wanted == (|c: ClientView| stands_at(c, pos)),
            decreases keys@.len() - i,
        {
            let key: usize = keys[i];
            assert(keys@.contains(key));
            if let Some(c) = slab_get(&self.clients, key) {
                if c.1.active && c.0.pos == pos {
                    proof {
                        assert(wanted(self@[key]));
                        assert forall|j: usize| j < key && self@.contains_key(j) implies !(
                        #[trigger] wanted(self@[j])) by {
                            assert(keys@.contains(j));
                            let a = choose|a: int| 0 <= a < keys@.len() && keys@[a] == j;
                            if a >= i {
                                assert(keys@[a] >= key);
                            }
                        }
                    }
                    return Some(key as ClientHandle);
                }
            }
            i += 1;
        }
        proof {
            assert forall|j: usize| self@.contains_key(j) implies !(#[trigger] wanted(
                self@[j],
            )) by {
                assert(keys@.contains(j));
            }
        }
        None
    }

    /// The handles of the clients that are meant, in the order of their keys.
    fn select(&self, selection: Selection) -> (handles: Vec<ClientHandle>)
        ensures
            lists_all(self@, |c: ClientView| selection.includes(c), handles@),
    {
        let ghost wanted = |c: ClientView| selection.includes(c);
        let keys = slab_keys(&self.clients);
        let mut handles: Vec<ClientHandle> = Vec::new();
        let mut i: usize = 0;
        while i < keys.len()
            invariant
                i <= keys@.len(),
                wanted == (|c: ClientView| selection.includes(c)),
                forall|a: int, b: int| 0 <= a < b < keys@.len() ==> keys@[a] < keys@[b],
                forall|k: usize| keys@.contains(k) <==> self@.contains_key(k),
                forall|a: int, b: int| 0 <= a < b < handles@.len() ==> handles@[a] < handles@[b],
                forall|a: int|
                    0 <= a < handles@.len() ==> handles@[a] == (
                    #[trigger] handles@[a] as usize) as u64 && self@.contains_key(
                        handles@[a] as usize,
                    ) && wanted(self@[handles@[a] as usize]),
                forall|a: int, b: int|
                    0 <= a < handles@.len() && i <= b < keys@.len() ==> (
                    #[trigger] handles@[a] as usize) < #[trigger] keys@[b],
                forall|a: int|
                    0 <= a < i && wanted(self@[#[trigger] keys@[a]]) ==> handles@.contains(
                        keys@[a] as u64,
                    ),
            decreases keys@.len() - i,
        {
            let key: usize = keys[i];
            assert(keys@.contains(key));
            if let Some(c) = slab_get(&self.clients, key) {
                let included: bool = match selection {
                    Selection::All => true,
                    Selection::Active => c.1.active,
                    Selection::ClipboardTargets => c.0.clipboard_send && c.1.active,
                };
                let ghost then = handles@;
                if included {
                    handles.push(key as ClientHandle);
                    proof {
                        assert(handles@[then.len() as int] == key as u64);
                        assert forall|a: int|
                            0 <= a < i + 1 && wanted(
                                self@[#[trigger] keys@[a]],
                            ) implies handles@.contains(keys@[a] as u64) by {
                            if a < i {
                                let b = choose|b: int|
                                    0 <= b < then.len() && then[b] == keys@[a] as u64;
                                assert(handles@[b] == keys@[a] as u64);
                            }
                        }
                    }
                }
            }
            i += 1;
        }
        proof {
            assert forall|k: usize|
                self@.contains_key(k) && #[trigger] wanted(self@[k]) implies handles@.contains(
                k as u64,
            ) by {
                assert(keys@.contains(k));
                let a = choose|a: int| 0 <= a < keys@.len() && keys@[a] == k;
                assert(wanted(self@[keys@[a]]));
            }
        }
        handles
    }

    /// The handles of all clients.
    pub fn registered_clients(&self) -> (handles: Vec<ClientHandle>)
        ensures
            lists_all(self@, |c: ClientView| true, handles@),
    {
        let handles = self.select(Selection::All);
        assert((|c: ClientView| Selection::All.includes(c)) =~= (|c: ClientView| true));
        handles
    }

    /// The handles of all active clients.
    pub fn active_clients(&self) -> (handles: Vec<ClientHandle>)
        ensures
            lists_all(self@, |c: ClientView| c.state.active, handles@),
    {
        let handles = self.select(Selection::Active);
        assert((|c: ClientView| Selection::Active.includes(c)) =~= (|c: ClientView|
            c.state.active));
        handles
    }

    /// The handles of all active clients to which clipboard content is sent.
    pub fn clipboard_send_targets(&self) -> (handles: Vec<ClientHandle>)
        ensures
            lists_all(self@, |c: ClientView| takes_clipboard(c), handles@),
    {
        let handles = self.select(Selection::ClipboardTargets);
        assert((|c: ClientView| Selection::ClipboardTargets.includes(c)) =~= (|c: ClientView|
            takes_clipboard(c)));
        handles
    }
}

/// The handles of a list of clients.
pub open spec fn handles_of(
    clients: Seq<(ClientHandle, ClientConfig, ClientState)>,
) -> Seq<ClientHandle> {
    clients.map_values(|c: (ClientHandle, ClientConfig, ClientState)| c.0)
}

/// `list` holds what the clients with the handles `handles`, which are all
/// clients, say.
pub open spec fn is_snapshot(
    clients: Map<usize, ClientView>,
    handles: Seq<ClientHandle>,
    list: Seq<(ClientConfig, ClientState)>,
) -> bool {
    &&& lists_all(clients, |c: ClientView| true, handles)
    &&& handles.len() == list.len()
    &&& forall|i: int|
        0 <= i < list.len() ==> clients[handles[i] as usize] == client_view(#[trigger] list[i])
}

/// The handles of a list of probe targets.
pub open spec fn probed_handles(targets: Seq<(ClientHandle, u16, Vec<IpAddr>)>) -> Seq<
    ClientHandle,
> {
    targets.map_values(|t: (ClientHandle, u16, Vec<IpAddr>)| t.0)
}

/// The client has candidate addresses other than that of its live connection.
pub open spec fn has_targets(client: ClientView) -> bool {
    inactive_candidates(client.state) != Set::<IpAddr>::empty()
}

/// `targets` are what is probed: of each client with idle candidates its handle,
/// its port and those candidates.
pub open spec fn are_targets(
    clients: Map<usize, ClientView>,
    targets: Seq<(ClientHandle, u16, Vec<IpAddr>)>,
) -> bool {
    &&& lists_all(clients, |c: ClientView| has_targets(c), probed_handles(targets))
    &&& forall|i: int|
        0 <= i < targets.len() ==> {
            let client = clients[(#[trigger] targets[i]).0 as usize];
            &&& targets[i].1 == client.config.port
            &&& targets[i].2@.no_duplicates()
            &&& targets[i].2@.to_set() == inactive_candidates(client.state)
        }
}

/// The addresses of `ips` other than `active`.
fn without_active(ips: &AddrSet, active: Option<SocketAddr>) -> (rest: Vec<IpAddr>)
    ensures
        rest@.no_duplicates(),
        rest@.to_set() == (match active {
            Some(addr) => ips@.remove(addr.ip),
            None => ips@,
        }),
{
    let all = ips.to_list();
    let mut rest: Vec<IpAddr> = Vec::new();
    let mut i: usize = 0;
    while i < all.len()
        invariant
            i <= all@.len(),
            all@.no_duplicates(),
            rest@.no_duplicates(),
            forall|ip: IpAddr| #[trigger]
                rest@.contains(ip) <==> all@.take(i as int).contains(ip) && !(
                active matches Some(addr) && addr.ip == ip),
        decreases all@.len() - i,
    {
        let ip: IpAddr = all[i];
        let live: bool = match active {
            Some(addr) => addr.ip == ip,
            None => false,
        };
        let ghost then = rest@;
        let ghost seen = all@.take(i as int);
        let ghost now = all@.take(i + 1);
        proof {
            assert forall|x: IpAddr| now.contains(x) == (seen.contains(x) || x == ip) by {
                if seen.contains(x) {
                    let k = choose|k: int| 0 <= k < seen.len() && seen[k] == x;
                    assert(now[k] == x);
                }
                if now.contains(x) && x != ip {
                    let k = choose|k: int| 0 <= k < now.len() && now[k] == x;
                    assert(seen[k] == x);
                }
                assert(now[i as int] == ip);
            }
            assert(!seen.contains(ip)) by {
                if seen.contains(ip) {
                    let k = choose|k: int| 0 <= k < seen.len() && seen[k] == ip;
                    assert(all@[k] == all@[i as int]);
                }
            }
        }
        if !live {
            rest.push(ip);
            proof {
                assert forall|x: IpAddr| rest@.contains(x) == (then.contains(x) || x == ip) by {
                    if then.contains(x) {
                        let k = choose|k: int| 0 <= k < then.len() && then[k] == x;
                        assert(rest@[k] == x);
                    }
                    assert(rest@[then.len() as int] == ip);
                }
                assert(!then.contains(ip));
                assert forall|a: int, b: int| 0 <= a < rest@.len() && 0 <= b < rest@.len() && a
                    != b implies rest@[a] != rest@[b] by {
                    if a < then.len() {
                        assert(then.contains(then[a]));
                    }
                    if b < then.len() {
                        assert(then.contains(then[b]));
                    }
                }
            }
        }
        assert forall|x: IpAddr| #[trigger] rest@.contains(x) <==> now.contains(x) && !(
        active matches Some(addr) && addr.ip == x) by {
            assert(now.contains(x) == (seen.contains(x) || x == ip));
            assert(rest@.contains(x) == (then.contains(x) || (!live && x == ip)));
        }
        i += 1;
    }
    assert(all@.take(i as int) =~= all@);
    assert(rest@.to_set() =~= (match active {
        Some(addr) => ips@.remove(addr.ip),
        None => ips@,
    }));
    rest
}

impl ClientManager {
    /// Every client with its configuration and its state, in the order of the
    /// keys.
    pub fn get_client_states(&self) -> (clients: Vec<(ClientHandle, ClientConfig, ClientState)>)
        ensures
            lists_all(self@, |c: ClientView| true, handles_of(clients@)),
            forall|i: int|
                0 <= i < clients@.len() ==> self@[(#[trigger] clients@[i]).0 as usize]
                    == client_view((clients@[i].1, clients@[i].2)),
    {
        let handles = self.registered_clients();
        let mut clients: Vec<(ClientHandle, ClientConfig, ClientState)> = Vec::new();
        let mut i: usize = 0;
        while i < handles.len()
            invariant
                i <= handles@.len(),
                lists_all(self@, |c: ClientView| true, handles@),
                clients@.len() == i,
                forall|k: int|
                    0 <= k < i ==> (#[trigger] clients@[k]).0 == handles@[k]
                        && self@[clients@[k].0 as usize] == client_view(
                        (clients@[k].1, clients@[k].2),
                    ),
            decreases handles@.len() - i,
        {
            let handle: ClientHandle = handles[i];
            assert(self@.contains_key(handles@[i as int] as usize));
            if let Some((config, state)) = self.get_state(handle) {
                clients.push((handle, config, state));
            }
            i += 1;
        }
        assert(handles_of(clients@) =~= handles@);
        clients
    }

    /// Every client's configuration and state, in the order of the keys.
    pub fn clients(&self) -> (clients: Vec<(ClientConfig, ClientState)>)
        ensures
            exists|handles: Seq<ClientHandle>| #[trigger] is_snapshot(self@, handles, clients@),
    {
        let handles = self.registered_clients();
        let mut clients: Vec<(ClientConfig, ClientState)> = Vec::new();
        let mut i: usize = 0;
        while i < handles.len()
            invariant
                i <= handles@.len(),
                lists_all(self@, |c: ClientView| true, handles@),
                clients@.len() == i,
                forall|k: int|
                    0 <= k < i ==> self@[handles@[k] as usize] == client_view(
                        #[trigger] clients@[k],
                    ),
            decreases handles@.len() - i,
        {
            assert(self@.contains_key(handles@[i as int] as usize));
            if let Some(client) = self.get_state(handles[i]) {
                clients.push(client);
            }
            i += 1;
        }
        assert(is_snapshot(self@, handles@, clients@));
        clients
    }

    /// The handle, the port and the candidate addresses of each client to be
    /// probed. The address of the live connection is left out: its latency
    /// comes from the connection itself. A client without other candidates is
    /// left out too.
    pub fn probe_targets(&self) -> (targets: Vec<(ClientHandle, u16, Vec<IpAddr>)>)
        ensures
            are_targets(self@, targets@),
    {
        let handles = self.registered_clients();
        let ghost wanted = |c: ClientView| has_targets(c);
        let mut targets: Vec<(ClientHandle, u16, Vec<IpAddr>)> = Vec::new();
        let mut i: usize = 0;
        while i < handles.len()
            invariant
                i <= handles@.len(),
                wanted == (|c: ClientView| has_targets(c)),
                lists_all(self@, |c: ClientView| true, handles@),
                forall|k: int|
                    0 <= k < targets@.len() ==> {
                        let client = self@[(#[trigger] targets@[k]).0 as usize];
                        &&& targets@[k].1 == client.config.port
                        &&& targets@[k].2@.no_duplicates()
                        &&& targets@[k].2@.to_set() == inactive_candidates(client.state)
                        &&& wanted(client)
                        &&& self@.contains_key(targets@[k].0 as usize)
                        &&& targets@[k].0 == (targets@[k].0 as usize) as u64
                    },
                forall|a: int, b: int|
                    0 <= a < b < targets@.len() ==> (#[trigger] targets@[a]).0 < (
                    #[trigger] targets@[b]).0,
                forall|a: int, b: int|
                    0 <= a < targets@.len() && i <= b < handles@.len() ==> (
                    #[trigger] targets@[a]).0 < #[trigger] handles@[b],
                forall|k: int|
                    0 <= k < i && wanted(self@[#[trigger] handles@[k] as usize]) ==> exists|j: int|
                        0 <= j < targets@.len() && (#[trigger] targets@[j]).0 == handles@[k],
            decreases handles@.len() - i,
        {
            let handle: ClientHandle = handles[i];
            assert(self@.contains_key(handles@[i as int] as usize));
            let ghost then = targets@;
            if let Some(c) = slab_get(&self.clients, handle as usize) {
                let ips = without_active(&c.1.ips, c.1.active_addr);
                proof {
                    let client = self@[handle as usize];
                    assert(inactive_candidates(client.state) == ips@.to_set());
                    if ips@.len() > 0 {
                        assert(ips@.to_set().contains(ips@[0]));
                        assert(!Set::<IpAddr>::empty().contains(ips@[0]));
                    } else {
                        assert(ips@.to_set() =~= Set::<IpAddr>::empty());
                    }
                }
                if !ips.is_empty() {
                    targets.push((handle, c.0.port, ips));
                    proof {
                        assert forall|k: int|
                            0 <= k < i + 1 && wanted(
                                self@[#[trigger] handles@[k] as usize],
                            ) implies exists|j: int|
                            0 <= j < targets@.len() && (#[trigger] targets@[j]).0
                                == handles@[k] by {
                            if k < i {
                                let j = choose|j: int|
                                    0 <= j < then.len() && (#[trigger] then[j]).0 == handles@[k];
                                assert(targets@[j] == then[j]);
                            } else {
                                assert(targets@[then.len() as int].0 == handles@[k]);
                            }
                        }
                    }
                }
            }
            i += 1;
        }
        proof {
            let listed = probed_handles(targets@);
            assert forall|a: int| 0 <= a < listed.len() implies listed[a] == (
            #[trigger] listed[a] as usize) as u64 && self@.contains_key(listed[a] as usize)
                && wanted(self@[listed[a] as usize]) by {
                assert(listed[a] == targets@[a].0);
            }
            assert forall|a: int, b: int| 0 <= a < b < listed.len() implies listed[a]
                < listed[b] by {
                assert(listed[a] == targets@[a].0);
                assert(listed[b] == targets@[b].0);
            }
            assert forall|k: usize|
                self@.contains_key(k) && #[trigger] wanted(self@[k]) implies listed.contains(
                k as u64,
            ) by {
                let every = |c: ClientView| true;
                assert(every(self@[k]));
                let a = choose|a: int| 0 <= a < handles@.len() && handles@[a] == k as u64;
                assert(wanted(self@[handles@[a] as usize]));
                let j = choose|j: int|
                    0 <= j < targets@.len() && (#[trigger] targets@[j]).0 == handles@[a];
                assert(listed[j] == k as u64);
            }
        }
        targets
    }
}

/// Latencies and interface kinds are known of candidate addresses only.
pub open spec fn candidates_only(client: ClientView) -> bool {
    &&& client.state.latencies.dom().subset_of(client.state.ips)
    &&& client.state.interfaces.dom().subset_of(client.state.ips)
}

/// No change of a client but a whole new state makes it know anything of
/// addresses that are no candidates; and a change of the candidates forgets
/// what was known of those that are none any more.
pub proof fn law_candidates_only(
    client: ClientView,
    ips: Seq<IpAddr>,
    ip: IpAddr,
    rtt: Option<u32>,
    kinds: Map<IpAddr, IfaceKind>,
    hostname: Option<Seq<char>>,
    port: u16,
    mode: ConnectionMode,
    network: Option<Seq<char>>,
)
    requires
        candidates_only(client),
    ensures
        candidates_only(refolded(client)),
        candidates_only(with_fix_ips(client, ips)),
        candidates_only(with_dns_ips(client, ips)),
        candidates_only(with_discovered(client, ips)),
        candidates_only(with_latency(client, ip, rtt)),
        candidates_only(with_interfaces(client, kinds)),
        candidates_only(renamed(client, hostname)),
        candidates_only(with_port(client, port)),
        candidates_only(with_mode(client, mode, network)),
        candidates_only(with_resolved_lock(client, network)),
        candidates_only(ClientView { config: default_config(), state: default_state() }),
{
    assert(default_state().latencies.dom() =~= Set::<IpAddr>::empty());
    assert(default_state().interfaces.dom() =~= Set::<IpAddr>::empty());
}

/// The interface kind of a candidate address is the one that was announced
/// last: an announcement of other addresses only does not take it away.
pub proof fn law_announced_kinds_stay(
    client: ClientView,
    first: Map<IpAddr, IfaceKind>,
    second: Map<IpAddr, IfaceKind>,
    ip: IpAddr,
)
    requires
        client.state.ips.contains(ip),
        first.contains_key(ip),
    ensures
        ({
            let known = with_interfaces(with_interfaces(client, first), second).state.interfaces;
            known.contains_key(ip) && known[ip] == (if second.contains_key(ip) {
                second[ip]
            } else {
                first[ip]
            })
        }),
{
}

/// Gathering the candidate addresses anew keeps what is known of those that
/// remain.
pub proof fn law_refolding_keeps_the_rest(client: ClientView, ip: IpAddr)
    requires
        refolded(client).state.ips.contains(ip),
    ensures
        refolded(client).state.latencies.contains_key(ip) == client.state.latencies.contains_key(
            ip,
        ),
        client.state.latencies.contains_key(ip) ==> refolded(client).state.latencies[ip]
            == client.state.latencies[ip],
        refolded(client).state.interfaces.contains_key(ip) == client.state.interfaces.contains_key(
            ip,
        ),
        refolded(refolded(client)) == refolded(client),
{
    let once = refolded(client);
    assert(refolded(once).state.latencies =~= once.state.latencies);
    assert(refolded(once).state.interfaces =~= once.state.interfaces);
}

/// Every listed, resolved or announced address is a candidate, and no other
/// is.
pub proof fn law_candidates_are_the_union(client: ClientView, ip: IpAddr)
    ensures
        refolded(client).state.ips.contains(ip) <==> client.config.fix_ips.contains(ip)
            || client.state.dns_ips.contains(ip) || client.state.discovered_ips.contains(ip),
{
}

/// An address that is locked on one network is the lock there, changes no lock
/// elsewhere, and counts nowhere where the network is unknown.
pub proof fn law_lock_applies_on_its_network(
    client: ClientView,
    network: Seq<char>,
    other: Seq<char>,
    ip: IpAddr,
)
    requires
        other != network,
    ensures
        ({
            let locked = with_network_lock(client, network, ip);
            &&& with_resolved_lock(locked, Some(network)).state.active_lock == Some(ip)
            &&& with_resolved_lock(locked, Some(other)).state.active_lock == with_resolved_lock(
                client,
                Some(other),
            ).state.active_lock
            &&& with_resolved_lock(locked, None).state.active_lock is None
            &&& with_resolved_lock(
                with_resolved_lock(locked, Some(other)),
                Some(network),
            ).state.active_lock == Some(ip)
        }),
{
}

/// Choosing a base mode releases the lock of the present network and no other.
pub proof fn law_mode_releases_the_present_lock(
    client: ClientView,
    mode: ConnectionMode,
    network: Seq<char>,
    other: Seq<char>,
)
    requires
        other != network,
    ensures
        ({
            let moded = with_mode(client, mode, Some(network));
            &&& moded.config.mode == mode
            &&& lock_on(moded.config, Some(network)) is None
            &&& lock_on(moded.config, Some(other)) == lock_on(client.config, Some(other))
            &&& with_mode(client, mode, None).config.network_locks == client.config.network_locks
        }),
{
}

/// A change of one client leaves all others as they are, and adds or removes
/// none.
pub proof fn law_clients_are_independent(
    clients: Map<usize, ClientView>,
    handle: ClientHandle,
    change: spec_fn(ClientView) -> ClientView,
    other: usize,
)
    requires
        other != handle as usize,
    ensures
        changed(clients, handle, change).dom() == clients.dom(),
        clients.contains_key(other) ==> changed(clients, handle, change)[other] == clients[other],
{
    assert(changed(clients, handle, change).dom() =~= clients.dom());
}

/// Only one address is the fastest.
pub proof fn law_fastest_is_unique(
    latencies: Map<IpAddr, Option<u32>>,
    us: u32,
    ip: IpAddr,
    other_us: u32,
    other: IpAddr,
)
    requires
        is_fastest(latencies, us, ip),
        is_fastest(latencies, other_us, other),
    ensures
        us == other_us,
        ip == other,
{
    assert(latencies[ip] == Some(us));
    assert(latencies[other] == Some(other_us));
}

/// Once the live connection has moved to the better address, nothing calls for
/// another move until the latencies change.
pub proof fn law_upgrades_settle(state: StateView, ip: IpAddr, addr: SocketAddr, next: IpAddr)
    requires
        is_upgrade(state, ip),
        addr.ip == ip,
    ensures
        !is_upgrade(StateView { active_addr: Some(addr), ..state }, next),
{
    let moved = StateView { active_addr: Some(addr), ..state };
    if is_upgrade(moved, next) {
        let us = choose|us: u32| #[trigger] is_fastest(state.latencies, us, ip) && us >= 0;
        let other_us = choose|us: u32| #[trigger] is_fastest(state.latencies, us, next) && us >= 0;
        law_fastest_is_unique(state.latencies, us, ip, other_us, next);
    }
}

/// Under another name a client is another host: what was resolved for the old
/// name counts no longer. No address is a candidate then but those that are
/// listed or were announced, no resolved address is left, and there is no live
/// address. Under the name that it has nothing changes.
pub proof fn law_another_name_is_another_host(
    clients: Map<usize, ClientView>,
    handle: ClientHandle,
    hostname: Option<Seq<char>>,
    ip: IpAddr,
)
    requires
        clients.contains_key(handle as usize),
    ensures
        ({
            let old = clients[handle as usize];
            let after = changed(clients, handle, |c: ClientView| renamed(c, hostname));
            let new = after[handle as usize];
            if old.config.hostname == hostname {
                after == clients
            } else {
                &&& new.config.hostname == hostname
                &&& new.state.dns_ips.len() == 0
                &&& new.state.active_addr is None
                &&& new.state.ips.contains(ip) <==> old.config.fix_ips.contains(ip)
                    || old.state.discovered_ips.contains(ip)
                &&& new.config.fix_ips == old.config.fix_ips
                &&& new.state.discovered_ips == old.state.discovered_ips
                &&& new.config.port == old.config.port
                &&& new.config.pos == old.config.pos
                &&& new.config.mode == old.config.mode
                &&& new.config.network_locks == old.config.network_locks
                &&& new.config.clipboard_send == old.config.clipboard_send
                &&& new.config.cmd == old.config.cmd
                &&& new.state.active == old.state.active
                &&& new.state.alive == old.state.alive
                &&& new.state.active_lock == old.state.active_lock
                &&& new.state.peer_commit == old.state.peer_commit
                &&& new.state.resolving == old.state.resolving
            }
        }),
{
    let after = changed(clients, handle, |c: ClientView| renamed(c, hostname));
    if clients[handle as usize].config.hostname == hostname {
        assert(after =~= clients);
    } else {
        assert(!Seq::<IpAddr>::empty().contains(ip));
    }
}

/// Each source of candidate addresses is replaced on its own: the candidates
/// are then what that source has now and what the two others have, and nothing
/// but the candidates and what is known of them changes.
pub proof fn law_sources_of_candidates(client: ClientView, list: Seq<IpAddr>, ip: IpAddr)
    ensures
        ({
            let listed = with_fix_ips(client, list);
            let resolved = with_dns_ips(client, list);
            let announced = with_discovered(client, list);
            &&& listed.config == (ConfigView { fix_ips: list, ..client.config })
            &&& resolved.config == client.config
            &&& announced.config == client.config
            &&& listed.state.ips.contains(ip) <==> list.contains(ip)
                || client.state.dns_ips.contains(ip) || client.state.discovered_ips.contains(ip)
            &&& resolved.state.ips.contains(ip) <==> list.contains(ip)
                || client.config.fix_ips.contains(ip) || client.state.discovered_ips.contains(ip)
            &&& client.state.discovered_ips != list ==> (announced.state.ips.contains(ip) <==> (
            list.contains(ip) || client.config.fix_ips.contains(ip)
                || client.state.dns_ips.contains(ip)))
            &&& client.state.discovered_ips == list ==> announced == client
            &&& resolved.state.dns_ips == list
            &&& announced.state.discovered_ips == list
            &&& listed.state == (StateView {
                ips: listed.state.ips,
                latencies: listed.state.latencies,
                interfaces: listed.state.interfaces,
                ..client.state
            })
            &&& resolved.state == (StateView {
                ips: resolved.state.ips,
                latencies: resolved.state.latencies,
                interfaces: resolved.state.interfaces,
                dns_ips: list,
                ..client.state
            })
            &&& announced.state == (StateView {
                ips: announced.state.ips,
                latencies: announced.state.latencies,
                interfaces: announced.state.interfaces,
                discovered_ips: list,
                ..client.state
            })
        }),
{
}

/// What is set of a client's configuration is what it is then, and nothing else
/// of it changes.
pub proof fn law_settings_are_kept(
    client: ClientView,
    cmd: Option<Seq<char>>,
    pos: Position,
    flag: bool,
    mode: ConnectionMode,
    network: Option<Seq<char>>,
    port: u16,
)
    ensures
        ({
            let c = with_enter_hook(client, cmd);
            &&& c.config.cmd == cmd
            &&& c.state == client.state
            &&& c.config == (ConfigView { cmd: c.config.cmd, ..client.config })
        }),
        ({
            let c = with_pos(client, pos);
            &&& c.config.pos == pos
            &&& c.state == client.state
            &&& c.config == (ConfigView { pos: c.config.pos, ..client.config })
        }),
        ({
            let c = with_clipboard_send(client, flag);
            &&& c.config.clipboard_send == flag
            &&& c.state == client.state
            &&& c.config == (ConfigView {
                clipboard_send: c.config.clipboard_send,
                ..client.config
            })
        }),
        ({
            let c = with_mode(client, mode, network);
            &&& c.config.mode == mode
            &&& c.state == client.state
            &&& c.config == (ConfigView {
                mode: c.config.mode,
                network_locks: c.config.network_locks,
                ..client.config
            })
        }),
        ({
            let c = with_port(client, port);
            &&& c.config.port == port
            &&& c.config == (ConfigView { port: c.config.port, ..client.config })
            &&& c.state == (StateView { active_addr: c.state.active_addr, ..client.state })
            &&& c.state.active_addr is Some <==> client.state.active_addr is Some
            &&& c.state.active_addr matches Some(addr) ==> addr.ip
                == client.state.active_addr->0.ip && (client.config.port != port ==> addr.port
                == port && addr.flow_info == 0 && addr.scope_id == 0)
            &&& client.config.port == port ==> c == client
        }),
{
}

/// What is noted of a client's state is what it is then, and nothing else of it
/// changes.
pub proof fn law_notes_are_kept(
    client: ClientView,
    flag: bool,
    addr: Option<SocketAddr>,
    commit: Option<[u8; 8]>,
)
    ensures
        with_resolving(client, flag).state.resolving == flag,
        with_alive(client, flag).state.alive == flag,
        with_activity(client, flag).state.active == flag,
        with_active_addr(client, addr).state.active_addr == addr,
        with_peer_commit(client, commit).state.peer_commit == commit,
        with_resolving(client, flag).config == client.config,
        with_alive(client, flag).config == client.config,
        with_activity(client, flag).config == client.config,
        with_active_addr(client, addr).config == client.config,
        with_peer_commit(client, commit).config == client.config,
        with_resolving(client, flag).state == (StateView { resolving: flag, ..client.state }),
        with_alive(client, flag).state == (StateView { alive: flag, ..client.state }),
        with_activity(client, flag).state == (StateView { active: flag, ..client.state }),
        with_active_addr(client, addr).state == (StateView { active_addr: addr, ..client.state }),
        with_peer_commit(client, commit).state == (StateView {
            peer_commit: commit,
            ..client.state
        }),
{
}

/// A whole configuration, or a whole state, takes the place of the old one and
/// leaves the other half alone.
pub proof fn law_halves_are_replaced(client: ClientView, other: ClientView)
    ensures
        with_config(client, other.config).config == other.config,
        with_config(client, other.config).state == client.state,
        with_state(client, other.state).state == other.state,
        with_state(client, other.state).config == client.config,
        with_state(with_config(client, other.config), other.state) == other,
{
}

/// A latency is known of a candidate address as it was last measured, and of no
/// other by that. Nothing else of the client changes.
pub proof fn law_measurements_are_kept(
    client: ClientView,
    ip: IpAddr,
    rtt: Option<u32>,
    other: IpAddr,
)
    requires
        other != ip,
    ensures
        ({
            let c = with_latency(client, ip, rtt);
            &&& c.config == client.config
            &&& c.state == (StateView { latencies: c.state.latencies, ..client.state })
            &&& client.state.ips.contains(ip) ==> c.state.latencies.contains_key(ip)
                && c.state.latencies[ip] == rtt
            &&& !client.state.ips.contains(ip) ==> c == client
            &&& c.state.latencies.contains_key(other) == client.state.latencies.contains_key(other)
            &&& client.state.latencies.contains_key(other) ==> c.state.latencies[other]
                == client.state.latencies[other]
        }),
{
}

/// Announced interface kinds change nothing but what is known of interfaces.
pub proof fn law_kinds_are_merged(
    client: ClientView,
    kinds: Map<IpAddr, IfaceKind>,
    ip: IpAddr,
)
    ensures
        ({
            let c = with_interfaces(client, kinds);
            &&& c.config == client.config
            &&& c.state == (StateView { interfaces: c.state.interfaces, ..client.state })
            &&& c.state.interfaces.contains_key(ip) <==> client.state.ips.contains(ip) && (
            kinds.contains_key(ip) || client.state.interfaces.contains_key(ip))
            &&& c.state.interfaces.contains_key(ip) && kinds.contains_key(ip)
                ==> c.state.interfaces[ip] == kinds[ip]
            &&& c.state.interfaces.contains_key(ip) && !kinds.contains_key(ip)
                ==> c.state.interfaces[ip] == client.state.interfaces[ip]
        }),
{
}

/// A lock is kept until it is replaced or released on its network, and a change
/// of anything else does not touch it, nor which lock applies.
pub proof fn law_locks_are_kept(
    client: ClientView,
    network: Seq<char>,
    ip: IpAddr,
    list: Seq<IpAddr>,
    hostname: Option<Seq<char>>,
    port: u16,
    rtt: Option<u32>,
    kinds: Map<IpAddr, IfaceKind>,
    addr: Option<SocketAddr>,
    flag: bool,
)
    requires
        client.config.network_locks.contains_key(network),
        client.config.network_locks[network] == ip,
        client.state.active_lock == Some(ip),
    ensures
        forall|c: ClientView|
            #![trigger c.state.active_lock]
            (c == with_fix_ips(client, list) || c == with_dns_ips(client, list) || c
                == with_discovered(client, list) || c == renamed(client, hostname) || c
                == with_port(client, port) || c == with_latency(client, ip, rtt) || c
                == with_interfaces(client, kinds) || c == with_active_addr(client, addr) || c
                == with_alive(client, flag) || c == with_activity(client, flag) || c
                == with_resolving(client, flag) || c == with_clipboard_send(client, flag))
                ==> c.state.active_lock == Some(ip) && c.config.network_locks
                == client.config.network_locks,
        with_resolved_lock(client, Some(network)) == client,
{
}

/// A lock that is set on a network changes nothing of the client but that lock,
/// and which lock applies changes nothing else of the state.
pub proof fn law_locking_changes_locks_only(
    client: ClientView,
    network: Seq<char>,
    ip: IpAddr,
    present: Option<Seq<char>>,
)
    ensures
        ({
            let locked = with_network_lock(client, network, ip);
            let resolved = with_resolved_lock(client, present);
            &&& locked.state == client.state
            &&& locked.config == (ConfigView {
                network_locks: locked.config.network_locks,
                ..client.config
            })
            &&& locked.config.network_locks.contains_key(network)
            &&& locked.config.network_locks[network] == ip
            &&& resolved.config == client.config
            &&& resolved.state == (StateView {
                active_lock: resolved.state.active_lock,
                ..client.state
            })
            &&& resolved.state.active_lock == (match present {
                Some(net) if client.config.network_locks.contains_key(net) => Some(
                    client.config.network_locks[net],
                ),
                _ => None,
            })
        }),
{
}

/// A new client is at the left, at the standard port, in the automatic mode and
/// inactive; nothing is known of it, nothing is locked, and clipboard content is
/// not sent to it.
pub proof fn law_new_clients_are_quiet(ip: IpAddr, network: Seq<char>)
    ensures
        default_config().hostname is None,
        default_config().fix_ips.len() == 0,
        default_config().port == 4252,
        default_config().pos is Left,
        default_config().cmd is None,
        default_config().mode is Auto,
        !default_config().network_locks.contains_key(network),
        !default_config().clipboard_send,
        !default_state().active,
        !default_state().alive,
        !default_state().resolving,
        default_state().active_addr is None,
        default_state().dns_ips.len() == 0,
        default_state().discovered_ips.len() == 0,
        !default_state().ips.contains(ip),
        default_state().peer_commit is None,
        default_state().active_lock is None,
        !default_state().latencies.contains_key(ip),
        !default_state().interfaces.contains_key(ip),
{
}

/// What the configuration file says of a client is what its configuration is.
pub proof fn law_configurations_are_taken_over(entry: ConfigClient, config: ConfigView, ip: IpAddr)
    requires
        configured(entry, config),
    ensures
        config.hostname == text_view(entry.hostname),
        config.fix_ips.contains(ip) <==> entry.ips@.contains(ip),
        config.port == entry.port,
        config.pos == entry.pos,
        config.cmd == text_view(entry.enter_hook),
        config.mode == entry.mode,
        config.network_locks == entry.network_locks@,
        config.clipboard_send == entry.clipboard_send,
{
    assert(config.fix_ips.to_set().contains(ip) <==> entry.ips@.contains(ip));
}

/// Input that leaves the screen at a side goes to an active client at that side,
/// where there is one: to the one with the lowest key.
pub proof fn law_a_side_belongs_to_one_client(
    clients: Map<usize, ClientView>,
    pos: Position,
    found: Option<ClientHandle>,
    key: usize,
)
    requires
        finds_first(clients, |c: ClientView| stands_at(c, pos), found),
    ensures
        match found {
            Some(handle) => {
                &&& clients.contains_key(handle as usize)
                &&& clients[handle as usize].state.active
                &&& clients[handle as usize].config.pos == pos
                &&& clients.contains_key(key) && clients[key].state.active
                    && clients[key].config.pos == pos ==> handle as usize <= key
            },
            None => !(clients.contains_key(key) && clients[key].state.active
                && clients[key].config.pos == pos),
        },
{
    let wanted = |c: ClientView| stands_at(c, pos);
    assert(wanted(clients[key]) == stands_at(clients[key], pos));
    if let Some(handle) = found {
        let k = choose|k: usize|
            handle == k as u64 && clients.contains_key(k) && #[trigger] wanted(clients[k])
                && forall|j: usize|
                j < k && clients.contains_key(j) ==> !(#[trigger] wanted(clients[j]));
        assert(handle as usize == k);
    }
}

/// A peer belongs to an active client that has its address as a candidate or is
/// connected there, where there is one: to the one with the lowest key.
pub proof fn law_an_address_belongs_to_one_client(
    clients: Map<usize, ClientView>,
    ip: IpAddr,
    found: Option<ClientHandle>,
    key: usize,
)
    requires
        finds_first(clients, |c: ClientView| reached_at(c, ip), found),
    ensures
        ({
            let belongs = |k: usize|
                clients.contains_key(k) && clients[k].state.active && (clients[k].state.ips.contains(
                    ip,
                ) || (clients[k].state.active_addr matches Some(addr) && addr.ip == ip));
            match found {
                Some(handle) => belongs(handle as usize) && (belongs(key) ==> handle as usize
                    <= key),
                None => !belongs(key),
            }
        }),
{
    let wanted = |c: ClientView| reached_at(c, ip);
    assert(wanted(clients[key]) == reached_at(clients[key], ip));
    if let Some(handle) = found {
        let k = choose|k: usize|
            handle == k as u64 && clients.contains_key(k) && #[trigger] wanted(clients[k])
                && forall|j: usize|
                j < k && clients.contains_key(j) ==> !(#[trigger] wanted(clients[j]));
        assert(handle as usize == k);
    }
}

/// Clipboard content goes to every active client to which it may be sent, and to
/// no other.
pub proof fn law_clipboards_go_where_they_may(
    clients: Map<usize, ClientView>,
    handles: Seq<ClientHandle>,
    key: usize,
)
    requires
        lists_all(clients, |c: ClientView| takes_clipboard(c), handles),
    ensures
        handles.contains(key as u64) <==> clients.contains_key(key)
            && clients[key].config.clipboard_send && clients[key].state.active,
{
    let wanted = |c: ClientView| takes_clipboard(c);
    assert(wanted(clients[key]) == takes_clipboard(clients[key]));
    if handles.contains(key as u64) {
        let i = choose|i: int| 0 <= i < handles.len() && handles[i] == key as u64;
        assert(wanted(clients[handles[i] as usize]));
    }
}

/// Every client is listed once, and the active ones are among them.
pub proof fn law_clients_are_listed(
    clients: Map<usize, ClientView>,
    all: Seq<ClientHandle>,
    active: Seq<ClientHandle>,
    key: usize,
)
    requires
        lists_all(clients, |c: ClientView| true, all),
        lists_all(clients, |c: ClientView| c.state.active, active),
    ensures
        all.contains(key as u64) <==> clients.contains_key(key),
        active.contains(key as u64) <==> clients.contains_key(key) && clients[key].state.active,
        all.no_duplicates(),
        active.no_duplicates(),
{
    let every = |c: ClientView| true;
    let lively = |c: ClientView| c.state.active;
    assert(every(clients[key]));
    assert(lively(clients[key]) == clients[key].state.active);
    if all.contains(key as u64) {
        let i = choose|i: int| 0 <= i < all.len() && all[i] == key as u64;
        assert(clients.contains_key(all[i] as usize));
    }
    if active.contains(key as u64) {
        let i = choose|i: int| 0 <= i < active.len() && active[i] == key as u64;
        assert(lively(clients[active[i] as usize]));
    }
    assert forall|i: int, j: int| 0 <= i < all.len() && 0 <= j < all.len() && i != j implies all[i]
        != all[j] by {
        if i < j {
            assert(all[i] < all[j]);
        } else {
            assert(all[j] < all[i]);
        }
    }
    assert forall|i: int, j: int| 0 <= i < active.len() && 0 <= j < active.len() && i
        != j implies active[i] != active[j] by {
        if i < j {
            assert(active[i] < active[j]);
        } else {
            assert(active[j] < active[i]);
        }
    }
}

/// The candidates that are probed are those that carry no live connection.
pub proof fn law_idle_candidates_are_probed(client: ClientView, ip: IpAddr)
    ensures
        inactive_candidates(client.state).contains(ip) <==> client.state.ips.contains(ip) && !(
        client.state.active_addr matches Some(addr) && addr.ip == ip),
        !has_targets(client) ==> !inactive_candidates(client.state).contains(ip),
{
}

/// The fastest address is one that answered, and none answered faster.
pub proof fn law_none_is_faster(
    latencies: Map<IpAddr, Option<u32>>,
    us: u32,
    ip: IpAddr,
    other: IpAddr,
)
    requires
        is_fastest(latencies, us, ip),
    ensures
        latencies.contains_key(ip) && latencies[ip] == Some(us),
        latencies.contains_key(other) ==> match latencies[other] {
            Some(other_us) => us <= other_us,
            None => true,
        },
{
}

/// A connection moves only to the fastest address, where that is at least twice
/// as fast as the present one and at least 15 milliseconds better; and it moves
/// then.
pub proof fn law_connections_move_for_a_gain(
    state: StateView,
    active: SocketAddr,
    active_us: u32,
    ip: IpAddr,
    us: u32,
)
    requires
        state.active_addr == Some(active),
        state.latencies.contains_key(active.ip),
        state.latencies[active.ip] == Some(active_us),
        is_fastest(state.latencies, us, ip),
    ensures
        is_upgrade(state, ip) <==> ip != active.ip && us * 2 <= active_us && us + 15_000
            <= active_us,
        forall|other: IpAddr| is_upgrade(state, other) ==> other == ip,
{
    assert forall|other: IpAddr| is_upgrade(state, other) implies other == ip by {
        let other_us = choose|u: u32| #[trigger] is_fastest(state.latencies, u, other) && u >= 0;
        law_fastest_is_unique(state.latencies, us, ip, other_us, other);
    }
    if is_upgrade(state, ip) {
        let found = choose|u: u32| #[trigger]
            is_fastest(state.latencies, u, ip) && 2 * u <= active_us && active_us - u
                >= MIN_ABSOLUTE_GAIN_US;
        law_fastest_is_unique(state.latencies, us, ip, found, ip);
    }
}

/// A connection whose latency is unknown, or that there is not, does not move.
pub proof fn law_unmeasured_connections_stay(state: StateView, ip: IpAddr)
    requires
        match state.active_addr {
            Some(active) => !state.latencies.contains_key(active.ip)
                || state.latencies[active.ip] is None,
            None => true,
        },
    ensures
        !is_upgrade(state, ip),
{
}

/// What was set of a client is what is read of it.
pub proof fn law_reads_give_back_what_was_set(
    clients: Map<usize, ClientView>,
    handle: ClientHandle,
    pos: Position,
    cmd: Option<Seq<char>>,
    hostname: Option<Seq<char>>,
    port: u16,
    mode: ConnectionMode,
    network: Option<Seq<char>>,
    addr: Option<SocketAddr>,
    alive: bool,
)
    requires
        clients.contains_key(handle as usize),
    ensures
        pos_of(changed(clients, handle, |c: ClientView| with_pos(c, pos)), handle) == Some(pos),
        enter_cmd_of(changed(clients, handle, |c: ClientView| with_enter_hook(c, cmd)), handle)
            == cmd,
        hostname_of(changed(clients, handle, |c: ClientView| renamed(c, hostname)), handle)
            == hostname,
        client_port(changed(clients, handle, |c: ClientView| with_port(c, port)), handle) == Some(
            port,
        ),
        mode_of(changed(clients, handle, |c: ClientView| with_mode(c, mode, network)), handle)
            == mode,
        active_addr_of(changed(clients, handle, |c: ClientView| with_active_addr(c, addr)), handle)
            == addr,
        alive_of(changed(clients, handle, |c: ClientView| with_alive(c, alive)), handle) == alive,
{
}

/// Nothing is read of a client that there is not.
pub proof fn law_nothing_is_read_of_nobody(clients: Map<usize, ClientView>, handle: ClientHandle)
    requires
        !clients.contains_key(handle as usize),
    ensures
        lookup(clients, handle) is None,
        hostname_of(clients, handle) is None,
        pos_of(clients, handle) is None,
        enter_cmd_of(clients, handle) is None,
        active_addr_of(clients, handle) is None,
        !alive_of(clients, handle),
        client_port(clients, handle) is None,
        mode_of(clients, handle) is Auto,
        active_lock_of(clients, handle) is None,
        forall|f: spec_fn(ClientView) -> ClientView| #[trigger]
            changed(clients, handle, f) == clients,
{
}

/// Input has to be captured elsewhere exactly where an active client moves to
/// another side.
pub proof fn law_moves_of_active_clients_count(
    clients: Map<usize, ClientView>,
    handle: ClientHandle,
    pos: Position,
)
    ensures
        recaptures(clients, handle, pos) <==> pos_of(clients, handle) is Some && pos_of(
            clients,
            handle,
        ) != Some(pos) && clients[handle as usize].state.active,
{
}

/// A client that is added gets a handle that none has, and no other client
/// changes; it is a new client, or what the configuration file says.
pub proof fn law_added_clients_are_new(
    before: Map<usize, ClientView>,
    next_key: usize,
    entry: ConfigClient,
    handle: ClientHandle,
    after: Map<usize, ClientView>,
    other: usize,
)
    requires
        adds(before, next_key, handle, after) || adds_configured(
            before,
            next_key,
            entry,
            handle,
            after,
        ),
        other != handle as usize,
    ensures
        handle == next_key,
        !before.contains_key(handle as usize),
        after.contains_key(handle as usize),
        after.contains_key(other) <==> before.contains_key(other),
        before.contains_key(other) ==> after[other] == before[other],
        adds(before, next_key, handle, after) ==> after[handle as usize].config
            == default_config() && after[handle as usize].state == default_state(),
        adds_configured(before, next_key, entry, handle, after) ==> {
            let c = after[handle as usize];
            &&& configured(entry, c.config)
            &&& c.state.active == entry.active
            &&& c.state.ips == entry.ips@
            &&& c.state.active_addr is None
            &&& !c.state.alive
            &&& c.state.active_lock is None
            &&& c.state.dns_ips.len() == 0
            &&& c.state.discovered_ips.len() == 0
        },
{
}

/// A client that is removed is gone, and is handed out as it was; no other client
/// changes.
pub proof fn law_removed_clients_are_gone(
    before: Map<usize, ClientView>,
    handle: ClientHandle,
    removed: Option<(ClientConfig, ClientState)>,
    after: Map<usize, ClientView>,
    other: usize,
)
    requires
        removes(before, handle, removed, after),
        other != handle as usize,
    ensures
        lookup(after, handle) is None,
        removed is Some <==> before.contains_key(handle as usize),
        removed matches Some(c) ==> client_view(c) == before[handle as usize],
        after.contains_key(other) <==> before.contains_key(other),
        before.contains_key(other) ==> after[other] == before[other],
{
}

/// Every candidate of every client is probed at the client's port, but for the
/// one that carries the live connection; and nothing else is.
pub proof fn law_every_idle_candidate_is_probed(
    clients: Map<usize, ClientView>,
    targets: Seq<(ClientHandle, u16, Vec<IpAddr>)>,
    key: usize,
    ip: IpAddr,
)
    requires
        are_targets(clients, targets),
        clients.contains_key(key),
    ensures
        clients[key].state.ips.contains(ip) && !(clients[key].state.active_addr matches Some(addr)
            && addr.ip == ip) <==> exists|i: int|
            0 <= i < targets.len() && (#[trigger] targets[i]).0 == key as u64
                && targets[i].2@.contains(ip),
        forall|i: int|
            0 <= i < targets.len() && (#[trigger] targets[i]).0 == key as u64 ==> targets[i].1
                == clients[key].config.port,
{
    let client = clients[key];
    let wanted = |c: ClientView| has_targets(c);
    let handles = probed_handles(targets);
    law_idle_candidates_are_probed(client, ip);
    assert(wanted(client) == has_targets(client));
    if inactive_candidates(client.state).contains(ip) {
        assert(has_targets(client));
        assert(handles.contains(key as u64));
        let i = choose|i: int| 0 <= i < handles.len() && handles[i] == key as u64;
        assert(targets[i].0 == key as u64);
        assert(targets[i].2@.to_set().contains(ip));
    }
    assert forall|i: int|
        0 <= i < targets.len() && (#[trigger] targets[i]).0 == key as u64 && targets[i].2@.contains(
            ip,
        ) implies inactive_candidates(client.state).contains(ip) by {
        assert(targets[i].2@.to_set().contains(ip));
    }
}

} // verus!
