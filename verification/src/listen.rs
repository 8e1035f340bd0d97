//! The listening side: on which addresses it listens, which peers it takes, and
//! what it does with their datagrams.
use vstd::prelude::*;
use std::collections::VecDeque;
use crate::addr::{AddrSet, IpAddr, SocketAddr};
use crate::assembler::{
    all_arrive, arriving, covers, frames_in_order, in_range, law_sent_frames_make_the_transfer,
    law_transfer_reassembles, opening_first, outcome, pending_after, pending_after_all,
    ClipboardAssembler, PendingView,
};
use crate::bytes::same_bytes;
use crate::clipboard::{
    begin_frame, chunk_count_for, chunk_frame, encode_clipboard_frame, sha256, too_large,
    transfer_frames, transfers, well_formed_frame, ClipboardFrame, ClipboardTransfer, FrameView,
    TransferView,
};
use crate::datagram::{
    datagram_holds, decode_proto_datagram, law_sent_events_arrive, law_sent_frames_arrive,
    DecodedDatagram,
};
use crate::input_event::{ClipboardEvent, Event};
use crate::network::v6_link_local;
use crate::proto::{ProtoEvent, ProtocolError, PROTOCOL_MAGIC};
use crate::text::{same_text, texts};

verus! {

/// How often the addresses are looked at, in milliseconds.
pub const RECONCILE_INTERVAL_MS: u64 = 30_000;

/// How long a peer may be silent.
pub const RECV_IDLE_TIMEOUT_MS: u64 = 8_000;

/// How long a peer may take to greet.
pub const HELLO_TIMEOUT_MS: u64 = 12_000;

/// How often an acknowledgement is sent: it is small, and one lost datagram
/// then does not bring the whole transfer again.
pub const ACK_COPIES: u32 = 3;

/// Why no listener could be created. Errors of the transport come as text.
#[derive(Debug)]
pub enum ListenerCreationError {
    WebrtcUtil(String),
    WebrtcDtls(String),
    NoBoundListener,
}

impl ListenerCreationError {
    pub open spec fn text(self) -> Seq<char> {
        match self {
            ListenerCreationError::WebrtcUtil(e) => e@,
            ListenerCreationError::WebrtcDtls(e) => e@,
            ListenerCreationError::NoBoundListener =>
                "no listener could be bound on any local address"@,
        }
    }

    /// Describes the error.
    pub fn describe(&self) -> (text: String)
        ensures
            text@ == self.text(),
    {
        match self {
            ListenerCreationError::WebrtcUtil(e) => e.clone(),
            ListenerCreationError::WebrtcDtls(e) => e.clone(),
            ListenerCreationError::NoBoundListener =>
                "no listener could be bound on any local address".to_owned(),
        }
    }
}

/// A peer can reach the address: it is not loopback, link-local, unspecified or
/// multicast.
pub open spec fn listenable(ip: IpAddr) -> bool {
    match ip {
        IpAddr::V4(v4) => v4 / 0x100_0000 != 127 && v4 != 0 && v4 / 0x1000_0000 != 0xe && v4
            / 0x1_0000 != 0xa9fe,
        IpAddr::V6(v6) => v6 != 1 && v6 != 0 && v6 / 0x100_0000_0000_0000_0000_0000_0000_0000
            != 0xff && !v6_link_local(v6),
    }
}

/// Whether it is worth listening on an address.
pub fn is_listenable_addr(ip: IpAddr) -> (is: bool)
    ensures
        is == listenable(ip),
{
    match ip {
        IpAddr::V4(v4) => v4 / 0x100_0000 != 127 && v4 != 0 && v4 / 0x1000_0000 != 0xe && v4
            / 0x1_0000 != 0xa9fe,
        IpAddr::V6(v6) => v6 != 1 && v6 != 0 && v6 / 0x100_0000_0000_0000_0000_0000_0000_0000
            != 0xff && !crate::network::is_v6_link_local(v6),
    }
}

/// The addresses on which it is worth listening, in their order.
pub open spec fn listenable_of(addrs: Seq<IpAddr>) -> Seq<IpAddr>
    decreases addrs.len(),
{
    if addrs.len() == 0 {
        seq![]
    } else if listenable(addrs.last()) {
        listenable_of(addrs.drop_last()).push(addrs.last())
    } else {
        listenable_of(addrs.drop_last())
    }
}

/// The addresses of the interfaces on which it is worth listening, in their
/// order. `addrs` is empty where the interfaces could not be listed.
pub fn enumerate_listenable_addrs(addrs: &Vec<IpAddr>) -> (found: Vec<IpAddr>)
    ensures
        found@ == listenable_of(addrs@),
{
    let mut found: Vec<IpAddr> = Vec::new();
    let mut i: usize = 0;
    while i < addrs.len()
        invariant
            i <= addrs@.len(),
            found@ == listenable_of(addrs@.take(i as int)),
        decreases addrs@.len() - i,
    {
        proof {
            assert(addrs@.take(i + 1).drop_last() =~= addrs@.take(i as int));
            assert(addrs@.take(i + 1).last() == addrs@[i as int]);
        }
        if is_listenable_addr(addrs[i]) {
            found.push(addrs[i]);
        }
        i += 1;
    }
    assert(addrs@.take(i as int) =~= addrs@);
    found
}

/// Membership in the listenable addresses.
pub proof fn lemma_listenable_of(addrs: Seq<IpAddr>, ip: IpAddr)
    ensures
        listenable_of(addrs).contains(ip) <==> addrs.contains(ip) && listenable(ip),
    decreases addrs.len(),
{
    if addrs.len() > 0 {
        let front = addrs.drop_last();
        let rest = listenable_of(front);
        let all = listenable_of(addrs);
        lemma_listenable_of(front, ip);
        assert(addrs.contains(ip) <==> front.contains(ip) || ip == addrs.last()) by {
            if front.contains(ip) {
                let k = choose|k: int| 0 <= k < front.len() && front[k] == ip;
                assert(addrs[k] == ip);
            }
            if addrs.contains(ip) && ip != addrs.last() {
                let k = choose|k: int| 0 <= k < addrs.len() && addrs[k] == ip;
                assert(front[k] == ip);
            }
            assert(addrs[addrs.len() - 1] == addrs.last());
        }
        if listenable(addrs.last()) {
            assert(all.contains(ip) <==> rest.contains(ip) || ip == addrs.last()) by {
                if rest.contains(ip) {
                    let k = choose|k: int| 0 <= k < rest.len() && rest[k] == ip;
                    assert(all[k] == ip);
                }
                assert(all[rest.len() as int] == addrs.last());
            }
        }
    }
}

/// What a look at the interfaces calls for: listeners to be dropped, and
/// addresses to be bound.
#[derive(Debug)]
pub struct Reconciliation {
    pub to_drop: Vec<IpAddr>,
    pub to_bind: Vec<IpAddr>,
}

/// What the supervisor of the listeners was told.
#[derive(Debug, PartialEq, Eq, Clone, Copy, Structural)]
pub enum InterfaceEvent {
    Up(IpAddr),
    Down(IpAddr),
    /// The watch over the interfaces reported an error.
    Error,
}

/// What an interface event calls for.
#[derive(Debug, PartialEq, Eq, Clone, Copy, Structural)]
pub enum InterfaceAction {
    Nothing,
    /// Bind a listener on this address.
    Bind(IpAddr),
    /// Stop the listener on this address.
    Drop(IpAddr),
}

/// The listeners that are bound, and the port that they are bound to.
#[derive(Debug)]
pub struct ListenSupervisor {
    port: u16,
    bound: AddrSet,
}

/// What a [`ListenSupervisor`] knows.
#[verifier::ext_equal]
pub struct SupervisorView {
    pub port: u16,
    pub bound: Set<IpAddr>,
}

impl View for ListenSupervisor {
    type V = SupervisorView;

    closed spec fn view(&self) -> SupervisorView {
        SupervisorView { port: self.port, bound: self.bound@ }
    }
}

/// The address that stands for all IPv4 addresses.
pub open spec fn any_v4() -> IpAddr {
    IpAddr::V4(0)
}

/// A listener has been bound.
pub open spec fn with_listener(supervisor: SupervisorView, ip: IpAddr) -> SupervisorView {
    SupervisorView { bound: supervisor.bound.insert(ip), ..supervisor }
}

/// The address to be bound where no other could be.
pub open spec fn last_resort(supervisor: SupervisorView) -> Option<IpAddr> {
    if supervisor.bound == Set::<IpAddr>::empty() {
        Some(any_v4())
    } else {
        None
    }
}

/// `todo` and `after` are what a look at the interfaces leads to.
pub open spec fn reconciles(
    before: SupervisorView,
    addrs: Seq<IpAddr>,
    todo: Reconciliation,
    after: SupervisorView,
) -> bool {
    let current = listenable_of(addrs).to_set();
    &&& after == (SupervisorView { bound: before.bound.intersect(current), ..before })
    &&& todo.to_drop@.no_duplicates()
    &&& todo.to_drop@.to_set() == before.bound.difference(current)
    &&& todo.to_bind@.no_duplicates()
    &&& todo.to_bind@.to_set() == current.difference(before.bound)
}

/// `action` and `after` are what an interface event leads to.
pub open spec fn heeds(
    before: SupervisorView,
    event: InterfaceEvent,
    action: InterfaceAction,
    after: SupervisorView,
) -> bool {
    &&& after.port == before.port
    &&& match event {
        InterfaceEvent::Up(ip) => {
            &&& after == before
            &&& action == (if listenable(ip) && !before.bound.contains(ip) {
                InterfaceAction::Bind(ip)
            } else {
                InterfaceAction::Nothing
            })
        },
        InterfaceEvent::Down(ip) => {
            &&& after.bound == before.bound.remove(ip)
            &&& action == (if before.bound.contains(ip) {
                InterfaceAction::Drop(ip)
            } else {
                InterfaceAction::Nothing
            })
        },
        InterfaceEvent::Error => after == before && action == InterfaceAction::Nothing,
    }
}

/// `to_bind` and `after` are what the wish for another port leads to.
pub open spec fn leaves_port(
    before: SupervisorView,
    addrs: Seq<IpAddr>,
    to_bind: Seq<IpAddr>,
    after: SupervisorView,
) -> bool {
    &&& after == (SupervisorView { bound: Set::empty(), ..before })
    &&& to_bind == listenable_of(addrs)
}

/// `changed` and `after` are how a change of the port ends.
pub open spec fn takes_port(
    before: SupervisorView,
    new_port: u16,
    changed: Result<u16, ListenerCreationError>,
    after: SupervisorView,
) -> bool {
    &&& after.bound == before.bound
    &&& match changed {
        Ok(port) => before.bound != Set::<IpAddr>::empty() && port == new_port && after.port
            == new_port,
        Err(e) => before.bound == Set::<IpAddr>::empty() && e is NoBoundListener && after.port
            == before.port,
    }
}

impl ListenSupervisor {
    /// No listener is bound yet.
    pub fn new(port: u16) -> (supervisor: ListenSupervisor)
        ensures
            supervisor@ == (SupervisorView { port, bound: Set::empty() }),
    {
        ListenSupervisor { port, bound: AddrSet::new() }
    }

    /// The port that listeners are bound to.
    pub fn port(&self) -> (port: u16)
        ensures
            port == self@.port,
    {
        self.port
    }

    /// A listener was bound on `ip`.
    pub fn bound(&mut self, ip: IpAddr)
        ensures
            final(self)@ == with_listener(old(self)@, ip),
    {
        self.bound.insert(ip);
    }

    /// The address to be bound as a last resort once every address has been
    /// tried at the start: none where any was bound.
    pub fn startup_fallback(&self) -> (fallback: Option<IpAddr>)
        ensures
            fallback == last_resort(self@),
    {
        if self.bound.is_empty() {
            Some(IpAddr::V4(0))
        } else {
            None
        }
    }

    /// The interfaces were looked at: listeners on addresses that are gone are
    /// dropped, and addresses without a listener are to be bound. `addrs` are
    /// the addresses of all interfaces.
    pub fn reconcile(&mut self, addrs: &Vec<IpAddr>) -> (todo: Reconciliation)
        ensures
            reconciles(old(self)@, addrs@, todo, final(self)@),
    {
        let ghost before = self@.bound;
        let found = enumerate_listenable_addrs(addrs);
        let mut current = AddrSet::new();
        current.insert_all(&found);
        let ghost now = listenable_of(addrs@).to_set();
        assert(current@ =~= now);
        let to_drop = difference(&self.bound, &current);
        let to_bind = difference(&current, &self.bound);
        let kept = difference_set(&self.bound, &to_drop);
        self.bound = kept;
        assert(self@.bound =~= before.intersect(now));
        Reconciliation { to_drop, to_bind }
    }

    /// An interface came up or went down.
    pub fn interface_event(&mut self, event: InterfaceEvent) -> (action: InterfaceAction)
        ensures
            heeds(old(self)@, event, action, final(self)@),
    {
        match event {
            InterfaceEvent::Up(ip) => if is_listenable_addr(ip) && !self.bound.contains(&ip) {
                InterfaceAction::Bind(ip)
            } else {
                InterfaceAction::Nothing
            },
            InterfaceEvent::Down(ip) => if self.bound.remove(&ip) {
                InterfaceAction::Drop(ip)
            } else {
                InterfaceAction::Nothing
            },
            InterfaceEvent::Error => InterfaceAction::Nothing,
        }
    }

    /// Another port is wanted: all listeners are dropped. Returns the addresses
    /// to be bound to that port.
    pub fn begin_port_change(&mut self, addrs: &Vec<IpAddr>) -> (to_bind: Vec<IpAddr>)
        ensures
            leaves_port(old(self)@, addrs@, to_bind@, final(self)@),
    {
        self.bound = AddrSet::new();
        enumerate_listenable_addrs(addrs)
    }

    /// Every address has been tried with the new port. Where none could be
    /// bound the port stays what it was, for later attempts, and the change has
    /// failed.
    pub fn finish_port_change(&mut self, new_port: u16) -> (changed: Result<
        u16,
        ListenerCreationError,
    >)
        ensures
            takes_port(old(self)@, new_port, changed, final(self)@),
    {
        if self.bound.is_empty() {
            Err(ListenerCreationError::NoBoundListener)
        } else {
            self.port = new_port;
            Ok(new_port)
        }
    }
}

/// The addresses of `a` that are not in `b`, once each.
fn difference(a: &AddrSet, b: &AddrSet) -> (rest: Vec<IpAddr>)
    ensures
        rest@.no_duplicates(),
        rest@.to_set() == a@.difference(b@),
{
    let mut set = AddrSet::new();
    let list = a.to_list();
    let mut i: usize = 0;
    assert(set@ =~= list@.take(0).to_set().difference(b@));
    while i < list.len()
        invariant
            i <= list@.len(),
            set@ == list@.take(i as int).to_set().difference(b@),
        decreases list@.len() - i,
    {
        let ghost then = list@.take(i as int);
        let ghost now = list@.take(i + 1);
        if !b.contains(&list[i]) {
            set.insert(list[i]);
        }
        proof {
            assert forall|x: IpAddr| now.contains(x) == (then.contains(x) || x == list@[i as int]) by {
                if then.contains(x) {
                    let k = choose|k: int| 0 <= k < then.len() && then[k] == x;
                    assert(now[k] == x);
                }
                if now.contains(x) && x != list@[i as int] {
                    let k = choose|k: int| 0 <= k < now.len() && now[k] == x;
                    assert(then[k] == x);
                }
                assert(now[i as int] == list@[i as int]);
            }
            assert(set@ =~= now.to_set().difference(b@));
        }
        i += 1;
    }
    assert(list@.take(i as int) =~= list@);
    set.to_list()
}

/// The addresses of `a` that are not in the list.
fn difference_set(a: &AddrSet, list: &Vec<IpAddr>) -> (rest: AddrSet)
    ensures
        rest@ == a@.difference(list@.to_set()),
{
    let mut other = AddrSet::new();
    other.insert_all(list);
    assert(other@ =~= list@.to_set());
    let kept = difference(a, &other);
    let mut rest = AddrSet::new();
    rest.insert_all(&kept);
    assert(rest@ =~= a@.difference(list@.to_set()));
    rest
}

/// Once everything that a look at the interfaces calls for has been bound, the
/// listeners are those of the present addresses: what was missed is made up
/// for.
pub proof fn law_reconciling_restores_all_listeners(bound: Set<IpAddr>, addrs: Seq<IpAddr>)
    ensures
        ({
            let current = listenable_of(addrs).to_set();
            bound.intersect(current).union(current.difference(bound)) == current
        }),
{
    let current = listenable_of(addrs).to_set();
    assert(bound.intersect(current).union(current.difference(bound)) =~= current);
}

/// No listener is ever bound on an address that no peer can reach, but for the
/// last resort at the start.
pub proof fn law_bound_addresses_are_listenable(addrs: Seq<IpAddr>, bound: Set<IpAddr>, ip: IpAddr)
    requires
        listenable_of(addrs).to_set().difference(bound).contains(ip),
    ensures
        listenable(ip),
        addrs.contains(ip),
{
    lemma_listenable_of(addrs, ip);
}

/// Whether a fingerprint is among the authorized ones.
pub fn is_authorized(keys: &Vec<String>, fingerprint: &str) -> (known: bool)
    ensures
        known == texts(keys@).contains(fingerprint@),
{
    let mut i: usize = 0;
    while i < keys.len()
        invariant
            i <= keys@.len(),
            forall|k: int| 0 <= k < i ==> texts(keys@)[k] != fingerprint@,
        decreases keys@.len() - i,
    {
        assert(texts(keys@)[i as int] == keys@[i as int]@);
        if same_text(keys[i].as_str(), fingerprint) {
            return true;
        }
        i += 1;
    }
    false
}

/// Whether a peer with the fingerprint is taken, and who has been turned away by
/// then.
pub open spec fn peer_verdict(
    keys: Seq<Seq<char>>,
    turned_away: Seq<Seq<char>>,
    fingerprint: Seq<char>,
) -> (bool, Seq<Seq<char>>) {
    if keys.contains(fingerprint) {
        (true, turned_away)
    } else {
        (false, turned_away.push(fingerprint))
    }
}

/// The fingerprints of peers that were turned away, in the order in which they
/// came.
#[derive(Debug)]
pub struct TurnedAway {
    queue: VecDeque<String>,
}

impl View for TurnedAway {
    type V = Seq<Seq<char>>;

    closed spec fn view(&self) -> Seq<Seq<char>> {
        self.queue@.map_values(|s: String| s@)
    }
}

/// The first that was turned away is taken out, where anybody was.
pub open spec fn takes_first(
    before: Seq<Seq<char>>,
    first: Option<Seq<char>>,
    after: Seq<Seq<char>>,
) -> bool {
    match first {
        Some(f) => before.len() > 0 && f == before[0] && after == before.skip(1),
        None => before.len() == 0 && after == before,
    }
}

impl TurnedAway {
    /// Nobody has been turned away.
    pub fn new() -> (turned_away: TurnedAway)
        ensures
            turned_away@ == Seq::<Seq<char>>::empty(),
    {
        let turned_away = TurnedAway { queue: VecDeque::new() };
        assert(turned_away@ =~= Seq::<Seq<char>>::empty());
        turned_away
    }

    /// A peer presented a certificate. Returns whether it is taken: only one
    /// whose fingerprint is among the keys that are authorized now is; the
    /// fingerprint of any other is noted.
    pub fn verify_peer(&mut self, keys: &Vec<String>, fingerprint: String) -> (taken: bool)
        ensures
            (taken, final(self)@) == peer_verdict(texts(keys@), old(self)@, fingerprint@),
    {
        let ghost before = self@;
        if is_authorized(keys, fingerprint.as_str()) {
            return true;
        }
        self.queue.push_back(fingerprint);
        assert(self@ =~= before.push(fingerprint@));
        false
    }

    /// A handshake failed because the peer was turned away: its fingerprint,
    /// to be shown to the user.
    pub fn next(&mut self) -> (fingerprint: Option<String>)
        ensures
            takes_first(old(self)@, crate::text::text_view(fingerprint), final(self)@),
    {
        let ghost before = self@;
        let fingerprint = self.queue.pop_front();
        proof {
            if before.len() > 0 {
                assert(self@ =~= before.skip(1));
            } else {
                assert(self@ =~= before);
            }
        }
        fingerprint
    }
}

/// A peer is taken exactly where its fingerprint is authorized when it comes,
/// and is noted once where it is not. Once its fingerprint is added to the keys
/// it is taken; once it is removed from them it is not.
pub proof fn law_authorized_peers_are_taken(
    keys: Seq<Seq<char>>,
    turned_away: Seq<Seq<char>>,
    fingerprint: Seq<char>,
)
    ensures
        peer_verdict(keys, turned_away, fingerprint).0 <==> keys.contains(fingerprint),
        peer_verdict(keys, turned_away, fingerprint).1 == (if keys.contains(fingerprint) {
            turned_away
        } else {
            turned_away.push(fingerprint)
        }),
        peer_verdict(keys.push(fingerprint), turned_away, fingerprint) == (true, turned_away),
        peer_verdict(keys.filter(|k: Seq<char>| k != fingerprint), turned_away, fingerprint) == (
            false,
            turned_away.push(fingerprint),
        ),
{
    assert(keys.push(fingerprint)[keys.len() as int] == fingerprint);
    let other = |k: Seq<char>| k != fingerprint;
    let rest = keys.filter(other);
    if rest.contains(fingerprint) {
        let i = choose|i: int| 0 <= i < rest.len() && rest[i] == fingerprint;
        keys.lemma_filter_pred(other, i);
    }
}

/// What a datagram of a peer calls for.
#[derive(Debug)]
pub enum InboundAction {
    /// Nothing: it could not be decoded, it has no place here, or it is a part
    /// of a transfer of which more is missing.
    Ignore,
    /// The peer is none of this protocol: drop the connection.
    Refuse,
    /// Pass the event on.
    Message(ProtoEvent),
    /// Pass the text on.
    Clipboard(ClipboardTransfer),
}

/// A peer that has connected.
#[derive(Debug)]
pub struct InboundPeer {
    greeted: bool,
    assembler: ClipboardAssembler,
}

/// What is known of a peer that has connected.
#[verifier::ext_equal]
pub struct InboundView {
    /// Whether it has sent a valid greeting.
    pub greeted: bool,
    /// Its transfers under way.
    pub pending: Map<u64, PendingView>,
}

impl View for InboundPeer {
    type V = InboundView;

    closed spec fn view(&self) -> InboundView {
        InboundView { greeted: self.greeted, pending: self.assembler@ }
    }
}

/// What an action says.
pub open spec fn takes_in(
    before: InboundView,
    decoded: Option<DecodedDatagram>,
    action: InboundAction,
    after: InboundView,
) -> bool {
    match decoded {
        None => action is Ignore && after == before,
        Some(DecodedDatagram::Proto(ProtoEvent::Hello { magic, commit })) => if magic@
            == PROTOCOL_MAGIC@ {
            &&& action == InboundAction::Message(
                ProtoEvent::Hello { magic: PROTOCOL_MAGIC, commit },
            )
            &&& after == (InboundView { greeted: true, ..before })
        } else {
            action is Refuse && after == before
        },
        Some(DecodedDatagram::Proto(event)) => action == InboundAction::Message(event) && after
            == before,
        Some(DecodedDatagram::Clipboard(frame)) => if frame is Ack {
            action is Ignore && after == before
        } else {
            &&& after == (InboundView { pending: pending_after(before.pending, frame@), ..before })
            &&& match outcome(before.pending, frame@) {
                Ok(Some(transfer)) => action matches InboundAction::Clipboard(t) && t@ == transfer,
                _ => action is Ignore,
            }
        },
    }
}

/// A peer whose time to greet is over is to be dropped.
pub open spec fn overdue(peer: InboundView) -> bool {
    !peer.greeted
}

/// `action` and `after` are what a datagram leads to.
pub open spec fn reacts(
    datagram: Seq<u8>,
    before: InboundView,
    action: InboundAction,
    after: InboundView,
) -> bool {
    exists|decoded: Option<DecodedDatagram>| #[trigger]
        datagram_holds(datagram, decoded) && takes_in(before, decoded, action, after)
}

impl InboundPeer {
    /// A peer that has just connected.
    pub fn new() -> (peer: InboundPeer)
        ensures
            peer@ == (InboundView { greeted: false, pending: Map::empty() }),
    {
        InboundPeer { greeted: false, assembler: ClipboardAssembler::default() }
    }

    /// Whether the peer has sent a valid greeting.
    pub fn has_greeted(&self) -> (greeted: bool)
        ensures
            greeted == self@.greeted,
    {
        self.greeted
    }

    /// Whether the connection is to be closed once [`HELLO_TIMEOUT_MS`] have
    /// passed: where the peer has not greeted.
    pub fn hello_overdue(&self) -> (close: bool)
        ensures
            close == overdue(self@),
    {
        !self.greeted
    }

    /// Takes in a datagram of the peer.
    pub fn receive(&mut self, datagram: &[u8]) -> (action: InboundAction)
        ensures
            reacts(datagram@, old(self)@, action, final(self)@),
    {
        let decoded = decode_proto_datagram(datagram);
        let ghost held = decoded;
        assert(datagram_holds(datagram@, held));
        match decoded {
            None => InboundAction::Ignore,
            Some(DecodedDatagram::Proto(ProtoEvent::Hello { magic, commit })) => {
                if !same_bytes(magic.as_slice(), PROTOCOL_MAGIC.as_slice()) {
                    return InboundAction::Refuse;
                }
                self.greeted = true;
                InboundAction::Message(ProtoEvent::hello(commit))
            },
            Some(DecodedDatagram::Proto(event)) => InboundAction::Message(event),
            Some(DecodedDatagram::Clipboard(frame)) => {
                if let ClipboardFrame::Ack { .. } = frame {
                    return InboundAction::Ignore;
                }
                let result = self.assembler.push(frame);
                match result {
                    Ok(Some(transfer)) => InboundAction::Clipboard(transfer),
                    Ok(None) => InboundAction::Ignore,
                    Err(_) => InboundAction::Ignore,
                }
            },
        }
    }
}

/// A peer with another magic is refused whatever it sent before, and is never
/// taken to have greeted by that.
pub proof fn law_foreign_peers_are_refused(
    before: InboundView,
    magic: [u8; 8],
    commit: [u8; 8],
    action: InboundAction,
    after: InboundView,
)
    requires
        magic@ != PROTOCOL_MAGIC@,
        takes_in(
            before,
            Some(DecodedDatagram::Proto(ProtoEvent::Hello { magic, commit })),
            action,
            after,
        ),
    ensures
        action is Refuse,
        after.greeted == before.greeted,
{
}

/// A datagram that cannot be decoded changes nothing and ends nothing, so that
/// a peer may send events that this version does not know.
pub proof fn law_unknown_datagrams_are_harmless(
    before: InboundView,
    action: InboundAction,
    after: InboundView,
)
    requires
        takes_in(before, None, action, after),
    ensures
        action is Ignore,
        after == before,
{
}

/// A peer sends the datagrams of the frames: `states` are what the connection
/// knows before each and after the last, and `actions` what each leads to.
pub open spec fn receives_all(
    frames: Seq<FrameView>,
    states: Seq<InboundView>,
    actions: Seq<InboundAction>,
) -> bool {
    &&& states.len() == frames.len() + 1
    &&& actions.len() == frames.len()
    &&& forall|i: int|
        0 <= i < frames.len() ==> reacts(
            (#[trigger] frames[i]).wire(),
            states[i],
            actions[i],
            states[i + 1],
        )
}

proof fn lemma_receives_step(
    frames: Seq<FrameView>,
    states: Seq<InboundView>,
    actions: Seq<InboundAction>,
    i: int,
)
    requires
        receives_all(frames, states, actions),
        0 <= i < frames.len(),
        well_formed_frame(frames[i]),
        !(frames[i] is Ack),
    ensures
        states[i + 1] == (InboundView {
            pending: pending_after(states[i].pending, frames[i]),
            ..states[i]
        }),
        match outcome(states[i].pending, frames[i]) {
            Ok(Some(transfer)) => actions[i] matches InboundAction::Clipboard(t) && t@ == transfer,
            _ => actions[i] is Ignore,
        },
{
    let decoded = choose|decoded: Option<DecodedDatagram>| #[trigger]
        datagram_holds(frames[i].wire(), decoded) && takes_in(
            states[i],
            decoded,
            actions[i],
            states[i + 1],
        );
    law_sent_frames_arrive(frames[i], decoded);
}

proof fn lemma_receives_prefix(
    frames: Seq<FrameView>,
    states: Seq<InboundView>,
    actions: Seq<InboundAction>,
    n: nat,
)
    requires
        receives_all(frames, states, actions),
        n <= frames.len(),
        forall|i: int|
            0 <= i < frames.len() ==> well_formed_frame(#[trigger] frames[i]) && !(frames[i] is Ack),
    ensures
        states[n as int].pending == pending_after_all(states[0].pending, frames.take(n as int)),
        states[n as int].greeted == states[0].greeted,
    decreases n,
{
    if n > 0 {
        let m = (n - 1) as nat;
        lemma_receives_prefix(frames, states, actions, m);
        assert(well_formed_frame(frames[m as int]));
        lemma_receives_step(frames, states, actions, m as int);
        assert(frames.take(n as int).drop_last() =~= frames.take(m as int));
        assert(frames.take(n as int).last() == frames[m as int]);
    }
}

/// Text that is copied on one machine arrives at the other: its datagrams lead
/// to nothing up to the last that was missing, in whatever order its chunks
/// come and however often, and that one leads to the text, with the hash that
/// its sender waits for. Other transfers under way stay as they are.
pub proof fn law_copied_text_arrives(
    transfer_id: u64,
    from_fingerprint: Seq<char>,
    text: Seq<char>,
    order: Seq<nat>,
    states: Seq<InboundView>,
    actions: Seq<InboundAction>,
)
    requires
        !too_large(from_fingerprint, text),
        in_range(order, vstd::utf8::encode_utf8(text).len()),
        order.len() > 0,
        covers(order, vstd::utf8::encode_utf8(text).len()),
        !covers(order.drop_last(), vstd::utf8::encode_utf8(text).len()),
        receives_all(
            frames_in_order(transfer_id, from_fingerprint, vstd::utf8::encode_utf8(text), order),
            states,
            actions,
        ),
        !states[0].pending.contains_key(transfer_id),
    ensures
        forall|i: int| 0 <= i < order.len() ==> (#[trigger] actions[i]) is Ignore,
        actions[order.len() as int] matches InboundAction::Clipboard(transfer) && transfer@ == (
        TransferView {
            transfer_id,
            from_fingerprint,
            content: text,
            content_hash: sha256(vstd::utf8::encode_utf8(text))@,
        }),
        states.last() == states[0],
{
    let content = vstd::utf8::encode_utf8(text);
    let frames = frames_in_order(transfer_id, from_fingerprint, content, order);
    let pending = states[0].pending;
    assert forall|i: int| 0 <= i < frames.len() implies well_formed_frame(#[trigger] frames[i])
        && !(frames[i] is Ack) by {
        if i > 0 {
            assert(order[i - 1] < chunk_count_for(content.len()));
            assert(frames[i] == chunk_frame(transfer_id, content, order[i - 1]));
        } else {
            assert(frames[i] == begin_frame(transfer_id, from_fingerprint, content));
        }
    }
    assert forall|i: int| 0 <= i < order.len() implies (#[trigger] actions[i]) is Ignore by {
        law_transfer_reassembles(pending, transfer_id, from_fingerprint, text, order, i);
        lemma_receives_prefix(frames, states, actions, i as nat);
        assert(well_formed_frame(frames[i]));
        lemma_receives_step(frames, states, actions, i);
        assert(frames.take(i + 1).drop_last() =~= frames.take(i));
        assert(frames.take(i + 1).last() == frames[i]);
    }
    law_transfer_reassembles(pending, transfer_id, from_fingerprint, text, order, 0);
    let n = order.len();
    lemma_receives_prefix(frames, states, actions, n);
    lemma_receives_prefix(frames, states, actions, frames.len());
    assert(well_formed_frame(frames[n as int]));
    lemma_receives_step(frames, states, actions, n as int);
    assert(frames.drop_last() =~= frames.take(n as int));
    assert(frames.take(frames.len() as int) =~= frames);
}

/// The datagram that acknowledges a transfer, or rejects it.
pub open spec fn ack_datagram(transfer_id: u64, content_hash: Seq<u8>, accepted: bool) -> Seq<u8> {
    (FrameView::Ack { transfer_id, content_hash, accepted }).wire()
}

/// The datagram that acknowledges a transfer, or rejects it.
pub fn clipboard_ack(transfer_id: u64, content_hash: [u8; 32], accepted: bool) -> (datagram: Vec<
    u8,
>)
    ensures
        datagram@ == ack_datagram(transfer_id, content_hash@, accepted),
{
    let frame = ClipboardFrame::Ack { transfer_id, content_hash, accepted };
    match encode_clipboard_frame(&frame) {
        Ok(datagram) => datagram,
        Err(_) => Vec::new(),
    }
}

/// The first connection of a peer among those that are open.
pub open spec fn is_first_at(addrs: Seq<SocketAddr>, addr: SocketAddr, i: int) -> bool {
    0 <= i < addrs.len() && addrs[i] == addr && forall|k: int| 0 <= k < i ==> addrs[k] != addr
}

/// Where the first connection of a peer stands among those that are open:
/// nowhere where it has been evicted already.
pub fn find_conn(addrs: &Vec<SocketAddr>, addr: SocketAddr) -> (index: Option<usize>)
    ensures
        match index {
            Some(i) => is_first_at(addrs@, addr, i as int),
            None => !addrs@.contains(addr),
        },
{
    let mut i: usize = 0;
    while i < addrs.len()
        invariant
            i <= addrs@.len(),
            forall|k: int| 0 <= k < i ==> addrs@[k] != addr,
        decreases addrs@.len() - i,
    {
        if addrs[i] == addr {
            return Some(i);
        }
        i += 1;
    }
    None
}

/// `indices` are the places of all connections of a peer among those that are
/// open, in order.
pub open spec fn places_of(addrs: Seq<SocketAddr>, addr: SocketAddr, indices: Seq<usize>) -> bool {
    &&& forall|a: int, b: int| 0 <= a < b < indices.len() ==> indices[a] < indices[b]
    &&& forall|i: usize| #[trigger]
        indices.contains(i) <==> i < addrs.len() && addrs[i as int] == addr
}

/// Where all connections of a peer stand among those that are open: a reply
/// goes to each.
pub fn reply_targets(addrs: &Vec<SocketAddr>, addr: SocketAddr) -> (indices: Vec<usize>)
    ensures
        places_of(addrs@, addr, indices@),
{
    let mut indices: Vec<usize> = Vec::new();
    let mut i: usize = 0;
    while i < addrs.len()
        invariant
            i <= addrs@.len(),
            forall|a: int, b: int| 0 <= a < b < indices@.len() ==> indices@[a] < indices@[b],
            forall|a: int| 0 <= a < indices@.len() ==> #[trigger] indices@[a] < i,
            forall|k: usize| #[trigger]
                indices@.contains(k) <==> k < i && addrs@[k as int] == addr,
        decreases addrs@.len() - i,
    {
        let ghost then = indices@;
        if addrs[i] == addr {
            indices.push(i);
            proof {
                assert forall|k: usize| #[trigger] indices@.contains(k) <==> k < i + 1
                    && addrs@[k as int] == addr by {
                    if then.contains(k) {
                        let a = choose|a: int| 0 <= a < then.len() && then[a] == k;
                        assert(indices@[a] == k);
                    }
                    assert(indices@[then.len() as int] == i);
                    if indices@.contains(k) && k != i {
                        let a = choose|a: int| 0 <= a < indices@.len() && indices@[a] == k;
                        assert(then[a] == k);
                    }
                }
            }
        } else {
            assert forall|k: usize| #[trigger] indices@.contains(k) <==> k < i + 1 && addrs@[k as int]
                == addr by {}
        }
        i += 1;
    }
    indices
}

/// What a peer does on the other machine reaches this one: every event that it
/// sends, but for a greeting and clipboard content, is passed on as it was sent,
/// be it a motion, a click, a key or anything else, and nothing else changes by
/// it.
pub proof fn law_events_are_passed_on(
    before: InboundView,
    event: ProtoEvent,
    action: InboundAction,
    after: InboundView,
)
    requires
        !(event is Hello),
        !(event is Clipboard),
        !(event matches ProtoEvent::Input(Event::Clipboard(_))),
        reacts(event.wire(), before, action, after),
    ensures
        action == InboundAction::Message(event),
        after.greeted == before.greeted,
        after.pending == before.pending,
{
    let decoded = choose|decoded: Option<DecodedDatagram>| #[trigger]
        datagram_holds(event.wire(), decoded) && takes_in(before, decoded, action, after);
    law_sent_events_arrive(event, decoded);
}

/// A peer that greets with the magic of this protocol has greeted from then on,
/// and its greeting is passed on; one that greets with any other is refused and
/// has not. Either way its transfers stay as they are.
pub proof fn law_greetings_are_told_apart(
    before: InboundView,
    magic: [u8; 8],
    commit: [u8; 8],
    action: InboundAction,
    after: InboundView,
)
    requires
        reacts((ProtoEvent::Hello { magic, commit }).wire(), before, action, after),
    ensures
        after.pending == before.pending,
        if magic@ == seq![77u8, 79, 78, 72, 79, 80, 48, 49] {
            &&& action matches InboundAction::Message(ProtoEvent::Hello {
                magic: m,
                commit: c,
            }) && m@ == magic@ && c == commit
            &&& after.greeted
        } else {
            action is Refuse && after.greeted == before.greeted
        },
{
    crate::proto::law_magic_is_the_name();
    let decoded = choose|decoded: Option<DecodedDatagram>| #[trigger]
        datagram_holds((ProtoEvent::Hello { magic, commit }).wire(), decoded) && takes_in(
            before,
            decoded,
            action,
            after,
        );
    law_sent_events_arrive(ProtoEvent::Hello { magic, commit }, decoded);
}

/// Nothing but a greeting makes a peer one that has greeted, and only a greeting
/// ends its connection.
pub proof fn law_only_greetings_decide(
    before: InboundView,
    decoded: Option<DecodedDatagram>,
    action: InboundAction,
    after: InboundView,
)
    requires
        takes_in(before, decoded, action, after),
        !(decoded matches Some(DecodedDatagram::Proto(ProtoEvent::Hello { .. }))),
    ensures
        after.greeted == before.greeted,
        !(action is Refuse),
{
}

/// A peer sends datagrams: `states` are what the connection knows before each
/// and after the last, and `actions` what each leads to.
pub open spec fn receives_datagrams(
    datagrams: Seq<Seq<u8>>,
    states: Seq<InboundView>,
    actions: Seq<InboundAction>,
) -> bool {
    &&& states.len() == datagrams.len() + 1
    &&& actions.len() == datagrams.len()
    &&& forall|i: int|
        0 <= i < datagrams.len() ==> reacts(
            #[trigger] datagrams[i],
            states[i],
            actions[i],
            states[i + 1],
        )
}

/// The text that an event carries, with the fingerprint of where it was copied.
pub open spec fn copied(event: ProtoEvent) -> Option<(Seq<char>, Seq<char>)> {
    match event {
        ProtoEvent::Clipboard { from_fingerprint, content } => Some(
            (from_fingerprint@, content@),
        ),
        ProtoEvent::Input(Event::Clipboard(ClipboardEvent::Text(content))) => Some(
            (Seq::empty(), content@),
        ),
        _ => None,
    }
}

/// Text within the limits that is copied on one machine arrives at the other,
/// whatever the number of its transfer. Of the datagrams that are sent, the first
/// has to arrive before the others; these may arrive in any order and any number
/// of times, as they do when all are sent again. They lead to nothing up to the
/// last that was missing, and that one leads to the text as it was copied, with
/// the hash that its sender waits for.
pub proof fn law_copies_arrive(
    event: ProtoEvent,
    transfer_id: u64,
    transfer: Result<(Vec<Vec<u8>>, [u8; 32]), ProtocolError>,
    arrivals: Seq<nat>,
    states: Seq<InboundView>,
    actions: Seq<InboundAction>,
    n: nat,
)
    requires
        copied(event) matches Some((from, text)) && vstd::utf8::encode_utf8(from).len() <= 256
            && vstd::utf8::encode_utf8(text).len() <= 2_097_152,
        transfers(event, transfer_id, transfer),
        transfer matches Ok((datagrams, _)) ==> {
            &&& opening_first(arrivals, datagrams@.len())
            &&& all_arrive(arrivals, datagrams@.len())
            &&& !all_arrive(arrivals.drop_last(), datagrams@.len())
            &&& receives_datagrams(
                arrivals.map_values(|k: nat| datagrams@[k as int]@),
                states,
                actions,
            )
        },
        !states[0].pending.contains_key(transfer_id),
        0 < n < arrivals.len(),
    ensures
        transfer is Ok,
        actions[n - 1] is Ignore,
        actions.last() matches InboundAction::Clipboard(t) && {
            &&& t.transfer_id == transfer_id
            &&& t.from_fingerprint@ == copied(event)->Some_0.0
            &&& t.content@ == copied(event)->Some_0.1
            &&& t.content_hash@ == transfer->Ok_0.1@
            &&& t.content_hash@ == sha256(vstd::utf8::encode_utf8(t.content@))@
        },
        states.last() == states[0],
{
    reveal_strlit("");
    let (from, text) = copied(event)->Some_0;
    assert(event.text_fingerprint() =~= from);
    let content = vstd::utf8::encode_utf8(text);
    let sent = transfer_frames(transfer_id, from, content);
    let datagrams = transfer->Ok_0.0;
    let frames = arriving(sent, arrivals);
    let bytes = arrivals.map_values(|k: nat| datagrams@[k as int]@);
    let pending = states[0].pending;
    assert(transfer is Ok);
    assert(bytes.len() == frames.len());
    assert forall|i: int| 0 <= i < frames.len() implies well_formed_frame(#[trigger] frames[i])
        && !(frames[i] is Ack) && frames[i].wire() == bytes[i] by {
        let k = arrivals[i];
        assert(k < sent.len());
        assert(frames[i] == sent[k as int]);
        if k > 0 {
            assert(sent[k as int] == chunk_frame(transfer_id, content, (k - 1) as nat));
        } else {
            assert(sent[k as int] == begin_frame(transfer_id, from, content));
        }
        assert(datagrams@[k as int]@ == sent[k as int].wire());
    }
    assert(receives_all(frames, states, actions)) by {
        assert forall|i: int| 0 <= i < frames.len() implies reacts(
            (#[trigger] frames[i]).wire(),
            states[i],
            actions[i],
            states[i + 1],
        ) by {
            assert(reacts(bytes[i], states[i], actions[i], states[i + 1]));
        }
    }
    law_sent_frames_make_the_transfer(pending, transfer_id, from, text, arrivals, n);
    lemma_receives_prefix(frames, states, actions, (n - 1) as nat);
    assert(well_formed_frame(frames[n - 1]));
    lemma_receives_step(frames, states, actions, n - 1);
    assert(frames.take(n as int).drop_last() =~= frames.take(n - 1));
    assert(frames.take(n as int).last() == frames[n - 1]);
    let last = (frames.len() - 1) as nat;
    lemma_receives_prefix(frames, states, actions, last);
    lemma_receives_prefix(frames, states, actions, frames.len());
    assert(well_formed_frame(frames[last as int]));
    lemma_receives_step(frames, states, actions, last as int);
    assert(frames.drop_last() =~= frames.take(last as int));
    assert(frames.take(frames.len() as int) =~= frames);
}

/// It is worth listening on an address unless it is loopback, link-local,
/// unspecified or multicast.
pub proof fn law_what_is_listened_on(ip: IpAddr)
    ensures
        listenable(ip) <==> match ip {
            IpAddr::V4(v4) => v4 != 0 && !(0x7f00_0000 <= v4 <= 0x7fff_ffff) && !(0xa9fe_0000 <= v4
                <= 0xa9fe_ffff) && !(0xe000_0000 <= v4 <= 0xefff_ffff),
            IpAddr::V6(v6) => v6 > 1 && !(0xfe80_0000_0000_0000_0000_0000_0000_0000 <= v6
                <= 0xfebf_ffff_ffff_ffff_ffff_ffff_ffff_ffff) && v6
                < 0xff00_0000_0000_0000_0000_0000_0000_0000,
        },
{
}

/// A look at the interfaces brings the listeners in line with them: dropped are
/// those on addresses that are gone, bound are the addresses that have none, and
/// all others stay. Afterwards there is one on each address of an interface on
/// which it is worth listening, and on no other.
pub proof fn law_listeners_follow_the_interfaces(
    before: SupervisorView,
    addrs: Seq<IpAddr>,
    todo: Reconciliation,
    after: SupervisorView,
    ip: IpAddr,
)
    requires
        reconciles(before, addrs, todo, after),
    ensures
        todo.to_drop@.contains(ip) <==> before.bound.contains(ip) && !(addrs.contains(ip)
            && listenable(ip)),
        todo.to_bind@.contains(ip) <==> !before.bound.contains(ip) && addrs.contains(ip)
            && listenable(ip),
        after.bound.contains(ip) <==> before.bound.contains(ip) && !todo.to_drop@.contains(ip),
        after.bound.contains(ip) || todo.to_bind@.contains(ip) <==> addrs.contains(ip)
            && listenable(ip),
        after.port == before.port,
        todo.to_drop@.no_duplicates(),
        todo.to_bind@.no_duplicates(),
{
    lemma_listenable_of(addrs, ip);
    let current = listenable_of(addrs).to_set();
    assert(current.contains(ip) <==> addrs.contains(ip) && listenable(ip));
    assert(todo.to_drop@.to_set().contains(ip) <==> todo.to_drop@.contains(ip));
    assert(todo.to_bind@.to_set().contains(ip) <==> todo.to_bind@.contains(ip));
}

/// An address that comes up is bound unless it is bound already or not worth it;
/// one that goes down loses its listener; anything else changes nothing. No
/// other address is touched.
pub proof fn law_listeners_heed_the_interfaces(
    before: SupervisorView,
    ip: IpAddr,
    action: InterfaceAction,
    after: SupervisorView,
    other: IpAddr,
)
    requires
        other != ip,
    ensures
        heeds(before, InterfaceEvent::Up(ip), action, after) ==> {
            &&& after == before
            &&& action == InterfaceAction::Bind(ip) <==> listenable(ip) && !before.bound.contains(
                ip,
            )
            &&& action == InterfaceAction::Bind(ip) || action is Nothing
            &&& action is Bind ==> with_listener(after, ip).bound.contains(ip)
        },
        heeds(before, InterfaceEvent::Down(ip), action, after) ==> {
            &&& !after.bound.contains(ip)
            &&& after.bound.contains(other) == before.bound.contains(other)
            &&& after.port == before.port
            &&& action == InterfaceAction::Drop(ip) <==> before.bound.contains(ip)
            &&& action == InterfaceAction::Drop(ip) || action is Nothing
        },
        heeds(before, InterfaceEvent::Error, action, after) ==> after == before && action
            is Nothing,
        with_listener(before, ip).bound.contains(other) == before.bound.contains(other),
        with_listener(before, ip).port == before.port,
{
}

/// Another port means new listeners on every address worth it. The port is
/// taken exactly where one of them could be bound, and is else what it was.
pub proof fn law_ports_change_where_one_can_be_bound(
    before: SupervisorView,
    addrs: Seq<IpAddr>,
    to_bind: Seq<IpAddr>,
    left: SupervisorView,
    bound: SupervisorView,
    new_port: u16,
    changed: Result<u16, ListenerCreationError>,
    after: SupervisorView,
    ip: IpAddr,
)
    requires
        leaves_port(before, addrs, to_bind, left),
        bound.port == left.port,
        takes_port(bound, new_port, changed, after),
    ensures
        to_bind.contains(ip) <==> addrs.contains(ip) && listenable(ip),
        !left.bound.contains(ip),
        bound.bound.contains(ip) ==> changed is Ok,
        changed matches Ok(port) ==> port == new_port && after.port == new_port,
        changed matches Err(e) ==> e is NoBoundListener && after.port == before.port,
        bound == left ==> changed is Err,
        after.bound == bound.bound,
{
    lemma_listenable_of(addrs, ip);
}

/// Only where no address could be bound at the start is the last resort bound:
/// all IPv4 addresses at once.
pub proof fn law_the_last_resort_is_for_none(supervisor: SupervisorView, ip: IpAddr)
    ensures
        supervisor.bound.contains(ip) ==> last_resort(supervisor) is None,
        last_resort(SupervisorView { bound: Set::empty(), ..supervisor }) == Some(IpAddr::V4(0)),
        last_resort(with_listener(supervisor, ip)) is None,
{
    assert(with_listener(supervisor, ip).bound.contains(ip));
}

/// Text that a peer sent comes with the hash that its transfer announced, and
/// that is the hash of the text.
pub proof fn law_received_text_is_intact(
    before: InboundView,
    decoded: Option<DecodedDatagram>,
    action: InboundAction,
    after: InboundView,
)
    requires
        takes_in(before, decoded, action, after),
        action is Clipboard,
    ensures
        action matches InboundAction::Clipboard(t) && {
            &&& before.pending.contains_key(t.transfer_id)
            &&& t.from_fingerprint@ == before.pending[t.transfer_id].from_fingerprint
            &&& t.content_hash@ == before.pending[t.transfer_id].content_hash
            &&& sha256(vstd::utf8::encode_utf8(t.content@))@ == t.content_hash@
            &&& !after.pending.contains_key(t.transfer_id)
        },
{
    let frame = decoded->Some_0->Clipboard_0@;
    crate::assembler::law_accepted_text_is_intact(before.pending, frame);
}

/// A new peer has not greeted, and is dropped when its time is over unless it
/// has greeted by then.
pub proof fn law_silent_peers_are_dropped(
    magic: [u8; 8],
    commit: [u8; 8],
    before: InboundView,
    action: InboundAction,
    after: InboundView,
)
    requires
        reacts((ProtoEvent::Hello { magic, commit }).wire(), before, action, after),
    ensures
        overdue(InboundView { greeted: false, pending: before.pending }),
        magic@ == seq![77u8, 79, 78, 72, 79, 80, 48, 49] ==> !overdue(after),
        magic@ != seq![77u8, 79, 78, 72, 79, 80, 48, 49] ==> overdue(after) == overdue(before),
{
    law_greetings_are_told_apart(before, magic, commit, action, after);
}

/// Peers that were turned away are shown in the order in which they came, each
/// once.
pub proof fn law_the_turned_away_come_in_order(
    keys: Seq<Seq<char>>,
    first: Seq<char>,
    second: Seq<char>,
    shown: Option<Seq<char>>,
    rest: Seq<Seq<char>>,
    next: Option<Seq<char>>,
    last: Seq<Seq<char>>,
)
    requires
        !keys.contains(first),
        !keys.contains(second),
        ({
            let one = peer_verdict(keys, Seq::empty(), first).1;
            takes_first(peer_verdict(keys, one, second).1, shown, rest)
        }),
        takes_first(rest, next, last),
    ensures
        shown == Some(first),
        next == Some(second),
        last.len() == 0,
{
}

/// What acknowledges a transfer arrives with the number, the hash and the verdict
/// that were sent.
pub proof fn law_acknowledgements_arrive(
    transfer_id: u64,
    content_hash: Seq<u8>,
    accepted: bool,
    decoded: Option<DecodedDatagram>,
)
    requires
        content_hash.len() == 32,
        datagram_holds(ack_datagram(transfer_id, content_hash, accepted), decoded),
    ensures
        decoded matches Some(
            DecodedDatagram::Clipboard(
                ClipboardFrame::Ack { transfer_id: id, content_hash: hash, accepted: verdict },
            ),
        ) && id == transfer_id && hash@ == content_hash && verdict == accepted,
{
    law_sent_frames_arrive(FrameView::Ack { transfer_id, content_hash, accepted }, decoded);
}

/// A reply reaches every connection of its peer, and no other peer.
pub proof fn law_replies_reach_their_peer(
    addrs: Seq<SocketAddr>,
    addr: SocketAddr,
    indices: Seq<usize>,
    i: usize,
)
    requires
        places_of(addrs, addr, indices),
        i < addrs.len(),
    ensures
        addrs[i as int] == addr ==> exists|k: int| 0 <= k < indices.len() && indices[k] == i,
        addrs[i as int] != addr ==> !indices.contains(i),
        indices.no_duplicates(),
{
    assert(indices.contains(i) <==> addrs[i as int] == addr);
    assert forall|a: int, b: int| 0 <= a < indices.len() && 0 <= b < indices.len() && a
        != b implies indices[a] != indices[b] by {
        if a < b {
            assert(indices[a] < indices[b]);
        } else {
            assert(indices[b] < indices[a]);
        }
    }
}

/// The listening side looks at its addresses every half minute, drops a peer that
/// is silent for eight seconds or does not greet within twelve, and acknowledges
/// three times.
pub proof fn law_the_pace_of_listening()
    ensures
        RECONCILE_INTERVAL_MS == 30_000,
        RECV_IDLE_TIMEOUT_MS == 8_000,
        HELLO_TIMEOUT_MS == 12_000,
        ACK_COPIES == 3,
        HELLO_TIMEOUT_MS > crate::connect::HELLO_MAX_ATTEMPTS
            * crate::connect::HELLO_RETRY_INTERVAL_MS,
        RECV_IDLE_TIMEOUT_MS > crate::connect::PINGS_PER_ROUND * crate::connect::PING_INTERVAL_MS,
{
}

} // verus!
