//! The connecting side: which addresses are dialled and in which order, and
//! what a connection does with the datagrams of its peer.
use vstd::prelude::*;
use crate::addr::{AddrSet, IpAddr, SocketAddr};
use crate::bytes::same_bytes;
use crate::client::{
    changed, is_fastest, lookup, with_latency, with_network_lock, with_resolved_lock, ClientHandle,
    ClientManager, ClientView, ConnectionMode, StateView, DEFAULT_PORT,
};
use crate::clipboard::{
    encode_clipboard_transfer, sha256, too_large, transfer_frames, transfers, ClipboardFrame,
    FrameView,
};
use crate::datagram::{
    datagram_holds, decode_proto_datagram, law_sent_events_arrive, law_sent_frames_arrive,
    DecodedDatagram,
};
use crate::input_event::Event;
use crate::proto::{ProtoEvent, PROTOCOL_MAGIC};

verus! {

/// How long a connection may take to come about, in milliseconds.
pub const DEFAULT_CONNECTION_TIMEOUT_MS: u64 = 5_000;

/// How long the preferred address is dialled alone.
pub const PREFERRED_ADDR_HEAD_START_MS: u64 = 200;

/// How long a clipboard transfer waits for its acknowledgement.
pub const CLIPBOARD_ACK_TIMEOUT_MS: u64 = 1_500;

/// How often a clipboard transfer is repeated.
pub const CLIPBOARD_MAX_REPEATS: u32 = 4;

/// How often a clipboard transfer is sent: once, and then its repeats.
pub const CLIPBOARD_MAX_ATTEMPTS: u32 = 1 + CLIPBOARD_MAX_REPEATS;

/// How often the greeting is sent.
pub const HELLO_MAX_ATTEMPTS: u32 = 8;

/// The pause between two greetings.
pub const HELLO_RETRY_INTERVAL_MS: u64 = 750;

/// How many pings are sent before one has to have been answered.
pub const PINGS_PER_ROUND: u32 = 4;

/// The pause between two pings.
pub const PING_INTERVAL_MS: u64 = 500;

/// The pause between two looks for a connection that is coming about.
pub const CONNECTION_POLL_MS: u64 = 100;

/// Why something could not be sent.
#[derive(Debug, PartialEq, Eq, Clone, Copy, Structural)]
pub enum ConnectionError {
    NotConnected,
    TargetEmulationDisabled,
    Timeout,
    ClipboardRejected,
}

impl ConnectionError {
    /// Describes the error.
    pub fn describe(&self) -> (text: &'static str)
        ensures
            text@ == (match self {
                ConnectionError::NotConnected => "not connected"@,
                ConnectionError::TargetEmulationDisabled =>
                    "emulation is disabled on the target device"@,
                ConnectionError::Timeout => "Connection timed out"@,
                ConnectionError::ClipboardRejected =>
                    "clipboard transfer was rejected by the peer"@,
            }),
    {
        match self {
            ConnectionError::NotConnected => "not connected",
            ConnectionError::TargetEmulationDisabled =>
                "emulation is disabled on the target device",
            ConnectionError::Timeout => "Connection timed out",
            ConnectionError::ClipboardRejected => "clipboard transfer was rejected by the peer",
        }
    }
}

/// The address to which a socket is bound in order to dial `ip`.
pub open spec fn bind_text(ip: IpAddr) -> Seq<char> {
    match ip {
        IpAddr::V4(_) => "0.0.0.0:0"@,
        IpAddr::V6(_) => "[::]:0"@,
    }
}

/// The address to which a socket is bound in order to dial `addr`: one of the
/// same family.
pub fn bind_addr_for(addr: &SocketAddr) -> (bind: &'static str)
    ensures
        bind@ == bind_text(addr.ip),
{
    match addr.ip {
        IpAddr::V4(_) => "0.0.0.0:0",
        IpAddr::V6(_) => "[::]:0",
    }
}

/// What is dialled in order to reach a client.
#[derive(Debug, PartialEq, Eq, Clone)]
pub struct DialPlan {
    pub addrs: Vec<SocketAddr>,
    /// The address that gets a head start.
    pub preferred: Option<SocketAddr>,
}

pub open spec fn socket_of(ip: IpAddr, port: u16) -> SocketAddr {
    SocketAddr { ip, port, flow_info: 0, scope_id: 0 }
}

pub open spec fn optional_socket(ip: Option<IpAddr>, port: u16) -> Option<SocketAddr> {
    match ip {
        Some(ip) => Some(socket_of(ip, port)),
        None => None,
    }
}

/// `addrs` holds the port of every address of `ips`, each once.
pub open spec fn all_sockets(ips: Set<IpAddr>, port: u16, addrs: Seq<SocketAddr>) -> bool {
    &&& addrs.no_duplicates()
    &&& forall|i: int|
        0 <= i < addrs.len() ==> ips.contains((#[trigger] addrs[i]).ip) && addrs[i] == socket_of(
            addrs[i].ip,
            port,
        )
    &&& forall|ip: IpAddr| ips.contains(ip) ==> addrs.contains(#[trigger] socket_of(ip, port))
}

/// How a client is dialled. A locked address is the only one, so that a peer
/// with several interfaces stays on one. Else every candidate is dialled, and
/// the mode decides which one gets a head start: the one that the peer
/// announced, or the fastest one where any has been measured.
pub open spec fn dials(client: ClientView, primary: Option<IpAddr>, plan: DialPlan) -> bool {
    let port = client.config.port;
    match client.state.active_lock {
        Some(ip) => plan.addrs@ == seq![socket_of(ip, port)] && plan.preferred == Some(
            socket_of(ip, port),
        ),
        None => all_sockets(client.state.ips, port, plan.addrs@) && match client.config.mode {
            ConnectionMode::Auto => plan.preferred == optional_socket(primary, port),
            ConnectionMode::Fastest => {
                ||| exists|us: u32, ip: IpAddr| #[trigger]
                    is_fastest(client.state.latencies, us, ip) && plan.preferred == Some(
                        socket_of(ip, port),
                    )
                ||| (forall|ip: IpAddr|
                    client.state.latencies.contains_key(ip) ==> (
                    #[trigger] client.state.latencies[ip]) is None) && plan.preferred
                    == optional_socket(primary, port)
            },
        },
    }
}

/// The ports of the addresses of a set.
fn sockets_of(ips: &AddrSet, port: u16) -> (addrs: Vec<SocketAddr>)
    ensures
        all_sockets(ips@, port, addrs@),
{
    let list = ips.to_list();
    let mut addrs: Vec<SocketAddr> = Vec::new();
    let mut i: usize = 0;
    while i < list.len()
        invariant
            i <= list@.len(),
            addrs@.len() == i,
            forall|k: int| 0 <= k < i ==> #[trigger] addrs@[k] == socket_of(list@[k], port),
        decreases list@.len() - i,
    {
        addrs.push(SocketAddr::new(list[i], port));
        i += 1;
    }
    proof {
        assert forall|a: int, b: int| 0 <= a < addrs@.len() && 0 <= b < addrs@.len() && a
            != b implies addrs@[a] != addrs@[b] by {
            assert(addrs@[a].ip == list@[a]);
            assert(addrs@[b].ip == list@[b]);
        }
        assert forall|k: int| 0 <= k < addrs@.len() implies ips@.contains(
            (#[trigger] addrs@[k]).ip,
        ) && addrs@[k] == socket_of(addrs@[k].ip, port) by {
            assert(list@.contains(list@[k]));
            assert(list@.to_set().contains(list@[k]));
        }
        assert forall|ip: IpAddr| ips@.contains(ip) implies addrs@.contains(
            #[trigger] socket_of(ip, port),
        ) by {
            assert(list@.to_set().contains(ip));
            let k = choose|k: int| 0 <= k < list@.len() && list@[k] == ip;
            assert(addrs@[k] == socket_of(ip, port));
        }
    }
    addrs
}

/// How a client is dialled: nothing where there is none with that handle.
/// `primary` is the address that the peer announced as its first choice.
pub fn plan_dial(clients: &ClientManager, handle: ClientHandle, primary: Option<IpAddr>) -> (plan:
    Option<DialPlan>)
    ensures
        match plan {
            Some(p) => lookup(clients@, handle) matches Some(client) && dials(client, primary, p),
            None => lookup(clients@, handle) is None,
        },
        plan matches Some(p) ==> (lookup(clients@, handle)->Some_0.state.active_lock matches Some(ip)
            ==> forall|i: int|
            0 <= i < p.addrs@.len() ==> (#[trigger] p.addrs@[i]).ip == ip),
{
    let ips = match clients.get_ips(handle) {
        Some(ips) => ips,
        None => {
            return None;
        },
    };
    let port: u16 = match clients.get_port(handle) {
        Some(port) => port,
        None => DEFAULT_PORT,
    };
    let announced: Option<SocketAddr> = match primary {
        Some(ip) => Some(SocketAddr::new(ip, port)),
        None => None,
    };
    match clients.get_active_lock(handle) {
        Some(ip) => {
            let addr = SocketAddr::new(ip, port);
            let mut addrs: Vec<SocketAddr> = Vec::new();
            addrs.push(addr);
            assert(addrs@ =~= seq![socket_of(ip, port)]);
            Some(DialPlan { addrs, preferred: Some(addr) })
        },
        None => {
            let addrs = sockets_of(&ips, port);
            let preferred: Option<SocketAddr> = match clients.get_mode(handle) {
                ConnectionMode::Auto => announced,
                ConnectionMode::Fastest => match clients.lowest_latency_addr(handle) {
                    Some(ip) => Some(SocketAddr::new(ip, port)),
                    None => announced,
                },
            };
            Some(DialPlan { addrs, preferred })
        },
    }
}

impl DialPlan {
    /// Whether there is nothing to dial.
    pub fn is_empty(&self) -> (empty: bool)
        ensures
            empty == (self.addrs@.len() == 0 && self.preferred is None),
    {
        self.addrs.is_empty() && self.preferred.is_none()
    }
}

/// The addresses but for one of them.
pub open spec fn without_addr(addrs: Seq<SocketAddr>, addr: Option<SocketAddr>) -> Seq<SocketAddr>
    decreases addrs.len(),
{
    if addrs.len() == 0 {
        seq![]
    } else if Some(addrs.last()) == addr {
        without_addr(addrs.drop_last(), addr)
    } else {
        without_addr(addrs.drop_last(), addr).push(addrs.last())
    }
}

/// What is to be done about the dialling of a client.
#[derive(Debug)]
pub enum DialAction {
    /// Dial these addresses now.
    Dial(Vec<SocketAddr>),
    /// Wait for what has been dialled.
    Wait,
    /// Take this connection.
    Take(SocketAddr),
    /// Nothing answered.
    GiveUp,
}

/// The dialling of a client: the preferred address first, then, once its head
/// start is over, all others with it.
#[derive(Debug)]
pub struct DialRace {
    /// Whether the preferred address still has its head start.
    pub head_start: bool,
    /// What is dialled once the head start is over.
    pub rest: Vec<SocketAddr>,
    /// How many addresses have been dialled and have not answered.
    pub outstanding: usize,
}

/// The outcome of one dialled address.
#[derive(Debug, PartialEq, Eq, Clone, Copy, Structural)]
pub enum DialOutcome {
    Connected(SocketAddr),
    Failed(SocketAddr),
}

fn copy_addrs(addrs: &Vec<SocketAddr>) -> (copy: Vec<SocketAddr>)
    ensures
        copy@ == addrs@,
{
    let mut copy: Vec<SocketAddr> = Vec::new();
    let mut i: usize = 0;
    while i < addrs.len()
        invariant
            i <= addrs@.len(),
            copy@ == addrs@.take(i as int),
        decreases addrs@.len() - i,
    {
        copy.push(addrs[i]);
        i += 1;
        assert(copy@ =~= addrs@.take(i as int));
    }
    assert(addrs@.take(i as int) =~= addrs@);
    copy
}

/// How a race starts.
pub open spec fn race_starts(plan: DialPlan, race: DialRace, action: DialAction) -> bool {
    match plan.preferred {
        Some(p) => {
            &&& race.head_start
            &&& race.rest@ == without_addr(plan.addrs@, Some(p))
            &&& race.outstanding == 1
            &&& action matches DialAction::Dial(list) && list@ == seq![p]
        },
        None => {
            &&& !race.head_start
            &&& race.rest@.len() == 0
            &&& race.outstanding == plan.addrs@.len()
            &&& if plan.addrs@.len() == 0 {
                action is GiveUp
            } else {
                action matches DialAction::Dial(list) && list@ == plan.addrs@
            }
        },
    }
}

/// What the end of the head start leads to.
pub open spec fn race_opens(before: DialRace, after: DialRace, action: DialAction) -> bool {
    &&& !after.head_start
    &&& after.rest@ == before.rest@
    &&& after.outstanding == before.outstanding + before.rest@.len()
    &&& if after.outstanding == 0 {
        action is GiveUp
    } else if before.rest@.len() == 0 {
        action is Wait
    } else {
        action matches DialAction::Dial(list) && list@ == before.rest@
    }
}

/// What the outcome of a dialled address leads to.
pub open spec fn race_hears(
    before: DialRace,
    outcome: DialOutcome,
    after: DialRace,
    action: DialAction,
) -> bool {
    &&& after.outstanding == before.outstanding - 1
    &&& after.head_start == before.head_start
    &&& after.rest@ == before.rest@
    &&& match outcome {
        DialOutcome::Connected(addr) => action == DialAction::Take(addr),
        DialOutcome::Failed(_) => if after.outstanding == 0 && !after.head_start {
            action is GiveUp
        } else {
            action is Wait
        },
    }
}

impl DialRace {
    /// Starts dialling: the preferred address alone where there is one, or else
    /// all addresses at once.
    pub fn start(plan: &DialPlan) -> (started: (DialRace, DialAction))
        ensures
            race_starts(*plan, started.0, started.1),
    {
        match plan.preferred {
            Some(p) => {
                let mut rest: Vec<SocketAddr> = Vec::new();
                let mut i: usize = 0;
                while i < plan.addrs.len()
                    invariant
                        i <= plan.addrs@.len(),
                        rest@ == without_addr(plan.addrs@.take(i as int), Some(p)),
                    decreases plan.addrs@.len() - i,
                {
                    proof {
                        let now = plan.addrs@.take(i + 1);
                        assert(now.drop_last() =~= plan.addrs@.take(i as int));
                        assert(now.last() == plan.addrs@[i as int]);
                    }
                    if plan.addrs[i] != p {
                        rest.push(plan.addrs[i]);
                    }
                    i += 1;
                }
                assert(plan.addrs@.take(i as int) =~= plan.addrs@);
                let mut first: Vec<SocketAddr> = Vec::new();
                first.push(p);
                assert(first@ =~= seq![p]);
                (DialRace { head_start: true, rest, outstanding: 1 }, DialAction::Dial(first))
            },
            None => {
                let race = DialRace {
                    head_start: false,
                    rest: Vec::new(),
                    outstanding: plan.addrs.len(),
                };
                if plan.addrs.is_empty() {
                    (race, DialAction::GiveUp)
                } else {
                    (race, DialAction::Dial(copy_addrs(&plan.addrs)))
                }
            },
        }
    }

    /// The head start is over: the others are dialled too.
    pub fn head_start_over(&mut self) -> (action: DialAction)
        requires
            old(self).head_start,
            old(self).outstanding <= 1,
            old(self).rest@.len() < usize::MAX,
        ensures
            race_opens(*old(self), *final(self), action),
    {
        self.head_start = false;
        self.outstanding = self.outstanding + self.rest.len();
        if self.outstanding == 0 {
            DialAction::GiveUp
        } else if self.rest.is_empty() {
            DialAction::Wait
        } else {
            DialAction::Dial(copy_addrs(&self.rest))
        }
    }

    /// A dialled address answered, or failed. The first connection is taken;
    /// where all have failed and the head start is over, the client cannot be
    /// reached.
    pub fn outcome(&mut self, outcome: DialOutcome) -> (action: DialAction)
        requires
            old(self).outstanding > 0,
        ensures
            race_hears(*old(self), outcome, *final(self), action),
    {
        self.outstanding = self.outstanding - 1;
        match outcome {
            DialOutcome::Connected(addr) => DialAction::Take(addr),
            DialOutcome::Failed(_) => if self.outstanding == 0 && !self.head_start {
                DialAction::GiveUp
            } else {
                DialAction::Wait
            },
        }
    }
}

/// The addresses that are dialled after the head start, together with the
/// preferred one, are all addresses of the plan; and the preferred one is not
/// dialled twice.
pub proof fn law_every_address_is_dialled_once(
    addrs: Seq<SocketAddr>,
    preferred: SocketAddr,
    addr: SocketAddr,
)
    ensures
        without_addr(addrs, Some(preferred)).contains(addr) <==> addrs.contains(addr) && addr
            != preferred,
        addrs.no_duplicates() ==> without_addr(addrs, Some(preferred)).no_duplicates(),
    decreases addrs.len(),
{
    if addrs.len() > 0 {
        let front = addrs.drop_last();
        let rest = without_addr(front, Some(preferred));
        let all = without_addr(addrs, Some(preferred));
        law_every_address_is_dialled_once(front, preferred, addr);
        law_every_address_is_dialled_once(front, preferred, addrs.last());
        assert(addrs.contains(addr) <==> front.contains(addr) || addr == addrs.last()) by {
            if front.contains(addr) {
                let k = choose|k: int| 0 <= k < front.len() && front[k] == addr;
                assert(addrs[k] == addr);
            }
            if addrs.contains(addr) && addr != addrs.last() {
                let k = choose|k: int| 0 <= k < addrs.len() && addrs[k] == addr;
                assert(front[k] == addr);
            }
            assert(addrs[addrs.len() - 1] == addrs.last());
        }
        if addrs.last() != preferred {
            assert(all.contains(addr) <==> rest.contains(addr) || addr == addrs.last()) by {
                if rest.contains(addr) {
                    let k = choose|k: int| 0 <= k < rest.len() && rest[k] == addr;
                    assert(all[k] == addr);
                }
                assert(all[rest.len() as int] == addrs.last());
            }
            if addrs.no_duplicates() {
                assert(front.no_duplicates()) by {
                    assert forall|a: int, b: int| 0 <= a < front.len() && 0 <= b < front.len() && a
                        != b implies front[a] != front[b] by {
                        assert(addrs[a] != addrs[b]);
                    }
                }
                assert(!front.contains(addrs.last())) by {
                    if front.contains(addrs.last()) {
                        let k = choose|k: int| 0 <= k < front.len() && front[k] == addrs.last();
                        assert(addrs[k] != addrs[addrs.len() - 1]);
                    }
                }
                assert forall|a: int, b: int| 0 <= a < all.len() && 0 <= b < all.len() && a
                    != b implies all[a] != all[b] by {
                    if a < rest.len() {
                        assert(rest.contains(rest[a]));
                    }
                    if b < rest.len() {
                        assert(rest.contains(rest[b]));
                    }
                }
            }
        } else if addrs.no_duplicates() {
            assert forall|a: int, b: int| 0 <= a < front.len() && 0 <= b < front.len() && a
                != b implies front[a] != front[b] by {
                assert(addrs[a] != addrs[b]);
            }
        }
    }
}

/// What sending an event calls for.
#[derive(Debug, PartialEq, Eq, Clone, Copy, Structural)]
pub enum SendStep {
    /// It is clipboard content, which is sent by a transfer.
    Transfer,
    /// Send it on the connection at this address. Where that fails, the
    /// connection is dropped; the event counts as sent all the same.
    Deliver(SocketAddr),
    /// The peer does not take input.
    TargetDisabled,
    /// There is no connection: ask for one. The event is not sent.
    RequestConnection,
}

pub open spec fn send_step_of(
    event: ProtoEvent,
    active_addr: Option<SocketAddr>,
    connected: bool,
    alive: bool,
) -> SendStep {
    match (event, active_addr) {
        (ProtoEvent::Clipboard { .. }, _) => SendStep::Transfer,
        (_, Some(addr)) if connected => if alive {
            SendStep::Deliver(addr)
        } else {
            SendStep::TargetDisabled
        },
        _ => SendStep::RequestConnection,
    }
}

/// What sending an event to a client calls for.
pub open spec fn sends(
    clients: Map<usize, ClientView>,
    handle: ClientHandle,
    event: ProtoEvent,
    connected: bool,
) -> SendStep {
    match lookup(clients, handle) {
        Some(client) => send_step_of(
            event,
            client.state.active_addr,
            connected,
            client.state.alive,
        ),
        None => send_step_of(event, None, connected, false),
    }
}

/// What sending an event to a client calls for. `connected` tells whether there
/// is a connection at the client's live address.
pub fn send_step(
    event: &ProtoEvent,
    clients: &ClientManager,
    handle: ClientHandle,
    connected: bool,
) -> (step: SendStep)
    ensures
        step == sends(clients@, handle, *event, connected),
{
    if let ProtoEvent::Clipboard { .. } = event {
        return SendStep::Transfer;
    }
    match clients.active_addr(handle) {
        Some(addr) => if connected {
            if clients.alive(handle) {
                SendStep::Deliver(addr)
            } else {
                SendStep::TargetDisabled
            }
        } else {
            SendStep::RequestConnection
        },
        None => SendStep::RequestConnection,
    }
}

/// What a clipboard transfer that looks for its connection does.
#[derive(Debug, PartialEq, Eq, Clone, Copy, Structural)]
pub enum WaitStep {
    /// The connection is there.
    Ready(SocketAddr),
    /// It did not come about in time.
    NotConnected,
    /// Ask for it and look again after a pause.
    RequestAndSleep(u64),
}

/// What a clipboard transfer that looks for its connection does.
pub open spec fn waits(
    clients: Map<usize, ClientView>,
    handle: ClientHandle,
    connected: bool,
    waited_ms: u64,
) -> WaitStep {
    match lookup(clients, handle) {
        Some(client) if client.state.active_addr is Some && connected
            && client.state.alive => WaitStep::Ready(client.state.active_addr->0),
        _ => if waited_ms >= DEFAULT_CONNECTION_TIMEOUT_MS {
            WaitStep::NotConnected
        } else {
            WaitStep::RequestAndSleep(CONNECTION_POLL_MS)
        },
    }
}

/// What a clipboard transfer does that has looked for its connection for
/// `waited_ms`: text may be copied before a connection has come about.
pub fn wait_step(
    clients: &ClientManager,
    handle: ClientHandle,
    connected: bool,
    waited_ms: u64,
) -> (step: WaitStep)
    ensures
        step == waits(clients@, handle, connected, waited_ms),
{
    if let Some(addr) = clients.active_addr(handle) {
        if connected && clients.alive(handle) {
            return WaitStep::Ready(addr);
        }
    }
    if waited_ms >= DEFAULT_CONNECTION_TIMEOUT_MS {
        WaitStep::NotConnected
    } else {
        WaitStep::RequestAndSleep(CONNECTION_POLL_MS)
    }
}

/// A clipboard transfer under way.
#[derive(Debug)]
pub struct ClipboardSend {
    pub transfer_id: u64,
    pub datagrams: Vec<Vec<u8>>,
    pub expected_hash: [u8; 32],
    /// How often the datagrams have been sent without success.
    pub failed_attempts: u32,
}

/// What answered an attempt.
#[derive(Debug, PartialEq, Eq, Clone, Copy)]
pub enum AckOutcome {
    Ack { hash: [u8; 32], accepted: bool },
    /// Nothing came in time, or nothing can come any more.
    NoAnswer,
}

/// What follows from an attempt.
#[derive(Debug, PartialEq, Eq, Clone, Copy, Structural)]
pub enum TransferStep {
    /// The peer has the text.
    Done,
    /// Send all datagrams again.
    Resend,
    Fail(ConnectionError),
}

/// What follows from an attempt, and how many have failed by then.
pub open spec fn answer_step(
    expected_hash: Seq<u8>,
    failed_attempts: u32,
    outcome: AckOutcome,
) -> (u32, TransferStep) {
    match outcome {
        AckOutcome::Ack { accepted, .. } if !accepted => (
            failed_attempts,
            TransferStep::Fail(ConnectionError::ClipboardRejected),
        ),
        AckOutcome::Ack { hash, .. } if hash@ == expected_hash => (
            failed_attempts,
            TransferStep::Done,
        ),
        _ => (
            (failed_attempts + 1) as u32,
            if failed_attempts < CLIPBOARD_MAX_REPEATS {
                TransferStep::Resend
            } else {
                TransferStep::Fail(ConnectionError::Timeout)
            },
        ),
    }
}

/// `send` is how a transfer starts, or why it does not.
pub open spec fn prepared(
    event: ProtoEvent,
    transfer_id: u64,
    send: Result<ClipboardSend, ConnectionError>,
) -> bool {
    match send {
        Ok(s) => {
            let content = vstd::utf8::encode_utf8(event.clipboard_text());
            let frames = transfer_frames(transfer_id, event.text_fingerprint(), content);
            &&& s.wf()
            &&& s.failed_attempts == 0
            &&& s.transfer_id == transfer_id
            &&& !too_large(event.text_fingerprint(), event.clipboard_text())
            &&& s.expected_hash == sha256(content)
            &&& transfers(event, transfer_id, Ok((s.datagrams, s.expected_hash)))
            &&& s.datagrams@.len() == frames.len()
            &&& forall|i: int|
                0 <= i < frames.len() ==> #[trigger] s.datagrams@[i]@ == frames[i].wire()
        },
        Err(e) => too_large(event.text_fingerprint(), event.clipboard_text()) && e
            == ConnectionError::ClipboardRejected,
    }
}

impl ClipboardSend {
    /// Attempts are left.
    pub open spec fn wf(self) -> bool {
        self.failed_attempts < CLIPBOARD_MAX_ATTEMPTS
    }

    /// Prepares a transfer: text that is too large is refused.
    pub fn prepare(event: &ProtoEvent, transfer_id: u64) -> (send: Result<
        ClipboardSend,
        ConnectionError,
    >)
        requires
            event.carries_text(),
        ensures
            prepared(*event, transfer_id, send),
    {
        match encode_clipboard_transfer(event, transfer_id) {
            Ok((datagrams, expected_hash)) => Ok(
                ClipboardSend { transfer_id, datagrams, expected_hash, failed_attempts: 0 },
            ),
            Err(_) => Err(ConnectionError::ClipboardRejected),
        }
    }

    /// What follows from an attempt. Only an acknowledgement with the hash of
    /// the text counts; one with another hash is like none. After the last
    /// attempt the transfer has failed.
    pub fn answered(&mut self, outcome: AckOutcome) -> (step: TransferStep)
        requires
            old(self).wf(),
        ensures
            final(self).transfer_id == old(self).transfer_id,
            final(self).datagrams == old(self).datagrams,
            final(self).expected_hash == old(self).expected_hash,
            (final(self).failed_attempts, step) == answer_step(
                old(self).expected_hash@,
                old(self).failed_attempts,
                outcome,
            ),
            step == TransferStep::Resend ==> final(self).wf(),
    {
        match outcome {
            AckOutcome::Ack { hash, accepted } => {
                if !accepted {
                    return TransferStep::Fail(ConnectionError::ClipboardRejected);
                }
                if same_bytes(hash.as_slice(), self.expected_hash.as_slice()) {
                    return TransferStep::Done;
                }
            },
            AckOutcome::NoAnswer => {},
        }
        self.failed_attempts = self.failed_attempts + 1;
        if self.failed_attempts < CLIPBOARD_MAX_ATTEMPTS {
            TransferStep::Resend
        } else {
            TransferStep::Fail(ConnectionError::Timeout)
        }
    }
}

/// What follows the last of `n` attempts in a row that nothing answered, and how
/// many have failed by then.
pub open spec fn after_silence(expected_hash: Seq<u8>, n: nat) -> (u32, TransferStep)
    decreases n,
{
    if n == 0 {
        (0, TransferStep::Resend)
    } else {
        answer_step(
            expected_hash,
            after_silence(expected_hash, (n - 1) as nat).0,
            AckOutcome::NoAnswer,
        )
    }
}

/// A transfer that nothing answers is sent once and then repeated as often as
/// it may be, and has failed when nothing answers the last repeat.
pub proof fn law_transfers_are_repeated_to_their_bound(expected_hash: Seq<u8>, n: nat)
    requires
        1 <= n <= 1 + CLIPBOARD_MAX_REPEATS,
    ensures
        after_silence(expected_hash, n) == (
            n as u32,
            if n <= CLIPBOARD_MAX_REPEATS {
                TransferStep::Resend
            } else {
                TransferStep::Fail(ConnectionError::Timeout)
            },
        ),
    decreases n,
{
    if n > 1 {
        law_transfers_are_repeated_to_their_bound(expected_hash, (n - 1) as nat);
    } else {
        reveal_with_fuel(after_silence, 2);
    }
}

/// The acknowledgement of a peer that has put the text together reaches the
/// transfer, and ends it with success.
pub proof fn law_acknowledged_transfers_succeed(
    transfer_id: u64,
    content: Seq<u8>,
    failed_attempts: u32,
    decoded: Option<DecodedDatagram>,
)
    requires
        datagram_holds(
            (FrameView::Ack {
                transfer_id,
                content_hash: sha256(content)@,
                accepted: true,
            }).wire(),
            decoded,
        ),
    ensures
        decoded matches Some(
            DecodedDatagram::Clipboard(ClipboardFrame::Ack { transfer_id: id, content_hash, accepted }),
        ) && id == transfer_id && answer_step(
            sha256(content)@,
            failed_attempts,
            AckOutcome::Ack { hash: content_hash, accepted },
        ) == (failed_attempts, TransferStep::Done),
{
    law_sent_frames_arrive(
        FrameView::Ack { transfer_id, content_hash: sha256(content)@, accepted: true },
        decoded,
    );
}

/// What the greeting of a peer does next.
#[derive(Debug, PartialEq, Eq, Clone, Copy, Structural)]
pub enum HelloStep {
    /// Send the greeting, then pause.
    SendAndSleep(u64),
    /// The peer has greeted back.
    Done,
    /// It has not: close the connection.
    Close,
}

/// What the greeting does after `sent` greetings.
pub open spec fn hello_next(sent: u32, greeted: bool) -> HelloStep {
    if greeted {
        HelloStep::Done
    } else if sent < HELLO_MAX_ATTEMPTS {
        HelloStep::SendAndSleep(HELLO_RETRY_INTERVAL_MS)
    } else {
        HelloStep::Close
    }
}

/// What the greeting does after `sent` greetings. `greeted` tells whether the
/// peer has sent a valid greeting.
pub fn hello_step(sent: u32, greeted: bool) -> (step: HelloStep)
    ensures
        step == hello_next(sent, greeted),
{
    if greeted {
        HelloStep::Done
    } else if sent < HELLO_MAX_ATTEMPTS {
        HelloStep::SendAndSleep(HELLO_RETRY_INTERVAL_MS)
    } else {
        HelloStep::Close
    }
}

/// What the watch over a connection does next.
#[derive(Debug, PartialEq, Eq, Clone, Copy, Structural)]
pub enum PingStep {
    /// Note the time, send a ping, then pause.
    SendAndSleep(u64),
    /// A ping of the round was answered: start another round.
    NextRound,
    /// None was: close the connection and stop.
    Close,
}

/// What the watch does after `sent` pings of a round.
pub open spec fn ping_next(sent: u32, send_failed: bool, answered: bool) -> PingStep {
    if sent < PINGS_PER_ROUND && !send_failed {
        PingStep::SendAndSleep(PING_INTERVAL_MS)
    } else if answered {
        PingStep::NextRound
    } else {
        PingStep::Close
    }
}

/// What the watch does after `sent` pings of a round. A failure to send closes
/// the connection and ends the round early. `answered` tells whether any ping
/// has been answered since the last round.
pub fn ping_step(sent: u32, send_failed: bool, answered: bool) -> (step: PingStep)
    ensures
        step == ping_next(sent, send_failed, answered),
{
    if sent < PINGS_PER_ROUND && !send_failed {
        PingStep::SendAndSleep(PING_INTERVAL_MS)
    } else if answered {
        PingStep::NextRound
    } else {
        PingStep::Close
    }
}

/// The round trip of a ping as it is kept: in steps of 100 microseconds.
pub open spec fn quantized(micros: nat) -> u32 {
    let us = if micros <= u32::MAX {
        micros
    } else {
        u32::MAX as nat
    };
    (us - us % 100) as u32
}

/// The round trip of a ping as it is kept.
pub fn quantize(micros: u128) -> (us: u32)
    ensures
        us == quantized(micros as nat),
{
    let us: u32 = crate::latency::elapsed_micros(micros);
    us - us % 100
}

/// What a datagram of the peer calls for.
#[derive(Debug)]
pub enum ReceiveAction {
    /// Nothing: it could not be decoded, or it has no place here.
    Ignore,
    /// Hand the acknowledgement to the transfer that waits for it.
    Acknowledge { transfer_id: u64, content_hash: [u8; 32], accepted: bool },
    /// A ping was answered: note it, and forget when it was sent.
    Answered,
    /// The peer is none of this protocol: close the connection and stop.
    Refuse,
    /// The peer has greeted: note it, and pass the greeting on.
    Greeted(ProtoEvent),
    /// Pass the event on.
    Forward(ProtoEvent),
}

/// The client after its peer answered a ping at `addr`.
pub open spec fn answered_client(
    client: ClientView,
    addr: SocketAddr,
    alive: bool,
    ping_micros: Option<u128>,
) -> ClientView {
    let live = ClientView {
        state: StateView { active_addr: Some(addr), alive, ..client.state },
        ..client
    };
    match ping_micros {
        Some(micros) => with_latency(live, addr.ip, Some(quantized(micros as nat))),
        None => live,
    }
}

/// `action` and `after` are what a datagram leads to.
pub open spec fn receives(
    before: Map<usize, ClientView>,
    handle: ClientHandle,
    addr: SocketAddr,
    ping_micros: Option<u128>,
    decoded: Option<DecodedDatagram>,
    action: ReceiveAction,
    after: Map<usize, ClientView>,
) -> bool {
    match decoded {
        Some(DecodedDatagram::Proto(ProtoEvent::Pong(alive))) => action is Answered && after
            == changed(
            before,
            handle,
            |c: ClientView| answered_client(c, addr, alive, ping_micros),
        ),
        Some(DecodedDatagram::Proto(ProtoEvent::Hello { magic, commit })) => if magic@
            == PROTOCOL_MAGIC@ {
            action == ReceiveAction::Greeted(ProtoEvent::Hello { magic: PROTOCOL_MAGIC, commit })
                && after == changed(
                before,
                handle,
                |c: ClientView|
                    ClientView {
                        state: StateView { peer_commit: Some(commit), ..c.state },
                        ..c
                    },
            )
        } else {
            action is Refuse && after == before
        },
        Some(DecodedDatagram::Proto(event)) => action == ReceiveAction::Forward(event) && after
            == before,
        Some(
            DecodedDatagram::Clipboard(ClipboardFrame::Ack { transfer_id, content_hash, accepted }),
        ) => action == (ReceiveAction::Acknowledge { transfer_id, content_hash, accepted })
            && after == before,
        Some(DecodedDatagram::Clipboard(_)) => action is Ignore && after == before,
        None => action is Ignore && after == before,
    }
}

/// `action` and `after` are what a datagram leads to that arrived at the
/// connection of a client.
pub open spec fn follows(
    before: Map<usize, ClientView>,
    handle: ClientHandle,
    addr: SocketAddr,
    ping_micros: Option<u128>,
    datagram: Seq<u8>,
    action: ReceiveAction,
    after: Map<usize, ClientView>,
) -> bool {
    exists|decoded: Option<DecodedDatagram>| #[trigger]
        datagram_holds(datagram, decoded) && receives(
            before,
            handle,
            addr,
            ping_micros,
            decoded,
            action,
            after,
        )
}

/// Takes in a datagram that arrived at the connection of a client. `ping_micros`
/// is the time since the last ping was sent, where it is still unanswered.
pub fn receive_step(
    clients: &mut ClientManager,
    handle: ClientHandle,
    addr: SocketAddr,
    ping_micros: Option<u128>,
    datagram: &[u8],
) -> (action: ReceiveAction)
    ensures
        final(clients).next_key() == old(clients).next_key(),
        follows(old(clients)@, handle, addr, ping_micros, datagram@, action, final(clients)@),
{
    let ghost before = clients@;
    let decoded = decode_proto_datagram(datagram);
    let ghost held = decoded;
    assert(datagram_holds(datagram@, held));
    let event = match decoded {
        None => {
            return ReceiveAction::Ignore;
        },
        Some(DecodedDatagram::Clipboard(frame)) => {
            return match frame {
                ClipboardFrame::Ack { transfer_id, content_hash, accepted } =>
                    ReceiveAction::Acknowledge { transfer_id, content_hash, accepted },
                _ => ReceiveAction::Ignore,
            };
        },
        Some(DecodedDatagram::Proto(event)) => event,
    };
    match event {
        ProtoEvent::Pong(alive) => {
            clients.set_active_addr(handle, Some(addr));
            clients.set_alive(handle, alive);
            if let Some(micros) = ping_micros {
                let us: u32 = quantize(micros);
                clients.set_latency(handle, addr.ip, Some(us));
            }
            assert(clients@ =~= changed(
                before,
                handle,
                |c: ClientView| answered_client(c, addr, alive, ping_micros),
            ));
            ReceiveAction::Answered
        },
        ProtoEvent::Hello { magic, commit } => {
            if !same_bytes(magic.as_slice(), PROTOCOL_MAGIC.as_slice()) {
                return ReceiveAction::Refuse;
            }
            clients.set_peer_commit(handle, Some(commit));
            ReceiveAction::Greeted(ProtoEvent::hello(commit))
        },
        event => ReceiveAction::Forward(event),
    }
}

/// The client without its connection.
pub open spec fn disconnected(client: ClientView) -> ClientView {
    ClientView {
        state: StateView { active_addr: None, peer_commit: None, ..client.state },
        ..client
    }
}

/// Notes that the connection of a client has ended.
pub fn disconnect(clients: &mut ClientManager, handle: ClientHandle)
    ensures
        final(clients).next_key() == old(clients).next_key(),
        final(clients)@ == changed(
            old(clients)@,
            handle,
            |c: ClientView| disconnected(c),
        ),
{
    let ghost before = clients@;
    clients.set_active_addr(handle, None);
    clients.set_peer_commit(handle, None);
    assert(clients@ =~= changed(before, handle, |c: ClientView| disconnected(c)));
}

/// The client without the address of its connection.
pub open spec fn without_address(client: ClientView) -> ClientView {
    ClientView { state: StateView { active_addr: None, ..client.state }, ..client }
}

/// Drops the connection of a client, so that it is dialled anew: the address
/// that it runs on may be the wrong one now. Returns the address of the
/// connection to be closed.
pub fn reset_handle(
    clients: &mut ClientManager,
    retry: &mut crate::retry::RetryGate,
    handle: ClientHandle,
) -> (closed: Option<SocketAddr>)
    requires
        old(retry).wf(),
    ensures
        final(clients).next_key() == old(clients).next_key(),
        final(retry).wf(),
        final(retry)@ == old(retry)@.remove(handle),
        closed == (match lookup(old(clients)@, handle) {
            Some(client) => client.state.active_addr,
            None => None,
        }),
        final(clients)@ == changed(
            old(clients)@,
            handle,
            (|c: ClientView| without_address(c)),
        ),
{
    let ghost before = clients@;
    let addr = clients.active_addr(handle);
    if addr.is_some() {
        clients.set_active_addr(handle, None);
    } else {
        assert(clients@ =~= changed(
            before,
            handle,
            (|c: ClientView| without_address(c)),
        ));
    }
    retry.clear(handle);
    addr
}

/// An address at a port is dialled as it is, without flow or scope.
pub open spec fn dialled_at(addr: SocketAddr, ip: IpAddr, port: u16) -> bool {
    addr.ip == ip && addr.port == port && addr.flow_info == 0 && addr.scope_id == 0
}

/// A lock holds. While an address is locked, that address at the client's port
/// is the only one that is planned, whatever the other candidates, the mode and
/// the announced address are; and it is the only one that is dialled, at the
/// start and after the head start.
pub proof fn law_locked_clients_are_dialled_there_only(
    client: ClientView,
    ip: IpAddr,
    primary: Option<IpAddr>,
    plan: DialPlan,
    race: DialRace,
    first: DialAction,
    opened: DialRace,
    second: DialAction,
)
    requires
        client.state.active_lock == Some(ip),
        dials(client, primary, plan),
        race_starts(plan, race, first),
        race.head_start ==> race_opens(race, opened, second),
    ensures
        plan.addrs@.len() == 1,
        dialled_at(plan.addrs@[0], ip, client.config.port),
        plan.preferred matches Some(p) && dialled_at(p, ip, client.config.port),
        first matches DialAction::Dial(list) && list@.len() == 1 && dialled_at(
            list@[0],
            ip,
            client.config.port,
        ),
        race.head_start ==> !(second is Dial),
{
    law_every_address_is_dialled_once(plan.addrs@, plan.preferred->0, plan.addrs@[0]);
    let rest = without_addr(plan.addrs@, plan.preferred);
    if rest.len() > 0 {
        law_every_address_is_dialled_once(plan.addrs@, plan.preferred->0, rest[0]);
        assert(rest.contains(rest[0]));
        assert(plan.addrs@.contains(rest[0]));
    }
}

/// Locking an address on the present network makes it the only one that is
/// dialled, from the next plan on.
pub proof fn law_locking_an_address_pins_the_dial(
    clients: Map<usize, ClientView>,
    handle: ClientHandle,
    network: Seq<char>,
    ip: IpAddr,
    primary: Option<IpAddr>,
    plan: DialPlan,
    i: int,
)
    requires
        clients.contains_key(handle as usize),
        ({
            let locked = changed(
                changed(clients, handle, |c: ClientView| with_network_lock(c, network, ip)),
                handle,
                |c: ClientView| with_resolved_lock(c, Some(network)),
            );
            lookup(locked, handle) matches Some(client) && dials(client, primary, plan)
        }),
        0 <= i < plan.addrs@.len(),
    ensures
        plan.addrs@[i].ip == ip,
        plan.addrs@[i].port == clients[handle as usize].config.port,
        plan.addrs@.len() == 1,
        plan.preferred == Some(plan.addrs@[0]),
{
}

/// Without a lock every candidate is dialled at the client's port, each once,
/// and nothing else is.
pub proof fn law_all_candidates_are_dialled(
    client: ClientView,
    primary: Option<IpAddr>,
    plan: DialPlan,
    ip: IpAddr,
    i: int,
    j: int,
)
    requires
        client.state.active_lock is None,
        dials(client, primary, plan),
    ensures
        client.state.ips.contains(ip) ==> exists|k: int|
            0 <= k < plan.addrs@.len() && dialled_at(
                #[trigger] plan.addrs@[k],
                ip,
                client.config.port,
            ),
        0 <= i < plan.addrs@.len() ==> client.state.ips.contains(plan.addrs@[i].ip) && dialled_at(
            plan.addrs@[i],
            plan.addrs@[i].ip,
            client.config.port,
        ),
        0 <= i < j < plan.addrs@.len() ==> plan.addrs@[i].ip != plan.addrs@[j].ip,
{
    if client.state.ips.contains(ip) {
        let addr = socket_of(ip, client.config.port);
        assert(plan.addrs@.contains(addr));
        let k = choose|k: int| 0 <= k < plan.addrs@.len() && plan.addrs@[k] == addr;
        assert(dialled_at(plan.addrs@[k], ip, client.config.port));
    }
    if 0 <= i < j < plan.addrs@.len() {
        assert(plan.addrs@[i] != plan.addrs@[j]);
        assert(plan.addrs@[j] == socket_of(plan.addrs@[j].ip, client.config.port));
    }
}

/// Without a lock the mode decides who gets the head start: in the automatic
/// mode the address that the peer announced; in the fastest mode the one of the
/// lowest measured latency, and the announced one only where none answered.
pub proof fn law_the_mode_gives_the_head_start(
    client: ClientView,
    primary: Option<IpAddr>,
    plan: DialPlan,
    measured: IpAddr,
    us: u32,
)
    requires
        client.state.active_lock is None,
        dials(client, primary, plan),
    ensures
        client.config.mode is Auto ==> match primary {
            Some(ip) => plan.preferred matches Some(p) && dialled_at(p, ip, client.config.port),
            None => plan.preferred is None,
        },
        client.config.mode is Fastest && client.state.latencies.contains_key(measured)
            && client.state.latencies[measured] == Some(us) ==> (plan.preferred matches Some(p)
            && p.port == client.config.port && client.state.latencies.contains_key(p.ip)
            && client.state.latencies[p.ip] is Some && client.state.latencies[p.ip]->0 <= us),
        client.config.mode is Fastest && (forall|ip: IpAddr| #[trigger]
            client.state.latencies.contains_key(ip) ==> client.state.latencies[ip] is None) ==> (
        match primary {
            Some(ip) => plan.preferred matches Some(p) && dialled_at(p, ip, client.config.port),
            None => plan.preferred is None,
        }),
{
}

/// A race leaves no address of its plan out, and dials none twice: the
/// preferred one first where there is one, and all others when its head start is
/// over; or else all at once.
pub proof fn law_races_dial_the_whole_plan(
    plan: DialPlan,
    race: DialRace,
    first: DialAction,
    opened: DialRace,
    second: DialAction,
    addr: SocketAddr,
)
    requires
        plan.addrs@.no_duplicates(),
        race_starts(plan, race, first),
        race.head_start ==> race_opens(race, opened, second),
    ensures
        race.head_start == (plan.preferred is Some),
        plan.preferred matches Some(p) ==> (first matches DialAction::Dial(list) && list@ == seq![p]),
        ({
            let now = first matches DialAction::Dial(list) && list@.contains(addr);
            let later = race.head_start && (second matches DialAction::Dial(list)
                && list@.contains(addr));
            &&& now || later <==> plan.addrs@.contains(addr) || plan.preferred == Some(addr)
            &&& !(now && later)
        }),
        first matches DialAction::Dial(list) ==> list@.no_duplicates(),
        race.head_start ==> (second matches DialAction::Dial(list) ==> list@.no_duplicates()),
        first is GiveUp ==> plan.addrs@.len() == 0 && plan.preferred is None,
{
    if let Some(p) = plan.preferred {
        law_every_address_is_dialled_once(plan.addrs@, p, addr);
        let rest = without_addr(plan.addrs@, Some(p));
        assert(seq![p].contains(addr) <==> addr == p) by {
            assert(seq![p][0] == p);
        }
    }
}

/// The first connection of a race is taken, whatever is still being dialled.
/// A race without a head start waits while any of the dialled addresses may
/// answer, and gives up when the last of them has failed.
pub proof fn law_races_wait_for_the_last(
    races: Seq<DialRace>,
    outcomes: Seq<DialOutcome>,
    actions: Seq<DialAction>,
    n: nat,
)
    requires
        races.len() == n + 1,
        outcomes.len() == n,
        actions.len() == n,
        races[0].outstanding == n,
        !races[0].head_start,
        forall|i: int|
            0 <= i < n ==> race_hears(
                #[trigger] races[i],
                outcomes[i],
                races[i + 1],
                actions[i],
            ),
    ensures
        forall|i: int|
            0 <= i < n ==> match outcomes[i] {
                DialOutcome::Connected(addr) => (#[trigger] actions[i]) == DialAction::Take(addr),
                DialOutcome::Failed(_) => if i == n - 1 {
                    actions[i] is GiveUp
                } else {
                    actions[i] is Wait
                },
            },
{
    assert forall|i: int|
        0 <= i < n implies match outcomes[i] {
            DialOutcome::Connected(addr) => (#[trigger] actions[i]) == DialAction::Take(addr),
            DialOutcome::Failed(_) => if i == n - 1 {
                actions[i] is GiveUp
            } else {
                actions[i] is Wait
            },
        } by {
        lemma_outstanding(races, outcomes, actions, n, i as nat);
        assert(race_hears(races[i], outcomes[i], races[i + 1], actions[i]));
    }
}

proof fn lemma_outstanding(
    races: Seq<DialRace>,
    outcomes: Seq<DialOutcome>,
    actions: Seq<DialAction>,
    n: nat,
    i: nat,
)
    requires
        races.len() == n + 1,
        races[0].outstanding == n,
        !races[0].head_start,
        forall|i: int|
            0 <= i < n ==> race_hears(
                #[trigger] races[i],
                outcomes[i],
                races[i + 1],
                actions[i],
            ),
        i <= n,
    ensures
        races[i as int].outstanding == n - i,
        !races[i as int].head_start,
    decreases i,
{
    if i > 0 {
        lemma_outstanding(races, outcomes, actions, n, (i - 1) as nat);
        assert(race_hears(races[i - 1], outcomes[i - 1], races[i as int], actions[i - 1]));
    }
}

/// While the preferred address has its head start, its failure is no reason to
/// give up: the others are still to be dialled.
pub proof fn law_a_failed_head_start_is_no_end(
    plan: DialPlan,
    race: DialRace,
    first: DialAction,
    failed: DialRace,
    waiting: DialAction,
    opened: DialRace,
    second: DialAction,
    addr: SocketAddr,
)
    requires
        plan.preferred is Some,
        race_starts(plan, race, first),
        race_hears(race, DialOutcome::Failed(addr), failed, waiting),
        race_opens(failed, opened, second),
    ensures
        waiting is Wait,
        (exists|a: SocketAddr| plan.addrs@.contains(a) && plan.preferred != Some(a)) ==> second
            is Dial,
        !(exists|a: SocketAddr| plan.addrs@.contains(a) && plan.preferred != Some(a)) ==> second
            is GiveUp,
{
    let p = plan.preferred->0;
    let rest = without_addr(plan.addrs@, Some(p));
    if exists|a: SocketAddr| plan.addrs@.contains(a) && plan.preferred != Some(a) {
        let a = choose|a: SocketAddr| plan.addrs@.contains(a) && plan.preferred != Some(a);
        law_every_address_is_dialled_once(plan.addrs@, p, a);
        assert(rest.contains(a));
    } else if rest.len() > 0 {
        law_every_address_is_dialled_once(plan.addrs@, p, rest[0]);
        assert(rest.contains(rest[0]));
    }
}

/// An event goes out on the live connection of a client that takes input, and
/// nowhere else. Where the client takes none it is refused; where there is no
/// live connection one is asked for. Clipboard content is sent by a transfer in
/// any case.
pub proof fn law_events_go_to_clients_that_take_them(
    clients: Map<usize, ClientView>,
    handle: ClientHandle,
    event: ProtoEvent,
    connected: bool,
    addr: SocketAddr,
)
    ensures
        event is Clipboard <==> sends(clients, handle, event, connected) is Transfer,
        !(event is Clipboard) ==> {
            let key = handle as usize;
            let live = connected && clients.contains_key(key) && clients[key].state.active_addr
                is Some;
            let step = sends(clients, handle, event, connected);
            &&& step == SendStep::Deliver(addr) <==> live && clients[key].state.alive
                && clients[key].state.active_addr == Some(addr)
            &&& step is TargetDisabled <==> live && !clients[key].state.alive
            &&& step is RequestConnection <==> !live
        },
{
}

/// A client takes input exactly where the last answer to a ping said so, and is
/// reached where the answer came from: the next event is delivered there, or is
/// refused. Nothing else of the client changes but its latency, and no other
/// client does.
pub proof fn law_pongs_tell_who_takes_input(
    before: Map<usize, ClientView>,
    handle: ClientHandle,
    addr: SocketAddr,
    ping_micros: Option<u128>,
    takes_input: bool,
    action: ReceiveAction,
    after: Map<usize, ClientView>,
    event: ProtoEvent,
    other: usize,
)
    requires
        before.contains_key(handle as usize),
        follows(
            before,
            handle,
            addr,
            ping_micros,
            ProtoEvent::Pong(takes_input).wire(),
            action,
            after,
        ),
        !(event is Clipboard),
        other != handle as usize,
    ensures
        action is Answered,
        after.dom() == before.dom(),
        before.contains_key(other) ==> after[other] == before[other],
        ({
            let old = before[handle as usize];
            let new = after[handle as usize];
            &&& new.state.alive == takes_input
            &&& new.state.active_addr == Some(addr)
            &&& new.config == old.config
            &&& new == (ClientView {
                config: old.config,
                state: StateView {
                    alive: takes_input,
                    active_addr: Some(addr),
                    latencies: new.state.latencies,
                    ..old.state
                },
            })
        }),
        sends(after, handle, event, true) == (if takes_input {
            SendStep::Deliver(addr)
        } else {
            SendStep::TargetDisabled
        }),
{
    let pong = ProtoEvent::Pong(takes_input);
    let decoded = choose|decoded: Option<DecodedDatagram>| #[trigger]
        datagram_holds(pong.wire(), decoded) && receives(
            before,
            handle,
            addr,
            ping_micros,
            decoded,
            action,
            after,
        );
    law_sent_events_arrive(pong, decoded);
    assert(after.dom() =~= before.dom());
}

/// The answer to a ping measures the address that it came from, where that is a
/// candidate: the round trip is kept to a tenth of a millisecond, rounded down.
/// What is known of other addresses stays.
pub proof fn law_pongs_measure_the_address(
    before: Map<usize, ClientView>,
    handle: ClientHandle,
    addr: SocketAddr,
    ping_micros: Option<u128>,
    takes_input: bool,
    action: ReceiveAction,
    after: Map<usize, ClientView>,
    other: IpAddr,
)
    requires
        before.contains_key(handle as usize),
        follows(
            before,
            handle,
            addr,
            ping_micros,
            ProtoEvent::Pong(takes_input).wire(),
            action,
            after,
        ),
        other != addr.ip,
    ensures
        ({
            let old = before[handle as usize].state;
            let new = after[handle as usize].state;
            &&& new.latencies.contains_key(other) == old.latencies.contains_key(other)
            &&& old.latencies.contains_key(other) ==> new.latencies[other] == old.latencies[other]
            &&& match ping_micros {
                Some(micros) => old.ips.contains(addr.ip) ==> {
                    &&& new.latencies.contains_key(addr.ip)
                    &&& new.latencies[addr.ip] matches Some(us) && us % 100 == 0 && us <= micros
                        && (micros <= u32::MAX ==> micros - us < 100)
                },
                None => new.latencies == old.latencies,
            }
            &&& !old.ips.contains(addr.ip) ==> new.latencies == old.latencies
        }),
{
    let pong = ProtoEvent::Pong(takes_input);
    let decoded = choose|decoded: Option<DecodedDatagram>| #[trigger]
        datagram_holds(pong.wire(), decoded) && receives(
            before,
            handle,
            addr,
            ping_micros,
            decoded,
            action,
            after,
        );
    law_sent_events_arrive(pong, decoded);
}

/// Every other event of a connected peer is passed on as it was sent, and
/// changes nothing of any client.
pub proof fn law_events_of_clients_are_passed_on(
    before: Map<usize, ClientView>,
    handle: ClientHandle,
    addr: SocketAddr,
    ping_micros: Option<u128>,
    event: ProtoEvent,
    action: ReceiveAction,
    after: Map<usize, ClientView>,
)
    requires
        !(event is Pong),
        !(event is Hello),
        !(event is Clipboard),
        !(event matches ProtoEvent::Input(Event::Clipboard(_))),
        follows(before, handle, addr, ping_micros, event.wire(), action, after),
    ensures
        action == ReceiveAction::Forward(event),
        after == before,
{
    let decoded = choose|decoded: Option<DecodedDatagram>| #[trigger]
        datagram_holds(event.wire(), decoded) && receives(
            before,
            handle,
            addr,
            ping_micros,
            decoded,
            action,
            after,
        );
    law_sent_events_arrive(event, decoded);
}

/// A client that greets with the magic of this protocol is noted with the commit
/// of its build, and its greeting is passed on. With any other magic it is
/// refused, and nothing changes.
pub proof fn law_clients_greet_by_the_magic(
    before: Map<usize, ClientView>,
    handle: ClientHandle,
    addr: SocketAddr,
    ping_micros: Option<u128>,
    magic: [u8; 8],
    commit: [u8; 8],
    action: ReceiveAction,
    after: Map<usize, ClientView>,
)
    requires
        before.contains_key(handle as usize),
        follows(
            before,
            handle,
            addr,
            ping_micros,
            (ProtoEvent::Hello { magic, commit }).wire(),
            action,
            after,
        ),
    ensures
        if magic@ == seq![77u8, 79, 78, 72, 79, 80, 48, 49] {
            let old = before[handle as usize];
            let new = after[handle as usize];
            &&& action matches ReceiveAction::Greeted(ProtoEvent::Hello { magic: m, commit: c })
                && m@ == magic@ && c == commit
            &&& new == (ClientView {
                config: old.config,
                state: StateView { peer_commit: Some(commit), ..old.state },
            })
            &&& after == before.insert(handle as usize, new)
        } else {
            action is Refuse && after == before
        },
{
    crate::proto::law_magic_is_the_name();
    let hello = ProtoEvent::Hello { magic, commit };
    let decoded = choose|decoded: Option<DecodedDatagram>| #[trigger]
        datagram_holds(hello.wire(), decoded) && receives(
            before,
            handle,
            addr,
            ping_micros,
            decoded,
            action,
            after,
        );
    law_sent_events_arrive(hello, decoded);
}

/// The acknowledgement of a transfer reaches the transfer with that number, as
/// the peer sent it, and ends it: with success where it is accepted and the hash
/// is that of the text, with a rejection where it is not accepted.
pub proof fn law_acknowledgements_end_their_transfer(
    before: Map<usize, ClientView>,
    handle: ClientHandle,
    addr: SocketAddr,
    ping_micros: Option<u128>,
    ack: FrameView,
    action: ReceiveAction,
    after: Map<usize, ClientView>,
    expected_hash: Seq<u8>,
    failed_attempts: u32,
)
    requires
        ack matches FrameView::Ack { content_hash, .. } && content_hash.len() == 32,
        follows(before, handle, addr, ping_micros, ack.wire(), action, after),
        failed_attempts < 5,
    ensures
        after == before,
        action matches ReceiveAction::Acknowledge { transfer_id, content_hash, accepted } && {
            let step = answer_step(
                expected_hash,
                failed_attempts,
                AckOutcome::Ack { hash: content_hash, accepted },
            ).1;
            &&& transfer_id == ack->Ack_transfer_id
            &&& content_hash@ == ack->Ack_content_hash
            &&& accepted == ack->accepted
            &&& step is Done <==> accepted && content_hash@ == expected_hash
            &&& step == TransferStep::Fail(ConnectionError::ClipboardRejected) <==> !accepted
            &&& step is Resend <==> accepted && content_hash@ != expected_hash && failed_attempts
                < 4
        },
{
    let decoded = choose|decoded: Option<DecodedDatagram>| #[trigger]
        datagram_holds(ack.wire(), decoded) && receives(
            before,
            handle,
            addr,
            ping_micros,
            decoded,
            action,
            after,
        );
    law_sent_frames_arrive(ack, decoded);
}

/// A transfer is sent once and then up to four times more: an attempt that
/// nothing answers, or that is answered with another hash, is followed by the
/// next, until the fifth has failed.
pub proof fn law_five_attempts_are_made(
    expected_hash: Seq<u8>,
    failed_attempts: u32,
    hash: [u8; 32],
)
    requires
        hash@ != expected_hash,
        failed_attempts < 5,
    ensures
        ({
            let silent = answer_step(expected_hash, failed_attempts, AckOutcome::NoAnswer);
            let mistaken = answer_step(
                expected_hash,
                failed_attempts,
                AckOutcome::Ack { hash, accepted: true },
            );
            &&& silent == mistaken
            &&& silent.0 == failed_attempts + 1
            &&& silent.1 == (if failed_attempts < 4 {
                TransferStep::Resend
            } else {
                TransferStep::Fail(ConnectionError::Timeout)
            })
        }),
{
}

/// A transfer starts as soon as its client is connected and takes input, and
/// not before. It looks ten times a second, and for five seconds.
pub proof fn law_transfers_wait_for_the_connection(
    clients: Map<usize, ClientView>,
    handle: ClientHandle,
    connected: bool,
    waited_ms: u64,
    addr: SocketAddr,
)
    ensures
        ({
            let key = handle as usize;
            let ready = connected && clients.contains_key(key) && clients[key].state.alive
                && clients[key].state.active_addr is Some;
            let step = waits(clients, handle, connected, waited_ms);
            &&& step == WaitStep::Ready(addr) <==> ready && clients[key].state.active_addr == Some(
                addr,
            )
            &&& step is NotConnected <==> !ready && waited_ms >= 5_000
            &&& step == WaitStep::RequestAndSleep(100) <==> !ready && waited_ms < 5_000
        }),
{
}

/// The greeting is sent eight times, three quarters of a second apart, until the
/// peer has greeted; a peer that has not by then is dropped.
pub proof fn law_greetings_are_repeated(sent: u32)
    ensures
        hello_next(sent, true) is Done,
        sent < 8 ==> hello_next(sent, false) == HelloStep::SendAndSleep(750),
        sent >= 8 ==> hello_next(sent, false) is Close,
{
}

/// A connection is pinged twice a second. It is kept as long as one of every
/// four pings is answered, and dropped otherwise; a ping that cannot be sent
/// ends the round at once.
pub proof fn law_silent_connections_are_dropped(sent: u32, answered: bool)
    ensures
        sent < 4 ==> ping_next(sent, false, answered) == PingStep::SendAndSleep(500),
        sent >= 4 ==> ping_next(sent, false, true) is NextRound && ping_next(sent, false, false)
            is Close,
        ping_next(sent, true, true) is NextRound,
        ping_next(sent, true, false) is Close,
{
}

/// A client whose connection has ended, or is dropped, is reached nowhere: the
/// next event asks for a connection. What it is configured to and its candidates
/// stay, and so do all other clients.
pub proof fn law_lost_connections_are_asked_for_again(
    clients: Map<usize, ClientView>,
    handle: ClientHandle,
    event: ProtoEvent,
    connected: bool,
    other: usize,
)
    requires
        clients.contains_key(handle as usize),
        !(event is Clipboard),
        other != handle as usize,
    ensures
        ({
            let old = clients[handle as usize];
            let ended = changed(clients, handle, |c: ClientView| disconnected(c));
            let dropped = changed(clients, handle, |c: ClientView| without_address(c));
            &&& sends(ended, handle, event, connected) is RequestConnection
            &&& sends(dropped, handle, event, connected) is RequestConnection
            &&& ended[handle as usize].state.peer_commit is None
            &&& dropped[handle as usize].state.peer_commit == old.state.peer_commit
            &&& ended[handle as usize].config == old.config
            &&& dropped[handle as usize].config == old.config
            &&& ended[handle as usize].state.ips == old.state.ips
            &&& dropped[handle as usize].state.ips == old.state.ips
            &&& ended[handle as usize].state.active_lock == old.state.active_lock
            &&& dropped[handle as usize].state.active_lock == old.state.active_lock
            &&& ended[handle as usize].state.latencies == old.state.latencies
            &&& dropped[handle as usize].state.latencies == old.state.latencies
            &&& clients.contains_key(other) ==> ended[other] == clients[other] && dropped[other]
                == clients[other]
        }),
{
}

/// A transfer starts with all its attempts, under its number, with the hash of
/// the text that it waits for; text beyond the limits is refused.
pub proof fn law_transfers_start_afresh(
    from_fingerprint: String,
    content: String,
    transfer_id: u64,
    send: Result<ClipboardSend, ConnectionError>,
)
    requires
        prepared(ProtoEvent::Clipboard { from_fingerprint, content }, transfer_id, send),
    ensures
        send is Ok <==> vstd::utf8::encode_utf8(from_fingerprint@).len() <= 256
            && vstd::utf8::encode_utf8(content@).len() <= 2_097_152,
        send matches Ok(s) ==> {
            &&& s.transfer_id == transfer_id
            &&& s.failed_attempts == 0
            &&& s.expected_hash == sha256(vstd::utf8::encode_utf8(content@))
            &&& transfers(
                ProtoEvent::Clipboard { from_fingerprint, content },
                transfer_id,
                Ok((s.datagrams, s.expected_hash)),
            )
        },
        send matches Err(e) ==> e is ClipboardRejected,
{
}

/// A socket is of the family of the address that it dials, at any port.
pub proof fn law_sockets_fit_the_address(v4: u32, v6: u128)
    ensures
        bind_text(IpAddr::V4(v4)) == "0.0.0.0:0"@,
        bind_text(IpAddr::V6(v6)) == "[::]:0"@,
{
}

/// The connecting side gives a connection five seconds, the preferred address a
/// fifth of a second alone, and an acknowledgement a second and a half.
pub proof fn law_the_pace_of_connecting()
    ensures
        DEFAULT_CONNECTION_TIMEOUT_MS == 5_000,
        PREFERRED_ADDR_HEAD_START_MS == 200,
        CLIPBOARD_ACK_TIMEOUT_MS == 1_500,
        CLIPBOARD_MAX_ATTEMPTS == 5,
        HELLO_MAX_ATTEMPTS == 8,
        PINGS_PER_ROUND == 4,
{
}

} // verus!
