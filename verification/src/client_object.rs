//! A client as the user interface shows it.
use vstd::prelude::*;
use vstd::string::StringExecFns;
use crate::addr::IpAddr;
use crate::client::{
    ClientConfig, ClientHandle, ClientState, ConnectionMode, ConfigView, StateView,
};
use crate::ip_distinct::law_texts_tell_addresses_apart;
use crate::ip_text::ip_text;
use crate::network::IfaceKind;
use crate::text::{
    copy_text, copy_texts, decimal, le_text, push_decimal, str_view, text_from_utf8, text_le,
    text_view, texts,
};

verus! {

/// What is known of the latency of an address.
#[derive(Debug, PartialEq, Eq, Clone, Copy, Structural)]
pub enum LatencyState {
    /// Not probed yet.
    Unknown,
    /// The probe measured nothing. That does not mean that the address cannot
    /// be reached: a firewall may drop the probe and let the connection pass.
    Unmeasured,
    /// A measured round trip in microseconds.
    Rtt(u32),
}

/// A candidate address as it is offered to the user.
#[derive(Debug)]
pub struct AddrEntry {
    pub ip: String,
    pub latency: LatencyState,
    /// Whether the live connection runs on this address.
    pub active: bool,
    /// The kind of the interface, where the peer announced it.
    pub kind: Option<IfaceKind>,
}

/// What an [`AddrEntry`] says.
#[verifier::ext_equal]
pub struct EntryView {
    pub ip: Seq<char>,
    pub latency: LatencyState,
    pub active: bool,
    pub kind: Option<IfaceKind>,
}

impl View for AddrEntry {
    type V = EntryView;

    open spec fn view(&self) -> EntryView {
        EntryView { ip: self.ip@, latency: self.latency, active: self.active, kind: self.kind }
    }
}

impl Clone for AddrEntry {
    fn clone(&self) -> (entry: Self)
        ensures
            entry@ == self@,
    {
        AddrEntry {
            ip: self.ip.clone(),
            latency: self.latency,
            active: self.active,
            kind: self.kind,
        }
    }
}

/// What the state of a client says of one of its candidate addresses.
pub open spec fn entry_of(state: StateView, ip: IpAddr) -> EntryView {
    EntryView {
        ip: ip_text(ip),
        latency: if !state.latencies.contains_key(ip) {
            LatencyState::Unknown
        } else {
            match state.latencies[ip] {
                Some(us) => LatencyState::Rtt(us),
                None => LatencyState::Unmeasured,
            }
        },
        active: state.active_addr matches Some(addr) && addr.ip == ip,
        kind: if state.interfaces.contains_key(ip) {
            Some(state.interfaces[ip])
        } else {
            None
        },
    }
}

/// The addresses are ordered by their texts.
pub open spec fn sorted_by_text(ips: Seq<IpAddr>) -> bool {
    forall|i: int, j: int|
        0 <= i < j < ips.len() ==> text_le(
            #[trigger] ip_text(ips[i]),
            #[trigger] ip_text(ips[j]),
        )
}

/// `entries` are those of the addresses `ips`, one by one.
pub open spec fn entries_of(
    state: StateView,
    ips: Seq<IpAddr>,
    entries: Seq<AddrEntry>,
) -> bool {
    &&& ips.len() == entries.len()
    &&& forall|i: int| 0 <= i < ips.len() ==> (#[trigger] entries[i])@ == entry_of(state, ips[i])
}

/// The same addresses, ordered by their texts.
fn sort_by_text(ips: &Vec<IpAddr>) -> (sorted: Vec<IpAddr>)
    requires
        ips@.no_duplicates(),
    ensures
        sorted@.no_duplicates(),
        sorted@.to_set() == ips@.to_set(),
        sorted_by_text(sorted@),
{
    let mut sorted: Vec<IpAddr> = Vec::new();
    let mut i: usize = 0;
    assert(sorted@.to_set() =~= ips@.take(0).to_set());
    while i < ips.len()
        invariant
            i <= ips@.len(),
            ips@.no_duplicates(),
            sorted@.no_duplicates(),
            sorted@.to_set() == ips@.take(i as int).to_set(),
            sorted_by_text(sorted@),
        decreases ips@.len() - i,
    {
        let ip: IpAddr = ips[i];
        let text = ip.to_text();
        let mut at: usize = 0;
        let mut here: bool = false;
        while at < sorted.len() && !here
            invariant
                at <= sorted@.len(),
                text@ == ip_text(ip),
                sorted_by_text(sorted@),
                forall|k: int|
                    0 <= k < at ==> text_le(#[trigger] ip_text(sorted@[k]), ip_text(ip)),
                here ==> at < sorted@.len() && text_le(ip_text(ip), ip_text(sorted@[at as int])),
            decreases
                sorted@.len() - at,
                if here {
                    0nat
                } else {
                    1nat
                },
        {
            let other = sorted[at].to_text();
            if le_text(other.as_str(), text.as_str()) {
                at += 1;
            } else {
                proof {
                    crate::bytes::lemma_bytes_le_total(
                        vstd::utf8::encode_utf8(other@),
                        vstd::utf8::encode_utf8(text@),
                    );
                }
                here = true;
            }
        }
        let ghost then = sorted@;
        sorted.insert(at, ip);
        proof {
            lemma_inserted(then, sorted@, at as int, ip);
            let seen = ips@.take(i as int);
            let now = ips@.take(i + 1);
            assert forall|x: IpAddr| now.contains(x) == (seen.contains(x) || x == ip) by {
                if seen.contains(x) {
                    let k = choose|k: int| 0 <= k < seen.len() && seen[k] == x;
                    assert(now[k] == x);
                }
                if now.contains(x) && x != ip {
                    let k = choose|k: int| 0 <= k < now.len() && now[k] == x;
                    assert(seen[k] == x);
                }
                assert(now[i as int] == ip);
            }
            assert(!seen.contains(ip)) by {
                if seen.contains(ip) {
                    let k = choose|k: int| 0 <= k < seen.len() && seen[k] == ip;
                    assert(ips@[k] == ips@[i as int]);
                }
            }
            assert(!then.contains(ip)) by {
                assert(then.to_set().contains(ip) == then.contains(ip));
                assert(seen.to_set().contains(ip) == seen.contains(ip));
            }
            lemma_inserted_distinct(then, sorted@, at as int, ip);
            assert forall|x: IpAddr| sorted@.to_set().contains(x) == now.to_set().contains(x) by {
                assert(then.to_set().contains(x) == then.contains(x));
                assert(seen.to_set().contains(x) == seen.contains(x));
                assert(now.to_set().contains(x) == now.contains(x));
                assert(sorted@.to_set().contains(x) == sorted@.contains(x));
            }
            assert(sorted@.to_set() =~= now.to_set());
            assert(sorted_by_text(sorted@)) by {
                assert forall|a: int, b: int| 0 <= a < b < sorted@.len() implies text_le(
                    #[trigger] ip_text(sorted@[a]),
                    #[trigger] ip_text(sorted@[b]),
                ) by {
                    lemma_insert_keeps_order(then, sorted@, at as int, ip, a, b);
                }
            }
        }
        i += 1;
    }
    assert(ips@.take(i as int) =~= ips@);
    sorted
}

/// Where the items stand after an insertion.
proof fn lemma_inserted(then: Seq<IpAddr>, now: Seq<IpAddr>, at: int, ip: IpAddr)
    requires
        0 <= at <= then.len(),
        now == then.insert(at, ip),
    ensures
        now.len() == then.len() + 1,
        forall|k: int| 0 <= k < at ==> now[k] == then[k],
        now[at] == ip,
        forall|k: int| at < k < now.len() ==> now[k] == then[k - 1],
        forall|x: IpAddr| #[trigger] now.contains(x) <==> then.contains(x) || x == ip,
{
    assert forall|x: IpAddr| #[trigger] now.contains(x) <==> then.contains(x) || x == ip by {
        if then.contains(x) {
            let k = choose|k: int| 0 <= k < then.len() && then[k] == x;
            if k < at {
                assert(now[k] == x);
            } else {
                assert(now[k + 1] == x);
            }
        }
        if now.contains(x) && x != ip {
            let k = choose|k: int| 0 <= k < now.len() && now[k] == x;
            if k < at {
                assert(then[k] == x);
            } else {
                assert(then[k - 1] == x);
            }
        }
        assert(now[at] == ip);
    }
}

proof fn lemma_inserted_distinct(then: Seq<IpAddr>, now: Seq<IpAddr>, at: int, ip: IpAddr)
    requires
        0 <= at <= then.len(),
        now == then.insert(at, ip),
        then.no_duplicates(),
        !then.contains(ip),
    ensures
        now.no_duplicates(),
{
    lemma_inserted(then, now, at, ip);
    assert forall|a: int, b: int| 0 <= a < b < now.len() implies now[a] != now[b] by {
        let x = if a < at {
            a
        } else {
            a - 1
        };
        let y = if b < at {
            b
        } else {
            b - 1
        };
        if a != at {
            assert(now[a] == then[x]);
            assert(then.contains(then[x]));
        }
        if b != at {
            assert(now[b] == then[y]);
            assert(then.contains(then[y]));
        }
    }
}

proof fn lemma_insert_keeps_order(
    then: Seq<IpAddr>,
    now: Seq<IpAddr>,
    at: int,
    ip: IpAddr,
    a: int,
    b: int,
)
    requires
        0 <= at <= then.len(),
        now == then.insert(at, ip),
        sorted_by_text(then),
        forall|k: int| 0 <= k < at ==> text_le(#[trigger] ip_text(then[k]), ip_text(ip)),
        at < then.len() ==> text_le(ip_text(ip), ip_text(then[at])),
        0 <= a < b < now.len(),
    ensures
        text_le(ip_text(now[a]), ip_text(now[b])),
{
    lemma_inserted(then, now, at, ip);
    if a == at {
        // What follows the insertion comes after what stood there.
        if b - 1 > at {
            assert(text_le(ip_text(then[at]), ip_text(then[b - 1])));
            crate::bytes::lemma_bytes_le_transitive(
                vstd::utf8::encode_utf8(ip_text(ip)),
                vstd::utf8::encode_utf8(ip_text(then[at])),
                vstd::utf8::encode_utf8(ip_text(then[b - 1])),
            );
        }
    } else if b == at {
        assert(text_le(ip_text(then[a]), ip_text(ip)));
    } else {
        let x = if a < at {
            a
        } else {
            a - 1
        };
        let y = if b < at {
            b
        } else {
            b - 1
        };
        assert(text_le(ip_text(then[x]), ip_text(then[y])));
    }
}

/// Ordering addresses by their texts is a total order: no two of them have the
/// same text.
proof fn lemma_text_order()
    ensures
        vstd::relations::total_ordering(
            |x: IpAddr, y: IpAddr| text_le(ip_text(x), ip_text(y)),
        ),
{
    let le = |x: IpAddr, y: IpAddr| text_le(ip_text(x), ip_text(y));
    let bytes = |x: IpAddr| vstd::utf8::encode_utf8(ip_text(x));
    assert forall|x: IpAddr, y: IpAddr| #[trigger] le(x, y) || #[trigger] le(y, x) by {
        crate::bytes::lemma_bytes_le_total(bytes(x), bytes(y));
    }
    assert forall|x: IpAddr| #[trigger] le(x, x) by {
        crate::bytes::lemma_bytes_le_total(bytes(x), bytes(x));
    }
    assert forall|x: IpAddr, y: IpAddr, z: IpAddr| #[trigger] le(x, y) && #[trigger] le(y, z) implies le(
        x,
        z,
    ) by {
        crate::bytes::lemma_bytes_le_transitive(bytes(x), bytes(y), bytes(z));
    }
    assert forall|x: IpAddr, y: IpAddr| #[trigger] le(x, y) && #[trigger] le(y, x) implies x == y by {
        crate::bytes::lemma_bytes_le_antisymmetric(bytes(x), bytes(y));
        vstd::utf8::encode_utf8_decode_utf8(ip_text(x));
        vstd::utf8::encode_utf8_decode_utf8(ip_text(y));
        law_texts_tell_addresses_apart(x, y);
    }
}

/// A set of addresses has one order: no text stands in the list twice, and the
/// list keeps its order between updates.
pub proof fn law_addresses_keep_their_order(first: Seq<IpAddr>, second: Seq<IpAddr>)
    requires
        first.no_duplicates(),
        second.no_duplicates(),
        first.to_set() == second.to_set(),
        sorted_by_text(first),
        sorted_by_text(second),
    ensures
        first == second,
        forall|i: int, j: int|
            0 <= i < j < first.len() ==> (#[trigger] ip_text(first[i])) != (#[trigger] ip_text(
                first[j],
            )),
{
    let le = |x: IpAddr, y: IpAddr| text_le(ip_text(x), ip_text(y));
    lemma_text_order();
    assert(vstd::relations::sorted_by(first, le)) by {
        assert forall|i: int, j: int| 0 <= i < j < first.len() implies #[trigger] le(
            first[i],
            first[j],
        ) by {
            assert(text_le(ip_text(first[i]), ip_text(first[j])));
        }
    }
    assert(vstd::relations::sorted_by(second, le)) by {
        assert forall|i: int, j: int| 0 <= i < j < second.len() implies #[trigger] le(
            second[i],
            second[j],
        ) by {
            assert(text_le(ip_text(second[i]), ip_text(second[j])));
        }
    }
    lemma_same_members(first, second);
    vstd::seq_lib::lemma_sorted_unique(first, second, le);
    assert forall|i: int, j: int| 0 <= i < j < first.len() implies (#[trigger] ip_text(first[i]))
        != (#[trigger] ip_text(first[j])) by {
        law_texts_tell_addresses_apart(first[i], first[j]);
    }
}

/// Two lists without repeats that hold the same addresses hold each as often.
proof fn lemma_same_members(first: Seq<IpAddr>, second: Seq<IpAddr>)
    requires
        first.no_duplicates(),
        second.no_duplicates(),
        first.to_set() == second.to_set(),
    ensures
        first.to_multiset() == second.to_multiset(),
{
    broadcast use vstd::seq_lib::group_to_multiset_ensures;

    first.lemma_multiset_has_no_duplicates();
    second.lemma_multiset_has_no_duplicates();
    assert forall|x: IpAddr| first.to_multiset().count(x) == second.to_multiset().count(x) by {
        assert(first.contains(x) <==> first.to_set().contains(x));
        assert(second.contains(x) <==> second.to_set().contains(x));
        assert(first.contains(x) <==> first.to_multiset().count(x) > 0);
        assert(second.contains(x) <==> second.to_multiset().count(x) > 0);
        if first.contains(x) {
            assert(first.to_multiset().contains(x));
            assert(second.to_multiset().contains(x));
        }
    }
    assert(first.to_multiset() =~= second.to_multiset());
}

/// The candidate addresses of a client, ordered by their texts so that the
/// list keeps its order between updates.
pub fn address_entries(state: &ClientState) -> (entries: Vec<AddrEntry>)
    ensures
        exists|ips: Seq<IpAddr>|
            ips.no_duplicates() && ips.to_set() == state@.ips && sorted_by_text(ips)
                && #[trigger] entries_of(state@, ips, entries@),
{
    let ips = sort_by_text(&state.ips.to_list());
    let mut entries: Vec<AddrEntry> = Vec::new();
    let mut i: usize = 0;
    while i < ips.len()
        invariant
            i <= ips@.len(),
            entries@.len() == i,
            forall|k: int|
                0 <= k < i ==> (#[trigger] entries@[k])@ == entry_of(state@, ips@[k]),
        decreases ips@.len() - i,
    {
        let ip: IpAddr = ips[i];
        entries.push(
            AddrEntry {
                ip: ip.to_text(),
                latency: match state.latencies.get(&ip) {
                    None => LatencyState::Unknown,
                    Some(None) => LatencyState::Unmeasured,
                    Some(Some(us)) => LatencyState::Rtt(us),
                },
                active: match state.active_addr {
                    Some(addr) => addr.ip == ip,
                    None => false,
                },
                kind: state.interfaces.get(&ip),
            },
        );
        assert(entries@[i as int]@ =~= entry_of(state@, ips@[i as int]));
        i += 1;
    }
    assert(entries_of(state@, ips@, entries@));
    entries
}

pub open spec fn kind_label(kind: Option<IfaceKind>) -> Option<Seq<char>> {
    match kind {
        Some(IfaceKind::Wired) => Some("Wired"@),
        Some(IfaceKind::WiFi) => Some("Wi-Fi"@),
        Some(IfaceKind::Other) => Some("Other"@),
        None => None,
    }
}

/// The short name of an interface kind: none where the peer announced none.
pub fn iface_label(kind: Option<IfaceKind>) -> (label: Option<&'static str>)
    ensures
        str_view(label) == kind_label(kind),
{
    match kind {
        Some(IfaceKind::Wired) => Some("Wired"),
        Some(IfaceKind::WiFi) => Some("Wi-Fi"),
        Some(IfaceKind::Other) => Some("Other"),
        None => None,
    }
}

/// A thousand times the least mantissa of a 64-bit float.
pub const MANTISSA_FLOOR: u64 = 4_503_599_627_370_496_000;

/// A thousand times the mantissa that `us / 1000` has before it is rounded to
/// an integer: `us`, doubled until the mantissa is large enough.
pub open spec fn raw_mantissa(us: nat) -> nat
    decreases 2 * MANTISSA_FLOOR - us,
{
    if us == 0 || us >= MANTISSA_FLOOR {
        us
    } else {
        raw_mantissa(2 * us)
    }
}

/// How the 64-bit float nearest to `us / 1000` lies to that number: below it,
/// on it, or above it.
pub open spec fn float_error(us: nat) -> int {
    let rest = raw_mantissa(us) % 1000;
    if rest == 0 {
        0
    } else if rest < 500 {
        -1
    } else {
        1
    }
}

/// Milliseconds with one decimal, in tenths. Where `us` lies halfway, the
/// float nearest to the milliseconds decides; where that lies halfway too, the
/// even tenth is taken.
pub open spec fn tenths_of_ms(us: nat) -> nat {
    let down = us / 100;
    let rest = us % 100;
    if rest < 50 || rest == 50 && (float_error(us) < 0 || float_error(us) == 0 && down % 2 == 0) {
        down
    } else {
        down + 1
    }
}

/// Whole milliseconds: halfway, the even number is taken.
pub open spec fn whole_ms(us: nat) -> nat {
    let down = us / 1000;
    let rest = us % 1000;
    if rest < 500 || rest == 500 && down % 2 == 0 {
        down
    } else {
        down + 1
    }
}

pub open spec fn latency_text(latency: LatencyState) -> Seq<char> {
    match latency {
        LatencyState::Unknown => "…"@,
        LatencyState::Unmeasured => "—"@,
        LatencyState::Rtt(us) => if us < 10_000 {
            decimal(tenths_of_ms(us as nat) / 10) + "."@ + decimal(tenths_of_ms(us as nat) % 10)
                + " ms"@
        } else {
            decimal(whole_ms(us as nat)) + " ms"@
        },
    }
}

/// How the float nearest to `us / 1000` lies to that number: below, on, or
/// above it.
fn nearest_float_error(us: u64) -> (error: i8)
    requires
        0 < us < 10_000,
    ensures
        error == float_error(us as nat),
{
    let mut grown: u64 = us;
    while grown < MANTISSA_FLOOR
        invariant
            0 < grown < 2 * MANTISSA_FLOOR,
            raw_mantissa(grown as nat) == raw_mantissa(us as nat),
        decreases 2 * MANTISSA_FLOOR - grown,
    {
        grown = 2 * grown;
    }
    let rest: u64 = grown % 1000;
    if rest == 0 {
        0
    } else if rest < 500 {
        -1
    } else {
        1
    }
}

/// The latency as it is shown: `0.8 ms`, `74 ms`, a dash where nothing could
/// be measured, or an ellipsis where nothing has been yet.
pub fn format_latency(latency: &LatencyState) -> (text: String)
    ensures
        text@ == latency_text(*latency),
{
    let mut out = String::new();
    match latency {
        LatencyState::Unknown => out.append("…"),
        LatencyState::Unmeasured => out.append("—"),
        LatencyState::Rtt(us) => {
            let us: u64 = *us as u64;
            if us < 10_000 {
                let down: u64 = us / 100;
                let rest: u64 = us % 100;
                let tenths: u64 = if rest < 50 {
                    down
                } else if rest > 50 {
                    down + 1
                } else {
                    let error: i8 = nearest_float_error(us);
                    if error < 0 || error == 0 && down % 2 == 0 {
                        down
                    } else {
                        down + 1
                    }
                };
                push_decimal(&mut out, tenths / 10);
                out.append(".");
                push_decimal(&mut out, tenths % 10);
            } else {
                let down: u64 = us / 1000;
                let rest: u64 = us % 1000;
                let whole: u64 = if rest < 500 || rest == 500 && down % 2 == 0 {
                    down
                } else {
                    down + 1
                };
                push_decimal(&mut out, whole);
            }
            out.append(" ms");
        },
    }
    assert(out@ =~= latency_text(*latency));
    out
}

/// The shown latency is within half of its last digit of the measured one.
pub proof fn law_shown_latency_is_close(us: nat)
    ensures
        -50 <= 100 * tenths_of_ms(us) - us <= 50,
        -500 <= 1000 * whole_ms(us) - us <= 500,
{
}

/// The commit hash of a peer's build as text: none where the peer sent none, or
/// where it is no text.
pub open spec fn commit_string(commit: Option<[u8; 8]>) -> Option<Seq<char>> {
    match commit {
        Some(bytes) if vstd::utf8::valid_utf8(bytes@) => Some(vstd::utf8::decode_utf8(bytes@)),
        _ => None,
    }
}

/// The commit hash of a peer's build as text.
pub fn peer_commit_to_string(commit: Option<[u8; 8]>) -> (text: Option<String>)
    ensures
        text_view(text) == commit_string(commit),
{
    match commit {
        Some(bytes) => {
            let copy = crate::bytes::copy_range(bytes.as_slice(), 0, 8);
            assert(copy@ =~= bytes@);
            match text_from_utf8(copy) {
                Ok(text) => {
                    proof {
                        vstd::utf8::encode_utf8_decode_utf8(text@);
                    }
                    Some(text)
                },
                Err(_) => None,
            }
        },
        None => None,
    }
}

/// What the user interface knows of a client.
#[derive(Debug)]
pub struct ClientData {
    pub handle: ClientHandle,
    pub hostname: Option<String>,
    pub port: u32,
    pub active: bool,
    pub position: String,
    pub resolving: bool,
    pub ips: Vec<String>,
    pub peer_commit: Option<String>,
    pub clipboard_send: bool,
    pub addresses: Vec<AddrEntry>,
    pub mode: ConnectionMode,
    /// The address that is locked on the present network.
    pub active_lock: Option<String>,
}

/// What a [`ClientData`] says.
#[verifier::ext_equal]
pub struct DataView {
    pub handle: ClientHandle,
    pub hostname: Option<Seq<char>>,
    pub port: u32,
    pub active: bool,
    pub position: Seq<char>,
    pub resolving: bool,
    pub ips: Seq<Seq<char>>,
    pub peer_commit: Option<Seq<char>>,
    pub clipboard_send: bool,
    pub addresses: Seq<EntryView>,
    pub mode: ConnectionMode,
    pub active_lock: Option<Seq<char>>,
}

pub open spec fn entry_views(entries: Seq<AddrEntry>) -> Seq<EntryView> {
    entries.map_values(|e: AddrEntry| e@)
}

impl View for ClientData {
    type V = DataView;

    open spec fn view(&self) -> DataView {
        DataView {
            handle: self.handle,
            hostname: text_view(self.hostname),
            port: self.port,
            active: self.active,
            position: self.position@,
            resolving: self.resolving,
            ips: texts(self.ips@),
            peer_commit: text_view(self.peer_commit),
            clipboard_send: self.clipboard_send,
            addresses: entry_views(self.addresses@),
            mode: self.mode,
            active_lock: text_view(self.active_lock),
        }
    }
}

fn copy_entries(list: &Vec<AddrEntry>) -> (copy: Vec<AddrEntry>)
    ensures
        entry_views(copy@) == entry_views(list@),
{
    let mut copy: Vec<AddrEntry> = Vec::new();
    let mut i: usize = 0;
    while i < list.len()
        invariant
            i <= list@.len(),
            copy@.len() == i,
            forall|k: int| 0 <= k < i ==> (#[trigger] copy@[k])@ == list@[k]@,
        decreases list@.len() - i,
    {
        copy.push(list[i].clone());
        i += 1;
    }
    assert(entry_views(copy@) =~= entry_views(list@));
    copy
}

impl Clone for ClientData {
    fn clone(&self) -> (data: Self)
        ensures
            data@ == self@,
    {
        ClientData {
            handle: self.handle,
            hostname: copy_text(&self.hostname),
            port: self.port,
            active: self.active,
            position: self.position.clone(),
            resolving: self.resolving,
            ips: copy_texts(&self.ips),
            peer_commit: copy_text(&self.peer_commit),
            clipboard_send: self.clipboard_send,
            addresses: copy_entries(&self.addresses),
            mode: self.mode,
            active_lock: copy_text(&self.active_lock),
        }
    }
}

/// A client in the user interface.
#[derive(Debug)]
pub struct ClientObject {
    data: ClientData,
}

impl View for ClientObject {
    type V = DataView;

    closed spec fn view(&self) -> DataView {
        self.data@
    }
}

/// `data` is what the user interface shows of a client with the given
/// configuration and state. The order of the candidate addresses in `ips` is
/// open; `addresses` has them in the order of their texts.
pub open spec fn shows(
    data: DataView,
    handle: ClientHandle,
    config: ConfigView,
    state: StateView,
) -> bool {
    &&& data.handle == handle
    &&& data.hostname == config.hostname
    &&& data.port == config.port
    &&& data.active == state.active
    &&& data.position == config.pos.text()
    &&& data.resolving == state.resolving
    &&& exists|ips: Seq<IpAddr>| #[trigger] all_once(state, ips) && data.ips == ip_texts(ips)
    &&& data.peer_commit == commit_string(state.peer_commit)
    &&& data.clipboard_send == config.clipboard_send
    &&& exists|ips: Seq<IpAddr>| #[trigger]
        all_once(state, ips) && sorted_by_text(ips) && data.addresses == entry_list(state, ips)
    &&& data.mode == config.mode
    &&& data.active_lock == (match state.active_lock {
        Some(ip) => Some(ip_text(ip)),
        None => None,
    })
}

/// `ips` holds every candidate address once.
pub open spec fn all_once(state: StateView, ips: Seq<IpAddr>) -> bool {
    ips.no_duplicates() && ips.to_set() == state.ips
}

pub open spec fn ip_texts(ips: Seq<IpAddr>) -> Seq<Seq<char>> {
    ips.map_values(|ip: IpAddr| ip_text(ip))
}

pub open spec fn entry_list(state: StateView, ips: Seq<IpAddr>) -> Seq<EntryView> {
    ips.map_values(|ip: IpAddr| entry_of(state, ip))
}

/// The client with other candidate addresses.
pub open spec fn with_addresses(data: DataView, addresses: Seq<EntryView>) -> DataView {
    DataView { addresses, ..data }
}

/// The client with another base mode.
pub open spec fn with_shown_mode(data: DataView, mode: ConnectionMode) -> DataView {
    DataView { mode, ..data }
}

/// The client with another lock.
pub open spec fn with_shown_lock(data: DataView, active_lock: Option<Seq<char>>) -> DataView {
    DataView { active_lock, ..data }
}

impl ClientObject {
    /// A client as the user interface shows it.
    pub fn new(handle: ClientHandle, client: ClientConfig, state: ClientState) -> (object: Self)
        ensures
            shows(object@, handle, client@, state@),
    {
        let list = state.ips.to_list();
        let mut ips: Vec<String> = Vec::new();
        let mut i: usize = 0;
        while i < list.len()
            invariant
                i <= list@.len(),
                ips@.len() == i,
                forall|k: int| 0 <= k < i ==> (#[trigger] ips@[k])@ == ip_text(list@[k]),
            decreases list@.len() - i,
        {
            ips.push(list[i].to_text());
            i += 1;
        }
        let addresses = address_entries(&state);
        let active_lock: Option<String> = match state.active_lock {
            Some(ip) => Some(ip.to_text()),
            None => None,
        };
        let object = ClientObject {
            data: ClientData {
                handle,
                hostname: copy_text(&client.hostname),
                port: client.port as u32,
                active: state.active,
                position: client.pos.name().to_owned(),
                resolving: state.resolving,
                ips,
                peer_commit: peer_commit_to_string(state.peer_commit),
                clipboard_send: client.clipboard_send,
                addresses,
                mode: client.mode,
                active_lock,
            },
        };
        proof {
            assert(all_once(state@, list@));
            assert(texts(ips@) =~= ip_texts(list@));
            let order = choose|order: Seq<IpAddr>|
                order.no_duplicates() && order.to_set() == state@.ips && sorted_by_text(order)
                    && #[trigger] entries_of(state@, order, addresses@);
            assert(all_once(state@, order));
            assert(entry_views(addresses@) =~= entry_list(state@, order));
        }
        object
    }

    /// What the user interface knows of the client.
    pub fn get_data(&self) -> (data: ClientData)
        ensures
            data@ == self@,
    {
        self.data.clone()
    }

    /// Replaces the candidate addresses.
    pub fn set_addresses(&mut self, addresses: Vec<AddrEntry>)
        ensures
            final(self)@ == with_addresses(old(self)@, entry_views(addresses@)),
    {
        self.data.addresses = addresses;
    }

    /// The candidate addresses.
    pub fn addresses(&self) -> (addresses: Vec<AddrEntry>)
        ensures
            entry_views(addresses@) == self@.addresses,
    {
        copy_entries(&self.data.addresses)
    }

    /// Sets the base mode.
    pub fn set_mode(&mut self, mode: ConnectionMode)
        ensures
            final(self)@ == with_shown_mode(old(self)@, mode),
    {
        self.data.mode = mode;
    }

    /// The base mode.
    pub fn mode(&self) -> (mode: ConnectionMode)
        ensures
            mode == self@.mode,
    {
        self.data.mode
    }

    /// Sets the address that is locked on the present network.
    pub fn set_active_lock(&mut self, locked: Option<String>)
        ensures
            final(self)@ == with_shown_lock(old(self)@, text_view(locked)),
    {
        self.data.active_lock = locked;
    }

    /// The address that is locked on the present network.
    pub fn active_lock(&self) -> (locked: Option<String>)
        ensures
            text_view(locked) == self@.active_lock,
    {
        copy_text(&self.data.active_lock)
    }
}

/// The user sees a client as it is: its settings, its commit, its lock, and
/// every candidate address once, in the order of the texts.
pub proof fn law_clients_are_shown_as_they_are(
    data: DataView,
    handle: ClientHandle,
    config: ConfigView,
    state: StateView,
    ip: IpAddr,
)
    requires
        shows(data, handle, config, state),
    ensures
        data.handle == handle,
        data.hostname == config.hostname,
        data.port == config.port,
        data.active == state.active,
        data.resolving == state.resolving,
        data.clipboard_send == config.clipboard_send,
        data.mode == config.mode,
        data.position == (match config.pos {
            crate::proto::Position::Left => "left"@,
            crate::proto::Position::Right => "right"@,
            crate::proto::Position::Top => "top"@,
            crate::proto::Position::Bottom => "bottom"@,
        }),
        data.active_lock is Some <==> state.active_lock is Some,
        state.active_lock == Some(ip) ==> data.active_lock == Some(ip_text(ip)),
        state.ips.contains(ip) ==> data.ips.contains(ip_text(ip)),
        data.ips.contains(ip_text(ip)) ==> state.ips.contains(ip),
        state.ips.contains(ip) <==> exists|i: int|
            0 <= i < data.addresses.len() && (#[trigger] data.addresses[i]).ip == ip_text(ip),
        forall|i: int|
            0 <= i < data.addresses.len() && (#[trigger] data.addresses[i]).ip == ip_text(ip)
                ==> tells_of(data.addresses[i], state, ip),
{
    let listed = choose|ips: Seq<IpAddr>| #[trigger]
        all_once(state, ips) && data.ips == ip_texts(ips);
    let order = choose|ips: Seq<IpAddr>| #[trigger]
        all_once(state, ips) && sorted_by_text(ips) && data.addresses == entry_list(state, ips);
    assert(listed.to_set().contains(ip) <==> state.ips.contains(ip));
    assert(order.to_set().contains(ip) <==> state.ips.contains(ip));
    if state.ips.contains(ip) {
        let k = choose|k: int| 0 <= k < listed.len() && listed[k] == ip;
        assert(data.ips[k] == ip_text(ip));
        let i = choose|i: int| 0 <= i < order.len() && order[i] == ip;
        assert(data.addresses[i] == entry_of(state, ip));
        assert(data.addresses[i].ip == ip_text(ip));
    }
    if data.ips.contains(ip_text(ip)) {
        let k = choose|k: int| 0 <= k < data.ips.len() && data.ips[k] == ip_text(ip);
        assert(data.ips[k] == ip_text(listed[k]));
        law_texts_tell_addresses_apart(listed[k], ip);
        assert(listed.contains(ip));
    }
    assert forall|i: int|
        0 <= i < data.addresses.len() && (#[trigger] data.addresses[i]).ip == ip_text(
            ip,
        ) implies tells_of(data.addresses[i], state, ip) && state.ips.contains(ip) by {
        assert(data.addresses[i] == entry_of(state, order[i]));
        law_texts_tell_addresses_apart(order[i], ip);
        assert(order.contains(ip));
    }
}

/// The entry tells what is known of the address: whether it was probed, with
/// what result, whether the connection runs there, and on what interface.
pub open spec fn tells_of(entry: EntryView, state: StateView, ip: IpAddr) -> bool {
    &&& entry.latency is Unknown <==> !state.latencies.contains_key(ip)
    &&& entry.latency is Unmeasured <==> state.latencies.contains_key(ip) && state.latencies[ip]
        is None
    &&& entry.latency matches LatencyState::Rtt(us) ==> state.latencies.contains_key(ip)
        && state.latencies[ip] == Some(us)
    &&& entry.active <==> state.active_addr is Some && state.active_addr->0.ip == ip
    &&& match entry.kind {
        Some(kind) => state.interfaces.contains_key(ip) && state.interfaces[ip] == kind,
        None => !state.interfaces.contains_key(ip),
    }
}

/// A measured latency is shown in milliseconds: below ten to a tenth, and from
/// ten on as a whole number, each within half of its last digit. Where nothing
/// was measured a sign stands for that.
pub proof fn law_latencies_are_shown_in_ms(us: u32)
    ensures
        us < 10_000 ==> exists|t: nat| #[trigger]
            shown_tenths(t) == latency_text(LatencyState::Rtt(us)) && 100 * t <= us + 50 && us
                <= 100 * t + 50,
        us >= 10_000 ==> exists|n: nat|
            #![trigger decimal(n)]
            latency_text(LatencyState::Rtt(us)) == decimal(n) + " ms"@ && 1000 * n <= us + 500
                && us <= 1000 * n + 500,
        latency_text(LatencyState::Unknown) == "…"@,
        latency_text(LatencyState::Unmeasured) == "—"@,
{
    law_shown_latency_is_close(us as nat);
    if us < 10_000 {
        assert(shown_tenths(tenths_of_ms(us as nat)) == latency_text(LatencyState::Rtt(us)));
    } else {
        let n = whole_ms(us as nat);
        assert(latency_text(LatencyState::Rtt(us)) == decimal(n) + " ms"@);
    }
}

/// A number of tenths of a millisecond as it is shown.
pub open spec fn shown_tenths(tenths: nat) -> Seq<char> {
    decimal(tenths / 10) + "."@ + decimal(tenths % 10) + " ms"@
}

/// Interfaces are called by their kinds, and a commit is shown as the text that
/// it is.
pub proof fn law_kinds_and_commits_have_names(commit: [u8; 8])
    ensures
        kind_label(Some(IfaceKind::Wired)) == Some("Wired"@),
        kind_label(Some(IfaceKind::WiFi)) == Some("Wi-Fi"@),
        kind_label(Some(IfaceKind::Other)) == Some("Other"@),
        kind_label(None) is None,
        commit_string(None) is None,
        commit_string(Some(commit)) matches Some(text) ==> vstd::utf8::encode_utf8(text)
            == commit@,
        vstd::utf8::valid_utf8(commit@) ==> commit_string(Some(commit)) is Some,
{
    if vstd::utf8::valid_utf8(commit@) {
        vstd::utf8::decode_utf8_encode_utf8(commit@);
    }
}

/// What is shown of a client changes by what is set, and by nothing else.
pub proof fn law_shown_settings_are_kept(
    data: DataView,
    addresses: Seq<EntryView>,
    mode: ConnectionMode,
    lock: Option<Seq<char>>,
)
    ensures
        with_addresses(data, addresses).addresses == addresses,
        with_shown_mode(data, mode).mode == mode,
        with_shown_lock(data, lock).active_lock == lock,
        with_addresses(with_addresses(data, addresses), data.addresses) == data,
        with_shown_mode(with_shown_mode(data, mode), data.mode) == data,
        with_shown_lock(with_shown_lock(data, lock), data.active_lock) == data,
{
}

} // verus!
