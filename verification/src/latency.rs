//! Latency of the candidate addresses: what a probe tells.
use vstd::prelude::*;
use crate::addr::{IpAddr, SocketAddr};
use crate::client::ClientHandle;

verus! {

/// How often every candidate is probed, in milliseconds.
pub const PROBE_INTERVAL_MS: u64 = 5_000;

/// How long a probe may take.
pub const PROBE_TIMEOUT_MS: u64 = 1_000;

/// The outcome of a probe of one address: the round trip in microseconds, or
/// none where the address did not answer.
#[derive(Debug, PartialEq, Eq, Clone, Copy, Structural)]
pub struct ProbeResult {
    pub handle: ClientHandle,
    pub ip: IpAddr,
    pub rtt_micros: Option<u32>,
}

/// How the attempt to connect ended.
#[derive(Debug, PartialEq, Eq, Clone, Copy, Structural)]
pub enum ProbeOutcome {
    Connected,
    Refused,
    Failed,
    TimedOut,
}

/// The microseconds, up to the largest number that is kept.
pub open spec fn kept_micros(micros: u128) -> u32 {
    if micros <= u32::MAX {
        micros as u32
    } else {
        u32::MAX
    }
}

/// The microseconds, up to the largest number that is kept.
pub fn elapsed_micros(micros: u128) -> (clamped: u32)
    ensures
        clamped == kept_micros(micros),
{
    if micros <= u32::MAX as u128 {
        micros as u32
    } else {
        u32::MAX
    }
}

/// What a probe that took `micros` microseconds measured.
pub open spec fn measured(outcome: ProbeOutcome, micros: u128) -> Option<u32> {
    match outcome {
        ProbeOutcome::Connected | ProbeOutcome::Refused => Some(kept_micros(micros)),
        ProbeOutcome::Failed | ProbeOutcome::TimedOut => None,
    }
}

/// The round trip that a probe measured in `micros` microseconds. A host that
/// refuses the connection has been reached like one that accepts it; any other
/// failure measures nothing.
pub fn probe_addr(outcome: ProbeOutcome, micros: u128) -> (rtt: Option<u32>)
    ensures
        rtt == measured(outcome, micros),
{
    match outcome {
        ProbeOutcome::Connected | ProbeOutcome::Refused => Some(elapsed_micros(micros)),
        ProbeOutcome::Failed | ProbeOutcome::TimedOut => None,
    }
}

/// Each candidate of each client with its port, one after the other.
pub open spec fn probe_list(targets: Seq<(ClientHandle, u16, Vec<IpAddr>)>) -> Seq<
    (ClientHandle, SocketAddr),
>
    decreases targets.len(),
{
    if targets.len() == 0 {
        seq![]
    } else {
        let last = targets.last();
        probe_list(targets.drop_last()) + last.2@.map_values(
            |ip: IpAddr|
                (last.0, SocketAddr { ip, port: last.1, flow_info: 0, scope_id: 0 }),
        )
    }
}

/// The probes of one round: one for each candidate of each client.
pub fn probes(targets: &Vec<(ClientHandle, u16, Vec<IpAddr>)>) -> (list: Vec<
    (ClientHandle, SocketAddr),
>)
    ensures
        list@ == probe_list(targets@),
{
    let mut list: Vec<(ClientHandle, SocketAddr)> = Vec::new();
    let mut i: usize = 0;
    while i < targets.len()
        invariant
            i <= targets@.len(),
            list@ == probe_list(targets@.take(i as int)),
        decreases targets@.len() - i,
    {
        let ghost before = list@;
        let (handle, port, ips) = &targets[i];
        let ghost mapped = ips@.map_values(
            |ip: IpAddr|
                (*handle, SocketAddr { ip, port: *port, flow_info: 0, scope_id: 0 }),
        );
        let mut j: usize = 0;
        assert(list@ =~= before + mapped.take(0));
        while j < ips.len()
            invariant
                j <= ips@.len(),
                mapped == ips@.map_values(
                    |ip: IpAddr|
                        (*handle, SocketAddr { ip, port: *port, flow_info: 0, scope_id: 0 }),
                ),
                list@ == before + mapped.take(j as int),
            decreases ips@.len() - j,
        {
            list.push((*handle, SocketAddr::new(ips[j], *port)));
            j += 1;
            assert(list@ =~= before + mapped.take(j as int));
        }
        proof {
            assert(mapped.take(j as int) =~= mapped);
            assert(targets@.take(i + 1).drop_last() =~= targets@.take(i as int));
            assert(targets@.take(i + 1).last() == targets@[i as int]);
            let last = targets@.take(i + 1).last();
            assert(last.2@.map_values(
                |ip: IpAddr|
                    (last.0, SocketAddr { ip, port: last.1, flow_info: 0, scope_id: 0 }),
            ) =~= mapped);
        }
        i += 1;
    }
    assert(targets@.take(i as int) =~= targets@);
    list
}

/// A probe measures an address that answered, be it by a refusal, and no other.
/// The time is kept as it was, and a longer time never counts as a shorter one.
pub proof fn law_answers_are_measured(outcome: ProbeOutcome, micros: u128, longer: u128)
    requires
        micros <= longer,
    ensures
        measured(outcome, micros) is Some <==> outcome is Connected || outcome is Refused,
        measured(outcome, micros) matches Some(us) ==> {
            &&& us <= micros
            &&& micros <= 0xffff_ffff ==> us == micros
            &&& micros > 0xffff_ffff ==> us == 0xffff_ffff
            &&& measured(outcome, longer) matches Some(later) && us <= later
        },
{
}

/// A round of probes reaches every candidate of every client at the client's
/// port, and nothing else.
pub proof fn law_every_target_is_probed(
    targets: Seq<(ClientHandle, u16, Vec<IpAddr>)>,
    handle: ClientHandle,
    addr: SocketAddr,
)
    ensures
        probe_list(targets).contains((handle, addr)) <==> exists|i: int|
            0 <= i < targets.len() && (#[trigger] targets[i]).0 == handle && targets[i].1
                == addr.port && targets[i].2@.contains(addr.ip) && addr.flow_info == 0
                && addr.scope_id == 0,
    decreases targets.len(),
{
    if targets.len() > 0 {
        let front = targets.drop_last();
        let last = targets.last();
        let before = probe_list(front);
        let more = last.2@.map_values(
            |ip: IpAddr| (last.0, SocketAddr { ip, port: last.1, flow_info: 0, scope_id: 0 }),
        );
        let all = probe_list(targets);
        law_every_target_is_probed(front, handle, addr);
        assert(all == before + more);
        assert(targets[targets.len() - 1] == last);
        if before.contains((handle, addr)) {
            let k = choose|k: int| 0 <= k < before.len() && before[k] == (handle, addr);
            assert(all[k] == (handle, addr));
            let i = choose|i: int|
                0 <= i < front.len() && (#[trigger] front[i]).0 == handle && front[i].1 == addr.port
                    && front[i].2@.contains(addr.ip) && addr.flow_info == 0 && addr.scope_id == 0;
            assert(targets[i] == front[i]);
        }
        if last.0 == handle && last.1 == addr.port && last.2@.contains(addr.ip) && addr.flow_info
            == 0 && addr.scope_id == 0 {
            let k = choose|k: int| 0 <= k < last.2@.len() && last.2@[k] == addr.ip;
            assert(more[k] == (handle, addr));
            assert(all[before.len() + k] == (handle, addr));
        }
        if all.contains((handle, addr)) {
            let k = choose|k: int| 0 <= k < all.len() && all[k] == (handle, addr);
            if k < before.len() {
                assert(before[k] == (handle, addr));
            } else {
                assert(more[k - before.len()] == (handle, addr));
                assert(last.2@[k - before.len()] == addr.ip);
            }
        }
        if exists|i: int|
            0 <= i < targets.len() && (#[trigger] targets[i]).0 == handle && targets[i].1
                == addr.port && targets[i].2@.contains(addr.ip) && addr.flow_info == 0
                && addr.scope_id == 0 {
            let i = choose|i: int|
                0 <= i < targets.len() && (#[trigger] targets[i]).0 == handle && targets[i].1
                    == addr.port && targets[i].2@.contains(addr.ip) && addr.flow_info == 0
                    && addr.scope_id == 0;
            if i < front.len() {
                assert(front[i] == targets[i]);
            }
        }
    }
}

/// Every candidate is probed every five seconds, and has a second to answer.
pub proof fn law_the_pace_of_probing()
    ensures
        PROBE_INTERVAL_MS == 5_000,
        PROBE_TIMEOUT_MS == 1_000,
{
}

} // verus!
