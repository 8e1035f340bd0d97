//! Keeps track of which clients are being dialled.
use vstd::prelude::*;
use std::collections::HashSet;
use crate::addr::{AddrSet, IpAddr, SocketAddr};
use crate::client::{
    changed, lookup, with_active_addr, ClientHandle, ClientManager, ClientView,
};
use crate::connect::{dials, plan_dial, without_address, ConnectionError, DialPlan};
use crate::retry::{
    after_asking, after_failure, known_of, may_attempt, RetryGate, RetryView, SignatureView,
    MAX_RETRY_BACKOFF_MS,
};

verus! {

broadcast use vstd::std_specs::hash::group_hash_axioms;

/// Which clients are being dialled, and when the others may be.
#[derive(Debug)]
pub struct Dialer {
    connecting: HashSet<ClientHandle>,
    retry: RetryGate,
}

/// What a [`Dialer`] knows.
#[verifier::ext_equal]
pub struct DialerView {
    pub connecting: Set<ClientHandle>,
    pub retry: Map<ClientHandle, RetryView>,
}

impl View for Dialer {
    type V = DialerView;

    closed spec fn view(&self) -> DialerView {
        DialerView { connecting: self.connecting@, retry: self.retry@ }
    }
}

/// What there is to dial in order to reach a client.
pub open spec fn signature_now(
    clients: Map<usize, ClientView>,
    handle: ClientHandle,
    primary: Option<IpAddr>,
) -> SignatureView {
    SignatureView {
        ips: match lookup(clients, handle) {
            Some(client) => client.state.ips,
            None => Set::empty(),
        },
        primary,
    }
}

/// A connection to a client is wanted: whether the client is to be dialled, and
/// what the dialer knows then.
pub open spec fn requested(
    dialer: DialerView,
    handle: ClientHandle,
    signature: SignatureView,
    now_ms: u64,
) -> (bool, DialerView) {
    let known = known_of(dialer.retry, handle);
    let dial = !dialer.connecting.contains(handle) && may_attempt(known, signature, now_ms);
    (
        dial,
        DialerView {
            connecting: if dial {
                dialer.connecting.insert(handle)
            } else {
                dialer.connecting
            },
            retry: match known {
                Some(state) if !dialer.connecting.contains(handle) => dialer.retry.insert(
                    handle,
                    after_asking(state, signature, now_ms),
                ),
                _ => dialer.retry,
            },
        },
    )
}

/// A client was reached.
pub open spec fn with_success(dialer: DialerView, handle: ClientHandle) -> DialerView {
    DialerView {
        connecting: dialer.connecting.remove(handle),
        retry: dialer.retry.remove(handle),
    }
}

/// A failure has been noted, and the client is no longer being dialled.
pub open spec fn with_failure(
    dialer: DialerView,
    handle: ClientHandle,
    signature: SignatureView,
    now_ms: u64,
) -> DialerView {
    DialerView {
        connecting: dialer.connecting.remove(handle),
        retry: dialer.retry.insert(
            handle,
            after_failure(known_of(dialer.retry, handle), signature, now_ms),
        ),
    }
}

/// `plan` and `after` are how a client is dialled, or why it is not.
pub open spec fn begins(
    before: DialerView,
    clients: Map<usize, ClientView>,
    handle: ClientHandle,
    primary: Option<IpAddr>,
    now_ms: u64,
    plan: Result<DialPlan, ConnectionError>,
    after: DialerView,
) -> bool {
    match plan {
        Ok(p) => {
            &&& lookup(clients, handle) matches Some(client) && dials(client, primary, p)
            &&& p.addrs@.len() > 0 || p.preferred is Some
            &&& after == before
        },
        Err(e) => {
            &&& e == ConnectionError::NotConnected
            &&& match lookup(clients, handle) {
                Some(client) => {
                    &&& exists|p: DialPlan| #[trigger]
                        dials(client, primary, p) && p.addrs@.len() == 0 && p.preferred is None
                    &&& after == with_failure(
                        before,
                        handle,
                        signature_now(clients, handle, primary),
                        now_ms,
                    )
                },
                None => after == (DialerView {
                    connecting: before.connecting.remove(handle),
                    ..before
                }),
            }
        },
    }
}

impl Dialer {
    /// Every pause is in its bounds.
    pub closed spec fn wf(self) -> bool {
        self.retry.wf()
    }

    /// No client is being dialled, and none has failed.
    pub fn new() -> (dialer: Dialer)
        ensures
            dialer.wf(),
            dialer@ == (DialerView { connecting: Set::empty(), retry: Map::empty() }),
    {
        Dialer { connecting: HashSet::new(), retry: RetryGate::new() }
    }

    fn candidates(clients: &ClientManager, handle: ClientHandle) -> (ips: AddrSet)
        ensures
            ips@ == (match lookup(clients@, handle) {
                Some(client) => client.state.ips,
                None => Set::<IpAddr>::empty(),
            }),
    {
        match clients.get_ips(handle) {
            Some(ips) => ips,
            None => AddrSet::new(),
        }
    }

    /// A connection to a client is wanted. Returns whether it is to be dialled
    /// now: not while it is being dialled, and not while the last failure is
    /// too recent.
    pub fn request_connection(
        &mut self,
        clients: &ClientManager,
        handle: ClientHandle,
        primary: Option<IpAddr>,
        now_ms: u64,
    ) -> (dial: bool)
        requires
            old(self).wf(),
        ensures
            final(self).wf(),
            (dial, final(self)@) == requested(
                old(self)@,
                handle,
                signature_now(clients@, handle, primary),
                now_ms,
            ),
    {
        if self.connecting.contains(&handle) {
            return false;
        }
        let ips = Self::candidates(clients, handle);
        let dial: bool = self.retry.should_attempt(handle, &ips, primary, now_ms);
        if dial {
            self.connecting.insert(handle);
        }
        dial
    }

    /// A client that is to be dialled: what is dialled, or why nothing is.
    pub fn begin(
        &mut self,
        clients: &ClientManager,
        handle: ClientHandle,
        primary: Option<IpAddr>,
        now_ms: u64,
    ) -> (plan: Result<DialPlan, ConnectionError>)
        requires
            old(self).wf(),
            now_ms <= u64::MAX - MAX_RETRY_BACKOFF_MS,
        ensures
            final(self).wf(),
            begins(old(self)@, clients@, handle, primary, now_ms, plan, final(self)@),
    {
        match plan_dial(clients, handle, primary) {
            Some(plan) => {
                if plan.is_empty() {
                    let ips = Self::candidates(clients, handle);
                    self.failed(handle, &ips, primary, now_ms);
                    Err(ConnectionError::NotConnected)
                } else {
                    Ok(plan)
                }
            },
            None => {
                self.connecting.remove(&handle);
                Err(ConnectionError::NotConnected)
            },
        }
    }

    /// The client could not be reached with what there was to dial.
    pub fn failed(
        &mut self,
        handle: ClientHandle,
        ips: &AddrSet,
        primary: Option<IpAddr>,
        now_ms: u64,
    )
        requires
            old(self).wf(),
            now_ms <= u64::MAX - MAX_RETRY_BACKOFF_MS,
        ensures
            final(self).wf(),
            final(self)@ == with_failure(
                old(self)@,
                handle,
                (SignatureView { ips: ips@, primary }),
                now_ms,
            ),
    {
        self.retry.record_retry_failure(handle, ips, primary, now_ms);
        self.connecting.remove(&handle);
    }

    /// The client was reached at `addr`.
    pub fn connected(&mut self, clients: &mut ClientManager, handle: ClientHandle, addr: SocketAddr)
        requires
            old(self).wf(),
        ensures
            final(clients).next_key() == old(clients).next_key(),
            final(self).wf(),
            final(self)@ == with_success(old(self)@, handle),
            final(clients)@ == changed(
                old(clients)@,
                handle,
                (|c: ClientView| with_active_addr(c, Some(addr))),
            ),
    {
        clients.set_active_addr(handle, Some(addr));
        self.connecting.remove(&handle);
        self.retry.clear(handle);
    }

    /// Drops the connection of a client, so that it is dialled anew. Returns
    /// the address of the connection to be closed.
    pub fn reset_handle(&mut self, clients: &mut ClientManager, handle: ClientHandle) -> (closed:
        Option<SocketAddr>)
        requires
            old(self).wf(),
        ensures
            final(clients).next_key() == old(clients).next_key(),
            final(self).wf(),
            final(self)@ == (DialerView {
                connecting: old(self)@.connecting,
                retry: old(self)@.retry.remove(handle),
            }),
            closed == (match lookup(old(clients)@, handle) {
                Some(client) => client.state.active_addr,
                None => None,
            }),
            final(clients)@ == changed(
                old(clients)@,
                handle,
                (|c: ClientView| without_address(c)),
            ),
    {
        crate::connect::reset_handle(clients, &mut self.retry, handle)
    }
}

/// A client that is being dialled is not dialled again, whatever there is to
/// dial by then, until it was reached or could not be: then it may be.
pub proof fn law_one_dial_at_a_time(
    dialer: DialerView,
    handle: ClientHandle,
    signature: SignatureView,
    later: SignatureView,
    now_ms: u64,
    later_ms: u64,
)
    requires
        requested(dialer, handle, signature, now_ms).0,
    ensures
        ({
            let dialling = requested(dialer, handle, signature, now_ms).1;
            &&& requested(dialling, handle, later, later_ms) == (false, dialling)
            &&& requested(with_success(dialling, handle), handle, later, later_ms).0
            &&& requested(with_failure(dialling, handle, signature, now_ms), handle, later, later_ms).0
                <==> may_attempt(
                Some(after_failure(known_of(dialling.retry, handle), signature, now_ms)),
                later,
                later_ms,
            )
        }),
{
}

/// What becomes of one client's dial leaves the others alone.
pub proof fn law_dials_are_independent(
    dialer: DialerView,
    handle: ClientHandle,
    other: ClientHandle,
    signature: SignatureView,
    now_ms: u64,
)
    requires
        other != handle,
    ensures
        forall|after: DialerView|
            after == requested(dialer, handle, signature, now_ms).1 || after == with_success(
                dialer,
                handle,
            ) || after == with_failure(dialer, handle, signature, now_ms) ==> (
            #[trigger] after.connecting.contains(other) <==> dialer.connecting.contains(other))
                && known_of(after.retry, other) == known_of(dialer.retry, other),
{
}

/// A client is dialled when a connection to it is wanted, unless it is being
/// dialled already, or failed too recently with the same to dial. It counts as
/// being dialled then.
pub proof fn law_wanted_clients_are_dialled(
    dialer: DialerView,
    handle: ClientHandle,
    signature: SignatureView,
    now_ms: u64,
)
    ensures
        ({
            let (dial, after) = requested(dialer, handle, signature, now_ms);
            &&& dial <==> !dialer.connecting.contains(handle) && (!dialer.retry.contains_key(handle)
                || dialer.retry[handle].signature != signature
                || dialer.retry[handle].next_attempt_at_ms <= now_ms)
            &&& after.connecting.contains(handle) <==> dialer.connecting.contains(handle) || dial
        }),
{
}

/// A client that was reached is no longer being dialled and has no failure
/// against it. One that was not is no longer being dialled either, and has to
/// wait: a second after its first failure.
pub proof fn law_dials_end(
    dialer: DialerView,
    handle: ClientHandle,
    signature: SignatureView,
    now_ms: u64,
)
    requires
        now_ms <= u64::MAX - 30_000,
    ensures
        ({
            let reached = with_success(dialer, handle);
            let missed = with_failure(dialer, handle, signature, now_ms);
            &&& !reached.connecting.contains(handle)
            &&& !reached.retry.contains_key(handle)
            &&& !missed.connecting.contains(handle)
            &&& missed.retry.contains_key(handle)
            &&& missed.retry[handle].signature == signature
            &&& !dialer.retry.contains_key(handle) ==> missed.retry[handle].next_attempt_at_ms
                == now_ms + 1_000
            &&& dialer.retry.contains_key(handle) && dialer.retry[handle].backoff_ms <= 30_000
                ==> missed.retry[handle].next_attempt_at_ms == now_ms
                + dialer.retry[handle].backoff_ms
        }),
{
}

/// There is something else to dial exactly where the candidates are others, or
/// the announced address is another one.
pub proof fn law_news_are_what_there_is_to_dial(
    clients: Map<usize, ClientView>,
    later: Map<usize, ClientView>,
    handle: ClientHandle,
    primary: Option<IpAddr>,
    later_primary: Option<IpAddr>,
)
    requires
        clients.contains_key(handle as usize),
        later.contains_key(handle as usize),
    ensures
        signature_now(clients, handle, primary) == signature_now(later, handle, later_primary)
            <==> clients[handle as usize].state.ips == later[handle as usize].state.ips && primary
            == later_primary,
{
}

/// A client with anything to dial is dialled, be it a lock or a candidate, and
/// counts as being dialled meanwhile; one with nothing to dial is not, and has
/// failed. A client that there is not is no longer being dialled.
pub proof fn law_clients_with_addresses_are_dialled(
    before: DialerView,
    clients: Map<usize, ClientView>,
    handle: ClientHandle,
    primary: Option<IpAddr>,
    now_ms: u64,
    plan: Result<DialPlan, ConnectionError>,
    after: DialerView,
    ip: IpAddr,
)
    requires
        begins(before, clients, handle, primary, now_ms, plan, after),
    ensures
        clients.contains_key(handle as usize) && (clients[handle as usize].state.ips.contains(ip)
            || clients[handle as usize].state.active_lock is Some) ==> plan is Ok && after
            == before,
        !clients.contains_key(handle as usize) ==> plan is Err && !after.connecting.contains(handle)
            && after.retry == before.retry,
        plan is Err ==> !after.connecting.contains(handle),
        clients.contains_key(handle as usize) && plan is Err ==> after.retry.contains_key(handle),
        plan matches Ok(p) ==> dials(clients[handle as usize], primary, p),
{
    if clients.contains_key(handle as usize) && plan is Err {
        let client = clients[handle as usize];
        let p = choose|p: DialPlan| #[trigger]
            dials(client, primary, p) && p.addrs@.len() == 0 && p.preferred is None;
        if client.state.ips.contains(ip) && client.state.active_lock is None {
            crate::connect::law_all_candidates_are_dialled(client, primary, p, ip, 0, 0);
        }
    }
}

} // verus!
