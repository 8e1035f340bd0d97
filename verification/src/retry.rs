//! When a client is dialled again after it could not be reached.
use vstd::prelude::*;
use std::collections::HashMap;
use crate::addr::{AddrSet, IpAddr};
use crate::client::ClientHandle;

verus! {

broadcast use vstd::std_specs::hash::group_hash_axioms;

/// The first pause between two attempts, in milliseconds.
pub const INITIAL_RETRY_BACKOFF_MS: u64 = 1_000;

/// The longest pause between two attempts.
pub const MAX_RETRY_BACKOFF_MS: u64 = 30_000;

/// What an attempt had to dial: the candidate addresses, and the address that
/// the peer announced as its first choice.
#[derive(Debug)]
pub struct Signature {
    pub ips: AddrSet,
    pub primary: Option<IpAddr>,
}

/// What a [`Signature`] says.
#[verifier::ext_equal]
pub struct SignatureView {
    pub ips: Set<IpAddr>,
    pub primary: Option<IpAddr>,
}

impl View for Signature {
    type V = SignatureView;

    open spec fn view(&self) -> SignatureView {
        SignatureView { ips: self.ips@, primary: self.primary }
    }
}

/// What there is to dial.
pub fn signature_of(ips: &AddrSet, primary: Option<IpAddr>) -> (signature: Signature)
    ensures
        signature@ == (SignatureView { ips: ips@, primary }),
{
    Signature { ips: ips.clone(), primary }
}

impl Signature {
    /// Whether both have the same to dial.
    pub fn same(&self, other: &Signature) -> (same: bool)
        ensures
            same == (self@ == other@),
    {
        self.primary == other.primary && self.ips.same_set(&other.ips)
    }
}

/// The failed attempts to reach a client.
#[derive(Debug)]
struct RetryState {
    next_attempt_at_ms: u64,
    backoff_ms: u64,
    signature: Signature,
}

/// What is known of the failed attempts to reach a client.
#[verifier::ext_equal]
pub struct RetryView {
    /// When the next attempt is due.
    pub next_attempt_at_ms: u64,
    /// The pause after the next failure.
    pub backoff_ms: u64,
    pub signature: SignatureView,
}

impl View for RetryState {
    type V = RetryView;

    closed spec fn view(&self) -> RetryView {
        RetryView {
            next_attempt_at_ms: self.next_attempt_at_ms,
            backoff_ms: self.backoff_ms,
            signature: self.signature@,
        }
    }
}

/// Keeps the attempts to reach absent clients apart.
#[derive(Debug)]
pub struct RetryGate {
    states: HashMap<ClientHandle, RetryState>,
}

impl View for RetryGate {
    type V = Map<ClientHandle, RetryView>;

    closed spec fn view(&self) -> Map<ClientHandle, RetryView> {
        self.states@.map_values(|s: RetryState| s@)
    }
}

/// Twice the pause, up to the longest one.
pub open spec fn doubled_backoff(backoff_ms: u64) -> u64 {
    if 2 * backoff_ms < MAX_RETRY_BACKOFF_MS {
        (2 * backoff_ms) as u64
    } else {
        MAX_RETRY_BACKOFF_MS
    }
}

/// What is known of a client's attempts after one more has failed.
pub open spec fn after_failure(
    known: Option<RetryView>,
    signature: SignatureView,
    now_ms: u64,
) -> RetryView {
    let pause = match known {
        Some(state) => state.backoff_ms,
        None => INITIAL_RETRY_BACKOFF_MS,
    };
    RetryView {
        next_attempt_at_ms: (now_ms + pause) as u64,
        backoff_ms: doubled_backoff(pause),
        signature,
    }
}

/// Whether an attempt may be made: the first one, one with something else to
/// dial, or one that is due.
pub open spec fn may_attempt(known: Option<RetryView>, signature: SignatureView, now_ms: u64) -> bool {
    match known {
        Some(state) => state.signature != signature || now_ms >= state.next_attempt_at_ms,
        None => true,
    }
}

/// What is known of a client's attempts once one has been asked for: with
/// something else to dial the pauses start over.
pub open spec fn after_asking(known: RetryView, signature: SignatureView, now_ms: u64) -> RetryView {
    if known.signature == signature {
        known
    } else {
        RetryView {
            next_attempt_at_ms: now_ms,
            backoff_ms: INITIAL_RETRY_BACKOFF_MS,
            signature,
        }
    }
}

/// What is known of the attempts to reach a client.
pub open spec fn known_of(gate: Map<ClientHandle, RetryView>, handle: ClientHandle) -> Option<
    RetryView,
> {
    if gate.contains_key(handle) {
        Some(gate[handle])
    } else {
        None
    }
}

impl RetryGate {
    /// Every pause is in its bounds.
    pub open spec fn wf(self) -> bool {
        forall|h: ClientHandle| #[trigger]
            self@.contains_key(h) ==> INITIAL_RETRY_BACKOFF_MS <= self@[h].backoff_ms
                <= MAX_RETRY_BACKOFF_MS
    }

    /// A gate that has seen no failure.
    pub fn new() -> (gate: RetryGate)
        ensures
            gate.wf(),
            gate@ == Map::<ClientHandle, RetryView>::empty(),
    {
        let gate = RetryGate { states: HashMap::new() };
        assert(gate@ =~= Map::<ClientHandle, RetryView>::empty());
        gate
    }

    /// Notes that a client could not be reached: the next attempt has to wait,
    /// and the pauses grow.
    pub fn record_retry_failure(
        &mut self,
        handle: ClientHandle,
        ips: &AddrSet,
        primary: Option<IpAddr>,
        now_ms: u64,
    )
        requires
            old(self).wf(),
            now_ms <= u64::MAX - MAX_RETRY_BACKOFF_MS,
        ensures
            final(self).wf(),
            final(self)@ == old(self)@.insert(
                handle,
                after_failure(
                    known_of(old(self)@, handle),
                    (SignatureView { ips: ips@, primary }),
                    now_ms,
                ),
            ),
    {
        let ghost before = self@;
        let pause: u64 = match self.states.get(&handle) {
            Some(state) => {
                assert(before.contains_key(handle));
                state.backoff_ms
            },
            None => INITIAL_RETRY_BACKOFF_MS,
        };
        let state = RetryState {
            next_attempt_at_ms: now_ms + pause,
            backoff_ms: if 2 * pause < MAX_RETRY_BACKOFF_MS {
                2 * pause
            } else {
                MAX_RETRY_BACKOFF_MS
            },
            signature: signature_of(ips, primary),
        };
        let ghost view = state@;
        self.states.insert(handle, state);
        assert(self@ =~= before.insert(handle, view));
    }

    /// Whether an attempt to reach the client may be made now.
    pub fn should_attempt(
        &mut self,
        handle: ClientHandle,
        ips: &AddrSet,
        primary: Option<IpAddr>,
        now_ms: u64,
    ) -> (attempt: bool)
        requires
            old(self).wf(),
        ensures
            final(self).wf(),
            attempt == may_attempt(
                known_of(old(self)@, handle),
                (SignatureView { ips: ips@, primary }),
                now_ms,
            ),
            final(self)@ == (match known_of(old(self)@, handle) {
                Some(state) => old(self)@.insert(
                    handle,
                    after_asking(state, (SignatureView { ips: ips@, primary }), now_ms),
                ),
                None => old(self)@,
            }),
    {
        let ghost before = self@;
        let signature = signature_of(ips, primary);
        let due: Option<bool> = match self.states.get(&handle) {
            None => {
                return true;
            },
            Some(state) => {
                assert(before.contains_key(handle) && before[handle] == state@);
                if state.signature.same(&signature) {
                    Some(now_ms >= state.next_attempt_at_ms)
                } else {
                    None
                }
            },
        };
        match due {
            Some(due) => {
                assert(before =~= before.insert(handle, before[handle]));
                due
            },
            None => {
                let state = RetryState {
                    next_attempt_at_ms: now_ms,
                    backoff_ms: INITIAL_RETRY_BACKOFF_MS,
                    signature,
                };
                let ghost view = state@;
                self.states.insert(handle, state);
                assert(self@ =~= before.insert(handle, view));
                true
            },
        }
    }

    /// Forgets the failures of a client: it was reached, or it is to be dialled
    /// anew.
    pub fn clear(&mut self, handle: ClientHandle)
        requires
            old(self).wf(),
        ensures
            final(self).wf(),
            final(self)@ == old(self)@.remove(handle),
    {
        let ghost before = self@;
        self.states.remove(&handle);
        assert(self@ =~= before.remove(handle));
    }
}

/// After a failure, no attempt is made with the same to dial until the pause is
/// over; then it is made.
pub proof fn law_failures_are_spaced(
    known: Option<RetryView>,
    signature: SignatureView,
    failed_at_ms: u64,
    now_ms: u64,
)
    requires
        failed_at_ms <= u64::MAX - MAX_RETRY_BACKOFF_MS,
        known matches Some(state) ==> INITIAL_RETRY_BACKOFF_MS <= state.backoff_ms
            <= MAX_RETRY_BACKOFF_MS,
    ensures
        ({
            let state = after_failure(known, signature, failed_at_ms);
            let pause = match known {
                Some(s) => s.backoff_ms,
                None => INITIAL_RETRY_BACKOFF_MS,
            };
            may_attempt(Some(state), signature, now_ms) <==> now_ms >= failed_at_ms + pause
        }),
{
}

/// With something else to dial, an attempt is made at once, and the pauses
/// start over.
pub proof fn law_news_open_the_gate(
    known: RetryView,
    signature: SignatureView,
    now_ms: u64,
)
    requires
        known.signature != signature,
        now_ms <= u64::MAX - MAX_RETRY_BACKOFF_MS,
    ensures
        may_attempt(Some(known), signature, now_ms),
        after_failure(
            Some(after_asking(known, signature, now_ms)),
            signature,
            now_ms,
        ).next_attempt_at_ms == now_ms + INITIAL_RETRY_BACKOFF_MS,
{
}

/// The pause after `failures` failures in a row with the same to dial.
pub open spec fn pause_after_failures(failures: nat) -> u64
    decreases failures,
{
    if failures == 0 {
        INITIAL_RETRY_BACKOFF_MS
    } else {
        doubled_backoff(pause_after_failures((failures - 1) as nat))
    }
}

/// The pauses double with every failure until they reach the longest one.
pub proof fn law_pauses_double(failures: nat)
    ensures
        INITIAL_RETRY_BACKOFF_MS <= pause_after_failures(failures) <= MAX_RETRY_BACKOFF_MS,
        failures < 5 ==> pause_after_failures(failures + 1) == 2 * pause_after_failures(failures)
            || pause_after_failures(failures + 1) == MAX_RETRY_BACKOFF_MS,
        failures >= 5 ==> pause_after_failures(failures) == MAX_RETRY_BACKOFF_MS,
    decreases failures,
{
    reveal_with_fuel(pause_after_failures, 7);
    if failures > 0 {
        law_pauses_double((failures - 1) as nat);
    }
}

/// The first failure keeps a client from being dialled for a second; every
/// further one for twice as long as the last, up to half a minute.
pub proof fn law_the_pauses_are_these(
    known: Option<RetryView>,
    signature: SignatureView,
    now_ms: u64,
    failures: nat,
)
    requires
        now_ms <= u64::MAX - 30_000,
        known matches Some(state) ==> 1_000 <= state.backoff_ms <= 30_000,
    ensures
        ({
            let state = after_failure(known, signature, now_ms);
            let pause = state.next_attempt_at_ms - now_ms;
            &&& state.signature == signature
            &&& known is None ==> pause == 1_000
            &&& known matches Some(s) ==> pause == s.backoff_ms
            &&& state.backoff_ms == (if pause <= 15_000 {
                pause * 2
            } else {
                30_000
            })
        }),
        pause_after_failures(0) == 1_000,
        pause_after_failures(1) == 2_000,
        pause_after_failures(2) == 4_000,
        pause_after_failures(3) == 8_000,
        pause_after_failures(4) == 16_000,
        pause_after_failures(5 + failures) == 30_000,
{
    reveal_with_fuel(pause_after_failures, 7);
    law_pauses_double(5 + failures);
}

/// A client may be dialled that has not failed, that has something else to dial
/// than when it failed, or whose pause is over; and no other may.
pub proof fn law_the_gate_opens_for_a_reason(
    known: Option<RetryView>,
    signature: SignatureView,
    now_ms: u64,
)
    ensures
        known is None ==> may_attempt(known, signature, now_ms),
        known matches Some(state) ==> {
            &&& may_attempt(known, signature, now_ms) <==> state.signature.ips != signature.ips
                || state.signature.primary != signature.primary || state.next_attempt_at_ms
                <= now_ms
            &&& state.signature == signature ==> after_asking(state, signature, now_ms) == state
            &&& state.signature != signature ==> {
                let fresh = after_asking(state, signature, now_ms);
                fresh.signature == signature && fresh.backoff_ms == 1_000
                    && fresh.next_attempt_at_ms <= now_ms
            }
        },
{
}

} // verus!
