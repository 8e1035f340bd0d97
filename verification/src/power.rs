//! What the messages of the system about its power mean to the listener.
use vstd::prelude::*;

verus! {

/// The system asks whether it may sleep.
pub const CAN_SYSTEM_SLEEP: u32 = 0xe000_0270;

/// The system is about to sleep.
pub const SYSTEM_WILL_SLEEP: u32 = 0xe000_0280;

/// The system has woken up.
pub const SYSTEM_HAS_POWERED_ON: u32 = 0xe000_0300;

/// What a message calls for.
#[derive(Debug, PartialEq, Eq, Clone, Copy, Structural)]
pub enum PowerAction {
    /// Agree at once, so that the system does not wait for an answer.
    AllowSleep,
    /// Drop all connections: the peers may have dropped them meanwhile.
    SignalWake,
    Ignore,
}

/// What a message of the system calls for.
pub open spec fn answer_to(message: u32) -> PowerAction {
    if message == CAN_SYSTEM_SLEEP || message == SYSTEM_WILL_SLEEP {
        PowerAction::AllowSleep
    } else if message == SYSTEM_HAS_POWERED_ON {
        PowerAction::SignalWake
    } else {
        PowerAction::Ignore
    }
}

/// What a message of the system calls for.
pub fn power_action(message: u32) -> (action: PowerAction)
    ensures
        action == answer_to(message),
{
    if message == CAN_SYSTEM_SLEEP || message == SYSTEM_WILL_SLEEP {
        PowerAction::AllowSleep
    } else if message == SYSTEM_HAS_POWERED_ON {
        PowerAction::SignalWake
    } else {
        PowerAction::Ignore
    }
}

/// Sleep is never held up, connections are dropped exactly when the system has
/// woken up, and every other message is left alone.
pub proof fn law_wake_ups_drop_connections(message: u32)
    ensures
        answer_to(message) is AllowSleep <==> message == 0xe000_0270 || message == 0xe000_0280,
        answer_to(message) is SignalWake <==> message == 0xe000_0300,
        answer_to(message) is Ignore <==> message != 0xe000_0270 && message != 0xe000_0280
            && message != 0xe000_0300,
{
}

} // verus!
