//! One preferences window per user: a second launch raises the window of the
//! first and ends.
use vstd::prelude::*;
use vstd::string::StringExecFns;

verus! {

/// The name of the lock socket, next to that of the daemon.
pub const GUI_SOCKET_NAME: &'static str = "monitorhop-gui.sock";

/// The port that serves as lock where there are no such sockets.
pub const GUI_LOCK_PORT: u16 = 5253;

/// Why the lock was not taken. Errors of the system come as text.
#[derive(Debug)]
pub enum AcquireError {
    AlreadyRunning,
    SocketPath(String),
    Bind(String),
}

impl AcquireError {
    pub open spec fn text(self) -> Seq<char> {
        match self {
            AcquireError::AlreadyRunning =>
                "another monitorhop preferences window is already running"@,
            AcquireError::SocketPath(e) => "could not determine the GUI lock path: "@ + e@,
            AcquireError::Bind(e) => "could not bind the GUI lock: "@ + e@,
        }
    }

    /// Describes the error.
    pub fn describe(&self) -> (text: String)
        ensures
            text@ == self.text(),
    {
        let mut out = String::new();
        match self {
            AcquireError::AlreadyRunning => out.append(
                "another monitorhop preferences window is already running",
            ),
            AcquireError::SocketPath(e) => {
                out.append("could not determine the GUI lock path: ");
                out.append(e.as_str());
            },
            AcquireError::Bind(e) => {
                out.append("could not bind the GUI lock: ");
                out.append(e.as_str());
            },
        }
        assert(out@ =~= self.text());
        out
    }
}

/// What was found where the lock socket belongs.
#[derive(Debug, PartialEq, Eq, Clone, Copy, Structural)]
pub enum LockProbe {
    /// No file.
    Absent,
    /// A socket that took a connection. The connection itself asks the other
    /// process to raise its window.
    Answered,
    /// A file that takes no connection: a crashed process left it.
    Stale,
}

/// What to do about the lock socket before binding it.
#[derive(Debug, PartialEq, Eq, Clone, Copy, Structural)]
pub enum LockStep {
    Bind,
    RemoveThenBind,
    /// Another window is there, and has been asked to show itself.
    AlreadyRunning,
}

/// What to do about the lock socket before binding it.
pub open spec fn lock_step(probe: LockProbe) -> LockStep {
    match probe {
        LockProbe::Absent => LockStep::Bind,
        LockProbe::Answered => LockStep::AlreadyRunning,
        LockProbe::Stale => LockStep::RemoveThenBind,
    }
}

/// What to do about the lock socket before binding it.
pub fn before_bind(probe: LockProbe) -> (step: LockStep)
    ensures
        step == lock_step(probe),
{
    match probe {
        LockProbe::Absent => LockStep::Bind,
        LockProbe::Answered => LockStep::AlreadyRunning,
        LockProbe::Stale => LockStep::RemoveThenBind,
    }
}

/// How binding the lock socket ended.
#[derive(Debug, PartialEq, Eq, Clone, Copy, Structural)]
pub enum BindOutcome {
    Bound,
    /// Another process holds the address.
    InUse,
    Failed,
}

/// What follows from the outcome of binding.
#[derive(Debug, PartialEq, Eq, Clone, Copy, Structural)]
pub enum LockResult {
    /// The lock is held: listen for other launches.
    Acquired,
    /// Another window was faster: connect to it once, so that it shows itself,
    /// and end.
    PingAndQuit,
    /// The lock cannot be had.
    BindError,
}

/// What follows from the outcome of binding.
pub open spec fn lock_result(outcome: BindOutcome) -> LockResult {
    match outcome {
        BindOutcome::Bound => LockResult::Acquired,
        BindOutcome::InUse => LockResult::PingAndQuit,
        BindOutcome::Failed => LockResult::BindError,
    }
}

/// What follows from the outcome of binding.
pub fn after_bind(outcome: BindOutcome) -> (result: LockResult)
    ensures
        result == lock_result(outcome),
{
    match outcome {
        BindOutcome::Bound => LockResult::Acquired,
        BindOutcome::InUse => LockResult::PingAndQuit,
        BindOutcome::Failed => LockResult::BindError,
    }
}

/// A second window never opens beside one that answers, what a crashed process
/// left behind is no obstacle, and the lock is held exactly where it was bound.
pub proof fn law_one_window_at_a_time(probe: LockProbe, outcome: BindOutcome)
    ensures
        lock_step(probe) is AlreadyRunning <==> probe is Answered,
        lock_step(probe) is RemoveThenBind <==> probe is Stale,
        lock_step(probe) is Bind <==> probe is Absent,
        lock_result(outcome) is Acquired <==> outcome is Bound,
        lock_result(outcome) is PingAndQuit <==> outcome is InUse,
        lock_result(outcome) is BindError <==> outcome is Failed,
{
}

} // verus!
