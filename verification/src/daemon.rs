//! The life of the daemon that runs as a child of the user interface: when it
//! is started again, and how it is ended.
use vstd::prelude::*;

verus! {

/// How often the child is looked at, in milliseconds.
pub const POLL_MS: u64 = 200;

/// The shortest pause before a restart.
pub const MIN_BACKOFF_MS: u64 = 500;

/// The longest pause before a restart.
pub const MAX_BACKOFF_MS: u64 = 30_000;

/// A child that has run for this long was healthy.
pub const HEALTHY_MS: u64 = 10_000;

/// How long a child may take to end when it is asked to.
pub const TEARDOWN_MS: u64 = 3_000;

/// How often an ending child is looked at.
pub const TEARDOWN_POLL_MS: u64 = 50;

/// What a look at the child shows.
#[derive(Debug, PartialEq, Eq, Clone, Copy, Structural)]
pub enum ChildStatus {
    Running,
    /// It ended and reported success: it was meant to end.
    ExitedCleanly,
    /// It ended in any other way.
    ExitedAbnormally,
    /// It could not be looked at.
    Unknown,
}

/// What the supervisor does next.
#[derive(Debug, PartialEq, Eq, Clone, Copy, Structural)]
pub enum SupervisorAction {
    /// Look again after a pause.
    Sleep(u64),
    /// Restart the child after a pause, unless the program ends meanwhile.
    RestartAfter(u64),
    /// Leave the child alone for good.
    Stop,
}

/// Watches over the child.
#[derive(Debug, PartialEq, Eq, Clone, Copy, Structural)]
pub struct DaemonSupervisor {
    /// The pause before the next restart.
    pub backoff_ms: u64,
    /// When the child was last started.
    pub spawned_at_ms: u64,
}

/// Twice the pause, up to the longest one.
pub open spec fn doubled(backoff_ms: int) -> int {
    if 2 * backoff_ms < MAX_BACKOFF_MS {
        2 * backoff_ms
    } else {
        MAX_BACKOFF_MS as int
    }
}

impl DaemonSupervisor {
    /// The pause is in its bounds.
    pub open spec fn wf(self) -> bool {
        MIN_BACKOFF_MS <= self.backoff_ms <= MAX_BACKOFF_MS
    }

    /// The child has run for long enough to count as healthy.
    pub open spec fn was_healthy(self, now_ms: u64) -> bool {
        now_ms - self.spawned_at_ms >= HEALTHY_MS
    }

    /// The pause before a restart at the given time: a healthy child starts
    /// over with the shortest one.
    pub open spec fn pause(self, now_ms: u64) -> u64 {
        if self.was_healthy(now_ms) {
            MIN_BACKOFF_MS
        } else {
            self.backoff_ms
        }
    }

    /// What a look at the child leads to.
    pub open spec fn after_look(
        self,
        status: ChildStatus,
        shutting_down: bool,
        now_ms: u64,
    ) -> (DaemonSupervisor, SupervisorAction) {
        if shutting_down {
            (self, SupervisorAction::Stop)
        } else {
            match status {
                ChildStatus::Running | ChildStatus::Unknown => (
                    self,
                    SupervisorAction::Sleep(POLL_MS),
                ),
                ChildStatus::ExitedCleanly => (self, SupervisorAction::Stop),
                ChildStatus::ExitedAbnormally => (
                    DaemonSupervisor { backoff_ms: self.pause(now_ms), ..self },
                    SupervisorAction::RestartAfter(self.pause(now_ms)),
                ),
            }
        }
    }

    /// The watch after a restart, or after a failure to restart.
    pub open spec fn after_restart(self, started: bool, now_ms: u64) -> DaemonSupervisor {
        DaemonSupervisor {
            backoff_ms: doubled(self.backoff_ms as int) as u64,
            spawned_at_ms: if started {
                now_ms
            } else {
                self.spawned_at_ms
            },
        }
    }

    /// Watches over a child that was just started.
    pub fn new(now_ms: u64) -> (supervisor: DaemonSupervisor)
        ensures
            supervisor == (DaemonSupervisor {
                backoff_ms: MIN_BACKOFF_MS,
                spawned_at_ms: now_ms,
            }),
            supervisor.wf(),
    {
        DaemonSupervisor { backoff_ms: MIN_BACKOFF_MS, spawned_at_ms: now_ms }
    }

    /// What to do after a look at the child. Once the program ends, nothing is
    /// done any more; a child that ended as it was meant to is not started
    /// again.
    pub fn poll(&mut self, status: ChildStatus, shutting_down: bool, now_ms: u64) -> (action:
        SupervisorAction)
        requires
            old(self).wf(),
        ensures
            final(self).wf(),
            (*final(self), action) == old(self).after_look(status, shutting_down, now_ms),
    {
        if shutting_down {
            return SupervisorAction::Stop;
        }
        match status {
            ChildStatus::Running | ChildStatus::Unknown => SupervisorAction::Sleep(POLL_MS),
            ChildStatus::ExitedCleanly => SupervisorAction::Stop,
            ChildStatus::ExitedAbnormally => {
                if now_ms >= self.spawned_at_ms && now_ms - self.spawned_at_ms >= HEALTHY_MS {
                    self.backoff_ms = MIN_BACKOFF_MS;
                }
                SupervisorAction::RestartAfter(self.backoff_ms)
            },
        }
    }

    /// The child was started again, or that failed. Either way the next pause
    /// is twice as long.
    pub fn restarted(&mut self, started: bool, now_ms: u64)
        requires
            old(self).wf(),
        ensures
            final(self).wf(),
            *final(self) == old(self).after_restart(started, now_ms),
    {
        if started {
            self.spawned_at_ms = now_ms;
        }
        let twice: u64 = 2 * self.backoff_ms;
        self.backoff_ms = if twice < MAX_BACKOFF_MS {
            twice
        } else {
            MAX_BACKOFF_MS
        };
    }
}

/// The pause before the restart that follows `failures` restarts in a row,
/// each too short-lived to count as healthy.
pub open spec fn pause_after(failures: nat) -> int
    decreases failures,
{
    if failures == 0 {
        MIN_BACKOFF_MS as int
    } else {
        doubled(pause_after((failures - 1) as nat))
    }
}

/// A child that keeps crashing is restarted ever more slowly, up to the longest
/// pause, at which it stays.
pub proof fn law_backoff_grows_to_its_bound(failures: nat)
    ensures
        MIN_BACKOFF_MS <= pause_after(failures) <= MAX_BACKOFF_MS,
        pause_after(failures) <= pause_after(failures + 1),
        failures >= 6 ==> pause_after(failures) == MAX_BACKOFF_MS,
    decreases failures,
{
    reveal_with_fuel(pause_after, 8);
    if failures > 0 {
        law_backoff_grows_to_its_bound((failures - 1) as nat);
    }
}

/// What the end of the program does to the child that it has asked to end.
#[derive(Debug, PartialEq, Eq, Clone, Copy, Structural)]
pub enum TeardownAction {
    /// The child has ended, or nothing more can be done.
    Done,
    /// Look again after a pause.
    Sleep(u64),
    /// The child took too long: kill it.
    Kill,
}

/// What to do `waited_ms` after the child was asked to end.
pub open spec fn teardown(status: ChildStatus, waited_ms: u64) -> TeardownAction {
    match status {
        ChildStatus::ExitedCleanly
        | ChildStatus::ExitedAbnormally
        | ChildStatus::Unknown => TeardownAction::Done,
        ChildStatus::Running => if waited_ms >= TEARDOWN_MS {
            TeardownAction::Kill
        } else {
            TeardownAction::Sleep(TEARDOWN_POLL_MS)
        },
    }
}

/// What to do `waited_ms` after the child was asked to end.
pub fn teardown_step(status: ChildStatus, waited_ms: u64) -> (action: TeardownAction)
    ensures
        action == teardown(status, waited_ms),
{
    match status {
        ChildStatus::ExitedCleanly
        | ChildStatus::ExitedAbnormally
        | ChildStatus::Unknown => TeardownAction::Done,
        ChildStatus::Running => if waited_ms >= TEARDOWN_MS {
            TeardownAction::Kill
        } else {
            TeardownAction::Sleep(TEARDOWN_POLL_MS)
        },
    }
}

/// The daemon is started again exactly where it crashed while the program goes
/// on: not where it ended as it was meant to, nor once the program ends. While it
/// runs it is looked at five times a second.
pub proof fn law_crashed_daemons_are_restarted(
    supervisor: DaemonSupervisor,
    status: ChildStatus,
    shutting_down: bool,
    now_ms: u64,
)
    ensures
        ({
            let (after, action) = supervisor.after_look(status, shutting_down, now_ms);
            &&& action is RestartAfter <==> !shutting_down && status is ExitedAbnormally
            &&& action is Stop <==> shutting_down || status is ExitedCleanly
            &&& action == SupervisorAction::Sleep(200) <==> !shutting_down && (status is Running
                || status is Unknown)
            &&& !(action is RestartAfter) ==> after == supervisor
            &&& after.spawned_at_ms == supervisor.spawned_at_ms
        }),
{
}

/// A daemon that crashes within ten seconds of its start waits twice as long
/// before each restart as before the last, up to half a minute. One that ran for
/// longer is restarted after half a second. A restart that fails counts like one
/// that crashes at once.
pub proof fn law_restarts_are_spaced(
    supervisor: DaemonSupervisor,
    crashed_at_ms: u64,
    started: bool,
    started_at_ms: u64,
)
    requires
        supervisor.wf(),
        supervisor.spawned_at_ms <= crashed_at_ms,
    ensures
        ({
            let (crashed, action) = supervisor.after_look(
                ChildStatus::ExitedAbnormally,
                false,
                crashed_at_ms,
            );
            let next = crashed.after_restart(started, started_at_ms);
            let lived_ms = crashed_at_ms - supervisor.spawned_at_ms;
            &&& action matches SupervisorAction::RestartAfter(pause) && {
                &&& lived_ms >= 10_000 ==> pause == 500
                &&& lived_ms < 10_000 ==> pause == supervisor.backoff_ms
                &&& 500 <= pause <= 30_000
                &&& next.backoff_ms == (if pause <= 15_000 {
                    (pause * 2) as u64
                } else {
                    30_000u64
                })
            }
            &&& started ==> next.spawned_at_ms == started_at_ms
            &&& !started ==> next.spawned_at_ms == supervisor.spawned_at_ms
        }),
{
}

/// A daemon that is asked to end gets three seconds, in which it is looked at
/// twenty times a second, and is killed then; one that has ended is not.
pub proof fn law_stuck_daemons_are_killed(status: ChildStatus, waited_ms: u64)
    ensures
        teardown(status, waited_ms) is Kill <==> status is Running && waited_ms >= 3_000,
        teardown(status, waited_ms) == TeardownAction::Sleep(50) <==> status is Running && waited_ms
            < 3_000,
        teardown(status, waited_ms) is Done <==> !(status is Running),
{
}

} // verus!
