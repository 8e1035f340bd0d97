//! Which part of the program a process is, and how the other part is started.
use vstd::prelude::*;
use crate::text::{push_text, same_text, texts};

verus! {

/// The argument that makes a process the daemon.
pub const DAEMON_ARGUMENT: &'static str = "daemon";

/// Where the source code is found.
pub const SOURCE_URL: &'static str = "https://github.com/lirenzzzin/monitorhop";

/// Which part of the program a process is.
#[derive(Debug, PartialEq, Eq, Clone, Copy, Structural)]
pub enum Role {
    Daemon,
    Gui,
}

impl Role {
    /// The name by which log records tell the parts apart.
    pub fn name(self) -> (name: &'static str)
        ensures
            name@ == (match self {
                Role::Daemon => "daemon"@,
                Role::Gui => "gui"@,
            }),
    {
        match self {
            Role::Daemon => "daemon",
            Role::Gui => "gui",
        }
    }
}

/// One of the arguments, after the name of the program, makes the process the
/// daemon.
pub open spec fn is_daemon(args: Seq<Seq<char>>) -> bool {
    exists|i: int| 1 <= i < args.len() && #[trigger] args[i] == DAEMON_ARGUMENT@
}

/// Which part of the program a process is, by its arguments.
pub open spec fn role_of(args: Seq<Seq<char>>) -> Role {
    if is_daemon(args) {
        Role::Daemon
    } else {
        Role::Gui
    }
}

/// Which part of the program a process is, by its arguments. The first one is
/// the name of the program.
pub fn role(args: &Vec<String>) -> (role: Role)
    ensures
        role == role_of(texts(args@)),
{
    let ghost all = texts(args@);
    let mut i: usize = 1;
    while i < args.len()
        invariant
            all == texts(args@),
            1 <= i,
            args@.len() > 0 ==> i <= args@.len(),
            forall|k: int| 1 <= k < i && k < all.len() ==> #[trigger] all[k] != DAEMON_ARGUMENT@,
        decreases args@.len() - i,
    {
        assert(all[i as int] == args@[i as int]@);
        if same_text(args[i].as_str(), DAEMON_ARGUMENT) {
            return Role::Daemon;
        }
        i += 1;
    }
    Role::Gui
}

/// The arguments of the daemon: those of this process, and the one that makes
/// it the daemon.
pub open spec fn daemon_arguments(args: Seq<Seq<char>>) -> Seq<Seq<char>> {
    (if args.len() == 0 {
        args
    } else {
        args.skip(1)
    }).push(DAEMON_ARGUMENT@)
}

/// The arguments that this process starts the daemon with, without the name of
/// the program.
pub fn start_service(args: &Vec<String>) -> (passed: Vec<String>)
    ensures
        texts(passed@) == daemon_arguments(texts(args@)),
{
    let ghost all = texts(args@);
    let mut passed: Vec<String> = Vec::new();
    let mut i: usize = 1;
    while i < args.len()
        invariant
            all == texts(args@),
            1 <= i,
            args@.len() > 0 ==> i <= args@.len(),
            texts(passed@) == (if all.len() == 0 {
                all
            } else {
                all.subrange(1, i as int)
            }),
        decreases args@.len() - i,
    {
        let ghost before = texts(passed@);
        push_text(&mut passed, args[i].as_str());
        i += 1;
        assert(texts(passed@) =~= before.push(all[i - 1]));
        assert(all.subrange(1, i as int) =~= all.subrange(1, i - 1).push(all[i - 1]));
    }
    proof {
        if all.len() > 0 {
            assert(all.subrange(1, i as int) =~= all.skip(1));
        }
    }
    let ghost before = texts(passed@);
    push_text(&mut passed, DAEMON_ARGUMENT);
    assert(texts(passed@) =~= before.push(DAEMON_ARGUMENT@));
    passed
}

/// What this process starts is the daemon, whatever its own arguments are.
pub proof fn law_the_started_process_is_the_daemon(program: Seq<char>, args: Seq<Seq<char>>)
    ensures
        is_daemon(seq![program] + daemon_arguments(args)),
{
    let all = seq![program] + daemon_arguments(args);
    assert(all[all.len() - 1] == DAEMON_ARGUMENT@);
}

/// A process is the daemon exactly where one of its arguments, but for the name
/// of the program, says so; and the daemon gets all arguments of the process
/// that starts it.
pub proof fn law_the_argument_makes_the_daemon(args: Seq<Seq<char>>, i: int)
    ensures
        1 <= i < args.len() && args[i] == "daemon"@ ==> is_daemon(args),
        is_daemon(args) ==> exists|k: int| 1 <= k < args.len() && args[k] == "daemon"@,
        1 <= i < args.len() ==> daemon_arguments(args)[i - 1] == args[i],
        args.len() > 0 ==> daemon_arguments(args).len() == args.len(),
        daemon_arguments(args).last() == "daemon"@,
{
}

/// The daemon that a window starts is not a window: it does not start another
/// daemon. A process without arguments is a window.
pub proof fn law_windows_start_daemons(program: Seq<char>, args: Seq<Seq<char>>)
    ensures
        role_of(seq![program] + daemon_arguments(args)) is Daemon,
        role_of(seq![program]) is Gui,
        role_of(args) is Daemon <==> exists|i: int|
            1 <= i < args.len() && #[trigger] args[i] == "daemon"@,
{
    law_the_started_process_is_the_daemon(program, args);
}

} // verus!
