//! Opening the port in the firewall of the host: which commands do it, and
//! what is printed.
use vstd::prelude::*;
use vstd::string::StringExecFns;
use crate::text::{
    contains_char, decimal, decimal_text, join, joined, push_decimal, push_text, text_view, texts,
};

verus! {

/// What was found of the firewalls of a host.
#[derive(Debug, PartialEq, Eq, Clone, Copy, Structural)]
pub enum Host {
    Linux {
        /// The service `ufw` is active.
        ufw: bool,
        /// The service `firewalld` is active.
        firewalld: bool,
        /// The service `nftables` is active, or the command `nft` exists.
        nftables: bool,
        /// The command `iptables` exists.
        iptables: bool,
    },
    Windows,
    MacOs,
    Other,
}

/// What is to be done to one firewall.
#[derive(Debug)]
pub struct Plan {
    pub backend: &'static str,
    /// Whether the commands are run, or printed for the user to run: some rule
    /// sets are laid out differently on each site.
    pub apply: bool,
    /// Command lines: each a program and its arguments.
    pub commands: Vec<Vec<String>>,
    /// Printed after the commands.
    pub note: Option<String>,
}

/// What a [`Plan`] says.
#[verifier::ext_equal]
pub struct PlanView {
    pub backend: Seq<char>,
    pub apply: bool,
    pub commands: Seq<Seq<Seq<char>>>,
    pub note: Option<Seq<char>>,
}

/// The words of each command line.
pub open spec fn command_texts(commands: Seq<Vec<String>>) -> Seq<Seq<Seq<char>>> {
    commands.map_values(|c: Vec<String>| texts(c@))
}

impl View for Plan {
    type V = PlanView;

    open spec fn view(&self) -> PlanView {
        PlanView {
            backend: self.backend@,
            apply: self.apply,
            commands: command_texts(self.commands@),
            note: text_view(self.note),
        }
    }
}

pub open spec fn port_udp(port: u16) -> Seq<char> {
    decimal(port as nat) + "/udp"@
}

pub open spec fn ufw_plan(port: u16, remove: bool) -> PlanView {
    PlanView {
        backend: "ufw"@,
        apply: true,
        commands: seq![
            if remove {
                seq!["ufw"@, "delete"@, "allow"@, port_udp(port)]
            } else {
                seq!["ufw"@, "allow"@, port_udp(port), "comment"@, "monitorhop"@]
            },
        ],
        note: None,
    }
}

pub open spec fn firewalld_plan(port: u16, remove: bool) -> PlanView {
    PlanView {
        backend: "firewalld"@,
        apply: true,
        commands: seq![
            seq![
                "firewall-cmd"@,
                "--permanent"@,
                (if remove {
                    "--remove-port="@
                } else {
                    "--add-port="@
                }) + port_udp(port),
            ],
            seq!["firewall-cmd"@, "--reload"@],
        ],
        note: None,
    }
}

pub open spec fn nftables_plan(port: u16, remove: bool) -> PlanView {
    PlanView {
        backend: "nftables"@,
        apply: false,
        commands: seq![
            seq![
                "nft"@,
                if remove {
                    "delete"@
                } else {
                    "add"@
                },
                "rule"@,
                "inet"@,
                "filter"@,
                "input"@,
                "udp"@,
                "dport"@,
                decimal(port as nat),
                "accept"@,
            ],
        ],
        note: Some(
            "  (substitute your actual table/chain — list them with `nft list ruleset`)"@,
        ),
    }
}

pub open spec fn iptables_command(program: Seq<char>, port: u16, remove: bool) -> Seq<Seq<char>> {
    seq![
        program,
        if remove {
            "-D"@
        } else {
            "-A"@
        },
        "INPUT"@,
        "-p"@,
        "udp"@,
        "--dport"@,
        decimal(port as nat),
        "-j"@,
        "ACCEPT"@,
    ]
}

pub open spec fn iptables_plan(port: u16, remove: bool) -> PlanView {
    PlanView {
        backend: "iptables"@,
        apply: false,
        commands: seq![
            iptables_command("iptables"@, port, remove),
            iptables_command("ip6tables"@, port, remove),
        ],
        note: Some("  (and persist them with your distro's iptables-save mechanism)"@),
    }
}

pub open spec fn windows_rule_name(port: u16) -> Seq<char> {
    "name=MonitorHop (UDP "@ + decimal(port as nat) + ")"@
}

pub open spec fn windows_plan(port: u16, remove: bool) -> PlanView {
    PlanView {
        backend: "Windows Firewall"@,
        apply: true,
        commands: seq![
            if remove {
                seq![
                    "netsh"@,
                    "advfirewall"@,
                    "firewall"@,
                    "delete"@,
                    "rule"@,
                    windows_rule_name(port),
                ]
            } else {
                seq![
                    "netsh"@,
                    "advfirewall"@,
                    "firewall"@,
                    "add"@,
                    "rule"@,
                    windows_rule_name(port),
                    "dir=in"@,
                    "action=allow"@,
                    "protocol=UDP"@,
                    "localport="@ + decimal(port as nat),
                ]
            },
        ],
        note: Some("  (run from an Administrator command prompt)"@),
    }
}

pub open spec fn macos_plan(port: u16) -> PlanView {
    PlanView {
        backend: "macOS"@,
        apply: false,
        commands: seq![],
        note: Some(
            "  macOS's application firewall is per-app and off by default; a signed\n  MonitorHop.app needs no port rule. If you've enabled it, allow the app under\n  System Settings > Network > Firewall. (UDP port "@
                + decimal(port as nat) + ".)"@,
        ),
    }
}

/// The plan for a host: the managers that own the rule set come before the
/// tools beneath them.
pub open spec fn plan_view(host: Host, port: u16, remove: bool) -> Option<PlanView> {
    match host {
        Host::Linux { ufw, firewalld, nftables, iptables } => {
            if ufw {
                Some(ufw_plan(port, remove))
            } else if firewalld {
                Some(firewalld_plan(port, remove))
            } else if nftables {
                Some(nftables_plan(port, remove))
            } else if iptables {
                Some(iptables_plan(port, remove))
            } else {
                None
            }
        },
        Host::Windows => Some(windows_plan(port, remove)),
        Host::MacOs => Some(macos_plan(port)),
        Host::Other => None,
    }
}

/// `prefix`, the number and `suffix`.
fn with_number(prefix: &str, n: u16, suffix: &str) -> (text: String)
    ensures
        text@ == prefix@ + decimal(n as nat) + suffix@,
{
    let mut out = String::new();
    out.append(prefix);
    push_decimal(&mut out, n as u64);
    out.append(suffix);
    assert(out@ =~= prefix@ + decimal(n as nat) + suffix@);
    out
}

fn port_udp_text(port: u16) -> (text: String)
    ensures
        text@ == port_udp(port),
{
    let mut out = String::new();
    push_decimal(&mut out, port as u64);
    out.append("/udp");
    assert(out@ =~= port_udp(port));
    out
}

/// Appends a command line.
fn push_command(commands: &mut Vec<Vec<String>>, command: Vec<String>)
    ensures
        command_texts(final(commands)@) == command_texts(old(commands)@).push(texts(command@)),
{
    let ghost before = commands@;
    commands.push(command);
    assert(command_texts(commands@) =~= command_texts(before).push(texts(command@)));
}

fn no_words() -> (words: Vec<String>)
    ensures
        texts(words@) == Seq::<Seq<char>>::empty(),
{
    let words: Vec<String> = Vec::new();
    assert(texts(words@) =~= Seq::<Seq<char>>::empty());
    words
}

fn no_commands() -> (commands: Vec<Vec<String>>)
    ensures
        command_texts(commands@) == Seq::<Seq<Seq<char>>>::empty(),
{
    let commands: Vec<Vec<String>> = Vec::new();
    assert(command_texts(commands@) =~= Seq::<Seq<Seq<char>>>::empty());
    commands
}

fn plan_ufw(port: u16, remove: bool) -> (plan: Plan)
    ensures
        plan@ == ufw_plan(port, remove),
{
    let port_text = port_udp_text(port);
    let mut cmd = no_words();
    push_text(&mut cmd, "ufw");
    if remove {
        push_text(&mut cmd, "delete");
        push_text(&mut cmd, "allow");
        push_text(&mut cmd, port_text.as_str());
    } else {
        push_text(&mut cmd, "allow");
        push_text(&mut cmd, port_text.as_str());
        push_text(&mut cmd, "comment");
        push_text(&mut cmd, "monitorhop");
    }
    assert(texts(cmd@) =~= ufw_plan(port, remove).commands[0]);
    let mut commands = no_commands();
    push_command(&mut commands, cmd);
    let plan = Plan { backend: "ufw", apply: true, commands, note: None };
    assert(plan@.commands =~= ufw_plan(port, remove).commands);
    plan
}

fn plan_firewalld(port: u16, remove: bool) -> (plan: Plan)
    ensures
        plan@ == firewalld_plan(port, remove),
{
    let mut flag = String::new();
    flag.append(if remove {
        "--remove-port="
    } else {
        "--add-port="
    });
    flag.append(port_udp_text(port).as_str());
    let mut change = no_words();
    push_text(&mut change, "firewall-cmd");
    push_text(&mut change, "--permanent");
    push_text(&mut change, flag.as_str());
    let mut reload = no_words();
    push_text(&mut reload, "firewall-cmd");
    push_text(&mut reload, "--reload");
    proof {
        assert(flag@ =~= firewalld_plan(port, remove).commands[0][2]);
        assert(texts(change@) =~= firewalld_plan(port, remove).commands[0]);
        assert(texts(reload@) =~= firewalld_plan(port, remove).commands[1]);
    }
    let mut commands = no_commands();
    push_command(&mut commands, change);
    push_command(&mut commands, reload);
    let plan = Plan { backend: "firewalld", apply: true, commands, note: None };
    assert(plan@.commands =~= firewalld_plan(port, remove).commands);
    plan
}

fn plan_nftables(port: u16, remove: bool) -> (plan: Plan)
    ensures
        plan@ == nftables_plan(port, remove),
{
    let mut cmd = no_words();
    push_text(&mut cmd, "nft");
    push_text(
        &mut cmd,
        if remove {
            "delete"
        } else {
            "add"
        },
    );
    push_text(&mut cmd, "rule");
    push_text(&mut cmd, "inet");
    push_text(&mut cmd, "filter");
    push_text(&mut cmd, "input");
    push_text(&mut cmd, "udp");
    push_text(&mut cmd, "dport");
    push_text(&mut cmd, decimal_text(port as u64).as_str());
    push_text(&mut cmd, "accept");
    assert(texts(cmd@) =~= nftables_plan(port, remove).commands[0]);
    let mut commands = no_commands();
    push_command(&mut commands, cmd);
    let plan = Plan {
        backend: "nftables",
        apply: false,
        commands,
        note: Some(
            "  (substitute your actual table/chain — list them with `nft list ruleset`)".to_owned(),
        ),
    };
    assert(plan@.commands =~= nftables_plan(port, remove).commands);
    plan
}

fn command_iptables(program: &str, port: u16, remove: bool) -> (cmd: Vec<String>)
    ensures
        texts(cmd@) == iptables_command(program@, port, remove),
{
    let mut cmd = no_words();
    push_text(&mut cmd, program);
    push_text(
        &mut cmd,
        if remove {
            "-D"
        } else {
            "-A"
        },
    );
    push_text(&mut cmd, "INPUT");
    push_text(&mut cmd, "-p");
    push_text(&mut cmd, "udp");
    push_text(&mut cmd, "--dport");
    push_text(&mut cmd, decimal_text(port as u64).as_str());
    push_text(&mut cmd, "-j");
    push_text(&mut cmd, "ACCEPT");
    assert(texts(cmd@) =~= iptables_command(program@, port, remove));
    cmd
}

fn plan_iptables(port: u16, remove: bool) -> (plan: Plan)
    ensures
        plan@ == iptables_plan(port, remove),
{
    let mut commands = no_commands();
    push_command(&mut commands, command_iptables("iptables", port, remove));
    push_command(&mut commands, command_iptables("ip6tables", port, remove));
    let plan = Plan {
        backend: "iptables",
        apply: false,
        commands,
        note: Some(
            "  (and persist them with your distro's iptables-save mechanism)".to_owned(),
        ),
    };
    assert(plan@.commands =~= iptables_plan(port, remove).commands);
    plan
}

fn plan_windows(port: u16, remove: bool) -> (plan: Plan)
    ensures
        plan@ == windows_plan(port, remove),
{
    let name = with_number("name=MonitorHop (UDP ", port, ")");
    let mut cmd = no_words();
    push_text(&mut cmd, "netsh");
    push_text(&mut cmd, "advfirewall");
    push_text(&mut cmd, "firewall");
    push_text(
        &mut cmd,
        if remove {
            "delete"
        } else {
            "add"
        },
    );
    push_text(&mut cmd, "rule");
    push_text(&mut cmd, name.as_str());
    if !remove {
        push_text(&mut cmd, "dir=in");
        push_text(&mut cmd, "action=allow");
        push_text(&mut cmd, "protocol=UDP");
        let local = with_number("localport=", port, "");
        proof {
            reveal_strlit("");
            assert(local@ =~= "localport="@ + decimal(port as nat));
        }
        push_text(&mut cmd, local.as_str());
    }
    assert(texts(cmd@) =~= windows_plan(port, remove).commands[0]);
    let mut commands = no_commands();
    push_command(&mut commands, cmd);
    let plan = Plan {
        backend: "Windows Firewall",
        apply: true,
        commands,
        note: Some("  (run from an Administrator command prompt)".to_owned()),
    };
    assert(plan@.commands =~= windows_plan(port, remove).commands);
    plan
}

fn plan_macos(port: u16) -> (plan: Plan)
    ensures
        plan@ == macos_plan(port),
{
    let plan = Plan {
        backend: "macOS",
        apply: false,
        commands: no_commands(),
        note: Some(
            with_number(
                "  macOS's application firewall is per-app and off by default; a signed\n  MonitorHop.app needs no port rule. If you've enabled it, allow the app under\n  System Settings > Network > Firewall. (UDP port ",
                port,
                ".)",
            ),
        ),
    };
    assert(plan@.commands =~= macos_plan(port).commands);
    plan
}

/// The plan that opens the UDP port in the firewall of a host, or closes it
/// again: none where no firewall is known.
pub fn plan_for_host(host: Host, port: u16, remove: bool) -> (plan: Option<Plan>)
    ensures
        match plan {
            Some(p) => plan_view(host, port, remove) == Some(p@),
            None => plan_view(host, port, remove) is None,
        },
{
    match host {
        Host::Linux { ufw, firewalld, nftables, iptables } => {
            if ufw {
                Some(plan_ufw(port, remove))
            } else if firewalld {
                Some(plan_firewalld(port, remove))
            } else if nftables {
                Some(plan_nftables(port, remove))
            } else if iptables {
                Some(plan_iptables(port, remove))
            } else {
                None
            }
        },
        Host::Windows => Some(plan_windows(port, remove)),
        Host::MacOs => Some(plan_macos(port)),
        Host::Other => None,
    }
}

/// A word of a command line as it is printed: in quotes where it holds a
/// space.
pub open spec fn quoted(word: Seq<char>) -> Seq<char> {
    if word.contains(' ') {
        "\""@ + word + "\""@
    } else {
        word
    }
}

/// A command line as it is printed.
pub open spec fn shell_text(command: Seq<Seq<char>>) -> Seq<char> {
    joined(command.map_values(|w: Seq<char>| quoted(w)), " "@)
}

/// A command line as it is printed.
pub fn shell_join(command: &Vec<String>) -> (text: String)
    ensures
        text@ == shell_text(texts(command@)),
{
    let mut words: Vec<String> = Vec::new();
    let mut i: usize = 0;
    while i < command.len()
        invariant
            i <= command@.len(),
            words@.len() == i,
            forall|k: int| 0 <= k < i ==> (#[trigger] words@[k])@ == quoted(command@[k]@),
        decreases command@.len() - i,
    {
        let word: &str = command[i].as_str();
        let mut out = String::new();
        if contains_char(word, ' ') {
            out.append("\"");
            out.append(word);
            out.append("\"");
        } else {
            out.append(word);
        }
        assert(out@ =~= quoted(word@));
        words.push(out);
        i += 1;
    }
    assert(texts(words@) =~= texts(command@).map_values(|w: Seq<char>| quoted(w)));
    join(&words, " ")
}

/// Where the printing of a run ends before any command is run.
#[derive(Debug)]
pub struct Opening {
    /// Lines for the standard output.
    pub out: Vec<String>,
    /// Lines for the standard error.
    pub err: Vec<String>,
    /// Whether the commands are to be run now. Where they are not, the run has
    /// ended in success.
    pub proceed: bool,
}

/// The indented command lines.
pub open spec fn indented(commands: Seq<Seq<Seq<char>>>) -> Seq<Seq<char>> {
    commands.map_values(|c: Seq<Seq<char>>| "  "@ + shell_text(c))
}

pub open spec fn note_lines(plan: PlanView) -> Seq<Seq<char>> {
    match plan.note {
        Some(note) => seq![note],
        None => seq![],
    }
}

pub open spec fn header(plan: PlanView, port: u16, remove: bool) -> Seq<char> {
    (if remove {
        "Removing"@
    } else {
        "Adding"@
    }) + " a rule for UDP/"@ + decimal(port as nat) + " via "@ + plan.backend + " ..."@
}

/// What is printed to the standard output before any command is run.
pub open spec fn opening_lines(plan: PlanView, port: u16, remove: bool, dry_run: bool) -> Seq<
    Seq<char>,
> {
    if dry_run || !plan.apply {
        seq![
            header(plan, port, remove),
            if !plan.apply && !dry_run {
                "Your "@ + plan.backend + " ruleset is site-specific, so run this yourself:"@
            } else {
                "Would run:"@
            },
        ] + indented(plan.commands) + note_lines(plan)
    } else {
        seq![header(plan, port, remove)]
    }
}

/// `opening` is how a run starts.
pub open spec fn opens(
    plan: Option<Plan>,
    port: u16,
    remove: bool,
    dry_run: bool,
    opening: Opening,
) -> bool {
    match plan {
        Some(p) => {
            &&& texts(opening.out@) == opening_lines(p@, port, remove, dry_run)
            &&& opening.err@.len() == 0
            &&& opening.proceed == (p.apply && !dry_run)
        },
        None => {
            &&& opening.out@.len() == 0
            &&& texts(opening.err@) == seq![
                "monitorhop firewall: no supported firewall detected. Allow UDP port "@ + decimal(
                    port as nat,
                ) + " inbound manually if your host blocks it."@,
            ]
            &&& !opening.proceed
        },
    }
}

/// What a run prints before any command is run, and whether commands are run
/// at all: not in a dry run, and not where the user has to run them.
pub fn open_run(plan: &Option<Plan>, port: u16, remove: bool, dry_run: bool) -> (opening: Opening)
    ensures
        opens(*plan, port, remove, dry_run, opening),
{
    let mut out = no_words();
    let mut err = no_words();
    let p = match plan {
        Some(p) => p,
        None => {
            let line = with_number(
                "monitorhop firewall: no supported firewall detected. Allow UDP port ",
                port,
                " inbound manually if your host blocks it.",
            );
            push_text(&mut err, line.as_str());
            assert(texts(err@) =~= seq![line@]);
            return Opening { out, err, proceed: false };
        },
    };
    let mut first = String::new();
    first.append(if remove {
        "Removing"
    } else {
        "Adding"
    });
    first.append(" a rule for UDP/");
    push_decimal(&mut first, port as u64);
    first.append(" via ");
    first.append(p.backend);
    first.append(" ...");
    assert(first@ =~= header(p@, port, remove));
    push_text(&mut out, first.as_str());
    if !dry_run && p.apply {
        assert(texts(out@) =~= opening_lines(p@, port, remove, dry_run));
        return Opening { out, err, proceed: true };
    }
    if !p.apply && !dry_run {
        let mut line = String::new();
        line.append("Your ");
        line.append(p.backend);
        line.append(" ruleset is site-specific, so run this yourself:");
        assert(line@ =~= "Your "@ + p.backend@
            + " ruleset is site-specific, so run this yourself:"@);
        push_text(&mut out, line.as_str());
    } else {
        push_text(&mut out, "Would run:");
    }
    let ghost lead = texts(out@);
    let ghost all = indented(p@.commands);
    let mut i: usize = 0;
    assert(texts(out@) =~= lead + all.take(0));
    while i < p.commands.len()
        invariant
            i <= p.commands@.len(),
            all == indented(p@.commands),
            texts(out@) == lead + all.take(i as int),
        decreases p.commands@.len() - i,
    {
        let mut line = String::new();
        line.append("  ");
        line.append(shell_join(&p.commands[i]).as_str());
        push_text(&mut out, line.as_str());
        proof {
            assert(p@.commands[i as int] == texts(p.commands@[i as int]@));
            assert(line@ =~= all[i as int]);
            assert(texts(out@) =~= lead + all.take(i + 1));
        }
        i += 1;
    }
    assert(all.take(i as int) =~= all);
    if let Some(note) = &p.note {
        push_text(&mut out, note.as_str());
    }
    assert(texts(out@) =~= opening_lines(p@, port, remove, dry_run));
    Opening { out, err, proceed: false }
}

/// How a command ended.
#[derive(Debug)]
pub enum CommandOutcome {
    Success,
    /// It failed: its exit status as text.
    Failed(String),
    /// It could not be started: the error as text.
    NotStarted(String),
}

/// The line that announces a command.
pub fn command_line(command: &Vec<String>) -> (line: String)
    ensures
        line@ == "+ "@ + shell_text(texts(command@)),
{
    let mut out = String::new();
    out.append("+ ");
    out.append(shell_join(command).as_str());
    assert(out@ =~= "+ "@ + shell_text(texts(command@)));
    out
}

pub open spec fn failure_text(command: Seq<Seq<char>>, outcome: CommandOutcome) -> Option<
    Seq<char>,
> {
    match outcome {
        CommandOutcome::Success => None,
        CommandOutcome::Failed(status) => Some(
            "monitorhop firewall: `"@ + shell_text(command) + "` failed ("@ + status@
                + "). You probably need to re-run with sudo / as administrator."@,
        ),
        CommandOutcome::NotStarted(error) => Some(
            "monitorhop firewall: could not run `"@ + command[0] + "`: "@ + error@,
        ),
    }
}

/// The line for the standard error with which a run ends in failure after a
/// command, where it does.
pub fn failure_message(command: &Vec<String>, outcome: &CommandOutcome) -> (message: Option<String>)
    requires
        command@.len() > 0,
    ensures
        text_view(message) == failure_text(texts(command@), *outcome),
{
    let mut out = String::new();
    match outcome {
        CommandOutcome::Success => {
            return None;
        },
        CommandOutcome::Failed(status) => {
            out.append("monitorhop firewall: `");
            out.append(shell_join(command).as_str());
            out.append("` failed (");
            out.append(status.as_str());
            out.append("). You probably need to re-run with sudo / as administrator.");
        },
        CommandOutcome::NotStarted(error) => {
            out.append("monitorhop firewall: could not run `");
            out.append(command[0].as_str());
            out.append("`: ");
            out.append(error.as_str());
        },
    }
    assert(out@ =~= failure_text(texts(command@), *outcome)->0);
    Some(out)
}

/// What is printed once every command has succeeded.
pub fn closing_lines(plan: &Plan) -> (lines: Vec<String>)
    ensures
        texts(lines@) == note_lines(plan@).push("Done."@),
{
    let mut lines = no_words();
    if let Some(note) = &plan.note {
        push_text(&mut lines, note.as_str());
    }
    push_text(&mut lines, "Done.");
    assert(texts(lines@) =~= note_lines(plan@).push("Done."@));
    lines
}

/// What a run does next.
#[derive(Debug)]
pub enum RunStep {
    /// Print the line and execute the command with that index.
    Execute { index: usize, line: String },
    /// Print the lines, and end with the exit code.
    Exit { out: Vec<String>, err: Vec<String>, code: i32 },
}

/// What a [`RunStep`] says.
pub enum StepView {
    Execute { index: nat, line: Seq<char> },
    Exit { out: Seq<Seq<char>>, err: Seq<Seq<char>>, code: int },
}

impl View for RunStep {
    type V = StepView;

    open spec fn view(&self) -> StepView {
        match self {
            RunStep::Execute { index, line } => StepView::Execute {
                index: *index as nat,
                line: line@,
            },
            RunStep::Exit { out, err, code } => StepView::Exit {
                out: texts(out@),
                err: texts(err@),
                code: *code as int,
            },
        }
    }
}

/// What a run does once the commands before the one with that index have
/// succeeded.
pub open spec fn step_at(plan: PlanView, index: nat) -> StepView {
    if index < plan.commands.len() {
        StepView::Execute { index, line: "+ "@ + shell_text(plan.commands[index as int]) }
    } else {
        StepView::Exit { out: note_lines(plan).push("Done."@), err: seq![], code: 0 }
    }
}

/// What a run does once the command with that index has ended.
pub open spec fn step_after(plan: PlanView, index: nat, outcome: CommandOutcome) -> StepView {
    match failure_text(plan.commands[index as int], outcome) {
        Some(message) => StepView::Exit { out: seq![], err: seq![message], code: 1 },
        None => step_at(plan, index + 1),
    }
}

/// What a run does once the commands before the one with that index have
/// succeeded: it executes the command, or ends.
pub fn run(plan: &Plan, index: usize) -> (step: RunStep)
    ensures
        step@ == step_at(plan@, index as nat),
{
    if index < plan.commands.len() {
        assert(plan@.commands[index as int] == texts(plan.commands@[index as int]@));
        RunStep::Execute { index, line: command_line(&plan.commands[index]) }
    } else {
        let err = no_words();
        assert(texts(err@) =~= seq![]);
        RunStep::Exit { out: closing_lines(plan), err, code: 0 }
    }
}

/// What a run does once a command has ended: after a failure no other command
/// is executed.
pub fn command_ended(plan: &Plan, index: usize, outcome: &CommandOutcome) -> (step: RunStep)
    requires
        index < plan.commands@.len(),
        plan.commands@[index as int]@.len() > 0,
    ensures
        step@ == step_after(plan@, index as nat, *outcome),
{
    assert(plan@.commands[index as int] == texts(plan.commands@[index as int]@));
    match failure_message(&plan.commands[index], outcome) {
        Some(message) => {
            let out = no_words();
            let mut err = no_words();
            push_text(&mut err, message.as_str());
            assert(texts(out@) =~= seq![]);
            assert(texts(err@) =~= seq![message@]);
            RunStep::Exit { out, err, code: 1 }
        },
        None => {
            let count: usize = plan.commands.len();
            assert(index < count);
            run(plan, index + 1)
        },
    }
}

/// How a run ends whose commands from the one with that index on end with the
/// outcomes: its exit code, and how many of those commands are executed.
pub open spec fn run_end(plan: PlanView, index: nat, outcomes: Seq<CommandOutcome>) -> (int, nat)
    decreases plan.commands.len() - index,
{
    match step_at(plan, index) {
        StepView::Exit { code, .. } => (code, 0),
        StepView::Execute { .. } => match step_after(plan, index, outcomes[index as int]) {
            StepView::Exit { code, .. } => (code, 1),
            StepView::Execute { .. } => {
                let rest = run_end(plan, index + 1, outcomes);
                (rest.0, rest.1 + 1)
            },
        },
    }
}

/// A run executes its commands in order up to the first that fails, and its exit
/// code is zero where none does.
pub proof fn law_runs_stop_at_the_first_failure(
    plan: PlanView,
    index: nat,
    outcomes: Seq<CommandOutcome>,
    failed: nat,
)
    requires
        index <= failed <= plan.commands.len() == outcomes.len(),
        forall|i: int| index <= i < failed ==> (#[trigger] outcomes[i]) is Success,
        failed < plan.commands.len() ==> !(outcomes[failed as int] is Success),
    ensures
        run_end(plan, index, outcomes) == (if failed < plan.commands.len() {
            (1int, (failed - index + 1) as nat)
        } else {
            (0int, (failed - index) as nat)
        }),
    decreases failed - index,
{
    if index < failed {
        assert(outcomes[index as int] is Success);
        law_runs_stop_at_the_first_failure(plan, index + 1, outcomes, failed);
    }
}

/// No command line of a plan is empty.
pub proof fn law_commands_name_a_program(host: Host, port: u16, remove: bool, i: int)
    requires
        plan_view(host, port, remove) matches Some(plan) && 0 <= i < plan.commands.len(),
    ensures
        plan_view(host, port, remove)->0.commands[i].len() > 0,
{
}

/// A rule is removed by the firewall that it was added to, with as many
/// commands.
pub proof fn law_removal_mirrors_addition(host: Host, port: u16)
    requires
        plan_view(host, port, true) is Some,
    ensures
        ({
            let add = plan_view(host, port, false)->0;
            let remove = plan_view(host, port, true)->0;
            &&& plan_view(host, port, false) is Some
            &&& add.backend == remove.backend
            &&& add.apply == remove.apply
            &&& add.commands.len() == remove.commands.len()
            &&& add.note == remove.note
        }),
{
}

/// The managers that own the rule set come before the tools beneath them, and
/// only they, and the firewall of Windows, are changed without the user. Where
/// nothing is known of a firewall there is no plan.
pub proof fn law_managers_come_first(host: Host, port: u16, remove: bool)
    ensures
        ({
            let plan = plan_view(host, port, remove);
            match host {
                Host::Linux { ufw, firewalld, nftables, iptables } => {
                    &&& plan is Some <==> ufw || firewalld || nftables || iptables
                    &&& ufw ==> plan->0.backend == "ufw"@ && plan->0.apply
                    &&& !ufw && firewalld ==> plan->0.backend == "firewalld"@ && plan->0.apply
                    &&& !ufw && !firewalld && nftables ==> plan->0.backend == "nftables"@
                        && !plan->0.apply
                    &&& !ufw && !firewalld && !nftables && iptables ==> plan->0.backend
                        == "iptables"@ && !plan->0.apply
                },
                Host::Windows => plan matches Some(p) && p.backend == "Windows Firewall"@
                    && p.apply,
                Host::MacOs => plan matches Some(p) && p.backend == "macOS"@ && !p.apply
                    && p.commands.len() == 0,
                Host::Other => plan is None,
            }
        }),
{
}

/// Each program gets the words that name the port and the protocol, and that add
/// or remove the rule.
pub proof fn law_rules_name_the_port(port: u16)
    ensures
        ({
            let udp = decimal(port as nat) + "/udp"@;
            let n = decimal(port as nat);
            &&& ufw_plan(port, false).commands == seq![
                seq!["ufw"@, "allow"@, udp, "comment"@, "monitorhop"@],
            ]
            &&& ufw_plan(port, true).commands == seq![seq!["ufw"@, "delete"@, "allow"@, udp]]
            &&& firewalld_plan(port, false).commands == seq![
                seq!["firewall-cmd"@, "--permanent"@, "--add-port="@ + udp],
                seq!["firewall-cmd"@, "--reload"@],
            ]
            &&& firewalld_plan(port, true).commands == seq![
                seq!["firewall-cmd"@, "--permanent"@, "--remove-port="@ + udp],
                seq!["firewall-cmd"@, "--reload"@],
            ]
            &&& nftables_plan(port, false).commands == seq![
                seq![
                    "nft"@, "add"@, "rule"@, "inet"@, "filter"@, "input"@, "udp"@, "dport"@, n,
                    "accept"@,
                ],
            ]
            &&& nftables_plan(port, true).commands[0] == nftables_plan(
                port,
                false,
            ).commands[0].update(1, "delete"@)
            &&& iptables_plan(port, false).commands == seq![
                seq![
                    "iptables"@, "-A"@, "INPUT"@, "-p"@, "udp"@, "--dport"@, n, "-j"@, "ACCEPT"@,
                ],
                seq![
                    "ip6tables"@, "-A"@, "INPUT"@, "-p"@, "udp"@, "--dport"@, n, "-j"@, "ACCEPT"@,
                ],
            ]
            &&& forall|i: int|
                0 <= i < 2 ==> #[trigger] iptables_plan(port, true).commands[i] == iptables_plan(
                    port,
                    false,
                ).commands[i].update(1, "-D"@)
            &&& windows_plan(port, false).commands == seq![
                seq![
                    "netsh"@, "advfirewall"@, "firewall"@, "add"@, "rule"@,
                    "name=MonitorHop (UDP "@ + n + ")"@, "dir=in"@, "action=allow"@,
                    "protocol=UDP"@, "localport="@ + n,
                ],
            ]
            &&& windows_plan(port, true).commands == seq![
                seq![
                    "netsh"@, "advfirewall"@, "firewall"@, "delete"@, "rule"@,
                    "name=MonitorHop (UDP "@ + n + ")"@,
                ],
            ]
        }),
{
    assert(nftables_plan(port, true).commands[0] =~= nftables_plan(port, false).commands[0].update(
        1,
        "delete"@,
    ));
    assert(iptables_plan(port, true).commands[0] =~= iptables_plan(port, false).commands[0].update(
        1,
        "-D"@,
    ));
    assert(iptables_plan(port, true).commands[1] =~= iptables_plan(port, false).commands[1].update(
        1,
        "-D"@,
    ));
}

/// A dry run changes nothing, nor does a run whose commands are left to the user,
/// nor one without a plan; every other run goes on to its commands. Whoever has
/// to run them sees each of them, in order.
pub proof fn law_runs_go_on_for_a_plan(
    plan: Option<Plan>,
    port: u16,
    remove: bool,
    dry_run: bool,
    opening: Opening,
    i: int,
)
    requires
        opens(plan, port, remove, dry_run, opening),
    ensures
        opening.proceed <==> plan is Some && plan->0.apply && !dry_run,
        plan is None <==> opening.err@.len() > 0,
        plan is Some && !opening.proceed && 0 <= i < plan->0.commands@.len() ==> i + 2
            < opening.out@.len() && opening.out@[i + 2]@ == "  "@ + shell_text(
            texts(plan->0.commands@[i]@),
        ),
        plan is Some ==> opening.out@.len() > 0 && opening.out@[0]@ == (if remove {
            "Removing"@
        } else {
            "Adding"@
        }) + " a rule for UDP/"@ + decimal(port as nat) + " via "@ + plan->0.backend@ + " ..."@,
{
    match plan {
        Some(p) => {
            let lines = texts(opening.out@);
            assert(lines == opening_lines(p@, port, remove, dry_run));
            assert(lines[0] == opening.out@[0]@);
            if !opening.proceed && 0 <= i < p.commands@.len() {
                assert(lines[i + 2] == indented(p@.commands)[i]);
                assert(lines[i + 2] == opening.out@[i + 2]@);
                assert(p@.commands[i] == texts(p.commands@[i]@));
            }
        },
        None => {
            assert(texts(opening.err@).len() == 1);
        },
    }
}

/// A run announces each command with a plus sign before it executes it, goes on
/// to the next only after a success, and ends with an error after a failure.
pub proof fn law_commands_run_in_order(plan: PlanView, index: nat, outcome: CommandOutcome)
    requires
        index < plan.commands.len(),
    ensures
        step_at(plan, index) == (StepView::Execute {
            index,
            line: "+ "@ + shell_text(plan.commands[index as int]),
        }),
        outcome is Success ==> step_after(plan, index, outcome) == step_at(plan, index + 1),
        !(outcome is Success) ==> (step_after(plan, index, outcome) matches StepView::Exit {
            out,
            err,
            code,
        } && code == 1 && out.len() == 0 && err.len() == 1),
        step_at(plan, plan.commands.len()) matches StepView::Exit { out, err, code } && code == 0
            && err.len() == 0 && out.last() == "Done."@,
{
}

/// A command line is printed word by word with spaces between them, and a word
/// that holds a space stands in quotes.
pub proof fn law_commands_are_printed_word_by_word(command: Seq<Seq<char>>, word: Seq<char>)
    ensures
        ({
            let shown = if word.contains(' ') {
                seq!['"'] + word + seq!['"']
            } else {
                word
            };
            shell_text(command.push(word)) == (if command.len() == 0 {
                shown
            } else {
                shell_text(command) + seq![' '] + shown
            })
        }),
{
    reveal_strlit("\"");
    reveal_strlit(" ");
    assert("\""@ =~= seq!['"']);
    assert(" "@ =~= seq![' ']);
    let words = command.push(word).map_values(|w: Seq<char>| quoted(w));
    assert(words.drop_last() =~= command.map_values(|w: Seq<char>| quoted(w)));
    assert(words.last() == quoted(word));
}

} // verus!
