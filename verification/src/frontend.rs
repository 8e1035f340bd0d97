//! Decisions of the preferences window: how it starts, what it shows of the
//! daemon's events, and how it finds the daemon again.
use vstd::prelude::*;
use vstd::string::StringExecFns;
use crate::addr::SocketAddr;
use crate::client::{ClientConfig, ClientHandle, ClientState};
use crate::client_object::{commit_string, peer_commit_to_string};
use crate::ip_text::socket_text;
use crate::paths::{join_path, joined_path, utf8};
use crate::scancode::Linux;
use crate::single_instance::AcquireError;
use crate::text::{
    lossy_text, push_signed, same_text, signed_decimal, starts_with, text_lossy,
};

verus! {

/// Facts about the build, which the window shows.
#[derive(Debug)]
pub struct BuildInfo {
    /// The commit hash, as eight characters.
    pub local_commit: [u8; 8],
    pub version: &'static str,
    pub build_time: &'static str,
    pub rust_version: &'static str,
    pub source_url: &'static str,
}

/// The commit of this build as text, or a placeholder where it is not known or
/// is no text.
pub fn local_commit_str(commit: Option<[u8; 8]>) -> (text: String)
    ensures
        text@ == (match commit_string(commit) {
            Some(known) => known,
            None => "????????"@,
        }),
{
    match peer_commit_to_string(commit) {
        Some(text) => text,
        None => "????????".to_owned(),
    }
}

/// Why the window ended other than by being closed.
#[derive(Debug, PartialEq, Eq, Clone, Copy, Structural)]
pub enum GtkError {
    NonZeroExitCode(i32),
}

impl GtkError {
    pub open spec fn text(self) -> Seq<char> {
        match self {
            GtkError::NonZeroExitCode(code) => "gtk frontend exited with non zero exit code: "@
                + signed_decimal(code as int),
        }
    }

    /// Describes the error.
    pub fn describe(&self) -> (text: String)
        ensures
            text@ == self.text(),
    {
        let mut out = String::new();
        match self {
            GtkError::NonZeroExitCode(code) => {
                out.append("gtk frontend exited with non zero exit code: ");
                push_signed(&mut out, *code as i64);
            },
        }
        assert(out@ =~= self.text());
        out
    }
}

/// What the exit code of the window means.
pub open spec fn meaning_of(code: i32) -> Result<(), GtkError> {
    if code == 0 {
        Ok(())
    } else {
        Err(GtkError::NonZeroExitCode(code))
    }
}

/// What the exit code of the window means.
pub fn exit_result(code: i32) -> (result: Result<(), GtkError>)
    ensures
        result == meaning_of(code),
{
    if code == 0 {
        Ok(())
    } else {
        Err(GtkError::NonZeroExitCode(code))
    }
}

/// How the window starts.
#[derive(Debug, PartialEq, Eq, Clone, Copy, Structural)]
pub enum Start {
    /// The lock is held.
    Run,
    /// The lock cannot be had, which is no reason to be without a window.
    RunWithoutLock,
    /// Another window is open: end without an error.
    Quit,
}

/// How the window starts, by what came of taking the lock.
pub open spec fn starts(lock: Result<(), AcquireError>) -> Start {
    match lock {
        Ok(()) => Start::Run,
        Err(AcquireError::AlreadyRunning) => Start::Quit,
        Err(_) => Start::RunWithoutLock,
    }
}

/// How the window starts, by what came of taking the lock.
pub fn start(lock: &Result<(), AcquireError>) -> (how: Start)
    ensures
        how == starts(*lock),
{
    match lock {
        Ok(()) => Start::Run,
        Err(AcquireError::AlreadyRunning) => Start::Quit,
        Err(_) => Start::RunWithoutLock,
    }
}

/// An event of the daemon.
#[derive(Debug)]
pub enum FrontendEvent {
    Created(ClientHandle, ClientConfig, ClientState),
    Deleted(ClientHandle),
    State(ClientHandle, ClientConfig, ClientState),
    NoSuchClient(ClientHandle),
    Error(String),
    Enumerate(Vec<(ClientHandle, ClientConfig, ClientState)>),
    /// The port, with why it is another one than was asked for.
    PortChanged(u16, Option<String>),
    /// Whether input is captured.
    CaptureStatus(bool),
    /// Whether input is emulated.
    EmulationStatus(bool),
    /// Fingerprints with their descriptions.
    AuthorizedUpdated(Vec<(String, String)>),
    PublicKeyFingerprint(String),
    ConnectionAttempt { fingerprint: String },
    DeviceConnected { fingerprint: String, addr: SocketAddr },
    /// With the side that the pointer entered at, as text.
    DeviceEntered { fingerprint: String, addr: SocketAddr, pos: String },
    IncomingDisconnected(SocketAddr),
    ReleaseThreshold(u32),
    ReleaseBind(Vec<Linux>),
    MdnsDiscovery(bool),
    SuppressedAppsUpdated(Vec<String>),
    RunningApps(Vec<String>),
}

/// What the window is asked to do.
#[derive(Debug)]
pub enum WindowCall {
    NewClient(ClientHandle, ClientConfig, ClientState),
    DeleteClient(ClientHandle),
    UpdateClientConfig(ClientHandle, ClientConfig),
    UpdateClientState(ClientHandle, ClientState),
    UpdateClientList(Vec<(ClientHandle, ClientConfig, ClientState)>),
    /// Show a text for a moment.
    ShowToast(String),
    UpdatePort(u16, Option<String>),
    SetCapture(bool),
    SetEmulation(bool),
    SetAuthorizedKeys(Vec<(String, String)>),
    SetFingerprint(String),
    RequestAuthorization(String),
    SetReleaseThreshold(u32),
    SetReleaseBind(Vec<Linux>),
    SetMdnsDiscovery(bool),
    SetSuppressedApps(Vec<String>),
    SetRunningApps(Vec<String>),
    /// Bring the window to the front.
    Present,
    /// Show anew whether input is captured and emulated.
    RefreshStatus,
    /// Tell the user that the program has to be started again.
    ShowRelaunchRequired,
    /// Quit, with a forced exit prepared (see [`QuitBackstop`]).
    Quit,
}

/// What the window learns from the system.
#[derive(Debug, PartialEq, Eq, Clone, Copy, Structural)]
pub enum SystemChange {
    /// The window has been built. `hidden` tells whether the user wants it to
    /// come up in the menu bar only, which macOS has.
    Started { macos: bool, hidden: bool },
    /// The user allowed the program to control the computer.
    AccessibilityGranted,
    /// The user took that back.
    AccessibilityRevoked,
}

/// What a change asks the window to do. A permission that is granted takes
/// effect with the next start only. One that is taken back ends the program at
/// once, since it could block all input.
pub open spec fn calls_on(change: SystemChange) -> Seq<WindowCall> {
    match change {
        SystemChange::Started { macos, hidden } => if macos && hidden {
            seq![]
        } else {
            seq![WindowCall::Present]
        },
        SystemChange::AccessibilityGranted => seq![
            WindowCall::Present,
            WindowCall::RefreshStatus,
            WindowCall::ShowRelaunchRequired,
        ],
        SystemChange::AccessibilityRevoked => seq![WindowCall::Quit],
    }
}

/// What a change asks the window to do, in order.
pub fn system_calls(change: SystemChange) -> (calls: Vec<WindowCall>)
    ensures
        calls@ == calls_on(change),
{
    let mut calls: Vec<WindowCall> = Vec::new();
    match change {
        SystemChange::Started { macos, hidden } => if !(macos && hidden) {
            calls.push(WindowCall::Present);
        },
        SystemChange::AccessibilityGranted => {
            calls.push(WindowCall::Present);
            calls.push(WindowCall::RefreshStatus);
            calls.push(WindowCall::ShowRelaunchRequired);
        },
        SystemChange::AccessibilityRevoked => calls.push(WindowCall::Quit),
    }
    calls
}

/// The text that an event shows for a moment, where it shows one.
pub open spec fn toast_of(event: FrontendEvent) -> Option<Seq<char>> {
    match event {
        FrontendEvent::Error(e) => Some(e@),
        FrontendEvent::DeviceConnected { addr, .. } => Some(
            "device connected: "@ + socket_text(addr),
        ),
        FrontendEvent::DeviceEntered { addr, pos, .. } => Some(
            "device entered: "@ + socket_text(addr) + " ("@ + pos@ + ")"@,
        ),
        FrontendEvent::IncomingDisconnected(addr) => Some(socket_text(addr) + " disconnected"@),
        _ => None,
    }
}

/// What an event asks the window to do, where it shows no text for a moment.
pub open spec fn calls_of(event: FrontendEvent) -> Seq<WindowCall> {
    match event {
        FrontendEvent::Created(handle, client, state) => seq![
            WindowCall::NewClient(handle, client, state),
        ],
        FrontendEvent::Deleted(handle) => seq![WindowCall::DeleteClient(handle)],
        FrontendEvent::State(handle, client, state) => seq![
            WindowCall::UpdateClientConfig(handle, client),
            WindowCall::UpdateClientState(handle, state),
        ],
        FrontendEvent::Enumerate(clients) => seq![WindowCall::UpdateClientList(clients)],
        FrontendEvent::PortChanged(port, msg) => seq![WindowCall::UpdatePort(port, msg)],
        FrontendEvent::CaptureStatus(on) => seq![WindowCall::SetCapture(on)],
        FrontendEvent::EmulationStatus(on) => seq![WindowCall::SetEmulation(on)],
        FrontendEvent::AuthorizedUpdated(keys) => seq![WindowCall::SetAuthorizedKeys(keys)],
        FrontendEvent::PublicKeyFingerprint(fp) => seq![WindowCall::SetFingerprint(fp)],
        FrontendEvent::ConnectionAttempt { fingerprint } => seq![
            WindowCall::RequestAuthorization(fingerprint),
        ],
        FrontendEvent::ReleaseThreshold(threshold) => seq![
            WindowCall::SetReleaseThreshold(threshold),
        ],
        FrontendEvent::ReleaseBind(chord) => seq![WindowCall::SetReleaseBind(chord)],
        FrontendEvent::MdnsDiscovery(on) => seq![WindowCall::SetMdnsDiscovery(on)],
        FrontendEvent::SuppressedAppsUpdated(apps) => seq![WindowCall::SetSuppressedApps(apps)],
        FrontendEvent::RunningApps(apps) => seq![WindowCall::SetRunningApps(apps)],
        _ => seq![],
    }
}

fn device_text(before: &str, addr: SocketAddr) -> (text: String)
    ensures
        text@ == before@ + socket_text(addr),
{
    let mut text = String::new();
    text.append(before);
    text.append(addr.to_text().as_str());
    assert(text@ =~= before@ + socket_text(addr));
    text
}

/// `calls` is what an event asks the window to do, in order.
pub open spec fn shown_by(event: FrontendEvent, calls: Seq<WindowCall>) -> bool {
    match toast_of(event) {
        Some(text) => calls.len() == 1 && (calls[0] matches WindowCall::ShowToast(shown) && shown@
            == text),
        None => calls =~= calls_of(event),
    }
}

/// What an event asks the window to do, in order.
pub fn window_calls(event: FrontendEvent) -> (calls: Vec<WindowCall>)
    ensures
        shown_by(event, calls@),
{
    let mut calls: Vec<WindowCall> = Vec::new();
    match event {
        FrontendEvent::Created(handle, client, state) => calls.push(
            WindowCall::NewClient(handle, client, state),
        ),
        FrontendEvent::Deleted(handle) => calls.push(WindowCall::DeleteClient(handle)),
        FrontendEvent::State(handle, client, state) => {
            calls.push(WindowCall::UpdateClientConfig(handle, client));
            calls.push(WindowCall::UpdateClientState(handle, state));
        },
        FrontendEvent::NoSuchClient(_) => {},
        FrontendEvent::Error(e) => calls.push(WindowCall::ShowToast(e)),
        FrontendEvent::Enumerate(clients) => calls.push(WindowCall::UpdateClientList(clients)),
        FrontendEvent::PortChanged(port, msg) => calls.push(WindowCall::UpdatePort(port, msg)),
        FrontendEvent::CaptureStatus(on) => calls.push(WindowCall::SetCapture(on)),
        FrontendEvent::EmulationStatus(on) => calls.push(WindowCall::SetEmulation(on)),
        FrontendEvent::AuthorizedUpdated(keys) => calls.push(WindowCall::SetAuthorizedKeys(keys)),
        FrontendEvent::PublicKeyFingerprint(fp) => calls.push(WindowCall::SetFingerprint(fp)),
        FrontendEvent::ConnectionAttempt { fingerprint } => calls.push(
            WindowCall::RequestAuthorization(fingerprint),
        ),
        FrontendEvent::DeviceConnected { fingerprint: _, addr } => calls.push(
            WindowCall::ShowToast(device_text("device connected: ", addr)),
        ),
        FrontendEvent::DeviceEntered { fingerprint: _, addr, pos } => {
            let mut text = device_text("device entered: ", addr);
            text.append(" (");
            text.append(pos.as_str());
            text.append(")");
            calls.push(WindowCall::ShowToast(text));
        },
        FrontendEvent::IncomingDisconnected(addr) => {
            let mut text = addr.to_text();
            text.append(" disconnected");
            calls.push(WindowCall::ShowToast(text));
        },
        FrontendEvent::ReleaseThreshold(threshold) => calls.push(
            WindowCall::SetReleaseThreshold(threshold),
        ),
        FrontendEvent::ReleaseBind(chord) => calls.push(WindowCall::SetReleaseBind(chord)),
        FrontendEvent::MdnsDiscovery(on) => calls.push(WindowCall::SetMdnsDiscovery(on)),
        FrontendEvent::SuppressedAppsUpdated(apps) => calls.push(
            WindowCall::SetSuppressedApps(apps),
        ),
        FrontendEvent::RunningApps(apps) => calls.push(WindowCall::SetRunningApps(apps)),
    }
    calls
}

/// How often the window looks for a daemon that has gone away.
pub const RECONNECT_ATTEMPTS: u32 = 10;

/// How long it waits before each look, in seconds.
pub const RECONNECT_PAUSE: u32 = 1;

/// What the window got from the daemon.
#[derive(Debug)]
pub enum IpcMsg {
    Event(FrontendEvent),
    /// The connection has ended.
    Disconnected,
}

/// What the window does next about its connection to the daemon.
#[derive(Debug)]
pub enum LinkStep {
    /// Do what the event asks for (see [`window_calls`]), and wait for the next
    /// one.
    Show(FrontendEvent),
    /// Wait so many seconds, and try to connect.
    TryAfter(u32),
    /// The connection is there again: wait for the next event.
    Resume,
    /// End with an error.
    Exit,
}

/// The window's connection to the daemon.
#[derive(Debug, PartialEq, Eq, Clone, Copy, Structural)]
pub struct DaemonLink {
    /// How often the window will still look for the daemon, where it is looking.
    pub looks_left: Option<u32>,
}

impl DaemonLink {
    /// A connection that is there.
    pub fn new() -> (link: DaemonLink)
        ensures
            link.looks_left is None,
    {
        DaemonLink { looks_left: None }
    }

    /// A message came, or none can come any more.
    pub fn received(&mut self, msg: Option<IpcMsg>) -> (step: LinkStep)
        ensures
            (*final(self), step) == old(self).after_message(msg),
    {
        match msg {
            Some(IpcMsg::Event(event)) => LinkStep::Show(event),
            Some(IpcMsg::Disconnected) => {
                self.looks_left = Some(RECONNECT_ATTEMPTS);
                LinkStep::TryAfter(RECONNECT_PAUSE)
            },
            None => LinkStep::Exit,
        }
    }

    /// What follows a message, or the end of all messages.
    pub open spec fn after_message(self, msg: Option<IpcMsg>) -> (DaemonLink, LinkStep) {
        match msg {
            Some(IpcMsg::Event(event)) => (self, LinkStep::Show(event)),
            Some(IpcMsg::Disconnected) => (
                DaemonLink { looks_left: Some(RECONNECT_ATTEMPTS) },
                LinkStep::TryAfter(RECONNECT_PAUSE),
            ),
            None => (self, LinkStep::Exit),
        }
    }

    /// What follows a look for the daemon.
    pub open spec fn after_look(self, connected: bool) -> (DaemonLink, LinkStep) {
        match self.looks_left {
            _ if connected => (DaemonLink { looks_left: None }, LinkStep::Resume),
            Some(left) if left > 1 => (
                DaemonLink { looks_left: Some((left - 1) as u32) },
                LinkStep::TryAfter(RECONNECT_PAUSE),
            ),
            _ => (DaemonLink { looks_left: None }, LinkStep::Exit),
        }
    }

    /// The window looked for the daemon.
    pub fn looked(&mut self, connected: bool) -> (step: LinkStep)
        ensures
            (*final(self), step) == old(self).after_look(connected),
    {
        if connected {
            self.looks_left = None;
            return LinkStep::Resume;
        }
        match self.looks_left {
            Some(left) if left > 1 => {
                self.looks_left = Some(left - 1);
                LinkStep::TryAfter(RECONNECT_PAUSE)
            },
            _ => {
                self.looks_left = None;
                LinkStep::Exit
            },
        }
    }
}

/// The link after `n` looks in vain, with the step that follows the last.
pub open spec fn after_vain_looks(link: DaemonLink, n: nat) -> (DaemonLink, LinkStep)
    decreases n,
{
    if n == 0 {
        (link, LinkStep::TryAfter(RECONNECT_PAUSE))
    } else {
        after_vain_looks(link, (n - 1) as nat).0.after_look(false)
    }
}

/// Where the daemon does not come back, the window looks for it as often as it
/// should, each time after the pause, and ends after the last look.
pub proof fn law_looking_for_the_daemon_ends(n: nat)
    requires
        1 <= n <= RECONNECT_ATTEMPTS,
    ensures
        after_vain_looks(DaemonLink { looks_left: Some(RECONNECT_ATTEMPTS) }, n).1 == (if n
            == RECONNECT_ATTEMPTS {
            LinkStep::Exit
        } else {
            LinkStep::TryAfter(RECONNECT_PAUSE)
        }),
        n < RECONNECT_ATTEMPTS ==> after_vain_looks(
            DaemonLink { looks_left: Some(RECONNECT_ATTEMPTS) },
            n,
        ).0.looks_left == Some((RECONNECT_ATTEMPTS - n) as u32),
    decreases n,
{
    if n > 1 {
        law_looking_for_the_daemon_ends((n - 1) as nat);
    } else {
        reveal_with_fuel(after_vain_looks, 2);
    }
}

/// A field of a log record.
#[derive(Debug)]
pub struct LogField {
    pub key: String,
    /// The value, where it is text.
    pub value: Option<String>,
}

/// The value of the last field with that key, where it is text.
pub open spec fn field_value(fields: Seq<LogField>, key: Seq<char>) -> Option<Seq<char>>
    decreases fields.len(),
{
    if fields.len() == 0 {
        None
    } else if fields.last().key@ == key {
        crate::text::text_view(fields.last().value)
    } else {
        field_value(fields.drop_last(), key)
    }
}

/// Where the last field with that key is.
fn find_field(fields: &Vec<LogField>, key: &str) -> (at: Option<usize>)
    ensures
        match at {
            Some(i) => i < fields@.len() && field_value(fields@, key@) == crate::text::text_view(
                fields@[i as int].value,
            ),
            None => field_value(fields@, key@) is None,
        },
{
    let mut n: usize = fields.len();
    assert(fields@.take(n as int) =~= fields@);
    while n > 0
        invariant
            n <= fields@.len(),
            field_value(fields@, key@) == field_value(fields@.take(n as int), key@),
        decreases n,
    {
        let ghost now = fields@.take(n as int);
        assert(now.drop_last() =~= fields@.take(n - 1));
        assert(now.last() == fields@[n - 1]);
        if same_text(fields[n - 1].key.as_str(), key) {
            return Some(n - 1);
        }
        n -= 1;
    }
    None
}

/// A warning is one of those about the toolkit's own style sheet.
pub open spec fn theme_warning(fields: Seq<LogField>) -> bool {
    field_value(fields, "GLIB_DOMAIN"@) == Some("Gtk"@) && (field_value(
        fields,
        "MESSAGE"@,
    ) matches Some(message) && "Theme parser warning: gtk.css:"@.is_prefix_of(message))
}

/// Whether a warning is one of those that the toolkit gives on every start of
/// the bundle, about its own style sheet.
pub fn is_gtk_theme_parser_warning(fields: &Vec<LogField>) -> (is: bool)
    ensures
        is == theme_warning(fields@),
{
    let domain: bool = match find_field(fields, "GLIB_DOMAIN") {
        Some(i) => match &fields[i].value {
            Some(value) => same_text(value.as_str(), "Gtk"),
            None => false,
        },
        None => false,
    };
    let message: bool = match find_field(fields, "MESSAGE") {
        Some(i) => match &fields[i].value {
            Some(value) => starts_with(value.as_str(), "Theme parser warning: gtk.css:"),
            None => false,
        },
        None => false,
    };
    domain && message
}

/// What a bundle sets in the environment of the window, as paths.
#[derive(Debug)]
pub struct BundleEnvironment {
    /// For `GSETTINGS_SCHEMA_DIR`.
    pub schemas: Option<Vec<u8>>,
    /// For `XDG_DATA_DIRS`.
    pub data: Vec<u8>,
    /// For `GTK_DATA_PREFIX`, as text.
    pub prefix: String,
}

/// Where a bundle keeps its shared data.
pub open spec fn bundle_share(contents: Seq<u8>) -> Seq<u8> {
    joined_path(joined_path(contents, utf8("Resources"@)), utf8("share"@))
}

/// Where a bundle keeps its settings schemas.
pub open spec fn bundle_schemas(contents: Seq<u8>) -> Seq<u8> {
    joined_path(joined_path(bundle_share(contents), utf8("glib-2.0"@)), utf8("schemas"@))
}

/// Where a bundle keeps its shared data and its settings schemas.
pub fn bundle_paths(contents: &[u8]) -> (paths: (Vec<u8>, Vec<u8>))
    ensures
        paths.0@ == bundle_share(contents@),
        paths.1@ == bundle_schemas(contents@),
{
    let resources = join_path(contents, "Resources");
    let share = join_path(resources.as_slice(), "share");
    let glib = join_path(share.as_slice(), "glib-2.0");
    let schemas = join_path(glib.as_slice(), "schemas");
    (share, schemas)
}

/// `env` is what a bundle sets in the environment of the window.
pub open spec fn bundle_sets(
    contents: Seq<u8>,
    share_exists: bool,
    schemas_exist: bool,
    env: Option<BundleEnvironment>,
) -> bool {
    match env {
        Some(e) => {
            &&& share_exists
            &&& e.data@ == bundle_share(contents)
            &&& e.prefix@ == lossy_text(joined_path(contents, utf8("Resources"@)))
            &&& match e.schemas {
                Some(s) => schemas_exist && s@ == bundle_schemas(contents),
                None => !schemas_exist,
            }
        },
        None => !share_exists,
    }
}

/// What a bundle sets in the environment of the window: nothing where its
/// shared data is not there.
pub fn bundle_environment(contents: &[u8], share_exists: bool, schemas_exist: bool) -> (env: Option<
    BundleEnvironment,
>)
    ensures
        bundle_sets(contents@, share_exists, schemas_exist, env),
{
    if !share_exists {
        return None;
    }
    let (share, schemas) = bundle_paths(contents);
    Some(
        BundleEnvironment {
            schemas: if schemas_exist {
                Some(schemas)
            } else {
                None
            },
            data: share,
            prefix: text_lossy(join_path(contents, "Resources").as_slice()),
        },
    )
}

/// Whether a forced exit has been prepared, for a quit that gets stuck.
#[derive(Debug, PartialEq, Eq, Clone, Copy, Structural)]
pub struct QuitBackstop {
    pub armed: bool,
}

impl QuitBackstop {
    pub fn new() -> (backstop: QuitBackstop)
        ensures
            !backstop.armed,
    {
        QuitBackstop { armed: false }
    }

    /// What a requested quit leads to.
    pub open spec fn after_request(self) -> (QuitBackstop, bool) {
        (QuitBackstop { armed: true }, !self.armed)
    }

    /// A quit is requested. Returns whether a forced exit is to be prepared:
    /// the first time only.
    pub fn request(&mut self) -> (arm: bool)
        ensures
            (*final(self), arm) == old(self).after_request(),
    {
        let arm: bool = !self.armed;
        self.armed = true;
        arm
    }
}

/// The window ends well with the code zero and with no other, and the code is
/// what is reported.
pub proof fn law_codes_are_reported(code: i32)
    ensures
        meaning_of(code) is Ok <==> code == 0,
        meaning_of(code) matches Err(GtkError::NonZeroExitCode(c)) ==> c == code,
{
}

/// A window opens unless another one is open: also where the lock cannot be had.
pub proof fn law_a_window_opens_unless_one_is_open(lock: Result<(), AcquireError>)
    ensures
        starts(lock) is Quit <==> lock is Err && lock->Err_0 is AlreadyRunning,
        starts(lock) is Run <==> lock is Ok,
{
}

/// Every event of the daemon reaches the window as what it says: of a client,
/// with its handle and what it is then; of anything else, with its value. Only
/// that there is no such client is not shown.
pub proof fn law_events_are_shown(event: FrontendEvent, calls: Seq<WindowCall>)
    requires
        shown_by(event, calls),
    ensures
        event is NoSuchClient <==> calls.len() == 0,
        match event {
            FrontendEvent::Created(h, c, s) => calls == seq![WindowCall::NewClient(h, c, s)],
            FrontendEvent::Deleted(h) => calls == seq![WindowCall::DeleteClient(h)],
            FrontendEvent::State(h, c, s) => calls == seq![
                WindowCall::UpdateClientConfig(h, c),
                WindowCall::UpdateClientState(h, s),
            ],
            FrontendEvent::NoSuchClient(_) => true,
            FrontendEvent::Error(e) => calls.len() == 1 && (calls[0] matches WindowCall::ShowToast(
                text,
            ) && text@ == e@),
            FrontendEvent::Enumerate(list) => calls == seq![WindowCall::UpdateClientList(list)],
            FrontendEvent::PortChanged(p, m) => calls == seq![WindowCall::UpdatePort(p, m)],
            FrontendEvent::CaptureStatus(on) => calls == seq![WindowCall::SetCapture(on)],
            FrontendEvent::EmulationStatus(on) => calls == seq![WindowCall::SetEmulation(on)],
            FrontendEvent::AuthorizedUpdated(k) => calls == seq![WindowCall::SetAuthorizedKeys(k)],
            FrontendEvent::PublicKeyFingerprint(f) => calls == seq![WindowCall::SetFingerprint(f)],
            FrontendEvent::ConnectionAttempt { fingerprint } => calls == seq![
                WindowCall::RequestAuthorization(fingerprint),
            ],
            FrontendEvent::DeviceConnected { addr, .. } => calls.len() == 1 && (calls[0] matches
                WindowCall::ShowToast(text) && text@ == "device connected: "@ + socket_text(addr)),
            FrontendEvent::DeviceEntered { addr, pos, .. } => calls.len() == 1 && (calls[0] matches
                WindowCall::ShowToast(text) && text@ == "device entered: "@ + socket_text(addr)
                + " ("@ + pos@ + ")"@),
            FrontendEvent::IncomingDisconnected(addr) => calls.len() == 1 && (calls[0] matches
                WindowCall::ShowToast(text) && text@ == socket_text(addr) + " disconnected"@),
            FrontendEvent::ReleaseThreshold(t) => calls == seq![WindowCall::SetReleaseThreshold(t)],
            FrontendEvent::ReleaseBind(c) => calls == seq![WindowCall::SetReleaseBind(c)],
            FrontendEvent::MdnsDiscovery(on) => calls == seq![WindowCall::SetMdnsDiscovery(on)],
            FrontendEvent::SuppressedAppsUpdated(a) => calls == seq![
                WindowCall::SetSuppressedApps(a),
            ],
            FrontendEvent::RunningApps(a) => calls == seq![WindowCall::SetRunningApps(a)],
        },
{
}

/// A lost daemon is looked for ten times, a second apart, and as soon as it is
/// found the window goes on; only then, or where no message can come any more,
/// does the window end.
pub proof fn law_lost_daemons_are_looked_for(
    link: DaemonLink,
    event: FrontendEvent,
    left: u32,
)
    ensures
        link.after_message(Some(IpcMsg::Event(event))) == (link, LinkStep::Show(event)),
        link.after_message(Some(IpcMsg::Disconnected)) == (
            DaemonLink { looks_left: Some(10) },
            LinkStep::TryAfter(1),
        ),
        link.after_message(None).1 is Exit,
        link.after_look(true) == (DaemonLink { looks_left: None }, LinkStep::Resume),
        left > 1 ==> (DaemonLink { looks_left: Some(left) }).after_look(false) == (
            DaemonLink { looks_left: Some((left - 1) as u32) },
            LinkStep::TryAfter(1),
        ),
        left <= 1 ==> (DaemonLink { looks_left: Some(left) }).after_look(false).1 is Exit,
{
}

/// A permission that is taken back ends the program and does nothing else; one
/// that is granted brings the window up and tells that a new start is needed. A
/// window that starts shows itself, unless it is to stay in the menu bar.
pub proof fn law_permissions_are_heeded(change: SystemChange)
    ensures
        calls_on(change).contains(WindowCall::Quit) <==> change is AccessibilityRevoked,
        change is AccessibilityRevoked ==> calls_on(change).len() == 1,
        change is AccessibilityGranted ==> calls_on(change).len() == 3 && calls_on(change)[0]
            is Present && calls_on(change)[1] is RefreshStatus && calls_on(change)[2]
            is ShowRelaunchRequired,
        change matches SystemChange::Started { macos, hidden } ==> (calls_on(change).len() == 0 <==> (
        macos && hidden)) && (!(macos && hidden) ==> calls_on(change).len() == 1 && calls_on(
            change,
        )[0] is Present),
{
    let calls = calls_on(change);
    if change is AccessibilityRevoked {
        assert(calls[0] == WindowCall::Quit);
    }
}

/// Nothing is kept from the log but what the toolkit says of its own style sheet:
/// no other part of the program is silenced, and no other message of it.
pub proof fn law_only_theme_warnings_are_silenced(
    fields: Seq<LogField>,
    domain: Seq<char>,
    message: Seq<char>,
)
    requires
        field_value(fields, "GLIB_DOMAIN"@) == Some(domain),
        field_value(fields, "MESSAGE"@) == Some(message),
    ensures
        theme_warning(fields) <==> domain == "Gtk"@
            && "Theme parser warning: gtk.css:"@.is_prefix_of(message),
{
}

/// Of several fields with one key the last one counts.
pub proof fn law_the_last_field_counts(fields: Seq<LogField>, field: LogField, key: Seq<char>)
    ensures
        field.key@ == key ==> field_value(fields.push(field), key) == crate::text::text_view(
            field.value,
        ),
        field.key@ != key ==> field_value(fields.push(field), key) == field_value(fields, key),
        field_value(Seq::empty(), key) is None,
{
    assert(fields.push(field).drop_last() =~= fields);
}

/// A bundle keeps its data in its resources, and its schemas in its data.
pub proof fn law_bundles_keep_their_resources(contents: Seq<u8>)
    ensures
        bundle_share(contents) == joined_path(
            joined_path(contents, utf8("Resources"@)),
            utf8("share"@),
        ),
        bundle_schemas(contents) == joined_path(
            joined_path(bundle_share(contents), utf8("glib-2.0"@)),
            utf8("schemas"@),
        ),
{
}

/// A bundle with shared data points the window to it, and to its schemas where it
/// has them; one without sets nothing.
pub proof fn law_bundles_point_to_what_they_have(
    contents: Seq<u8>,
    share_exists: bool,
    schemas_exist: bool,
    env: Option<BundleEnvironment>,
)
    requires
        bundle_sets(contents, share_exists, schemas_exist, env),
    ensures
        env is Some <==> share_exists,
        env matches Some(e) ==> (e.schemas is Some <==> schemas_exist) && e.data@ == joined_path(
            joined_path(contents, utf8("Resources"@)),
            utf8("share"@),
        ) && e.prefix@ == lossy_text(joined_path(contents, utf8("Resources"@))),
{
}

/// A forced exit is prepared with the first request to quit, and with no other.
pub proof fn law_one_forced_exit_is_prepared(backstop: QuitBackstop)
    requires
        !backstop.armed,
    ensures
        backstop.after_request().1,
        !backstop.after_request().0.after_request().1,
        backstop.after_request().0.after_request().0 == backstop.after_request().0,
{
}

} // verus!
