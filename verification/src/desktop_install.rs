//! Desktop integration of a program that was installed without a package: an
//! icon and a desktop entry in the user's data directory, written once.
use vstd::prelude::*;
use vstd::string::{StrSliceExecFns, StringExecFns};
use crate::bytes::copy_range;
use crate::paths::{join_path, joined_path, path_view, utf8};
use crate::text::{starts_with, text_from_utf8};

verus! {

/// Neither the directory's own variable nor `HOME` is set.
#[derive(Debug, PartialEq, Eq, Clone, Copy, Structural)]
pub enum HomeError {
    NoDataHome,
    NoStateHome,
}

impl HomeError {
    /// Describes the error.
    pub fn describe(&self) -> (text: &'static str)
        ensures
            text@ == (match self {
                HomeError::NoDataHome => "neither XDG_DATA_HOME nor HOME is set"@,
                HomeError::NoStateHome => "neither XDG_STATE_HOME nor HOME is set"@,
            }),
    {
        match self {
            HomeError::NoDataHome => "neither XDG_DATA_HOME nor HOME is set",
            HomeError::NoStateHome => "neither XDG_STATE_HOME nor HOME is set",
        }
    }
}

/// A directory: its own variable where that is set to something, or else a
/// place beneath `HOME`.
pub open spec fn home_dir(own: Option<Seq<u8>>, home: Option<Seq<u8>>, fallback: Seq<u8>) -> Option<
    Seq<u8>,
> {
    match (own, home) {
        (Some(dir), _) if dir.len() > 0 => Some(dir),
        (_, Some(h)) => Some(joined_path(h, fallback)),
        (_, None) => None,
    }
}

fn resolve_home(own: Option<&[u8]>, home: Option<&[u8]>, fallback: &str) -> (dir: Option<Vec<u8>>)
    ensures
        match dir {
            Some(d) => home_dir(path_view(own), path_view(home), utf8(fallback@)) == Some(d@),
            None => home_dir(path_view(own), path_view(home), utf8(fallback@)) is None,
        },
{
    if let Some(d) = own {
        if d.len() > 0 {
            let copy = copy_range(d, 0, d.len());
            assert(copy@ =~= d@);
            return Some(copy);
        }
    }
    match home {
        Some(h) => Some(join_path(h, fallback)),
        None => None,
    }
}

/// The user's data directory: `XDG_DATA_HOME`, or else `~/.local/share`.
pub fn xdg_data_home(own: Option<&[u8]>, home: Option<&[u8]>) -> (dir: Result<Vec<u8>, HomeError>)
    ensures
        match dir {
            Ok(d) => home_dir(path_view(own), path_view(home), utf8(".local/share"@)) == Some(d@),
            Err(e) => home_dir(path_view(own), path_view(home), utf8(".local/share"@)) is None && e
                == HomeError::NoDataHome,
        },
{
    match resolve_home(own, home, ".local/share") {
        Some(d) => Ok(d),
        None => Err(HomeError::NoDataHome),
    }
}

/// The user's state directory: `XDG_STATE_HOME`, or else `~/.local/state`.
pub fn xdg_state_home(own: Option<&[u8]>, home: Option<&[u8]>) -> (dir: Result<Vec<u8>, HomeError>)
    ensures
        match dir {
            Ok(d) => home_dir(path_view(own), path_view(home), utf8(".local/state"@)) == Some(d@),
            Err(e) => home_dir(path_view(own), path_view(home), utf8(".local/state"@)) is None && e
                == HomeError::NoStateHome,
        },
{
    match resolve_home(own, home, ".local/state") {
        Some(d) => Ok(d),
        None => Err(HomeError::NoStateHome),
    }
}

/// Where the marker stands that the integration has been done.
#[derive(Debug)]
pub struct MarkerPaths {
    pub dir: Vec<u8>,
    pub file: Vec<u8>,
}

/// The marker's place in the state directory.
pub fn marker_paths(state_home: &[u8]) -> (paths: MarkerPaths)
    ensures
        paths.dir@ == joined_path(state_home@, utf8("monitorhop"@)),
        paths.file@ == joined_path(paths.dir@, utf8("desktop-install-done"@)),
{
    let dir = join_path(state_home, "monitorhop");
    let file = join_path(dir.as_slice(), "desktop-install-done");
    MarkerPaths { dir, file }
}

/// Where the icon and the desktop entry are written.
#[derive(Debug)]
pub struct InstallPaths {
    pub icon_dir: Vec<u8>,
    pub icon: Vec<u8>,
    pub app_dir: Vec<u8>,
    pub entry: Vec<u8>,
}

/// The places of the icon and of the desktop entry in the data directory.
pub fn install_paths(data_home: &[u8]) -> (paths: InstallPaths)
    ensures
        paths.icon_dir@ == joined_path(data_home@, utf8("icons/hicolor/scalable/apps"@)),
        paths.icon@ == joined_path(paths.icon_dir@, utf8("dev.monitorhop.MonitorHop.svg"@)),
        paths.app_dir@ == joined_path(data_home@, utf8("applications"@)),
        paths.entry@ == joined_path(paths.app_dir@, utf8("dev.monitorhop.MonitorHop.desktop"@)),
{
    let icon_dir = join_path(data_home, "icons/hicolor/scalable/apps");
    let icon = join_path(icon_dir.as_slice(), "dev.monitorhop.MonitorHop.svg");
    let app_dir = join_path(data_home, "applications");
    let entry = join_path(app_dir.as_slice(), "dev.monitorhop.MonitorHop.desktop");
    InstallPaths { icon_dir, icon, app_dir, entry }
}

/// The desktop entry beneath a data directory.
pub open spec fn entry_beneath(dir: Seq<u8>) -> Seq<u8> {
    joined_path(dir, utf8("applications/dev.monitorhop.MonitorHop.desktop"@))
}

/// The desktop entry beneath a data directory.
pub fn entry_path(dir: &[u8]) -> (path: Vec<u8>)
    ensures
        path@ == entry_beneath(dir@),
{
    join_path(dir, "applications/dev.monitorhop.MonitorHop.desktop")
}

/// The parts of a list of directories, which colons separate.
pub open spec fn split_dirs(dirs: Seq<u8>) -> Seq<Seq<u8>>
    decreases dirs.len(),
{
    if dirs.len() == 0 {
        seq![seq![]]
    } else {
        let front = split_dirs(dirs.drop_last());
        if dirs.last() == 0x3a {
            front.push(seq![])
        } else {
            front.drop_last().push(front.last().push(dirs.last()))
        }
    }
}

/// The system's data directories. A variable that is empty or no text counts as
/// unset.
pub open spec fn data_dirs(variable: Option<Seq<u8>>) -> Seq<u8> {
    match variable {
        Some(dirs) if dirs.len() > 0 && vstd::utf8::valid_utf8(dirs) => dirs,
        _ => utf8("/usr/local/share:/usr/share"@),
    }
}

pub open spec fn byte_lists(paths: Seq<Vec<u8>>) -> Seq<Seq<u8>> {
    paths.map_values(|p: Vec<u8>| p@)
}

/// Whether the bytes are text.
fn is_text(bytes: &[u8]) -> (text: bool)
    ensures
        text == vstd::utf8::valid_utf8(bytes@),
{
    let copy = copy_range(bytes, 0, bytes.len());
    assert(copy@ =~= bytes@);
    text_from_utf8(copy).is_ok()
}

/// Where a package would have put the desktop entry: one place beneath each
/// data directory of the system.
pub fn packaged_entry_paths(xdg_data_dirs: Option<&[u8]>) -> (paths: Vec<Vec<u8>>)
    ensures
        byte_lists(paths@) == split_dirs(data_dirs(path_view(xdg_data_dirs))).map_values(
            |d: Seq<u8>| entry_beneath(d),
        ),
{
    let default: &str = "/usr/local/share:/usr/share";
    let dirs: &[u8] = match xdg_data_dirs {
        Some(d) => if d.len() > 0 && is_text(d) {
            d
        } else {
            default.as_bytes()
        },
        None => default.as_bytes(),
    };
    let mut paths: Vec<Vec<u8>> = Vec::new();
    let mut part: Vec<u8> = Vec::new();
    let mut i: usize = 0;
    let ghost done: Seq<Seq<u8>> = seq![];
    while i < dirs.len()
        invariant
            i <= dirs@.len(),
            split_dirs(dirs@.take(i as int)) == done.push(part@),
            byte_lists(paths@) == done.map_values(|d: Seq<u8>| entry_beneath(d)),
        decreases dirs@.len() - i,
    {
        let b: u8 = dirs[i];
        proof {
            assert(dirs@.take(i + 1).drop_last() =~= dirs@.take(i as int));
            assert(dirs@.take(i + 1).last() == b);
            assert(done.push(part@).drop_last() =~= done);
        }
        if b == 0x3a {
            let ghost before = paths@;
            let ghost whole = part@;
            paths.push(entry_path(part.as_slice()));
            part = Vec::new();
            proof {
                assert(byte_lists(paths@) =~= byte_lists(before).push(entry_beneath(whole)));
                assert(done.push(whole).map_values(|d: Seq<u8>| entry_beneath(d)) =~= done.map_values(
                    |d: Seq<u8>| entry_beneath(d),
                ).push(entry_beneath(whole)));
                done = done.push(whole);
                assert(part@ =~= seq![]);
            }
        } else {
            part.push(b);
        }
        i += 1;
    }
    let ghost before = paths@;
    paths.push(entry_path(part.as_slice()));
    proof {
        assert(dirs@.take(i as int) =~= dirs@);
        assert(byte_lists(paths@) =~= byte_lists(before).push(entry_beneath(part@)));
        assert(done.push(part@).map_values(|d: Seq<u8>| entry_beneath(d)) =~= done.map_values(
            |d: Seq<u8>| entry_beneath(d),
        ).push(entry_beneath(part@)));
    }
    paths
}

/// What is left to do at a launch.
#[derive(Debug, PartialEq, Eq, Clone, Copy, Structural)]
pub enum FirstLaunch {
    /// Nothing: the marker is there, or the program runs in a sandbox that
    /// brings its own entry.
    Nothing,
    /// Set the marker: an entry is there.
    Mark,
    /// Install the icon and the entry, then set the marker. Where the
    /// installation fails the marker is not set, so that the next launch tries
    /// again.
    InstallAndMark,
}

pub open spec fn launch_step(
    flatpak: bool,
    marker: bool,
    user_entry: bool,
    packaged_entry: bool,
) -> FirstLaunch {
    if flatpak || marker {
        FirstLaunch::Nothing
    } else if user_entry || packaged_entry {
        FirstLaunch::Mark
    } else {
        FirstLaunch::InstallAndMark
    }
}

/// What is left to do at a launch. `flatpak` tells whether the program runs in
/// a Flatpak, `marker` whether the marker is there, `user_entry` and
/// `packaged_entry` whether the user's or the system's data directories hold
/// the desktop entry.
pub fn ensure_first_launch(
    flatpak: bool,
    marker: bool,
    user_entry: bool,
    packaged_entry: bool,
) -> (step: FirstLaunch)
    ensures
        step == launch_step(flatpak, marker, user_entry, packaged_entry),
{
    if flatpak || marker {
        FirstLaunch::Nothing
    } else if !user_entry && !packaged_entry {
        FirstLaunch::InstallAndMark
    } else {
        FirstLaunch::Mark
    }
}

/// `text` with every occurrence of `from`, from left to right, replaced by
/// `to`.
pub open spec fn replaced(text: Seq<char>, from: Seq<char>, to: Seq<char>) -> Seq<char>
    decreases text.len(),
{
    if text.len() == 0 || from.len() == 0 {
        text
    } else if from.is_prefix_of(text) {
        to + replaced(text.skip(from.len() as int), from, to)
    } else {
        seq![text[0]] + replaced(text.skip(1), from, to)
    }
}

/// The line of the desktop entry that starts the program.
pub open spec fn exec_line(program: Seq<char>) -> Seq<char> {
    "Exec="@ + program + "\n"@
}

/// The desktop entry that starts the program by the path of its executable,
/// for a launcher may not search where it was installed.
pub fn desktop_entry(template: &str, exe: &str) -> (entry: String)
    ensures
        entry@ == replaced(template@, exec_line("monitorhop"@), exec_line(exe@)),
{
    let mut from = String::new();
    from.append("Exec=");
    from.append("monitorhop");
    from.append("\n");
    assert(from@ =~= exec_line("monitorhop"@));
    let mut to = String::new();
    to.append("Exec=");
    to.append(exe);
    to.append("\n");
    assert(to@ =~= exec_line(exe@));
    let step: usize = from.as_str().unicode_len();
    assert(step > 0) by {
        reveal_strlit("Exec=");
    }
    let len: usize = template.unicode_len();
    let mut out = String::new();
    let mut i: usize = 0;
    assert(out@ + replaced(template@.skip(0), from@, to@) =~= replaced(template@, from@, to@)) by {
        assert(template@.skip(0) =~= template@);
    }
    while i < len
        invariant
            i <= len == template@.len(),
            step == from@.len() > 0,
            out@ + replaced(template@.skip(i as int), from@, to@) == replaced(
                template@,
                from@,
                to@,
            ),
        decreases len - i,
    {
        let rest: &str = template.substring_char(i, len);
        let ghost then = out@;
        let ghost tail = template@.skip(i as int);
        assert(rest@ =~= tail);
        if starts_with(rest, from.as_str()) {
            out.append(to.as_str());
            proof {
                assert(tail.skip(step as int) =~= template@.skip(i + step));
                assert(then + replaced(tail, from@, to@) =~= out@ + replaced(
                    template@.skip(i + step),
                    from@,
                    to@,
                ));
            }
            i += step;
        } else {
            out.push(template.get_char(i));
            proof {
                assert(tail.skip(1) =~= template@.skip(i + 1));
                assert(then + replaced(tail, from@, to@) =~= out@ + replaced(
                    template@.skip(i + 1),
                    from@,
                    to@,
                ));
            }
            i += 1;
        }
    }
    assert(out@ + replaced(template@.skip(i as int), from@, to@) =~= out@);
    out
}

/// The text of the marker.
pub fn marker_text() -> (text: &'static str)
    ensures
        text@ == "MonitorHop ran its one-time first-launch desktop integration.\n"@,
{
    "MonitorHop ran its one-time first-launch desktop integration.\n"
}

/// Once the marker is set, nothing is done any more, whatever becomes of the
/// entry; and nothing is ever done inside a Flatpak.
pub proof fn law_integration_is_done_once(
    flatpak: bool,
    marker: bool,
    user_entry: bool,
    packaged_entry: bool,
)
    ensures
        launch_step(flatpak, true, user_entry, packaged_entry) == FirstLaunch::Nothing,
        launch_step(true, marker, user_entry, packaged_entry) == FirstLaunch::Nothing,
{
}

/// The integration is installed exactly where nothing provides it yet, and is
/// noted as done wherever it is provided or has been installed.
pub proof fn law_integration_fills_the_gap(
    flatpak: bool,
    marker: bool,
    user_entry: bool,
    packaged_entry: bool,
)
    ensures
        ({
            let step = launch_step(flatpak, marker, user_entry, packaged_entry);
            &&& step is InstallAndMark <==> !flatpak && !marker && !user_entry && !packaged_entry
            &&& step is Mark <==> !flatpak && !marker && (user_entry || packaged_entry)
            &&& step is Nothing <==> flatpak || marker
        }),
{
}

/// A directory is the one that the user chose, where that is set to something;
/// or else the usual one in the user's home, where that is known.
pub proof fn law_directories_are_the_users(
    own: Option<Seq<u8>>,
    home: Option<Seq<u8>>,
    fallback: Seq<u8>,
)
    ensures
        own matches Some(dir) && dir.len() > 0 ==> home_dir(own, home, fallback) == own,
        (own is None || own->0.len() == 0) && home is Some ==> home_dir(own, home, fallback)
            == Some(joined_path(home->0, fallback)),
        (own is None || own->0.len() == 0) && home is None ==> home_dir(own, home, fallback)
            is None,
{
}

/// The data directories stand between colons: each ends before the next colon.
pub proof fn law_colons_separate_directories(dirs: Seq<u8>, more: Seq<u8>)
    requires
        forall|k: int| 0 <= k < more.len() ==> #[trigger] more[k] != 58,
    ensures
        split_dirs(more) == seq![more],
        split_dirs(dirs + seq![58u8] + more) == split_dirs(dirs).push(more),
    decreases more.len(),
{
    let whole = dirs + seq![58u8] + more;
    if more.len() == 0 {
        assert(whole.drop_last() =~= dirs);
        assert(more =~= Seq::<u8>::empty());
        assert(split_dirs(more) =~= seq![more]);
        assert(split_dirs(whole) =~= split_dirs(dirs).push(more));
    } else {
        let front = more.drop_last();
        assert forall|k: int| 0 <= k < front.len() implies #[trigger] front[k] != 58 by {
            assert(more[k] != 58);
        }
        law_colons_separate_directories(dirs, front);
        assert(whole.drop_last() =~= dirs + seq![58u8] + front);
        assert(more[more.len() - 1] != 58);
        assert(whole.last() == more.last());
        assert(front.push(more.last()) =~= more);
        assert(split_dirs(more) =~= seq![more]);
        assert(split_dirs(whole) =~= split_dirs(dirs).push(more));
    }
}

/// The system's directories are those that are listed; the two usual ones where
/// none are, or where the list is no text.
pub proof fn law_usual_directories_where_none_are_listed(dirs: Seq<u8>)
    ensures
        data_dirs(None) == utf8("/usr/local/share:/usr/share"@),
        dirs.len() == 0 || !vstd::utf8::valid_utf8(dirs) ==> data_dirs(Some(dirs)) == data_dirs(
            None,
        ),
        dirs.len() > 0 && vstd::utf8::valid_utf8(dirs) ==> data_dirs(Some(dirs)) == dirs,
{
}

/// Text in which the pattern does not occur stays as it is; and the first
/// occurrence of the pattern gives way to what replaces it.
pub proof fn law_patterns_are_replaced(
    before: Seq<char>,
    from: Seq<char>,
    to: Seq<char>,
    after: Seq<char>,
)
    requires
        from.len() > 0,
        forall|i: int|
            0 <= i < before.len() ==> !from.is_prefix_of(
                #[trigger] (before + from + after).skip(i),
            ),
    ensures
        replaced(before + from + after, from, to) == before + to + replaced(after, from, to),
        replaced(Seq::empty(), from, to) == Seq::<char>::empty(),
    decreases before.len(),
{
    let whole = before + from + after;
    if before.len() == 0 {
        assert(whole.subrange(0, from.len() as int) =~= from);
        assert(from.is_prefix_of(whole));
        assert(whole.skip(from.len() as int) =~= after);
        assert(replaced(whole, from, to) =~= before + to + replaced(after, from, to));
    } else {
        let rest = before.skip(1);
        let tail = rest + from + after;
        assert(whole.skip(1) =~= tail);
        assert(whole.skip(0) =~= whole);
        assert(!from.is_prefix_of(whole.skip(0)));
        assert forall|i: int| 0 <= i < rest.len() implies !from.is_prefix_of(
            #[trigger] (rest + from + after).skip(i),
        ) by {
            assert(tail.skip(i) =~= whole.skip(i + 1));
        }
        law_patterns_are_replaced(rest, from, to, after);
        assert(replaced(whole, from, to) =~= before + to + replaced(after, from, to));
    }
}

/// The entry has its usual place in a data directory, and the line that starts
/// the program names it by its path.
pub proof fn law_entries_have_their_place(dir: Seq<u8>, program: Seq<char>)
    ensures
        entry_beneath(dir) == joined_path(
            dir,
            utf8("applications/dev.monitorhop.MonitorHop.desktop"@),
        ),
        exec_line(program) == "Exec="@ + program + "\n"@,
{
}

} // verus!
