//! Copying files by the clipboard: a selection of local files travels as an
//! archive, and is unpacked into a directory of its own on the other side.
//! Links, special files, absolute paths and paths that lead upwards are refused
//! on both sides.
//!
//! Paths are bytes, as Unix has them.
use vstd::prelude::*;
use vstd::string::StringExecFns;
use crate::archive::{
    archive_items, clean_path, gap_at, here_at, item_is, item_view, items_view, list_entries,
    listable, packed, unmoved_len, unmoved_part, written_entries, ArchiveItem, ArchiveItemView,
    NewEntry, KIND_DIRECTORY, KIND_FILE,
};
use crate::bytes::{
    bytes_le, copy_range, le_bytes, lemma_bytes_le_total, lemma_bytes_le_transitive, push_all,
    same_bytes,
};
use crate::paths::{join_path, joined_path, path_view, utf8, SEPARATOR};
use crate::text::{decimal, push_decimal, same_text};

verus! {

/// Most bytes of an archive.
pub const MAX_ARCHIVE_SIZE: usize = 67_108_864;

/// Why a selection of files cannot be copied. Paths, and errors of the system,
/// come as text.
#[derive(Debug)]
pub enum FileClipboardError {
    Uri(String),
    Io(String),
    UnsupportedType(String),
    TooLarge,
    UnsafePath,
    UnsafeEntry,
    Empty,
}

impl FileClipboardError {
    pub open spec fn text(self) -> Seq<char> {
        match self {
            FileClipboardError::Uri(uri) => "unsupported clipboard file URI: "@ + uri@,
            FileClipboardError::Io(e) => "clipboard file is unavailable: "@ + e@,
            FileClipboardError::UnsupportedType(path) =>
                "clipboard selection contains an unsupported file type: "@ + path@,
            FileClipboardError::TooLarge => "clipboard archive exceeds the "@ + decimal(
                MAX_ARCHIVE_SIZE as nat,
            ) + " byte safety limit"@,
            FileClipboardError::UnsafePath => "clipboard archive contains an unsafe path"@,
            FileClipboardError::UnsafeEntry =>
                "clipboard archive contains links or special files"@,
            FileClipboardError::Empty => "clipboard archive is empty"@,
        }
    }

    /// Describes the error.
    pub fn describe(&self) -> (text: String)
        ensures
            text@ == self.text(),
    {
        let mut out = String::new();
        match self {
            FileClipboardError::Uri(uri) => {
                out.append("unsupported clipboard file URI: ");
                out.append(uri.as_str());
            },
            FileClipboardError::Io(e) => {
                out.append("clipboard file is unavailable: ");
                out.append(e.as_str());
            },
            FileClipboardError::UnsupportedType(path) => {
                out.append("clipboard selection contains an unsupported file type: ");
                out.append(path.as_str());
            },
            FileClipboardError::TooLarge => {
                out.append("clipboard archive exceeds the ");
                push_decimal(&mut out, MAX_ARCHIVE_SIZE as u64);
                out.append(" byte safety limit");
            },
            FileClipboardError::UnsafePath => out.append(
                "clipboard archive contains an unsafe path",
            ),
            FileClipboardError::UnsafeEntry => out.append(
                "clipboard archive contains links or special files",
            ),
            FileClipboardError::Empty => out.append("clipboard archive is empty"),
        }
        assert(out@ =~= self.text());
        out
    }
}

/// The parts of a URL that matter here.
#[derive(Debug, PartialEq, Eq, Clone)]
pub struct UrlParts {
    pub scheme: String,
    pub has_host: bool,
    /// The path of a file that the URL names, where it names one.
    pub path: Option<Vec<u8>>,
}

/// What a [`UrlParts`] says.
#[verifier::ext_equal]
pub struct UrlPartsView {
    pub scheme: Seq<char>,
    pub has_host: bool,
    pub path: Option<Seq<u8>>,
}

pub open spec fn parts_view(parts: Option<UrlParts>) -> Option<UrlPartsView> {
    match parts {
        Some(p) => Some(
            UrlPartsView {
                scheme: p.scheme@,
                has_host: p.has_host,
                path: match p.path {
                    Some(path) => Some(path@),
                    None => None,
                },
            },
        ),
        None => None,
    }
}

/// What the URL standard makes of a text: nothing where it is no URL.
pub uninterp spec fn url_parts(uri: Seq<char>) -> Option<UrlPartsView>;

/// `url::Url::parse` takes a text apart, where it is a URL; `scheme`, `host`
/// and `to_file_path` give its parts. Which parts a given text has is not
/// stated, only that they depend on nothing else on a Unix system.
#[verifier::external_body]
fn split_url(uri: &str) -> (parts: Option<UrlParts>)
    ensures
        parts_view(parts) == url_parts(uri@),
{
    let url = url::Url::parse(uri).ok()?;
    let path = url.to_file_path().ok().map(|p| p.into_os_string().into_encoded_bytes());
    Some(UrlParts { scheme: url.scheme().to_owned(), has_host: url.host().is_some(), path })
}

/// The path that a URI of the clipboard names: of a URL with the scheme `file`
/// and without a host its path, and of any other text the text itself where it
/// is an absolute path.
pub open spec fn path_of(uri: Seq<char>, parts: Option<UrlPartsView>) -> Option<Seq<u8>> {
    match parts {
        Some(p) => if p.scheme == "file"@ && !p.has_host {
            p.path
        } else {
            None
        },
        None => if is_absolute(uri) {
            Some(utf8(uri))
        } else {
            None
        },
    }
}

/// The path that a URI of the clipboard names, once it has been taken apart.
pub fn path_from_parts(uri: &str, parts: Option<UrlParts>) -> (path: Result<
    Vec<u8>,
    FileClipboardError,
>)
    ensures
        match path {
            Ok(p) => path_of(uri@, parts_view(parts)) == Some(p@),
            Err(e) => path_of(uri@, parts_view(parts)) is None && (e matches
                FileClipboardError::Uri(text) && text@ == uri@),
        },
{
    match parts {
        Some(p) => {
            if !same_text(p.scheme.as_str(), "file") || p.has_host {
                return Err(FileClipboardError::Uri(uri.to_owned()));
            }
            match p.path {
                Some(path) => Ok(path),
                None => Err(FileClipboardError::Uri(uri.to_owned())),
            }
        },
        None => {
            let bytes: &[u8] = uri.as_bytes();
            let absolute: bool = crate::text::starts_with(uri, "/");
            proof {
                reveal_strlit("/");
                if uri@.len() > 0 {
                    assert(uri@.subrange(0, 1)[0] == uri@[0]);
                    if uri@[0] == '/' {
                        assert("/"@ =~= uri@.subrange(0, 1));
                    }
                }
            }
            if absolute {
                let path = copy_range(bytes, 0, bytes.len());
                assert(path@ =~= utf8(uri@));
                Ok(path)
            } else {
                Err(FileClipboardError::Uri(uri.to_owned()))
            }
        },
    }
}

/// The path that a URI of the clipboard names.
pub fn uri_to_path(uri: &str) -> (path: Result<Vec<u8>, FileClipboardError>)
    ensures
        match path {
            Ok(p) => path_of(uri@, url_parts(uri@)) == Some(p@),
            Err(e) => path_of(uri@, url_parts(uri@)) is None && (e matches FileClipboardError::Uri(
                text,
            ) && text@ == uri@),
        },
{
    path_from_parts(uri, split_url(uri))
}

/// `paths` are the paths that the URIs name, one by one, or why there are none.
pub open spec fn selection_named(
    uris: Seq<String>,
    paths: Result<Vec<Vec<u8>>, FileClipboardError>,
) -> bool {
    match paths {
        Ok(ps) => uris.len() > 0 && ps@.len() == uris.len() && forall|i: int|
            0 <= i < ps@.len() ==> path_of(uris[i]@, url_parts(uris[i]@)) == Some(
                #[trigger] ps@[i]@,
            ),
        Err(FileClipboardError::Empty) => uris.len() == 0,
        Err(e) => exists|i: int|
            0 <= i < uris.len() && path_of(#[trigger] uris[i]@, url_parts(uris[i]@)) is None && (
            e matches FileClipboardError::Uri(text) && text@ == uris[i]@) && forall|k: int|
                0 <= k < i ==> path_of(#[trigger] uris[k]@, url_parts(uris[k]@)) is Some,
    }
}

/// The paths of a selection of files. The first URI that names none refuses the
/// selection, and so does its being empty.
pub fn selection_paths(uris: &Vec<String>) -> (paths: Result<Vec<Vec<u8>>, FileClipboardError>)
    ensures
        selection_named(uris@, paths),
{
    if uris.is_empty() {
        return Err(FileClipboardError::Empty);
    }
    let mut paths: Vec<Vec<u8>> = Vec::new();
    let mut i: usize = 0;
    while i < uris.len()
        invariant
            i <= uris@.len(),
            paths@.len() == i,
            forall|k: int|
                0 <= k < i ==> path_of(uris@[k]@, url_parts(uris@[k]@)) == Some(
                    #[trigger] paths@[k]@,
                ),
        decreases uris@.len() - i,
    {
        match uri_to_path(uris[i].as_str()) {
            Ok(path) => paths.push(path),
            Err(e) => {
                proof {
                    assert forall|k: int| 0 <= k < i implies path_of(
                        #[trigger] uris@[k]@,
                        url_parts(uris@[k]@),
                    ) is Some by {
                        assert(path_of(uris@[k]@, url_parts(uris@[k]@)) == Some(paths@[k]@));
                    }
                    assert(path_of(uris@[i as int]@, url_parts(uris@[i as int]@)) is None);
                }
                return Err(e);
            },
        }
        i += 1;
    }
    Ok(paths)
}

/// What is found at a path.
#[derive(Debug)]
pub enum NodeKind {
    File(u64),
    Directory,
    Symlink,
    /// A device, a socket or the like.
    Special,
    /// It could not be looked at: the error as text.
    Unreadable(String),
}

/// A file or directory of a selection, with its path as text.
#[derive(Debug)]
pub struct TreeNode {
    pub path: String,
    pub kind: NodeKind,
}

/// The node can be copied.
pub open spec fn copyable(node: TreeNode) -> bool {
    node.kind is File || node.kind is Directory
}

/// The bytes of all files among the nodes.
pub open spec fn tree_size(nodes: Seq<TreeNode>) -> nat
    decreases nodes.len(),
{
    if nodes.len() == 0 {
        0
    } else {
        tree_size(nodes.drop_last()) + (match nodes.last().kind {
            NodeKind::File(len) => len as nat,
            _ => 0,
        })
    }
}

/// The number, or the largest one that can be held.
pub open spec fn saturated(n: nat) -> u64 {
    if n <= u64::MAX {
        n as u64
    } else {
        u64::MAX
    }
}

/// Why a node cannot be copied.
pub open spec fn refuses(node: TreeNode, error: FileClipboardError) -> bool {
    match node.kind {
        NodeKind::Symlink | NodeKind::Special => error matches FileClipboardError::UnsupportedType(
            path,
        ) && path@ == node.path@,
        NodeKind::Unreadable(e) => error matches FileClipboardError::Io(text) && text@ == e@,
        _ => false,
    }
}

/// The bytes of the files of a tree, whose nodes come in the order in which they
/// are found. The first node that cannot be copied refuses the tree.
pub fn check_tree(nodes: &Vec<TreeNode>) -> (size: Result<u64, FileClipboardError>)
    ensures
        match size {
            Ok(total) => total == saturated(tree_size(nodes@)) && tree_copyable(*nodes),
            Err(e) => tree_refused(*nodes, e),
        },
{
    let mut total: u64 = 0;
    let mut i: usize = 0;
    while i < nodes.len()
        invariant
            i <= nodes@.len(),
            total == saturated(tree_size(nodes@.take(i as int))),
            forall|k: int| 0 <= k < i ==> copyable(#[trigger] nodes@[k]),
        decreases nodes@.len() - i,
    {
        proof {
            assert(nodes@.take(i + 1).drop_last() =~= nodes@.take(i as int));
            assert(nodes@.take(i + 1).last() == nodes@[i as int]);
        }
        match &nodes[i].kind {
            NodeKind::File(len) => {
                total = total.saturating_add(*len);
            },
            NodeKind::Directory => {},
            NodeKind::Symlink | NodeKind::Special => {
                let error = FileClipboardError::UnsupportedType(nodes[i].path.clone());
                assert(refuses(nodes@[i as int], error));
                return Err(error);
            },
            NodeKind::Unreadable(e) => {
                let error = FileClipboardError::Io(e.clone());
                assert(refuses(nodes@[i as int], error));
                return Err(error);
            },
        }
        i += 1;
    }
    assert(nodes@.take(i as int) =~= nodes@);
    Ok(total)
}

/// The bytes of the files of all trees.
pub open spec fn selection_bytes(trees: Seq<Vec<TreeNode>>) -> nat
    decreases trees.len(),
{
    if trees.len() == 0 {
        0
    } else {
        selection_bytes(trees.drop_last()) + tree_size(trees.last()@)
    }
}

/// The first node of a tree that cannot be copied gives the error.
pub open spec fn tree_refused(tree: Vec<TreeNode>, error: FileClipboardError) -> bool {
    exists|i: int|
        0 <= i < tree@.len() && refuses(#[trigger] tree@[i], error) && forall|k: int|
            0 <= k < i ==> copyable(#[trigger] tree@[k])
}

/// All nodes of a tree can be copied.
pub open spec fn tree_copyable(tree: Vec<TreeNode>) -> bool {
    forall|i: int| 0 <= i < tree@.len() ==> copyable(#[trigger] tree@[i])
}

/// `checked` is whether a selection can be copied, or why it cannot.
pub open spec fn selection_judged(
    trees: Seq<Vec<TreeNode>>,
    checked: Result<(), FileClipboardError>,
) -> bool {
    match checked {
        Ok(()) => trees.len() > 0 && selection_bytes(trees) <= MAX_ARCHIVE_SIZE && forall|i: int|
            0 <= i < trees.len() ==> tree_copyable(#[trigger] trees[i]),
        Err(FileClipboardError::Empty) => trees.len() == 0,
        Err(FileClipboardError::TooLarge) => selection_bytes(trees) > MAX_ARCHIVE_SIZE && forall|
            i: int,
        |
            0 <= i < trees.len() ==> tree_copyable(#[trigger] trees[i]),
        Err(e) => exists|i: int|
            0 <= i < trees.len() && tree_refused(#[trigger] trees[i], e) && forall|k: int|
                0 <= k < i ==> tree_copyable(#[trigger] trees[k]),
    }
}

/// Whether a selection can be copied: it is not empty, all of it can be copied,
/// and it is not too large.
pub fn check_selection(trees: &Vec<Vec<TreeNode>>) -> (checked: Result<(), FileClipboardError>)
    ensures
        selection_judged(trees@, checked),
{
    if trees.is_empty() {
        return Err(FileClipboardError::Empty);
    }
    let mut total: u64 = 0;
    let mut i: usize = 0;
    while i < trees.len()
        invariant
            i <= trees@.len(),
            total == saturated(selection_bytes(trees@.take(i as int))),
            forall|k: int| 0 <= k < i ==> tree_copyable(#[trigger] trees@[k]),
        decreases trees@.len() - i,
    {
        proof {
            assert(trees@.take(i + 1).drop_last() =~= trees@.take(i as int));
            assert(trees@.take(i + 1).last() == trees@[i as int]);
        }
        match check_tree(&trees[i]) {
            Ok(size) => {
                total = total.saturating_add(size);
            },
            Err(e) => {
                assert(tree_refused(trees@[i as int], e));
                return Err(e);
            },
        }
        i += 1;
    }
    assert(trees@.take(i as int) =~= trees@);
    if total > MAX_ARCHIVE_SIZE as u64 {
        Err(FileClipboardError::TooLarge)
    } else {
        Ok(())
    }
}

/// The path without what does not matter at its end: separators, and full stops
/// that are a part of their own.
pub open spec fn trimmed(path: Seq<u8>) -> Seq<u8>
    decreases path.len(),
{
    if path.len() > 0 && (path.last() == SEPARATOR || here_at(path, path.len() - 1)) {
        trimmed(path.drop_last())
    } else {
        path
    }
}

/// What stands behind the last separator.
pub open spec fn last_part(path: Seq<u8>) -> Seq<u8>
    decreases path.len(),
{
    if path.len() == 0 || path.last() == SEPARATOR {
        Seq::empty()
    } else {
        last_part(path.drop_last()).push(path.last())
    }
}

/// The name of what stands at a path: its last part. The root has none, nor has
/// a path that ends by leading upwards.
pub open spec fn root_name_of(path: Seq<u8>) -> Option<Seq<u8>> {
    let name = last_part(trimmed(path));
    if name.len() == 0 || name == seq![DOT, DOT] {
        None
    } else {
        Some(name)
    }
}

/// The name of a selected file or directory, where it has one.
pub fn root_name(path: &[u8]) -> (name: Option<Vec<u8>>)
    ensures
        match name {
            Some(n) => root_name_of(path@) == Some(n@),
            None => root_name_of(path@) is None,
        },
{
    let mut end: usize = path.len();
    assert(path@.take(end as int) =~= path@);
    while end > 0 && (path[end - 1] == SEPARATOR || (path[end - 1] == DOT && (end == 1 || path[end
        - 2] == SEPARATOR)))
        invariant
            end <= path@.len(),
            trimmed(path@) == trimmed(path@.take(end as int)),
        decreases end,
    {
        assert(path@.take(end as int).drop_last() =~= path@.take(end - 1));
        end -= 1;
    }
    let ghost all = path@.take(end as int);
    assert(trimmed(path@) == all);
    let mut start: usize = end;
    assert(all =~= all.take(start as int));
    assert(all.skip(start as int) =~= Seq::<u8>::empty());
    assert(last_part(all) =~= last_part(all.take(start as int)) + all.skip(start as int));
    while start > 0 && path[start - 1] != SEPARATOR
        invariant
            start <= end <= path@.len(),
            all == path@.take(end as int),
            last_part(all) == last_part(all.take(start as int)) + all.skip(start as int),
        decreases start,
    {
        proof {
            let then = all.take(start as int);
            assert(then.drop_last() =~= all.take(start - 1));
            assert(then.last() == path@[start - 1]);
            assert(last_part(all) =~= last_part(all.take(start - 1)) + all.skip(start - 1));
        }
        start -= 1;
    }
    let name = copy_range(path, start, end);
    assert(name@ =~= all.skip(start as int));
    assert(last_part(all) =~= name@);
    if name.len() == 0 || (name.len() == 2 && name[0] == DOT && name[1] == DOT) {
        assert(name@.len() == 2 ==> name@ =~= seq![DOT, DOT]);
        None
    } else {
        Some(name)
    }
}

/// A name is a part of a path of its own: not empty, without separators, and no
/// full stops alone.
proof fn lemma_root_name(path: Seq<u8>)
    ensures
        root_name_of(path) matches Some(name) ==> name.len() > 0 && !name.contains(SEPARATOR)
            && name != seq![DOT] && name != seq![DOT, DOT] && forall|i: int|
            0 <= i < name.len() ==> path.contains(#[trigger] name[i]),
{
    lemma_trimmed(path);
    let short = trimmed(path);
    lemma_last_part(short);
    if let Some(name) = root_name_of(path) {
        if name == seq![DOT] {
            assert(name.last() == DOT);
            assert(here_at(short, short.len() - 1));
        }
        assert forall|i: int| 0 <= i < name.len() implies path.contains(#[trigger] name[i]) by {
            assert(path[short.len() - name.len() + i] == name[i]);
        }
    }
}

proof fn lemma_trimmed(path: Seq<u8>)
    ensures
        trimmed(path).is_prefix_of(path),
        trimmed(path).len() > 0 ==> trimmed(path).last() != SEPARATOR && !here_at(
            trimmed(path),
            trimmed(path).len() - 1,
        ),
    decreases path.len(),
{
    if path.len() > 0 && (path.last() == SEPARATOR || here_at(path, path.len() - 1)) {
        lemma_trimmed(path.drop_last());
        assert(trimmed(path) =~= path.subrange(0, trimmed(path).len() as int));
    } else {
        assert(path =~= path.subrange(0, path.len() as int));
    }
}

proof fn lemma_last_part(path: Seq<u8>)
    ensures
        last_part(path).len() <= path.len(),
        last_part(path) == path.skip(path.len() - last_part(path).len()),
        !last_part(path).contains(SEPARATOR),
        last_part(path).len() == path.len() || path[path.len() - last_part(path).len() - 1]
            == SEPARATOR,
    decreases path.len(),
{
    if path.len() > 0 && path.last() != SEPARATOR {
        let front = path.drop_last();
        lemma_last_part(front);
        let part = last_part(path);
        assert forall|i: int| 0 <= i < part.len() implies part[i] != SEPARATOR by {
            if i < part.len() - 1 {
                assert(last_part(front).contains(last_part(front)[i]) || part[i] != SEPARATOR);
                assert(part[i] == last_part(front)[i]);
            }
        }
        assert(part =~= path.skip(path.len() - part.len()));
    } else {
        assert(last_part(path) =~= path.skip(path.len() - last_part(path).len()));
    }
}

/// The name in the archive of what stands at `relative` beneath a selected
/// directory.
pub fn archive_name(name: &[u8], relative: &[u8]) -> (path: Vec<u8>)
    ensures
        path@ == joined_path(name@, relative@),
{
    let mut path: Vec<u8> = Vec::new();
    push_all(&mut path, name);
    if name.len() > 0 && name[name.len() - 1] != SEPARATOR {
        path.push(SEPARATOR);
    }
    push_all(&mut path, relative);
    assert(path@ =~= joined_path(name@, relative@));
    path
}

/// The byte of a full stop.
pub const DOT: u8 = 0x2e;

/// Two full stops stand at `i` as a part of the path of their own.
pub open spec fn up_at(path: Seq<u8>, i: int) -> bool {
    &&& 0 <= i
    &&& i + 2 <= path.len()
    &&& path[i] == DOT
    &&& path[i + 1] == DOT
    &&& i == 0 || path[i - 1] == SEPARATOR
    &&& i + 2 == path.len() || path[i + 2] == SEPARATOR
}

/// The path starts at the root, or a part of it leads upwards.
pub open spec fn leaves_directory(path: Seq<u8>) -> bool {
    (path.len() > 0 && path[0] == SEPARATOR) || exists|i: int| up_at(path, i)
}

pub(crate) fn is_up(path: &[u8], i: usize) -> (up: bool)
    requires
        i < path@.len(),
    ensures
        up == up_at(path@, i as int),
{
    path.len() - i >= 2 && path[i] == DOT && path[i + 1] == DOT && (i == 0 || path[i - 1]
        == SEPARATOR) && (path.len() - i == 2 || path[i + 2] == SEPARATOR)
}

fn is_leaving(path: &[u8]) -> (leaves: bool)
    ensures
        leaves == leaves_directory(path@),
{
    if path.len() > 0 && path[0] == SEPARATOR {
        return true;
    }
    let mut i: usize = 0;
    while i < path.len()
        invariant
            i <= path@.len(),
            forall|k: int| 0 <= k < i ==> !up_at(path@, k),
        decreases path@.len() - i,
    {
        if is_up(path, i) {
            return true;
        }
        i += 1;
    }
    false
}

/// The entry may be unpacked.
pub open spec fn safe_item(item: Result<ArchiveItemView, Seq<char>>) -> bool {
    item matches Ok(i) && !leaves_directory(i.path) && (i.kind == KIND_FILE || i.kind
        == KIND_DIRECTORY)
}

/// Why an entry may not be unpacked.
pub open spec fn item_refused(
    item: Result<ArchiveItemView, Seq<char>>,
    error: FileClipboardError,
) -> bool {
    match item {
        Err(e) => error matches FileClipboardError::Io(text) && text@ == e,
        Ok(i) => if leaves_directory(i.path) {
            error is UnsafePath
        } else {
            i.kind != KIND_FILE && i.kind != KIND_DIRECTORY && error is UnsafeEntry
        },
    }
}

/// `path` is where an entry is unpacked, or why it is not.
pub open spec fn placed(
    root: Seq<u8>,
    item: ArchiveItemView,
    path: Result<Vec<u8>, FileClipboardError>,
) -> bool {
    match path {
        Ok(p) => safe_item(Ok(item)) && p@ == joined_path(root, item.path),
        Err(e) => item_refused(Ok(item), e),
    }
}

/// Where an entry is unpacked, beneath `root`.
pub fn safe_entry_path(root: &[u8], item: &ArchiveItem) -> (path: Result<
    Vec<u8>,
    FileClipboardError,
>)
    ensures
        placed(root@, item@, path),
{
    if is_leaving(item.path.as_slice()) {
        return Err(FileClipboardError::UnsafePath);
    }
    if item.kind != KIND_FILE && item.kind != KIND_DIRECTORY {
        return Err(FileClipboardError::UnsafeEntry);
    }
    Ok(archive_name(root, item.path.as_slice()))
}

/// `name` is the part of the path before the first separator.
pub open spec fn is_first_part(path: Seq<u8>, name: Seq<u8>) -> bool {
    &&& name.len() <= path.len()
    &&& name == path.take(name.len() as int)
    &&& !name.contains(SEPARATOR)
    &&& name.len() == path.len() || path[name.len() as int] == SEPARATOR
}

/// `name` is what the entry adds directly beneath the directory it is unpacked
/// in.
pub open spec fn top_name(item: Result<ArchiveItemView, Seq<char>>, name: Seq<u8>) -> bool {
    &&& item matches Ok(i)
    &&& is_first_part(i.path, name)
    &&& name.len() > 0
    &&& name != seq![DOT]
}

fn first_part(path: &[u8]) -> (name: Vec<u8>)
    ensures
        is_first_part(path@, name@),
{
    let mut n: usize = 0;
    while n < path.len() && path[n] != SEPARATOR
        invariant
            n <= path@.len(),
            forall|k: int| 0 <= k < n ==> path@[k] != SEPARATOR,
        decreases path@.len() - n,
    {
        n += 1;
    }
    let name = copy_range(path, 0, n);
    assert(name@ =~= path@.take(n as int));
    name
}

proof fn lemma_first_part_unique(path: Seq<u8>, a: Seq<u8>, b: Seq<u8>)
    requires
        is_first_part(path, a),
        is_first_part(path, b),
    ensures
        a == b,
{
    if a.len() < b.len() {
        assert(b[a.len() as int] == SEPARATOR);
    } else if b.len() < a.len() {
        assert(a[b.len() as int] == SEPARATOR);
    }
}

/// The names are in order, and none occurs twice.
pub open spec fn names_sorted(names: Seq<Vec<u8>>) -> bool {
    forall|i: int, j: int|
        #![trigger names[i], names[j]]
        0 <= i < j < names.len() ==> bytes_le(names[i]@, names[j]@) && names[i]@ != names[j]@
}

/// `name` is among the names.
pub open spec fn names_have(names: Seq<Vec<u8>>, name: Seq<u8>) -> bool {
    exists|i: int| 0 <= i < names.len() && (#[trigger] names[i])@ == name
}

/// Adds a name where it belongs, unless it is there.
fn insert_name(names: &mut Vec<Vec<u8>>, name: Vec<u8>)
    requires
        names_sorted(old(names)@),
    ensures
        names_sorted(final(names)@),
        forall|n: Seq<u8>|
            names_have(final(names)@, n) <==> names_have(old(names)@, n) || n == name@,
{
    let ghost before = names@;
    let mut at: usize = 0;
    while at < names.len() && le_bytes(names[at].as_slice(), name.as_slice())
        invariant
            names@ == before,
            names_sorted(before),
            at <= names@.len(),
            forall|k: int| 0 <= k < at ==> bytes_le((#[trigger] names@[k])@, name@) && names@[k]@
                != name@,
        decreases names@.len() - at,
    {
        if same_bytes(names[at].as_slice(), name.as_slice()) {
            assert(before[at as int]@ == name@);
            assert(names_have(before, name@));
            return;
        }
        at += 1;
    }
    names.insert(at, name);
    proof {
        let after = names@;
        assert(after == before.insert(at as int, name));
        assert forall|k: int| at <= k < before.len() implies bytes_le(
            name@,
            (#[trigger] before[k])@,
        ) && before[k]@ != name@ by {
            lemma_bytes_le_total(name@, before[at as int]@);
            if k > at {
                lemma_bytes_le_transitive(name@, before[at as int]@, before[k]@);
                if before[k]@ == name@ {
                    assert(bytes_le(before[at as int]@, name@));
                }
            } else if before[k]@ == name@ {
                lemma_bytes_le_total(name@, name@);
            }
        }
        assert forall|i: int, j: int|
            #![trigger after[i], after[j]]
            0 <= i < j < after.len() implies bytes_le(after[i]@, after[j]@) && after[i]@
            != after[j]@ by {
            let a = if i < at { i } else { i - 1 };
            let b = if j < at { j } else { j - 1 };
            if i != at && j != at {
                assert(after[i] == before[a] && after[j] == before[b]);
            } else if i == at {
                assert(after[j] == before[b]);
            } else {
                assert(after[i] == before[a]);
            }
        }
        assert forall|n: Seq<u8>| names_have(after, n) <==> names_have(before, n) || n
            == name@ by {
            if names_have(before, n) {
                let i = choose|i: int| 0 <= i < before.len() && (#[trigger] before[i])@ == n;
                let k = if i < at { i } else { i + 1 };
                assert(after[k] == before[i]);
            }
            if n == name@ {
                assert(after[at as int]@ == n);
            }
            if names_have(after, n) {
                let i = choose|i: int| 0 <= i < after.len() && (#[trigger] after[i])@ == n;
                if i != at {
                    let k = if i < at { i } else { i - 1 };
                    assert(before[k] == after[i]);
                }
            }
        }
    }
}

/// Some entry adds `name` directly beneath the directory it is unpacked in.
pub open spec fn adds_name(items: Seq<Result<ArchiveItemView, Seq<char>>>, name: Seq<u8>) -> bool {
    exists|i: int| 0 <= i < items.len() && top_name(#[trigger] items[i], name)
}

/// All entries may be unpacked.
pub open spec fn items_safe(items: Seq<Result<ArchiveItemView, Seq<char>>>) -> bool {
    forall|i: int| 0 <= i < items.len() ==> safe_item(#[trigger] items[i])
}

/// The first entry that may not be unpacked gives the error.
pub open spec fn items_refused(
    items: Seq<Result<ArchiveItemView, Seq<char>>>,
    error: FileClipboardError,
) -> bool {
    exists|i: int|
        0 <= i < items.len() && item_refused(#[trigger] items[i], error) && items_safe(
            items.take(i),
        )
}

/// What the names directly beneath the staging directory are, once all entries
/// are unpacked; or why they may not be.
pub open spec fn unpacked(
    items: Seq<Result<ArchiveItemView, Seq<char>>>,
    names: Result<Vec<Vec<u8>>, FileClipboardError>,
) -> bool {
    match names {
        Ok(ns) => {
            &&& items_safe(items)
            &&& ns@.len() > 0
            &&& names_sorted(ns@)
            &&& forall|n: Seq<u8>| names_have(ns@, n) <==> adds_name(items, n)
        },
        Err(FileClipboardError::Empty) => items_safe(items) && forall|n: Seq<u8>|
            !adds_name(items, n),
        Err(e) => items_refused(items, e),
    }
}

/// The names that the entries of an archive add directly beneath the directory
/// they are unpacked in.
pub fn check_items(items: Vec<Result<ArchiveItem, String>>) -> (names: Result<
    Vec<Vec<u8>>,
    FileClipboardError,
>)
    ensures
        unpacked(items_view(items@), names),
{
    let ghost all = items_view(items@);
    let mut names: Vec<Vec<u8>> = Vec::new();
    let mut i: usize = 0;
    while i < items.len()
        invariant
            all == items_view(items@),
            i <= items@.len(),
            items_safe(all.take(i as int)),
            names_sorted(names@),
            forall|n: Seq<u8>| names_have(names@, n) <==> adds_name(all.take(i as int), n),
        decreases items@.len() - i,
    {
        let ghost seen = all.take(i as int);
        let ghost more = all.take(i + 1);
        let ghost this = all[i as int];
        assert(more =~= seen.push(this));
        match &items[i] {
            Err(e) => {
                let error = FileClipboardError::Io(e.clone());
                assert(item_refused(all[i as int], error));
                return Err(error);
            },
            Ok(item) => {
                assert(this == item_view(items@[i as int]));
                match safe_entry_path(&[], item) {
                    Err(error) => {
                        assert(item_refused(all[i as int], error));
                        return Err(error);
                    },
                    Ok(_) => {},
                }
                let name = first_part(item.path.as_slice());
                let ghost had = names@;
                let listed: bool = name.len() > 0 && !(name.len() == 1 && name[0] == DOT);
                proof {
                    if name@.len() == 1 && name@[0] == DOT {
                        assert(name@ =~= seq![DOT]);
                    }
                    assert(listed == (name@.len() > 0 && name@ != seq![DOT]));
                    assert forall|n: Seq<u8>|
                        adds_name(more, n) <==> adds_name(seen, n) || (listed && n == name@) by {
                        if adds_name(seen, n) {
                            let k = choose|k: int|
                                0 <= k < seen.len() && top_name(#[trigger] seen[k], n);
                            assert(more[k] == seen[k]);
                        }
                        if listed && n == name@ {
                            assert(more[i as int] == this);
                        }
                        if adds_name(more, n) {
                            let k = choose|k: int|
                                0 <= k < more.len() && top_name(#[trigger] more[k], n);
                            if k < i {
                                assert(seen[k] == more[k]);
                            } else {
                                lemma_first_part_unique(item.path@, name@, n);
                            }
                        }
                    }
                }
                if listed {
                    insert_name(&mut names, name);
                }
                proof {
                    assert forall|n: Seq<u8>| names_have(names@, n) <==> adds_name(more, n) by {
                        assert(names_have(had, n) <==> adds_name(seen, n));
                    }
                    assert forall|k: int| 0 <= k < more.len() implies safe_item(
                        #[trigger] more[k],
                    ) by {
                        if k < i {
                            assert(seen[k] == more[k]);
                        }
                    }
                }
            },
        }
        i += 1;
    }
    assert(all.take(i as int) =~= all);
    if names.is_empty() {
        assert forall|n: Seq<u8>| !adds_name(all, n) by {
            assert(names_have(names@, n) <==> adds_name(all, n));
        }
        return Err(FileClipboardError::Empty);
    }
    Ok(names)
}

/// Where an entry gives an error, not all entries may be unpacked.
proof fn lemma_refused_is_unsafe(
    items: Seq<Result<ArchiveItemView, Seq<char>>>,
    error: FileClipboardError,
)
    requires
        items_refused(items, error),
    ensures
        !items_safe(items),
{
    let i = choose|i: int|
        0 <= i < items.len() && item_refused(#[trigger] items[i], error) && items_safe(
            items.take(i),
        );
    assert(!safe_item(items[i]));
}

/// Whether an archive of that many bytes is taken.
pub fn archive_size_allowed(len: usize) -> (allowed: bool)
    ensures
        allowed == (0 < len <= MAX_ARCHIVE_SIZE),
{
    0 < len && len <= MAX_ARCHIVE_SIZE
}

/// `names` are the names that an archive adds directly beneath its staging
/// directory, or why it cannot be unpacked there. An archive that cannot be
/// listed is refused by the first entry that is, where one is before that; and
/// like one with special files where none is.
pub open spec fn extraction(
    bytes: Seq<u8>,
    staging_exists: bool,
    names: Result<Vec<Vec<u8>>, FileClipboardError>,
) -> bool {
    if !(0 < bytes.len() <= MAX_ARCHIVE_SIZE) {
        names == Err::<Vec<Vec<u8>>, FileClipboardError>(FileClipboardError::TooLarge)
    } else if staging_exists {
        names matches Err(FileClipboardError::Io(text)) && text@
            == "clipboard staging directory already exists"@
    } else if listable(bytes) {
        unpacked(archive_items(bytes), names)
    } else {
        let front = bytes.take(unmoved_len(bytes) as int);
        if listable(front) && !items_safe(archive_items(front)) {
            unpacked(archive_items(front), names)
        } else {
            names == Err::<Vec<Vec<u8>>, FileClipboardError>(FileClipboardError::UnsafeEntry)
        }
    }
}

/// The names that an archive adds directly beneath its staging directory, where
/// it can be unpacked there.
pub fn plan_extraction(bytes: &[u8], staging_exists: bool) -> (names: Result<
    Vec<Vec<u8>>,
    FileClipboardError,
>)
    ensures
        extraction(bytes@, staging_exists, names),
{
    if !archive_size_allowed(bytes.len()) {
        return Err(FileClipboardError::TooLarge);
    }
    if staging_exists {
        return Err(
            FileClipboardError::Io("clipboard staging directory already exists".to_owned()),
        );
    }
    match list_entries(bytes) {
        Some(items) => check_items(items),
        None => {
            let front = unmoved_part(bytes);
            match list_entries(front.as_slice()) {
                Some(items) => {
                    let ghost views = items_view(items@);
                    match check_items(items) {
                        Ok(_) | Err(FileClipboardError::Empty) => Err(
                            FileClipboardError::UnsafeEntry,
                        ),
                        Err(e) => {
                            proof {
                                lemma_refused_is_unsafe(views, e);
                            }
                            Err(e)
                        },
                    }
                },
                None => Err(FileClipboardError::UnsafeEntry),
            }
        },
    }
}

/// Everything that is unpacked lies beneath the staging directory: its path
/// begins with that of the directory, and no later part of it leads upwards.
#[verifier::spinoff_prover]
#[verifier::rlimit(60)]
pub proof fn law_entries_stay_in_the_staging_directory(
    staging: Seq<u8>,
    item: ArchiveItemView,
)
    requires
        safe_item(Ok(item)),
    ensures
        staging.is_prefix_of(joined_path(staging, item.path)),
        forall|i: int| up_at(joined_path(staging, item.path), i) ==> up_at(staging, i),
{
    let path = item.path;
    let whole = joined_path(staging, path);
    let start = whole.len() - path.len();
    assert(staging =~= whole.subrange(0, staging.len() as int));
    assert(whole.skip(start) =~= path);
    assert forall|i: int| up_at(whole, i) implies up_at(staging, i) by {
        if i >= start {
            assert(forall|k: int| start <= k < whole.len() ==> whole[k] == path[k - start]);
            assert(up_at(path, i - start));
        } else if i + 2 > staging.len() {
            assert(staging.len() > 0 && whole[start - 1] == SEPARATOR);
            assert(false);
        } else {
            assert(whole[i] == staging[i] && whole[i + 1] == staging[i + 1]);
            if i > 0 {
                assert(whole[i - 1] == staging[i - 1]);
            }
            if i + 2 < staging.len() {
                assert(whole[i + 2] == staging[i + 2]);
            }
        }
    }
}

/// What is unpacked is a plain file or a directory, never a link or anything
/// else.
pub proof fn law_only_files_and_directories_are_unpacked(
    items: Seq<Result<ArchiveItemView, Seq<char>>>,
    names: Result<Vec<Vec<u8>>, FileClipboardError>,
)
    requires
        unpacked(items, names),
        names is Ok,
    ensures
        forall|i: int|
            0 <= i < items.len() ==> ((#[trigger] items[i]) matches Ok(item) && (item.kind
                == KIND_FILE || item.kind == KIND_DIRECTORY)),
{
    assert forall|i: int| 0 <= i < items.len() implies ((#[trigger] items[i]) matches Ok(item) && (
    item.kind == KIND_FILE || item.kind == KIND_DIRECTORY)) by {
        assert(safe_item(items[i]));
    }
}

/// The paths that go into an archive of a selection are taken on the other
/// side, and come out beneath the name of what was selected.
pub proof fn law_sent_names_are_accepted(path: Seq<u8>, name: Seq<u8>, relative: Seq<u8>)
    requires
        root_name_of(path) == Some(name),
        !path.contains(0),
        relative.len() == 0 || clean_path(relative),
    ensures
        clean_path(name),
        is_first_part(name, name),
        clean_path(joined_path(name, relative)),
        is_first_part(joined_path(name, relative), name),
{
    lemma_root_name(path);
    assert forall|i: int| 0 <= i < name.len() implies name[i] != SEPARATOR && name[i] != 0 by {
        assert(name.contains(name[i]));
        assert(path.contains(name[i]));
    }
    assert forall|i: int| !here_at(name, i) by {
        if here_at(name, i) {
            assert(i == 0 && name.len() == 1);
            assert(name =~= seq![DOT]);
        }
    }
    assert forall|i: int| !up_at(name, i) by {
        if up_at(name, i) {
            assert(i == 0 && name.len() == 2);
            assert(name =~= seq![DOT, DOT]);
        }
    }
    assert(name =~= name.take(name.len() as int));
    let whole = joined_path(name, relative);
    let start: int = name.len() as int + 1;
    assert(whole =~= name.push(SEPARATOR) + relative);
    assert(name =~= whole.take(name.len() as int));
    assert forall|i: int| 0 <= i < whole.len() implies whole[i] == if i < name.len() {
        name[i]
    } else if i == name.len() {
        SEPARATOR
    } else {
        relative[i - start]
    } by {}
    assert forall|i: int| 0 <= i < whole.len() implies #[trigger] whole[i] != 0 by {}
    assert forall|i: int| !gap_at(whole, i) by {
        if gap_at(whole, i) && i >= start {
            assert(gap_at(relative, i - start));
        }
    }
    assert forall|i: int| !here_at(whole, i) by {
        if here_at(whole, i) {
            if i < name.len() {
                assert(here_at(name, i));
            } else {
                assert(here_at(relative, i - start));
            }
        }
    }
    assert forall|i: int| !up_at(whole, i) by {
        if up_at(whole, i) {
            if i < name.len() {
                assert(up_at(name, i));
            } else {
                assert(up_at(relative, i - start));
            }
        }
    }
}

/// `name` is the first part of the path of some entry.
pub open spec fn begins_entry(entries: Seq<NewEntry>, name: Seq<u8>) -> bool {
    exists|i: int|
        0 <= i < entries.len() && is_first_part(utf8((#[trigger] entries[i]).path@), name)
}

/// An archive made of files and directories comes out again: nothing of it is
/// refused, every entry has its path, type and content, with its permissions,
/// owner and time, and directly beneath the staging directory stand the first
/// parts of the paths.
pub proof fn law_archives_come_out_again(
    entries: Seq<NewEntry>,
    bytes: Seq<u8>,
    names: Result<Vec<Vec<u8>>, FileClipboardError>,
)
    requires
        packed(entries, bytes),
        bytes.len() <= MAX_ARCHIVE_SIZE,
        extraction(bytes, false, names),
    ensures
        archive_items(bytes).len() == entries.len(),
        forall|i: int|
            #![trigger entries[i]]
            0 <= i < entries.len() ==> (archive_items(bytes)[i] matches Ok(item) && safe_item(
                archive_items(bytes)[i],
            ) && item_is(bytes, item, entries[i].written())),
        names matches Ok(ns) && names_sorted(ns@) && forall|n: Seq<u8>|
            names_have(ns@, n) <==> begins_entry(entries, n),
{
    let items = archive_items(bytes);
    let written = written_entries(entries);
    assert forall|i: int| 0 <= i < entries.len() implies safe_item(#[trigger] items[i]) && (items[i]
        matches Ok(item) && item_is(bytes, item, entries[i].written())) by {
        assert(written[i] == entries[i].written());
        assert(clean_path(utf8(entries[i].path@)));
        assert(forall|k: int| !up_at(utf8(entries[i].path@), k));
    }
    assert(items_safe(items));
    assert forall|n: Seq<u8>| adds_name(items, n) <==> begins_entry(entries, n) by {
        if adds_name(items, n) {
            let i = choose|i: int| 0 <= i < items.len() && top_name(#[trigger] items[i], n);
            assert(is_first_part(utf8(entries[i].path@), n));
        }
        if begins_entry(entries, n) {
            let i = choose|i: int|
                0 <= i < entries.len() && is_first_part(utf8((#[trigger] entries[i]).path@), n);
            lemma_first_part_named(utf8(entries[i].path@), n);
            assert(top_name(items[i], n));
        }
    }
    match names {
        Ok(ns) => {
            assert forall|n: Seq<u8>| names_have(ns@, n) <==> begins_entry(entries, n) by {
                assert(adds_name(items, n) <==> begins_entry(entries, n));
            }
        },
        Err(FileClipboardError::Empty) => {
            let path = utf8(entries[0].path@);
            let n = lemma_has_first_part(path);
            assert(is_first_part(utf8(entries[0].path@), n));
            assert(adds_name(items, n));
        },
        Err(e) => {
            let i = choose|i: int|
                0 <= i < items.len() && item_refused(#[trigger] items[i], e) && items_safe(
                    items.take(i),
                );
            assert(safe_item(items[i]));
        },
    }
}

/// Every path has a first part.
proof fn lemma_has_first_part(path: Seq<u8>) -> (name: Seq<u8>)
    ensures
        is_first_part(path, name),
    decreases path.len(),
{
    if path.len() == 0 {
        assert(path =~= path.take(0));
        path
    } else {
        let front = path.drop_last();
        let name = lemma_has_first_part(front);
        if name.len() < front.len() || path.last() == SEPARATOR {
            assert(name =~= path.take(name.len() as int));
            name
        } else {
            assert(name =~= front);
            assert(path =~= path.take(path.len() as int));
            assert forall|i: int| 0 <= i < path.len() implies path[i] != SEPARATOR by {
                if i < front.len() {
                    assert(name.contains(name[i]));
                }
            }
            path
        }
    }
}

/// The first part of a path that is made of names is a name.
proof fn lemma_first_part_named(path: Seq<u8>, name: Seq<u8>)
    requires
        clean_path(path),
        is_first_part(path, name),
    ensures
        name.len() > 0,
        name != seq![DOT],
{
    if name.len() == 0 {
        assert(path[0] == SEPARATOR);
    }
    if name == seq![DOT] {
        assert(path.take(1)[0] == DOT);
        assert(here_at(path, 0));
    }
}

/// The files of a selection, each with a name of its own, come out as as many
/// names: theirs.
pub proof fn law_files_keep_their_names(
    entries: Seq<NewEntry>,
    bytes: Seq<u8>,
    names: Result<Vec<Vec<u8>>, FileClipboardError>,
)
    requires
        packed(entries, bytes),
        bytes.len() <= MAX_ARCHIVE_SIZE,
        extraction(bytes, false, names),
        forall|i: int|
            0 <= i < entries.len() ==> !utf8((#[trigger] entries[i]).path@).contains(SEPARATOR),
        forall|i: int, j: int|
            0 <= i < j < entries.len() ==> utf8((#[trigger] entries[i]).path@) != utf8(
                (#[trigger] entries[j]).path@,
            ),
    ensures
        names matches Ok(ns) && ns@.len() == entries.len() && forall|i: int|
            0 <= i < entries.len() ==> names_have(ns@, utf8((#[trigger] entries[i]).path@)),
{
    law_archives_come_out_again(entries, bytes, names);
    let ns = names->Ok_0@;
    let given = Seq::new(entries.len(), |i: int| utf8(entries[i].path@));
    let found = Seq::new(ns.len(), |i: int| ns[i]@);
    assert forall|n: Seq<u8>| begins_entry(entries, n) <==> given.contains(n) by {
        if begins_entry(entries, n) {
            let i = choose|i: int|
                0 <= i < entries.len() && is_first_part(utf8((#[trigger] entries[i]).path@), n);
            lemma_single_part(given[i], n);
            assert(given[i] == n);
        }
        if given.contains(n) {
            let i = choose|i: int| 0 <= i < given.len() && given[i] == n;
            lemma_single_part(utf8(entries[i].path@), n);
        }
    }
    assert forall|n: Seq<u8>| names_have(ns, n) <==> found.contains(n) by {
        if names_have(ns, n) {
            let k = choose|k: int| 0 <= k < ns.len() && (#[trigger] ns[k])@ == n;
            assert(found[k] == n);
        }
        if found.contains(n) {
            let k = choose|k: int| 0 <= k < found.len() && found[k] == n;
            assert(ns[k]@ == n);
        }
    }
    assert forall|n: Seq<u8>| given.contains(n) <==> found.contains(n) by {
        assert(names_have(ns, n) <==> begins_entry(entries, n));
    }
    assert forall|i: int, j: int| 0 <= i < found.len() && 0 <= j < found.len() && i
        != j implies found[i] != found[j] by {
        let a = if i < j { i } else { j };
        let b = if i < j { j } else { i };
        assert(ns[a]@ != ns[b]@);
    }
    assert forall|i: int, j: int| 0 <= i < given.len() && 0 <= j < given.len() && i
        != j implies given[i] != given[j] by {
        let a = if i < j { i } else { j };
        let b = if i < j { j } else { i };
        assert(utf8(entries[a].path@) != utf8(entries[b].path@));
    }
    lemma_as_many(given, found);
    assert forall|i: int| 0 <= i < entries.len() implies names_have(
        ns,
        utf8((#[trigger] entries[i]).path@),
    ) by {
        assert(given.contains(given[i]));
    }
}

/// A path without separators is its own first part, and has no other.
proof fn lemma_single_part(path: Seq<u8>, name: Seq<u8>)
    requires
        !path.contains(SEPARATOR),
    ensures
        is_first_part(path, name) <==> name == path,
{
    assert(path =~= path.take(path.len() as int));
    if is_first_part(path, name) && name.len() < path.len() {
        assert(path.contains(path[name.len() as int]));
    }
}

/// Two lists without repeats that hold the same names are equally long.
proof fn lemma_as_many(a: Seq<Seq<u8>>, b: Seq<Seq<u8>>)
    requires
        a.no_duplicates(),
        b.no_duplicates(),
        forall|n: Seq<u8>| a.contains(n) <==> b.contains(n),
    ensures
        a.len() == b.len(),
{
    assert(a.to_set() =~= b.to_set());
    a.unique_seq_to_set();
    b.unique_seq_to_set();
}

/// Where archives are unpacked: beneath the user's cache directory, or beneath
/// the one for temporary files.
pub open spec fn cache_root_path(
    xdg: Option<Seq<u8>>,
    home: Option<Seq<u8>>,
    temporary: Seq<u8>,
) -> Seq<u8> {
    joined_path(
        match (xdg, home) {
            (Some(x), _) => x,
            (None, Some(h)) => joined_path(h, utf8(".cache"@)),
            (None, None) => temporary,
        },
        utf8("monitorhop/clipboard"@),
    )
}

/// Where archives are unpacked, by the values of `XDG_CACHE_HOME` and `HOME`.
pub fn cache_root(xdg: Option<&[u8]>, home: Option<&[u8]>, temporary: &[u8]) -> (path: Vec<u8>)
    ensures
        path@ == cache_root_path(path_view(xdg), path_view(home), temporary@),
{
    match (xdg, home) {
        (Some(x), _) => join_path(x, "monitorhop/clipboard"),
        (None, Some(h)) => {
            let cache = join_path(h, ".cache");
            join_path(cache.as_slice(), "monitorhop/clipboard")
        },
        (None, None) => join_path(temporary, "monitorhop/clipboard"),
    }
}

/// The byte of a hexadecimal digit, in lower case.
pub open spec fn hex_byte(d: nat) -> u8 {
    if d < 10 {
        (0x30 + d) as u8
    } else {
        (0x57 + d) as u8
    }
}

/// The last `width` hexadecimal digits of `n`.
pub open spec fn hex_bytes(n: nat, width: nat) -> Seq<u8>
    decreases width,
{
    if width == 0 {
        Seq::empty()
    } else {
        hex_bytes(n / 16, (width - 1) as nat).push(hex_byte(n % 16))
    }
}

fn push_hex_bytes(out: &mut Vec<u8>, n: u64, width: usize)
    ensures
        final(out)@ == old(out)@ + hex_bytes(n as nat, width as nat),
    decreases width,
{
    if width == 0 {
        assert(out@ =~= out@ + hex_bytes(n as nat, 0));
        return;
    }
    let ghost before = out@;
    push_hex_bytes(out, n / 16, width - 1);
    let d: u8 = (n % 16) as u8;
    out.push(if d < 10 { 0x30 + d } else { 0x57 + d });
    assert(out@ =~= before + hex_bytes(n as nat, width as nat));
}

/// The directory that the archive of a transfer is unpacked in.
pub open spec fn staging_of(cache: Seq<u8>, transfer_id: u64) -> Seq<u8> {
    joined_path(cache, hex_bytes(transfer_id as nat, 16))
}

/// The directory that the archive of a transfer is unpacked in: sixteen
/// hexadecimal digits beneath the cache directory.
pub fn staging_path(cache: &[u8], transfer_id: u64) -> (path: Vec<u8>)
    ensures
        path@ == staging_of(cache@, transfer_id),
{
    let mut name: Vec<u8> = Vec::new();
    push_hex_bytes(&mut name, transfer_id, 16);
    assert(name@ =~= hex_bytes(transfer_id as nat, 16));
    archive_name(cache, name.as_slice())
}

proof fn lemma_hex_bytes_distinct(a: nat, b: nat, width: nat)
    requires
        hex_bytes(a, width) == hex_bytes(b, width),
        a < vstd::arithmetic::power::pow(16, width),
        b < vstd::arithmetic::power::pow(16, width),
    ensures
        a == b,
        hex_bytes(a, width).len() == width,
    decreases width,
{
    reveal(vstd::arithmetic::power::pow);
    if width > 0 {
        let x = hex_bytes(a, width);
        let y = hex_bytes(b, width);
        let smaller = vstd::arithmetic::power::pow(16, (width - 1) as nat);
        assert(x.drop_last() =~= hex_bytes(a / 16, (width - 1) as nat));
        assert(y.drop_last() =~= hex_bytes(b / 16, (width - 1) as nat));
        assert(a / 16 < smaller);
        assert(b / 16 < smaller);
        lemma_hex_bytes_distinct(a / 16, b / 16, (width - 1) as nat);
        assert(x.last() == hex_byte(a % 16) && y.last() == hex_byte(b % 16));
    }
}

/// Archives of different transfers never share a directory.
pub proof fn law_transfers_have_their_own_directories(cache: Seq<u8>, a: u64, b: u64)
    requires
        a != b,
    ensures
        joined_path(cache, hex_bytes(a as nat, 16)) != joined_path(cache, hex_bytes(b as nat, 16)),
{
    let pa = joined_path(cache, hex_bytes(a as nat, 16));
    let pb = joined_path(cache, hex_bytes(b as nat, 16));
    if pa == pb {
        let start: int = if cache.len() == 0 || cache.last() == SEPARATOR {
            cache.len() as int
        } else {
            cache.len() as int + 1
        };
        assert(pa.skip(start) =~= hex_bytes(a as nat, 16));
        assert(pb.skip(start) =~= hex_bytes(b as nat, 16));
        assert(vstd::arithmetic::power::pow(16, 16) == 0x1_0000_0000_0000_0000) by {
            reveal(vstd::arithmetic::power::pow);
            reveal_with_fuel(vstd::arithmetic::power::pow, 17);
        }
        lemma_hex_bytes_distinct(a as nat, b as nat, 16);
    }
}

/// The path starts at the root.
pub open spec fn is_absolute(path: Seq<char>) -> bool {
    path.len() > 0 && path[0] == '/'
}

/// The URL of a file's path, where it has one.
pub uninterp spec fn file_url_of(path: Seq<char>) -> Option<Seq<char>>;

/// `url::Url::from_file_path` makes a URL of an absolute path, and of no other.
/// Which URL is not stated, only that it depends on nothing but the path on a
/// Unix system.
#[verifier::external_body]
fn file_url(path: &str) -> (url: Option<String>)
    ensures
        crate::text::text_view(url) == file_url_of(path@),
        url.is_some() == is_absolute(path@),
{
    url::Url::from_file_path(path).ok().map(String::from)
}

/// `uris` are the URLs of the paths, one by one; or some path is not absolute
/// and has none.
pub open spec fn staged(
    paths: Seq<String>,
    uris: Result<Vec<String>, FileClipboardError>,
) -> bool {
    match uris {
        Ok(us) => us@.len() == paths.len() && forall|i: int|
            0 <= i < us@.len() ==> file_url_of(paths[i]@) == Some(#[trigger] us@[i]@),
        Err(e) => (e matches FileClipboardError::Uri(text) && text@ == "staged path"@) && exists|
            i: int,
        |
            0 <= i < paths.len() && !is_absolute((#[trigger] paths[i])@),
    }
}

/// The URLs of staged files, which go to the clipboard.
pub fn staged_uris(paths: &Vec<String>) -> (uris: Result<Vec<String>, FileClipboardError>)
    ensures
        staged(paths@, uris),
{
    let mut uris: Vec<String> = Vec::new();
    let mut i: usize = 0;
    while i < paths.len()
        invariant
            i <= paths@.len(),
            uris@.len() == i,
            forall|k: int| 0 <= k < i ==> file_url_of(paths@[k]@) == Some(#[trigger] uris@[k]@),
        decreases paths@.len() - i,
    {
        match file_url(paths[i].as_str()) {
            Some(uri) => uris.push(uri),
            None => {
                return Err(FileClipboardError::Uri("staged path".to_owned()));
            },
        }
        i += 1;
    }
    Ok(uris)
}

/// One of the paths is `path`.
pub open spec fn stands_among(paths: Seq<String>, path: Seq<u8>) -> bool {
    exists|i: int| 0 <= i < paths.len() && utf8((#[trigger] paths[i])@) == path
}

/// Copied files come back: files with names of their own are packed, unpacked
/// beneath the staging directory and handed to the clipboard as as many URLs,
/// each of a path there that ends in the name of one of them.
pub proof fn law_copied_files_come_back(
    entries: Seq<NewEntry>,
    bytes: Seq<u8>,
    names: Result<Vec<Vec<u8>>, FileClipboardError>,
    staging: Seq<u8>,
    paths: Seq<String>,
    uris: Result<Vec<String>, FileClipboardError>,
)
    requires
        packed(entries, bytes),
        bytes.len() <= MAX_ARCHIVE_SIZE,
        extraction(bytes, false, names),
        forall|i: int|
            0 <= i < entries.len() ==> !utf8((#[trigger] entries[i]).path@).contains(SEPARATOR),
        forall|i: int, j: int|
            0 <= i < j < entries.len() ==> utf8((#[trigger] entries[i]).path@) != utf8(
                (#[trigger] entries[j]).path@,
            ),
        names matches Ok(ns) ==> paths.len() == ns@.len() && forall|i: int|
            0 <= i < paths.len() ==> utf8((#[trigger] paths[i])@) == joined_path(
                staging,
                ns@[i]@,
            ) && is_absolute(paths[i]@),
        staged(paths, uris),
    ensures
        uris matches Ok(us) && us@.len() == entries.len() && forall|i: int|
            0 <= i < us@.len() ==> file_url_of(paths[i]@) == Some(#[trigger] us@[i]@),
        forall|k: int|
            0 <= k < entries.len() ==> stands_among(
                paths,
                joined_path(staging, utf8((#[trigger] entries[k]).path@)),
            ),
{
    law_files_keep_their_names(entries, bytes, names);
    let ns = names->Ok_0@;
    if uris is Err {
        let i = choose|i: int| 0 <= i < paths.len() && !is_absolute((#[trigger] paths[i])@);
        assert(is_absolute(paths[i]@));
    }
    assert forall|k: int| 0 <= k < entries.len() implies stands_among(
        paths,
        joined_path(staging, utf8((#[trigger] entries[k]).path@)),
    ) by {
        assert(names_have(ns, utf8(entries[k].path@)));
        let i = choose|i: int| 0 <= i < ns.len() && (#[trigger] ns[i])@ == utf8(entries[k].path@);
        assert(utf8(paths[i]@) == joined_path(staging, ns[i]@));
    }
}

/// A selection with a link, a special file or a file that cannot be read in it is
/// refused, wherever in it that stands; so is one of more than 64 MiB, and an
/// empty one. Any other is taken.
pub proof fn law_selections_are_plain_and_small(
    trees: Seq<Vec<TreeNode>>,
    checked: Result<(), FileClipboardError>,
    i: int,
    k: int,
)
    requires
        selection_judged(trees, checked),
        0 <= i < trees.len(),
        0 <= k < trees[i]@.len(),
    ensures
        trees[i]@[k].kind is Symlink || trees[i]@[k].kind is Special || trees[i]@[k].kind
            is Unreadable ==> checked is Err && !(checked->Err_0 is TooLarge) && !(checked->Err_0
            is Empty),
        selection_bytes(trees) > 67_108_864 ==> checked is Err,
        checked is Err && checked->Err_0 is TooLarge ==> selection_bytes(trees) > 67_108_864,
        selection_bytes(trees) <= 67_108_864 && (forall|a: int, b: int|
            0 <= a < trees.len() && 0 <= b < trees[a]@.len() ==> (#[trigger] trees[a]@[b]).kind
                is File || trees[a]@[b].kind is Directory) ==> checked is Ok,
{
    if let Err(e) = checked {
        if !(e is Empty) && !(e is TooLarge) {
            let a = choose|a: int| 0 <= a < trees.len() && tree_refused(#[trigger] trees[a], e);
            let b = choose|b: int|
                0 <= b < trees[a]@.len() && refuses(#[trigger] trees[a]@[b], e);
            assert(refuses(trees[a]@[b], e));
        }
        if e is TooLarge {
            assert(tree_copyable(trees[i]));
            assert(copyable(trees[i]@[k]));
        }
    } else {
        assert(tree_copyable(trees[i]));
        assert(copyable(trees[i]@[k]));
    }
}

/// The size of a tree is that of its files: directories add nothing to it.
pub proof fn law_trees_weigh_their_files(nodes: Seq<TreeNode>, node: TreeNode)
    ensures
        tree_size(Seq::empty()) == 0,
        tree_size(nodes.push(node)) == tree_size(nodes) + (match node.kind {
            NodeKind::File(len) => len as nat,
            _ => 0,
        }),
{
    assert(nodes.push(node).drop_last() =~= nodes);
}

/// Files of this machine are copied and no others: a URL has to be one of a file
/// without a host, and names what its path says; any other text has to be an
/// absolute path, and names that.
pub proof fn law_only_local_files_are_named(uri: Seq<char>, parts: UrlPartsView)
    ensures
        path_of(uri, Some(parts)) is Some ==> parts.scheme == "file"@ && !parts.has_host,
        parts.scheme == "file"@ && !parts.has_host ==> path_of(uri, Some(parts)) == parts.path,
        path_of(uri, None) is Some <==> uri.len() > 0 && uri[0] == '/',
        path_of(uri, None) is Some ==> path_of(uri, None) == Some(vstd::utf8::encode_utf8(uri)),
{
}

/// An entry may be unpacked exactly where it is a plain file or a directory at a
/// relative path of which no part leads upwards; the path is what is looked at
/// first.
pub proof fn law_what_may_be_unpacked(item: ArchiveItemView, error: FileClipboardError)
    ensures
        safe_item(Ok(item)) <==> (item.kind == 48 || item.kind == 53) && !(item.path.len() > 0
            && item.path[0] == 47) && forall|i: int| !up_at(item.path, i),
        item_refused(Ok(item), error) ==> !safe_item(Ok(item)) && (error is UnsafePath || error
            is UnsafeEntry),
        item_refused(Ok(item), error) && (item.path.len() > 0 && item.path[0] == 47) ==> error
            is UnsafePath,
        item_refused(Ok(item), error) && clean_path(item.path) ==> error is UnsafeEntry,
{
}

/// A part of a path leads upwards where it is two full stops and nothing else.
pub proof fn law_two_stops_lead_upwards(before: Seq<u8>, after: Seq<u8>)
    ensures
        up_at(before + seq![47u8, 46, 46, 47] + after, before.len() as int + 1),
        up_at(before + seq![47u8, 46, 46], before.len() as int + 1),
        up_at(seq![46u8, 46, 47] + after, 0),
        up_at(seq![46u8, 46], 0),
{
}

/// The cache directory is the one that the user chose, or the usual one in the
/// user's home, or else the one for temporary files; the archives have a
/// directory of their own in it.
pub proof fn law_the_cache_is_the_users(
    xdg: Seq<u8>,
    home: Option<Seq<u8>>,
    own: Seq<u8>,
    temporary: Seq<u8>,
)
    ensures
        ({
            let place = utf8("monitorhop/clipboard"@);
            &&& cache_root_path(Some(xdg), home, temporary) == joined_path(xdg, place)
            &&& cache_root_path(None, Some(own), temporary) == joined_path(
                joined_path(own, utf8(".cache"@)),
                place,
            )
            &&& cache_root_path(None, None, temporary) == joined_path(temporary, place)
        }),
{
}

/// A selection is taken as a whole or not at all: it has as many paths as it has
/// URIs, each the path that its URI names, in their order; and none where one of
/// them names no local file, or where there are none.
pub proof fn law_selections_are_taken_as_a_whole(
    uris: Seq<String>,
    paths: Result<Vec<Vec<u8>>, FileClipboardError>,
    i: int,
)
    requires
        selection_named(uris, paths),
    ensures
        paths is Ok && 0 <= i < uris.len() ==> paths->Ok_0@.len() == uris.len() && path_of(
            uris[i]@,
            url_parts(uris[i]@),
        ) == Some(paths->Ok_0@[i]@),
        0 <= i < uris.len() && path_of(uris[i]@, url_parts(uris[i]@)) is None ==> paths is Err,
        uris.len() == 0 ==> paths is Err,
        uris.len() > 0 && (forall|k: int|
            0 <= k < uris.len() ==> path_of(#[trigger] uris[k]@, url_parts(uris[k]@)) is Some)
            ==> paths is Ok,
{
    if paths is Ok && 0 <= i < uris.len() {
        assert(path_of(uris[i]@, url_parts(uris[i]@)) == Some(paths->Ok_0@[i]@));
    }
}

/// An entry is unpacked at its own path beneath the root, or is refused; nothing
/// is unpacked outside the root.
pub proof fn law_entries_are_placed_beneath_the_root(
    root: Seq<u8>,
    item: ArchiveItemView,
    path: Result<Vec<u8>, FileClipboardError>,
)
    requires
        placed(root, item, path),
        root.len() > 0,
        root.last() != 47,
    ensures
        path is Ok <==> safe_item(Ok(item)),
        path matches Ok(p) ==> p@ == root + seq![47u8] + item.path,
{
    crate::paths::law_paths_are_joined_by_one_separator(root, item.path);
}

/// Each transfer has a directory of its own in the cache, named by sixteen
/// hexadecimal digits that spell its number.
pub proof fn law_staging_directories_are_numbered(cache: Seq<u8>, a: u64, b: u64)
    requires
        cache.len() > 0,
        cache.last() != 47,
    ensures
        staging_of(cache, a) == cache + seq![47u8] + hex_bytes(a as nat, 16),
        hex_bytes(a as nat, 16).len() == 16,
        hex_spelled(hex_bytes(a as nat, 16)) == a,
        staging_of(cache, a) == staging_of(cache, b) <==> a == b,
{
    crate::paths::law_paths_are_joined_by_one_separator(cache, hex_bytes(a as nat, 16));
    lemma_hex_spelled(a as nat, 16);
    assert(vstd::arithmetic::power::pow(16, 16) == 0x1_0000_0000_0000_0000) by {
        reveal(vstd::arithmetic::power::pow);
        reveal_with_fuel(vstd::arithmetic::power::pow, 17);
    }
    if a != b {
        law_transfers_have_their_own_directories(cache, a, b);
    }
}

/// The number that hexadecimal digits spell.
pub open spec fn hex_spelled(digits: Seq<u8>) -> nat
    decreases digits.len(),
{
    if digits.len() == 0 {
        0
    } else {
        let d = digits.last();
        hex_spelled(digits.drop_last()) * 16 + (if d <= 57 {
            (d - 48) as nat
        } else {
            (d - 97 + 10) as nat
        })
    }
}

proof fn lemma_hex_spelled(n: nat, width: nat)
    ensures
        hex_bytes(n, width).len() == width,
        n < vstd::arithmetic::power::pow(16, width) ==> hex_spelled(hex_bytes(n, width)) == n,
    decreases width,
{
    reveal(vstd::arithmetic::power::pow);
    if width > 0 {
        let digits = hex_bytes(n, width);
        lemma_hex_spelled(n / 16, (width - 1) as nat);
        assert(digits.drop_last() =~= hex_bytes(n / 16, (width - 1) as nat));
        assert(digits.last() == hex_byte(n % 16));
        let smaller = vstd::arithmetic::power::pow(16, (width - 1) as nat);
        if n < vstd::arithmetic::power::pow(16, width) {
            assert(n / 16 < smaller);
        }
    }
}

/// What is selected has the name that its path ends with, whatever stands before
/// it; a separator at the end does not matter.
pub proof fn law_roots_are_named_by_the_end_of_their_path(before: Seq<u8>, name: Seq<u8>)
    requires
        name.len() > 0,
        !name.contains(47),
        name != seq![46u8],
        name != seq![46u8, 46],
    ensures
        root_name_of(before + seq![47u8] + name) == Some(name),
        root_name_of(before + seq![47u8] + name + seq![47u8]) == Some(name),
        root_name_of(name) == Some(name),
        root_name_of(seq![47u8]) is None,
        root_name_of(before + seq![47u8, 46, 46]) is None,
{
    let path = before + seq![47u8] + name;
    let slashed = path + seq![47u8];
    assert(name.last() != 47) by {
        assert(name.contains(name.last()));
    }
    assert(!here_at(path, path.len() - 1)) by {
        if here_at(path, path.len() - 1) {
            if name.len() == 1 {
                assert(name =~= seq![46u8]);
            } else {
                assert(path[path.len() - 2] == name[name.len() - 2]);
                assert(name.contains(name[name.len() - 2]));
            }
        }
    }
    assert(path.last() == name.last());
    assert(trimmed(path) == path);
    assert(slashed.drop_last() =~= path);
    assert(slashed.last() == 47);
    assert(trimmed(slashed) == path);
    lemma_last_part_is(before + seq![47u8], name);
    assert(!here_at(name, name.len() - 1)) by {
        if here_at(name, name.len() - 1) {
            if name.len() == 1 {
                assert(name =~= seq![46u8]);
            } else {
                assert(name.contains(name[name.len() - 2]));
            }
        }
    }
    assert(trimmed(name) == name);
    lemma_last_part_is(Seq::empty(), name);
    assert(Seq::<u8>::empty() + name =~= name);
    let root = seq![47u8];
    assert(root.drop_last() =~= Seq::<u8>::empty());
    assert(trimmed(root) == trimmed(Seq::<u8>::empty()));
    assert(trimmed(Seq::<u8>::empty()) =~= Seq::<u8>::empty());
    let up = before + seq![47u8, 46, 46];
    let stops = seq![46u8, 46];
    assert(up =~= (before + seq![47u8]) + stops);
    assert(!here_at(up, up.len() - 1)) by {
        assert(up[up.len() - 2] == 46);
    }
    assert(up.last() == 46);
    assert(trimmed(up) == up);
    assert(!stops.contains(47)) by {
        assert(stops[0] == 46 && stops[1] == 46);
    }
    lemma_last_part_is(before + seq![47u8], stops);
}

proof fn lemma_last_part_is(before: Seq<u8>, name: Seq<u8>)
    requires
        before.len() == 0 || before.last() == 47,
        !name.contains(47),
    ensures
        last_part(before + name) == name,
    decreases name.len(),
{
    let path = before + name;
    if name.len() == 0 {
        assert(path =~= before);
        assert(name =~= Seq::<u8>::empty());
    } else {
        let front = name.drop_last();
        assert(!front.contains(47)) by {
            if front.contains(47) {
                let i = choose|i: int| 0 <= i < front.len() && front[i] == 47;
                assert(name[i] == 47);
            }
        }
        lemma_last_part_is(before, front);
        assert(path.drop_last() =~= before + front);
        assert(path.last() == name.last());
        assert(name.contains(name.last()));
        assert(last_part(path) =~= name);
    }
}

/// An archive is unpacked exactly where every entry may be and some entry has a
/// name: one entry that may not be keeps all of it out.
pub proof fn law_one_bad_entry_keeps_all_out(
    items: Seq<Result<ArchiveItemView, Seq<char>>>,
    names: Result<Vec<Vec<u8>>, FileClipboardError>,
    i: int,
    name: Seq<u8>,
)
    requires
        unpacked(items, names),
        0 <= i < items.len(),
    ensures
        !safe_item(items[i]) ==> names is Err && !(names->Err_0 is Empty),
        items_safe(items) && top_name(items[i], name) ==> names is Ok && names_have(
            names->Ok_0@,
            name,
        ),
        names matches Ok(ns) && names_have(ns@, name) ==> exists|k: int|
            0 <= k < items.len() && top_name(#[trigger] items[k], name),
{
    if items_safe(items) {
        if let Err(e) = names {
            if !(e is Empty) {
                lemma_refused_is_unsafe(items, e);
            }
        }
        if top_name(items[i], name) {
            assert(adds_name(items, name));
        }
    }
    if let Ok(ns) = names {
        if names_have(ns@, name) {
            assert(adds_name(items, name));
        }
    }
}

/// An archive is refused by its size where it is empty or has more than 64 MiB,
/// and where its directory is there already; nothing is unpacked then.
pub proof fn law_archives_are_refused_by_size(
    bytes: Seq<u8>,
    staging_exists: bool,
    names: Result<Vec<Vec<u8>>, FileClipboardError>,
)
    requires
        extraction(bytes, staging_exists, names),
    ensures
        bytes.len() == 0 || bytes.len() > 67_108_864 ==> names is Err && names->Err_0 is TooLarge,
        staging_exists ==> names is Err,
        0 < bytes.len() <= 67_108_864 && !staging_exists && listable(bytes) ==> unpacked(
            archive_items(bytes),
            names,
        ),
        !listable(bytes) ==> names is Err,
{
    if 0 < bytes.len() <= 67_108_864 && !staging_exists && !listable(bytes) {
        let front = bytes.take(unmoved_len(bytes) as int);
        if listable(front) && !items_safe(archive_items(front)) && names is Ok {
            assert(items_safe(archive_items(front)));
        }
    }
}

} // verus!
