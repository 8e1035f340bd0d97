//! Archives in the `tar` format: how their entries are listed, and how they are
//! written.
//!
//! Paths are bytes, as Unix has them.
use vstd::prelude::*;
use crate::bytes::{be_value, copy_range, read_be};
use crate::clipboard_files::{is_up, up_at, FileClipboardError, DOT, MAX_ARCHIVE_SIZE};
use crate::paths::{utf8, SEPARATOR};

verus! {

/// The byte that stands for a plain file in an archive.
pub const KIND_FILE: u8 = 0x30;

/// The byte that stands for a directory in an archive.
pub const KIND_DIRECTORY: u8 = 0x35;

/// The byte that stands for a file with holes in an archive.
pub const KIND_SPARSE: u8 = 0x53;

/// The byte that stands for records about the next entry in an archive.
pub const KIND_RECORDS: u8 = 0x78;

/// The byte that stands for the long path of the next entry in an archive.
pub const KIND_LONG_PATH: u8 = 0x4c;

/// The byte that stands for the long target of the next entry in an archive.
pub const KIND_LONG_TARGET: u8 = 0x4b;

/// The bytes of a header, and the unit in which contents are padded.
pub const BLOCK: usize = 512;

/// What an archive says of one of its entries.
#[derive(Debug)]
pub struct ArchiveItem {
    pub path: Vec<u8>,
    /// The type of the entry, as the byte that stands for it in the archive.
    pub kind: u8,
    /// Where in the archive the content starts.
    pub start: u64,
    /// How many bytes of content there are.
    pub size: u64,
    /// The permissions, where they can be read.
    pub mode: Option<u32>,
    /// The owner, where it can be read.
    pub uid: Option<u64>,
    /// The group, where it can be read.
    pub gid: Option<u64>,
    /// When the entry was last changed, where that can be read.
    pub mtime: Option<u64>,
}

/// What an [`ArchiveItem`] says.
#[verifier::ext_equal]
pub struct ArchiveItemView {
    pub path: Seq<u8>,
    pub kind: u8,
    pub start: u64,
    pub size: u64,
    pub mode: Option<u32>,
    pub uid: Option<u64>,
    pub gid: Option<u64>,
    pub mtime: Option<u64>,
}

impl View for ArchiveItem {
    type V = ArchiveItemView;

    open spec fn view(&self) -> ArchiveItemView {
        ArchiveItemView {
            path: self.path@,
            kind: self.kind,
            start: self.start,
            size: self.size,
            mode: self.mode,
            uid: self.uid,
            gid: self.gid,
            mtime: self.mtime,
        }
    }
}

/// An entry of an archive, or why it could not be read.
pub open spec fn item_view(item: Result<ArchiveItem, String>) -> Result<
    ArchiveItemView,
    Seq<char>,
> {
    match item {
        Ok(i) => Ok(i@),
        Err(e) => Err(e@),
    }
}

pub open spec fn items_view(items: Seq<Result<ArchiveItem, String>>) -> Seq<
    Result<ArchiveItemView, Seq<char>>,
> {
    Seq::new(items.len(), |i: int| item_view(items[i]))
}

/// What a file in the archive format holds: its entries in order, up to the
/// first that cannot be read.
pub uninterp spec fn archive_items(bytes: Seq<u8>) -> Seq<Result<ArchiveItemView, Seq<char>>>;

/// The block at `at` can be read as the header of a file with holes that goes on
/// in further blocks: its type, the eight bytes that mark the GNU format, and
/// the flag.
pub open spec fn is_extended_sparse(bytes: Seq<u8>, at: int) -> bool {
    &&& 0 <= at
    &&& at % (BLOCK as int) == 0
    &&& at + BLOCK <= bytes.len()
    &&& bytes[at + 156] == KIND_SPARSE
    &&& bytes[at + 257] == 0x75
    &&& bytes[at + 258] == 0x73
    &&& bytes[at + 259] == 0x74
    &&& bytes[at + 260] == 0x61
    &&& bytes[at + 261] == 0x72
    &&& bytes[at + 262] == 0x20
    &&& bytes[at + 263] == 0x20
    &&& bytes[at + 264] == 0
    &&& bytes[at + 482] == 1
}

/// The size in the header at `at` is given in binary, and is so large that an
/// end behind it, padded to a block, need not be a 64-bit number.
pub open spec fn size_overflows(bytes: Seq<u8>, at: int) -> bool {
    bytes[at + 124] >= 0x80 && be_value(bytes.subrange(at + 128, at + 136)) + bytes.len() + BLOCK
        > u64::MAX
}

/// A decimal digit or a plus sign.
pub open spec fn number_byte(b: u8) -> bool {
    0x30 <= b <= 0x39 || b == 0x2b
}

/// A record `size=` stands at `p` with a number of at least twenty characters,
/// as many as the numbers near the end of the 64-bit range have.
pub open spec fn is_long_size(bytes: Seq<u8>, p: int) -> bool {
    &&& 0 <= p
    &&& p + 25 <= bytes.len()
    &&& bytes[p] == 0x73
    &&& bytes[p + 1] == 0x69
    &&& bytes[p + 2] == 0x7a
    &&& bytes[p + 3] == 0x65
    &&& bytes[p + 4] == 0x3d
    &&& forall|k: int| p + 5 <= k < p + 25 ==> number_byte(#[trigger] bytes[k])
}

/// A file with holes behind `from` may end beyond the 64-bit range, by the size
/// in its header or by a record.
pub open spec fn ends_beyond_range(bytes: Seq<u8>, from: int) -> bool {
    exists|at: int| #[trigger]
        is_extended_sparse(bytes, at) && from <= at && (size_overflows(bytes, at) || exists|p: int|
            from <= p && #[trigger] is_long_size(bytes, p))
}

/// A header of an archive.
#[derive(Debug, PartialEq, Eq, Clone, Copy, Structural)]
pub struct RawHeader {
    /// Where in the archive it stands.
    pub at: u64,
    /// Its type, as the byte that stands for it.
    pub kind: u8,
}

/// The headers of an archive in order, up to the first that cannot be read,
/// where each stands behind the content that the one before announces.
pub uninterp spec fn raw_headers(bytes: Seq<u8>) -> Seq<Result<RawHeader, ()>>;

/// `tar::Entries::raw` makes the walk of `tar::Archive::entries` take each header
/// as an entry of its own, whatever it says of others; `raw_header_position` and
/// `entry_type` say what each is. Which headers given bytes hold is not stated,
/// only that they depend on nothing else.
#[verifier::external_body]
fn list_headers(bytes: &[u8]) -> (headers: Vec<Result<RawHeader, ()>>)
    ensures
        headers@ == raw_headers(bytes@),
{
    let mut archive = tar::Archive::new(bytes);
    match archive.entries() {
        Ok(entries) => entries.raw(true).map(|entry| match entry {
            Ok(e) => Ok(RawHeader {
                at: e.raw_header_position(),
                kind: e.header().entry_type().as_byte(),
            }),
            Err(_) => Err(()),
        }).collect(),
        Err(_) => vec![Err(())],
    }
}

/// What follows the header need not stand behind the content that it announces:
/// records tell another size of the next entry, and a file with holes may go on
/// in further blocks.
pub open spec fn moves_headers(bytes: Seq<u8>, header: Result<RawHeader, ()>) -> bool {
    header matches Ok(h) && (h.kind == KIND_RECORDS || (h.kind == KIND_SPARSE
        && is_extended_sparse(bytes, h.at as int)))
}

/// The index of the first header from `from` on that moves others.
pub open spec fn first_moving(
    bytes: Seq<u8>,
    headers: Seq<Result<RawHeader, ()>>,
    from: int,
) -> Option<int>
    decreases headers.len() - from,
{
    if from >= headers.len() {
        None
    } else if moves_headers(bytes, headers[from]) {
        Some(from)
    } else {
        first_moving(bytes, headers, from + 1)
    }
}

/// Where a header stands; the end of the archive where it cannot be read.
pub open spec fn place_of(bytes: Seq<u8>, header: Result<RawHeader, ()>) -> nat {
    match header {
        Ok(h) if h.at <= bytes.len() => h.at as nat,
        _ => bytes.len(),
    }
}

/// The archive is small enough, and the position of no entry is beyond the
/// 64-bit range. Where no header moves others the headers show that; from the
/// first that does on, anything that could be read as a header counts.
pub open spec fn listable(bytes: Seq<u8>) -> bool {
    bytes.len() <= MAX_ARCHIVE_SIZE && match first_moving(bytes, raw_headers(bytes), 0) {
        Some(i) => !ends_beyond_range(bytes, place_of(bytes, raw_headers(bytes)[i]) as int),
        None => true,
    }
}

/// `tar::Archive::entries` walks the entries of an archive; `path_bytes`,
/// `entry_type`, `raw_file_position`, `size`, `mode`, `uid`, `gid` and `mtime`
/// say what each is. Which entries given bytes hold is not stated, only that
/// they depend on nothing else. The walk adds up positions in 64 bits; behind a
/// file with holes it does so unchecked, so archives where such a file may end
/// beyond that range are left out.
#[verifier::external_body]
fn list_archive(bytes: &[u8]) -> (items: Vec<Result<ArchiveItem, String>>)
    requires
        listable(bytes@),
    ensures
        items_view(items@) == archive_items(bytes@),
{
    let mut archive = tar::Archive::new(bytes);
    let entries = match archive.entries() {
        Ok(entries) => entries,
        Err(e) => return vec![Err(e.to_string())],
    };
    entries.map(|entry| entry.map_err(|e| e.to_string()).map(|e| ArchiveItem {
        path: e.path_bytes().into_owned(),
        kind: e.header().entry_type().as_byte(),
        start: e.raw_file_position(),
        size: e.size(),
        mode: e.header().mode().ok(),
        uid: e.header().uid().ok(),
        gid: e.header().gid().ok(),
        mtime: e.header().mtime().ok(),
    })).collect()
}

fn extended_sparse_at(bytes: &[u8], at: usize) -> (found: bool)
    requires
        at % BLOCK == 0,
        at + BLOCK <= bytes@.len(),
    ensures
        found == is_extended_sparse(bytes@, at as int),
{
    bytes[at + 156] == KIND_SPARSE && bytes[at + 257] == 0x75 && bytes[at + 258] == 0x73
        && bytes[at + 259] == 0x74 && bytes[at + 260] == 0x61 && bytes[at + 261] == 0x72
        && bytes[at + 262] == 0x20 && bytes[at + 263] == 0x20 && bytes[at + 264] == 0 && bytes[at
        + 482] == 1
}

fn long_size_at(bytes: &[u8], p: usize) -> (found: bool)
    requires
        p + 25 <= bytes@.len(),
    ensures
        found == is_long_size(bytes@, p as int),
{
    if !(bytes[p] == 0x73 && bytes[p + 1] == 0x69 && bytes[p + 2] == 0x7a && bytes[p + 3] == 0x65
        && bytes[p + 4] == 0x3d) {
        return false;
    }
    let end: usize = p + 25;
    let mut k: usize = p + 5;
    while k < end
        invariant
            p + 5 <= k <= end,
            end == p + 25,
            end <= bytes@.len(),
            forall|j: int| p + 5 <= j < k ==> number_byte(#[trigger] bytes@[j]),
        decreases end - k,
    {
        if !(0x30 <= bytes[k] && bytes[k] <= 0x39 || bytes[k] == 0x2b) {
            assert(!number_byte(bytes@[k as int]));
            return false;
        }
        k += 1;
    }
    true
}

fn has_long_size(bytes: &[u8], from: usize) -> (found: bool)
    requires
        from <= bytes@.len(),
    ensures
        found == exists|p: int| from <= p && #[trigger] is_long_size(bytes@, p),
{
    let mut p: usize = from;
    while bytes.len() - p >= 25
        invariant
            from <= p <= bytes@.len(),
            forall|q: int| from <= q < p ==> !is_long_size(bytes@, q),
        decreases bytes@.len() - p,
    {
        if long_size_at(bytes, p) {
            return true;
        }
        p += 1;
    }
    false
}

/// Whether a file with holes behind `from` may end beyond the 64-bit range.
fn may_end_beyond_range(bytes: &[u8], from: usize) -> (found: bool)
    requires
        from <= bytes@.len() <= MAX_ARCHIVE_SIZE,
    ensures
        found == ends_beyond_range(bytes@, from as int),
{
    let mut seen: bool = false;
    let mut at: usize = 0;
    while bytes.len() - at >= BLOCK
        invariant
            from <= bytes@.len(),
            at <= bytes@.len() <= MAX_ARCHIVE_SIZE,
            at % BLOCK == 0,
            seen == exists|b: int| from <= b < at && #[trigger] is_extended_sparse(bytes@, b),
            forall|b: int|
                from <= b < at && #[trigger] is_extended_sparse(bytes@, b) ==> !size_overflows(
                    bytes@,
                    b,
                ),
        decreases bytes@.len() - at,
    {
        if at >= from && extended_sparse_at(bytes, at) {
            let size: u64 = read_be(bytes, at + 128, 8);
            let room: u64 = u64::MAX - (bytes.len() as u64) - (BLOCK as u64);
            if bytes[at + 124] >= 0x80 && size > room {
                assert(is_extended_sparse(bytes@, at as int));
                assert(size_overflows(bytes@, at as int));
                return true;
            }
            seen = true;
        }
        proof {
            assert forall|b: int|
                b < at + BLOCK && #[trigger] is_extended_sparse(bytes@, b) implies b <= at by {
                if b > at {
                    assert(b % 512 == 0 && at % 512 == 0 && at < b < at + 512);
                    assert(false);
                }
            }
        }
        at += BLOCK;
    }
    assert forall|b: int| #[trigger] is_extended_sparse(bytes@, b) implies b < at by {
        assert(b % 512 == 0);
    }
    seen && has_long_size(bytes, from)
}

/// Whether a header moves others.
fn is_moving(bytes: &[u8], header: &Result<RawHeader, ()>) -> (moving: bool)
    ensures
        moving == moves_headers(bytes@, *header),
{
    match header {
        Ok(h) => {
            if h.kind == KIND_RECORDS {
                return true;
            }
            if h.kind != KIND_SPARSE || h.at > bytes.len() as u64 {
                return false;
            }
            let at: usize = h.at as usize;
            at % BLOCK == 0 && bytes.len() - at >= BLOCK && extended_sparse_at(bytes, at)
        },
        Err(_) => false,
    }
}

/// The index of the first header that moves others.
fn find_moving(bytes: &[u8], headers: &Vec<Result<RawHeader, ()>>) -> (index: Option<usize>)
    ensures
        match index {
            Some(i) => i < headers@.len() && first_moving(bytes@, headers@, 0) == Some(i as int),
            None => first_moving(bytes@, headers@, 0) is None,
        },
{
    let mut i: usize = 0;
    while i < headers.len()
        invariant
            i <= headers@.len(),
            first_moving(bytes@, headers@, 0) == first_moving(bytes@, headers@, i as int),
        decreases headers@.len() - i,
    {
        if is_moving(bytes, &headers[i]) {
            return Some(i);
        }
        i += 1;
    }
    None
}

fn place(bytes: &[u8], header: &Result<RawHeader, ()>) -> (at: usize)
    ensures
        at == place_of(bytes@, *header),
        at <= bytes@.len(),
{
    match header {
        Ok(h) => if h.at <= bytes.len() as u64 {
            h.at as usize
        } else {
            bytes.len()
        },
        Err(_) => bytes.len(),
    }
}

/// The entries of an archive: none where it is too large, or where a file with
/// holes may end beyond the 64-bit range.
pub fn list_entries(bytes: &[u8]) -> (items: Option<Vec<Result<ArchiveItem, String>>>)
    ensures
        match items {
            Some(list) => listable(bytes@) && items_view(list@) == archive_items(bytes@),
            None => !listable(bytes@),
        },
{
    if bytes.len() > MAX_ARCHIVE_SIZE {
        return None;
    }
    let headers = list_headers(bytes);
    if let Some(i) = find_moving(bytes, &headers) {
        if may_end_beyond_range(bytes, place(bytes, &headers[i])) {
            return None;
        }
    }
    Some(list_archive(bytes))
}

/// The index of the first header that speaks of the entry whose header has the
/// index `i`.
pub open spec fn entry_begin(headers: Seq<Result<RawHeader, ()>>, i: int) -> int
    decreases i,
{
    if 0 < i <= headers.len() && (headers[i - 1] matches Ok(h) && (h.kind == KIND_LONG_PATH
        || h.kind == KIND_LONG_TARGET)) {
        entry_begin(headers, i - 1)
    } else {
        i
    }
}

/// How much of an archive comes before the first entry with a header that moves
/// others.
pub open spec fn unmoved_len(bytes: Seq<u8>) -> nat {
    let headers = raw_headers(bytes);
    match first_moving(bytes, headers, 0) {
        Some(i) => place_of(bytes, headers[entry_begin(headers, i)]),
        None => bytes.len(),
    }
}

/// What comes before the first entry with a header that moves others.
pub fn unmoved_part(bytes: &[u8]) -> (front: Vec<u8>)
    ensures
        unmoved_len(bytes@) <= bytes@.len(),
        front@ == bytes@.take(unmoved_len(bytes@) as int),
{
    let headers = list_headers(bytes);
    let mut len: usize = bytes.len();
    if let Some(first) = find_moving(bytes, &headers) {
        let mut i: usize = first;
        while i > 0 && is_long(&headers[i - 1])
            invariant
                i <= first < headers@.len(),
                entry_begin(headers@, first as int) == entry_begin(headers@, i as int),
            decreases i,
        {
            i -= 1;
        }
        len = place(bytes, &headers[i]);
    }
    let front = copy_range(bytes, 0, len);
    assert(front@ =~= bytes@.take(len as int));
    front
}

fn is_long(header: &Result<RawHeader, ()>) -> (long: bool)
    ensures
        long == (header matches Ok(h) && (h.kind == KIND_LONG_PATH || h.kind == KIND_LONG_TARGET)),
{
    match header {
        Ok(h) => h.kind == KIND_LONG_PATH || h.kind == KIND_LONG_TARGET,
        Err(_) => false,
    }
}

/// The content of an entry, where the archive does not end before it.
pub open spec fn content_of(bytes: Seq<u8>, item: ArchiveItemView) -> Option<Seq<u8>> {
    if item.start + item.size <= bytes.len() {
        Some(bytes.subrange(item.start as int, item.start + item.size))
    } else {
        None
    }
}

/// The content of an entry of the archive, where it does not end before it.
pub fn entry_content(bytes: &[u8], item: &ArchiveItem) -> (content: Option<Vec<u8>>)
    ensures
        match content {
            Some(c) => content_of(bytes@, item@) == Some(c@),
            None => content_of(bytes@, item@) is None,
        },
{
    let len: u64 = bytes.len() as u64;
    if item.start <= len && item.size <= len - item.start {
        Some(copy_range(bytes, item.start as usize, (item.start + item.size) as usize))
    } else {
        None
    }
}

/// A full stop stands at `i` as a part of the path of its own.
pub open spec fn here_at(path: Seq<u8>, i: int) -> bool {
    &&& 0 <= i < path.len()
    &&& path[i] == DOT
    &&& i == 0 || path[i - 1] == SEPARATOR
    &&& i + 1 == path.len() || path[i + 1] == SEPARATOR
}

/// Two separators follow each other.
pub open spec fn gap_at(path: Seq<u8>, i: int) -> bool {
    0 <= i && i + 1 < path.len() && path[i] == SEPARATOR && path[i + 1] == SEPARATOR
}

/// The path is relative and is made of names: no part is empty, or leads
/// upwards or nowhere, and no byte is zero. A separator may end it.
pub open spec fn clean_path(path: Seq<u8>) -> bool {
    &&& path.len() > 0
    &&& path[0] != SEPARATOR
    &&& forall|i: int| 0 <= i < path.len() ==> #[trigger] path[i] != 0
    &&& forall|i: int| !gap_at(path, i)
    &&& forall|i: int| !here_at(path, i)
    &&& forall|i: int| !up_at(path, i)
}

/// Whether a path is relative and made of names.
fn is_clean(path: &[u8]) -> (clean: bool)
    ensures
        clean == clean_path(path@),
{
    if path.len() == 0 || path[0] == SEPARATOR {
        return false;
    }
    let mut i: usize = 0;
    while i < path.len()
        invariant
            i <= path@.len(),
            forall|k: int| 0 <= k < i ==> #[trigger] path@[k] != 0,
            forall|k: int| k < i ==> !gap_at(path@, k),
            forall|k: int| k < i ==> !here_at(path@, k),
            forall|k: int| k < i ==> !up_at(path@, k),
        decreases path@.len() - i,
    {
        let rest: usize = path.len() - i;
        if path[i] == 0 {
            return false;
        }
        if rest > 1 && path[i] == SEPARATOR && path[i + 1] == SEPARATOR {
            assert(gap_at(path@, i as int));
            return false;
        }
        if path[i] == DOT && (i == 0 || path[i - 1] == SEPARATOR) && (rest == 1 || path[i + 1]
            == SEPARATOR) {
            assert(here_at(path@, i as int));
            return false;
        }
        if is_up(path, i) {
            return false;
        }
        i += 1;
    }
    true
}

/// A file or directory that goes into an archive, with what the system knows of
/// it.
#[derive(Debug)]
pub struct NewEntry {
    pub path: String,
    pub directory: bool,
    pub mode: u32,
    pub uid: u64,
    pub gid: u64,
    pub mtime: u64,
    pub data: Vec<u8>,
}

impl NewEntry {
    /// The byte that stands for the type of the entry.
    pub open spec fn kind_byte(self) -> u8 {
        if self.directory {
            KIND_DIRECTORY
        } else {
            KIND_FILE
        }
    }

    /// What is written of the entry.
    pub open spec fn written(self) -> Written {
        Written {
            path: utf8(self.path@),
            kind: self.kind_byte(),
            content: self.data@,
            mode: self.mode,
            uid: self.uid,
            gid: self.gid,
            mtime: self.mtime,
        }
    }
}

/// What a writer is given of an entry.
#[verifier::ext_equal]
pub struct Written {
    pub path: Seq<u8>,
    pub kind: u8,
    pub content: Seq<u8>,
    pub mode: u32,
    pub uid: u64,
    pub gid: u64,
    pub mtime: u64,
}

/// What is written of each entry.
pub open spec fn written_entries(entries: Seq<NewEntry>) -> Seq<Written> {
    entries.map_values(|e: NewEntry| e.written())
}

/// All paths are relative and made of names.
pub open spec fn all_clean(entries: Seq<NewEntry>) -> bool {
    forall|i: int| 0 <= i < entries.len() ==> clean_path(utf8((#[trigger] entries[i]).path@))
}

/// One more than the largest mode that a header has room for: seven octal
/// digits.
pub const MODE_SPAN: u32 = 0o1000_0000;

/// One more than the largest number of an owner that a header has room for.
pub const OWNER_SPAN: u64 = 0x8000_0000_0000_0000;

/// The item says what was written, as far as a header has room for it.
pub open spec fn item_is(bytes: Seq<u8>, item: ArchiveItemView, written: Written) -> bool {
    &&& item.path == written.path
    &&& item.kind == written.kind
    &&& content_of(bytes, item) == Some(written.content)
    &&& item.mode == Some((written.mode % MODE_SPAN) as u32)
    &&& item.uid == Some((written.uid % OWNER_SPAN) as u64)
    &&& item.gid == Some((written.gid % OWNER_SPAN) as u64)
    &&& item.mtime == Some(written.mtime)
}

/// The items of an archive are what was written to it, in order.
pub open spec fn items_are(
    bytes: Seq<u8>,
    items: Seq<Result<ArchiveItemView, Seq<char>>>,
    written: Seq<Written>,
) -> bool {
    &&& items.len() == written.len()
    &&& forall|i: int|
        0 <= i < items.len() ==> ((#[trigger] items[i]) matches Ok(item) && item_is(
            bytes,
            item,
            written[i],
        ))
}

/// All headers can be read, and are those of plain files, of directories and of
/// long paths.
pub open spec fn plain_headers(headers: Seq<Result<RawHeader, ()>>) -> bool {
    forall|i: int|
        0 <= i < headers.len() ==> ((#[trigger] headers[i]) matches Ok(h) && (h.kind == KIND_FILE
            || h.kind == KIND_DIRECTORY || h.kind == KIND_LONG_PATH))
}

proof fn lemma_plain_headers_stay(bytes: Seq<u8>, headers: Seq<Result<RawHeader, ()>>, from: int)
    requires
        plain_headers(headers),
        0 <= from,
    ensures
        first_moving(bytes, headers, from) is None,
    decreases headers.len() - from,
{
    if from < headers.len() {
        assert(headers[from] is Ok);
        lemma_plain_headers_stay(bytes, headers, from + 1);
    }
}

/// A writer of archives, `tar::Builder`, opaque here.
#[verifier::external_body]
struct ArchiveWriter {
    builder: tar::Builder<Vec<u8>>,
}

/// What a writer has been given, entry by entry.
pub uninterp spec fn writer_contents(writer: ArchiveWriter) -> Seq<Written>;

/// `tar::Builder::new` makes a writer that has been given nothing.
#[verifier::external_body]
fn writer_new() -> (writer: ArchiveWriter)
    ensures
        writer_contents(writer) == Seq::<Written>::empty(),
{
    ArchiveWriter { builder: tar::Builder::new(Vec::new()) }
}

/// `tar::Builder::append_data` gives the writer an entry. It fails on paths that
/// are absolute, lead upwards or hold a zero byte, or where the output fails;
/// memory does not. Other paths are written as they are on a Unix system.
#[verifier::external_body]
fn writer_append(writer: &mut ArchiveWriter, kind: u8, entry: &NewEntry) -> (added: Result<
    (),
    String,
>)
    requires
        clean_path(utf8(entry.path@)),
        kind == entry.kind_byte(),
    ensures
        added is Ok,
        writer_contents(*final(writer)) == writer_contents(*old(writer)).push(entry.written()),
{
    let mut header = tar::Header::new_gnu();
    header.set_entry_type(tar::EntryType::new(kind));
    header.set_mode(entry.mode);
    header.set_uid(entry.uid);
    header.set_gid(entry.gid);
    header.set_mtime(entry.mtime);
    header.set_size(entry.data.len() as u64);
    let data = entry.data.as_slice();
    writer.builder.append_data(&mut header, &entry.path, data).map_err(|e| e.to_string())
}

/// `tar::Builder::into_inner` ends the archive, and gives its bytes, which are
/// some: listed, they hold the entries that the writer was given, in order, with
/// no header but theirs and those of long paths.
#[verifier::external_body]
fn writer_finish(writer: ArchiveWriter) -> (bytes: Result<Vec<u8>, String>)
    ensures
        bytes is Ok,
        bytes->Ok_0@.len() > 0,
        items_are(bytes->Ok_0@, archive_items(bytes->Ok_0@), writer_contents(writer)),
        plain_headers(raw_headers(bytes->Ok_0@)),
{
    writer.builder.into_inner().map_err(|e| e.to_string())
}

/// The bytes are an archive of the entries, whose paths are relative and made of
/// names: it holds them, and can be listed unless it is too large.
pub open spec fn packed(entries: Seq<NewEntry>, bytes: Seq<u8>) -> bool {
    &&& entries.len() > 0
    &&& all_clean(entries)
    &&& bytes.len() > 0
    &&& items_are(bytes, archive_items(bytes), written_entries(entries))
    &&& bytes.len() <= MAX_ARCHIVE_SIZE ==> listable(bytes)
}

/// An archive of the entries. Paths that are not relative and made of names are
/// refused, and so is an archive of nothing.
pub fn pack(entries: &Vec<NewEntry>) -> (bytes: Result<Vec<u8>, FileClipboardError>)
    ensures
        match bytes {
            Ok(b) => packed(entries@, b@),
            Err(FileClipboardError::Empty) => entries@.len() == 0,
            Err(e) => e == FileClipboardError::UnsafePath && !all_clean(entries@),
        },
{
    if entries.is_empty() {
        return Err(FileClipboardError::Empty);
    }
    let mut writer = writer_new();
    let mut i: usize = 0;
    assert(writer_contents(writer) =~= written_entries(entries@.take(0)));
    while i < entries.len()
        invariant
            i <= entries@.len(),
            all_clean(entries@.take(i as int)),
            writer_contents(writer) == written_entries(entries@.take(i as int)),
        decreases entries@.len() - i,
    {
        let entry = &entries[i];
        if !is_clean(entry.path.as_str().as_bytes()) {
            assert(!clean_path(utf8(entries@[i as int].path@)));
            return Err(FileClipboardError::UnsafePath);
        }
        let kind: u8 = if entry.directory { KIND_DIRECTORY } else { KIND_FILE };
        let _ = writer_append(&mut writer, kind, entry);
        proof {
            let then = entries@.take(i as int);
            let now = entries@.take(i + 1);
            assert(now =~= then.push(*entry));
            assert(written_entries(now) =~= written_entries(then).push(entry.written()));
            assert forall|k: int| 0 <= k < now.len() implies clean_path(
                utf8((#[trigger] now[k]).path@),
            ) by {
                if k < i {
                    assert(then[k] == now[k]);
                }
            }
        }
        i += 1;
    }
    assert(entries@.take(i as int) =~= entries@);
    match writer_finish(writer) {
        Ok(bytes) => {
            proof {
                lemma_plain_headers_stay(bytes@, raw_headers(bytes@), 0);
            }
            Ok(bytes)
        },
        Err(e) => Err(FileClipboardError::Io(e)),
    }
}

/// The content of an entry is as many bytes as the entry has, from where it
/// starts.
pub proof fn law_contents_are_where_they_start(bytes: Seq<u8>, item: ArchiveItemView, i: int)
    ensures
        content_of(bytes, item) is Some <==> item.start + item.size <= bytes.len(),
        content_of(bytes, item) matches Some(content) ==> content.len() == item.size && (0 <= i
            < content.len() ==> content[i] == bytes[item.start + i]),
{
}

/// Only an archive with a header that moves others, or one that is too large,
/// cannot be listed: a file's content never keeps it from being listed.
pub proof fn law_contents_do_not_matter(bytes: Seq<u8>)
    requires
        bytes.len() <= MAX_ARCHIVE_SIZE,
        plain_headers(raw_headers(bytes)),
    ensures
        listable(bytes),
{
    lemma_plain_headers_stay(bytes, raw_headers(bytes), 0);
}

} // verus!
