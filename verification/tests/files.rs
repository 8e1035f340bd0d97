use monitorhop::archive::{
    entry_content, list_entries, pack, ArchiveItem, NewEntry, KIND_DIRECTORY, KIND_FILE,
};
use monitorhop::clipboard_files::{
    archive_name, archive_size_allowed, cache_root, check_items, check_selection, check_tree,
    path_from_parts, plan_extraction, root_name, safe_entry_path, selection_paths, staged_uris,
    staging_path, uri_to_path, FileClipboardError, NodeKind, TreeNode, UrlParts, MAX_ARCHIVE_SIZE,
};

fn node(path: &str, kind: NodeKind) -> TreeNode {
    TreeNode { path: path.into(), kind }
}

fn item(path: &[u8], kind: u8) -> ArchiveItem {
    ArchiveItem {
        path: path.to_vec(),
        kind,
        start: 0,
        size: 0,
        mode: None,
        uid: None,
        gid: None,
        mtime: None,
    }
}

fn new_entry(path: &str, directory: bool, data: &[u8]) -> NewEntry {
    NewEntry {
        path: path.into(),
        directory,
        mode: if directory { 0o40755 } else { 0o100644 },
        uid: 1000,
        gid: 1001,
        mtime: 1_700_000_000,
        data: data.to_vec(),
    }
}

fn append(builder: &mut tar::Builder<&mut Vec<u8>>, path: &str, kind: tar::EntryType, data: &[u8]) {
    let mut header = tar::Header::new_gnu();
    header.set_entry_type(kind);
    header.set_path(path).unwrap();
    header.set_size(data.len() as u64);
    header.set_cksum();
    builder.append(&header, data).unwrap();
}

fn archive(entries: &[(&str, tar::EntryType, &[u8])]) -> Vec<u8> {
    let mut bytes = Vec::new();
    let mut builder = tar::Builder::new(&mut bytes);
    for (path, kind, data) in entries {
        append(&mut builder, path, *kind, data);
    }
    builder.finish().unwrap();
    drop(builder);
    bytes
}

#[test]
fn archive_round_trip() {
    let uri = url::Url::from_file_path("/tmp/dir/hello.txt").unwrap().to_string();
    let paths = selection_paths(&vec![uri]).unwrap();
    assert_eq!(paths, vec![b"/tmp/dir/hello.txt".to_vec()]);
    let tree = vec![node("/tmp/dir/hello.txt", NodeKind::File(5))];
    assert!(check_selection(&vec![tree]).is_ok());
    let name = String::from_utf8(root_name(&paths[0]).unwrap()).unwrap();
    let bytes = pack(&vec![new_entry(&name, false, b"hello")]).unwrap();
    let names = plan_extraction(&bytes, false).unwrap();
    assert_eq!(names, vec![b"hello.txt".to_vec()]);
    let items = list_entries(&bytes).unwrap();
    assert_eq!(items.len(), 1);
    let item = items[0].as_ref().unwrap();
    assert_eq!(entry_content(&bytes, item).unwrap(), b"hello".to_vec());
    let staging = staging_path(b"/cache", 0xfeed);
    assert_eq!(staging, b"/cache/000000000000feed".to_vec());
    let staged = archive_name(&staging, &names[0]);
    let files = staged_uris(&vec![String::from_utf8(staged.clone()).unwrap()]).unwrap();
    assert_eq!(files, vec!["file:///cache/000000000000feed/hello.txt".to_string()]);
    assert_eq!(uri_to_path(&files[0]).unwrap(), staged);
}

#[test]
fn archive_rejects_parent_path() {
    let mut bytes = Vec::new();
    {
        let mut builder = tar::Builder::new(&mut bytes);
        let mut header = tar::Header::new_gnu();
        header.set_path("safe.txt").unwrap();
        header.as_mut_bytes()[..14].copy_from_slice(b"../escape.txt\0");
        header.set_size(1);
        header.set_cksum();
        builder.append(&header, &b"x"[..]).unwrap();
        builder.finish().unwrap();
    }
    assert!(matches!(
        plan_extraction(&bytes, false),
        Err(FileClipboardError::UnsafePath)
    ));
}

#[test]
fn archive_rejects_symlink_source() {
    let tree = vec![node("link.txt", NodeKind::Symlink)];
    assert!(matches!(
        check_selection(&vec![tree]),
        Err(FileClipboardError::UnsupportedType(_))
    ));
}

#[test]
fn top_level_names_are_listed_once_in_order() {
    let bytes = archive(&[
        ("b", tar::EntryType::Directory, b""),
        ("b/x", tar::EntryType::Regular, b"1"),
        ("a", tar::EntryType::Regular, b"2"),
        ("./c", tar::EntryType::Regular, b"3"),
    ]);
    // The library that writes archives drops a leading "./".
    let names = plan_extraction(&bytes, false).unwrap();
    assert_eq!(names[..2], [b"a".to_vec(), b"b".to_vec()]);
    let items = vec![
        Ok(item(b"b/x", KIND_FILE)),
        Ok(item(b"./c", KIND_FILE)),
        Ok(item(b"a", KIND_DIRECTORY)),
        Ok(item(b"b/y", KIND_FILE)),
    ];
    assert_eq!(check_items(items).unwrap(), vec![b"a".to_vec(), b"b".to_vec()]);
}

#[test]
fn links_and_special_files_are_refused() {
    for kind in [
        tar::EntryType::Symlink,
        tar::EntryType::Link,
        tar::EntryType::Fifo,
        tar::EntryType::Char,
        tar::EntryType::Block,
        tar::EntryType::Continuous,
    ] {
        let bytes = archive(&[("ok", tar::EntryType::Regular, b""), ("odd", kind, b"")]);
        assert!(matches!(
            plan_extraction(&bytes, false),
            Err(FileClipboardError::UnsafeEntry)
        ));
    }
}

#[test]
fn unusable_archives_are_refused() {
    assert!(matches!(plan_extraction(&[], false), Err(FileClipboardError::TooLarge)));
    assert!(!archive_size_allowed(MAX_ARCHIVE_SIZE + 1) && archive_size_allowed(MAX_ARCHIVE_SIZE));
    let empty = archive(&[]);
    assert!(matches!(plan_extraction(&empty, false), Err(FileClipboardError::Empty)));
    match plan_extraction(&empty, true) {
        Err(e) => assert_eq!(
            e.describe(),
            "clipboard file is unavailable: clipboard staging directory already exists"
        ),
        Ok(_) => panic!("the directory is taken"),
    }
    let mut broken = archive(&[("ok", tar::EntryType::Regular, b"data")]);
    broken[0] = b'x';
    match plan_extraction(&broken, false) {
        Err(FileClipboardError::Io(e)) => assert_eq!(e, "archive header checksum mismatch"),
        _ => panic!("the header is broken"),
    }
}

#[test]
fn entries_stay_in_their_directory() {
    assert_eq!(safe_entry_path(b"/s", &item(b"a/b", KIND_FILE)).unwrap(), b"/s/a/b".to_vec());
    assert_eq!(safe_entry_path(b"/s", &item(b"a..b", KIND_FILE)).unwrap(), b"/s/a..b".to_vec());
    for path in [&b"/etc/passwd"[..], b"..", b"a/..", b"a/../b", b"../x"] {
        assert!(matches!(
            safe_entry_path(b"/s", &item(path, KIND_FILE)),
            Err(FileClipboardError::UnsafePath)
        ));
    }
    assert!(matches!(
        safe_entry_path(b"/s", &item(b"a", b'2')),
        Err(FileClipboardError::UnsafeEntry)
    ));
}

#[test]
fn uris_name_local_files() {
    assert_eq!(uri_to_path("file:///tmp/a%20b").unwrap(), b"/tmp/a b".to_vec());
    assert_eq!(uri_to_path("file:///tmp/%ff").unwrap(), b"/tmp/\xff".to_vec());
    assert_eq!(uri_to_path("/tmp/x").unwrap(), b"/tmp/x".to_vec());
    for uri in ["http://host/x", "file://host/x", "relative", ""] {
        match uri_to_path(uri) {
            Err(FileClipboardError::Uri(named)) => assert_eq!(named, uri),
            _ => panic!("no local file"),
        }
    }
    let parts = |scheme: &str, has_host: bool, path: Option<Vec<u8>>| {
        Some(UrlParts { scheme: scheme.into(), has_host, path })
    };
    assert_eq!(
        path_from_parts("u", parts("file", false, Some(b"/p".to_vec()))).unwrap(),
        b"/p".to_vec()
    );
    assert!(path_from_parts("u", parts("file", false, None)).is_err());
    assert!(path_from_parts("u", parts("file", true, Some(b"/p".to_vec()))).is_err());
    assert!(path_from_parts("u", parts("ftp", false, Some(b"/p".to_vec()))).is_err());
    assert!(matches!(selection_paths(&vec![]), Err(FileClipboardError::Empty)));
    assert!(matches!(
        selection_paths(&vec!["/ok".to_string(), "bad".to_string()]),
        Err(FileClipboardError::Uri(uri)) if uri == "bad"
    ));
    assert!(matches!(
        staged_uris(&vec!["/ok".to_string(), "bad".to_string()]),
        Err(FileClipboardError::Uri(uri)) if uri == "staged path"
    ));
}

#[test]
fn selections_are_measured() {
    let tree = vec![
        node("d", NodeKind::Directory),
        node("d/a", NodeKind::File(3)),
        node("d/b", NodeKind::File(4)),
    ];
    assert_eq!(check_tree(&tree).unwrap(), 7);
    let full = vec![node("f", NodeKind::File(u64::MAX)), node("g", NodeKind::File(1))];
    assert_eq!(check_tree(&full).unwrap(), u64::MAX);
    assert!(matches!(check_selection(&vec![full]), Err(FileClipboardError::TooLarge)));
    assert!(matches!(check_selection(&vec![]), Err(FileClipboardError::Empty)));
    let limit = vec![node("f", NodeKind::File(MAX_ARCHIVE_SIZE as u64))];
    assert!(check_selection(&vec![limit]).is_ok());
    let odd = vec![node("s", NodeKind::Special)];
    assert!(matches!(check_tree(&odd), Err(FileClipboardError::UnsupportedType(p)) if p == "s"));
    let gone = vec![node("s", NodeKind::Unreadable("gone".into()))];
    assert!(matches!(check_tree(&gone), Err(FileClipboardError::Io(e)) if e == "gone"));
}

#[test]
fn the_cache_lies_in_the_users_directories() {
    assert_eq!(cache_root(Some(b"/x"), Some(b"/h"), b"/t"), b"/x/monitorhop/clipboard".to_vec());
    assert_eq!(cache_root(None, Some(b"/h"), b"/t"), b"/h/.cache/monitorhop/clipboard".to_vec());
    assert_eq!(cache_root(None, None, b"/t"), b"/t/monitorhop/clipboard".to_vec());
    assert_ne!(staging_path(b"/c", 1), staging_path(b"/c", 16));
}

#[test]
fn file_errors_are_described() {
    assert_eq!(
        FileClipboardError::TooLarge.describe(),
        "clipboard archive exceeds the 67108864 byte safety limit"
    );
    assert_eq!(
        FileClipboardError::Uri("u".into()).describe(),
        "unsupported clipboard file URI: u"
    );
    assert_eq!(
        FileClipboardError::UnsupportedType("p".into()).describe(),
        "clipboard selection contains an unsupported file type: p"
    );
    assert_eq!(
        FileClipboardError::UnsafePath.describe(),
        "clipboard archive contains an unsafe path"
    );
    assert_eq!(
        FileClipboardError::UnsafeEntry.describe(),
        "clipboard archive contains links or special files"
    );
    assert_eq!(FileClipboardError::Empty.describe(), "clipboard archive is empty");
}

#[test]
fn packed_entries_come_out_again() {
    let long = format!("d/{}/{}", "x".repeat(90), "\u{e9}".repeat(60));
    let entries = vec![
        new_entry("d/", true, b""),
        new_entry("d/a", false, b"1"),
        new_entry(&long, false, &[7; 1500]),
        new_entry("b", false, b""),
        new_entry(&"y".repeat(100), false, b"hundred"),
    ];
    let bytes = pack(&entries).unwrap();
    let items = list_entries(&bytes).unwrap();
    assert_eq!(items.len(), entries.len());
    for (item, entry) in items.iter().zip(&entries) {
        let item = item.as_ref().unwrap();
        assert_eq!(item.path, entry.path.as_bytes());
        assert_eq!(item.kind, if entry.directory { KIND_DIRECTORY } else { KIND_FILE });
        assert_eq!(entry_content(&bytes, item).unwrap(), entry.data);
        assert_eq!(item.mode, Some(entry.mode));
        assert_eq!((item.uid, item.gid), (Some(1000), Some(1001)));
        assert_eq!(item.mtime, Some(1_700_000_000));
    }
    let names = plan_extraction(&bytes, false).unwrap();
    assert_eq!(names, vec![b"b".to_vec(), b"d".to_vec(), vec![b'y'; 100]]);
    let mut read = tar::Archive::new(&bytes[..]);
    let first = read.entries().unwrap().next().unwrap().unwrap();
    assert_eq!(first.header().mtime().unwrap(), 1_700_000_000);
    assert_eq!(first.header().mode().unwrap(), 0o40755);
    assert_eq!(first.header().uid().unwrap(), 1000);
    let beyond = ArchiveItem { start: u64::MAX, size: u64::MAX, ..item(b"", KIND_FILE) };
    assert!(entry_content(&bytes, &beyond).is_none());
}

#[test]
fn odd_paths_are_not_packed() {
    for path in ["", "/a", "a//b", ".", "./a", "a/.", "..", "a/../b", "a/..", "a\0b"] {
        assert!(matches!(
            pack(&vec![new_entry("ok", false, b""), new_entry(path, false, b"")]),
            Err(FileClipboardError::UnsafePath)
        ));
    }
    for path in ["a", "a/", "a..b/.c", "...", "a/..."] {
        assert!(pack(&vec![new_entry(path, false, b"")]).is_ok());
    }
    assert!(matches!(pack(&vec![]), Err(FileClipboardError::Empty)));
}

#[test]
fn roots_are_named_by_their_last_part() {
    for (path, name) in [
        (&b"/tmp/a"[..], Some(&b"a"[..])),
        (b"/tmp/a/", Some(b"a")),
        (b"/tmp/a/.//.", Some(b"a")),
        (b"a", Some(b"a")),
        (b"/tmp/.a", Some(b".a")),
        (b"/tmp/a.", Some(b"a.")),
        (b"/tmp/...", Some(b"...")),
        (b"/", None),
        (b"", None),
        (b".", None),
        (b"/tmp/..", None),
        (b"/tmp/../.", None),
    ] {
        assert_eq!(root_name(path).as_deref(), name);
    }
}

/// A header of a file with holes that goes on in another block.
fn sparse(size: u64) -> Vec<u8> {
    let mut header = tar::Header::new_gnu();
    header.set_entry_type(tar::EntryType::GNUSparse);
    header.set_path("holes").unwrap();
    header.as_mut_bytes()[124..136].fill(0);
    header.as_mut_bytes()[124] = 0x80;
    header.as_mut_bytes()[128..136].copy_from_slice(&size.to_be_bytes());
    header.as_gnu_mut().unwrap().set_is_extended(true);
    header.set_cksum();
    let mut bytes = header.as_bytes().to_vec();
    bytes.extend_from_slice(&[0; 512]);
    bytes
}

#[test]
fn files_that_end_beyond_the_range_are_refused() {
    assert!(list_entries(&sparse(u64::MAX - 1023)).is_none());
    assert!(matches!(
        plan_extraction(&sparse(u64::MAX - 1023), false),
        Err(FileClipboardError::UnsafeEntry)
    ));
    for size in [u64::MAX, u64::MAX - 511] {
        assert!(list_entries(&sparse(size)).is_some());
        match plan_extraction(&sparse(size), false) {
            Err(FileClipboardError::Io(e)) => assert_eq!(e, "size overflow"),
            _ => panic!("the end is no number"),
        }
    }
    assert!(list_entries(&sparse(u64::MAX - 1536)).is_some());
    assert!(list_entries(&sparse(512)).is_some());
    let record = b"29 size=18446744073709550592\n";
    let mut bytes = archive(&[("x", tar::EntryType::XHeader, record)]);
    bytes.truncate(1024);
    bytes.extend_from_slice(&sparse(512));
    assert!(list_entries(&bytes).is_none());
    // As the content of a file all of that is nothing special.
    let plain = archive(&[("plain", tar::EntryType::Regular, record)]);
    assert_eq!(plan_extraction(&plain, false).unwrap(), vec![b"plain".to_vec()]);
    let mut contents = vec![sparse(512), bytes];
    for size in [u64::MAX, u64::MAX - 1023, u64::MAX - 1535, u64::MAX - 2047] {
        contents.push(sparse(size));
        contents.push(sparse(size)[..512].to_vec());
    }
    for content in contents {
        let nested = pack(&vec![new_entry("nested.tar", false, &content)]).unwrap();
        assert_eq!(plan_extraction(&nested, false).unwrap(), vec![b"nested.tar".to_vec()]);
        let items = list_entries(&nested).unwrap();
        assert_eq!(entry_content(&nested, items[0].as_ref().unwrap()).unwrap(), content);
    }
}

#[test]
fn the_first_refused_entry_gives_the_error() {
    let mut header = tar::Header::new_gnu();
    header.set_size(0);
    header.as_mut_bytes()[..3].copy_from_slice(b"../");
    header.set_cksum();
    let up = header.as_bytes().to_vec();
    let before = [&up[..], &sparse(u64::MAX - 1535)[..]].concat();
    assert!(list_entries(&before).is_none());
    assert!(matches!(plan_extraction(&before, false), Err(FileClipboardError::UnsafePath)));
    // The long path belongs to the file with holes, which is refused with it.
    let long = pack(&vec![new_entry(&"n".repeat(120), false, b"")]).unwrap();
    let named = [&long[..1024], &sparse(u64::MAX - 2047)[..]].concat();
    assert!(list_entries(&named).is_none());
    assert!(matches!(plan_extraction(&named, false), Err(FileClipboardError::UnsafeEntry)));
    let records = archive(&[("x", tar::EntryType::XHeader, b"14 path=other\n")]);
    let renamed = [&records[..1024], &archive(&[("a", tar::EntryType::Regular, b"1")])[..]];
    assert_eq!(plan_extraction(&renamed.concat(), false).unwrap(), vec![b"other".to_vec()]);
}

#[test]
fn headers_keep_what_they_have_room_for() {
    let mut entry = new_entry("a", false, b"");
    entry.mode = 0o1234_5670;
    entry.uid = u64::MAX;
    entry.gid = 3_000_000_000;
    entry.mtime = u64::MAX;
    let bytes = pack(&vec![entry]).unwrap();
    let items = list_entries(&bytes).unwrap();
    let item = items[0].as_ref().unwrap();
    assert_eq!(item.mode, Some(0o234_5670));
    assert_eq!(item.uid, Some(u64::MAX >> 1));
    assert_eq!(item.gid, Some(3_000_000_000));
    assert_eq!(item.mtime, Some(u64::MAX));
}
