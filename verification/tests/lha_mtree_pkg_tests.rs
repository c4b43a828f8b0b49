use zmanager_core::apple_pkg_backend::{pkg_entry, PkgEntryKind, PkgExtractReport};
use zmanager_core::archive_browser::BrowserEntryKind;
use zmanager_core::lha_backend::{add_member, LhaError, LhaReport};
use zmanager_core::mtree_backend::{
    add_record, check_manifest_bytes, extraction_kind, map_kind, test_entries, MtreeEntry, MtreeError, MtreeExtractionKind, MtreeFileType,
};

#[test]
fn lha_listing_refuses_duplicate_paths() {
    let mut entries = Vec::new();
    add_member(&mut entries, "a.lzh", "dir".to_owned(), true, 0, false).unwrap();
    add_member(&mut entries, "a.lzh", "dir/file.txt".to_owned(), false, 10, true).unwrap();
    assert_eq!(entries.len(), 2);
    assert_eq!(entries[1].index, 1);
    assert!(entries[0].supported);
    let error = add_member(&mut entries, "a.lzh", "dir".to_owned(), true, 0, true).err().unwrap();
    assert_eq!(error.to_text(), "invalid LHA a.lzh: duplicate path dir");
    assert_eq!(entries.len(), 2);
}

#[test]
fn lha_test_reports_size_mismatches() {
    let mut report = LhaReport::new();
    report.record_verified("a.lzh", "dir", true, 0, 0).unwrap();
    report.record_verified("a.lzh", "file.txt", false, 10, 10).unwrap();
    report.record_skipped();
    assert_eq!((report.entries, report.skipped_entries, report.bytes), (2, 1, 10));
    let error = report.record_verified("a.lzh", "bad.txt", false, 3, 4).err().unwrap();
    assert!(matches!(error, LhaError::Invalid { .. }));
    assert_eq!(error.to_text(), "invalid LHA a.lzh: bad.txt decoded to 3 bytes, expected 4");
}

#[test]
fn mtree_bytes_refuse_unset_directives_and_oversize() {
    assert!(check_manifest_bytes(b"#mtree\n./a type=file size=3\n").is_ok());
    assert_eq!(
        check_manifest_bytes(b"#mtree\n  \t/unset all\n").err().unwrap(),
        "the selected MTREE parser does not support /unset directives"
    );
    assert!(check_manifest_bytes(b"/unset all").is_err());
    assert!(check_manifest_bytes(b"./x /unset").is_ok());
}

#[test]
fn mtree_kinds_and_test_totals() {
    assert_eq!(map_kind(MtreeFileType::Fifo), BrowserEntryKind::Special);
    assert_eq!(map_kind(MtreeFileType::SymbolicLink), BrowserEntryKind::Symlink);
    let entries = vec![
        MtreeEntry { index: 0, path: "a".to_owned(), kind: BrowserEntryKind::File, size: Some(3), file_type: "file".to_owned(), link_target: None },
        MtreeEntry { index: 1, path: "d".to_owned(), kind: BrowserEntryKind::Directory, size: Some(9), file_type: "dir".to_owned(), link_target: None },
        MtreeEntry { index: 2, path: "b".to_owned(), kind: BrowserEntryKind::File, size: None, file_type: "file".to_owned(), link_target: None },
    ];
    let report = test_entries(&entries, false).unwrap();
    assert_eq!((report.entries, report.bytes), (3, 3));
    assert!(matches!(test_entries(&entries, true), Err(MtreeError::Cancelled)));
}

#[test]
fn pkg_entries_lose_their_leading_slash() {
    let entry = pkg_entry("/usr/bin/tool", 12, false, false, None).unwrap();
    assert_eq!(entry.archive_path, "usr/bin/tool");
    assert!(matches!(entry.kind, PkgEntryKind::File));
    assert!(pkg_entry("/", 0, true, false, None).is_none());
    let link = pkg_entry("lib/link", 0, false, true, Some(b"target.so")).unwrap();
    assert!(matches!(link.kind, PkgEntryKind::Symlink { ref target } if target == "target.so"));
    let dir = pkg_entry("./etc", 0, true, true, None).unwrap();
    assert!(matches!(dir.kind, PkgEntryKind::Directory));
    let mut report = PkgExtractReport::new();
    report.record_file(12);
    report.record_skip("skipped".to_owned());
    assert_eq!((report.written_entries, report.written_bytes, report.skipped_entries), (1, 12, 1));
}

#[test]
fn mtree_listing_numbers_records_and_refuses_duplicate_paths() {
    let mut entries: Vec<MtreeEntry> = Vec::new();
    add_record(&mut entries, "m.mtree", "a".to_string(), MtreeFileType::Directory, "dir".to_string(), None, None).unwrap();
    add_record(&mut entries, "m.mtree", "a/b".to_string(), MtreeFileType::File, "file".to_string(), Some(3), None).unwrap();
    assert_eq!(entries.len(), 2);
    assert_eq!(entries[1].index, 1);
    assert_eq!(entries[1].kind, BrowserEntryKind::File);
    assert_eq!(entries[0].kind, BrowserEntryKind::Directory);
    let err = add_record(&mut entries, "m.mtree", "a".to_string(), MtreeFileType::Fifo, "fifo".to_string(), None, None).unwrap_err();
    assert!(matches!(err, MtreeError::Invalid { ref path, ref message } if path == "m.mtree" && message == "duplicate path a"));
    assert_eq!(entries.len(), 2);
}

fn mtree_entry(path: &str, kind: BrowserEntryKind, size: Option<u64>, link_target: Option<&str>) -> MtreeEntry {
    MtreeEntry { index: 0, path: path.to_owned(), kind, size, file_type: String::new(), link_target: link_target.map(str::to_owned) }
}

#[test]
fn mtree_extraction_kinds_follow_the_declared_types() {
    assert!(matches!(extraction_kind("m.mtree", &mtree_entry("a", BrowserEntryKind::File, Some(7), None)), Ok(MtreeExtractionKind::File { size: 7 })));
    assert!(matches!(extraction_kind("m.mtree", &mtree_entry("a", BrowserEntryKind::File, None, None)), Ok(MtreeExtractionKind::File { size: 0 })));
    assert!(matches!(extraction_kind("m.mtree", &mtree_entry("d", BrowserEntryKind::Directory, None, None)), Ok(MtreeExtractionKind::Directory)));
    match extraction_kind("m.mtree", &mtree_entry("l", BrowserEntryKind::Symlink, None, Some("target"))) {
        Ok(MtreeExtractionKind::Symlink { target }) => assert_eq!(target, "target"),
        other => panic!("unexpected {other:?}"),
    }
    assert!(matches!(extraction_kind("m.mtree", &mtree_entry("s", BrowserEntryKind::Special, None, None)), Ok(MtreeExtractionKind::Special)));
}

#[test]
fn mtree_links_without_targets_are_invalid() {
    match extraction_kind("m.mtree", &mtree_entry("l", BrowserEntryKind::Symlink, None, None)) {
        Err(MtreeError::Invalid { path, message }) => {
            assert_eq!(path, "m.mtree");
            assert_eq!(message, "symbolic-link entry l has no link target");
        }
        other => panic!("unexpected {other:?}"),
    }
    match extraction_kind("m.mtree", &mtree_entry("h", BrowserEntryKind::Hardlink, None, None)) {
        Err(MtreeError::Invalid { message, .. }) => assert_eq!(message, "hard-link entry h has no link target"),
        other => panic!("unexpected {other:?}"),
    }
}
