use zmanager_core::archive_browser::{browser_rows, directory_children, ArchiveBrowserError, BrowserEntry, BrowserEntryKind};
use zmanager_core::engine::adapters::map_msi_entries;
use zmanager_core::engine::format::FormatId;
use zmanager_core::engine::types::{ArchiveError, ArchiveListing, EngineEntry, EntryId, ErrorKind};
use zmanager_core::msi_backend::MsiListEntry;

fn engine_entry(id: u64, path: &str, kind: BrowserEntryKind) -> EngineEntry {
    EngineEntry {
        id: EntryId(id),
        path: path.to_owned(),
        kind,
        size: Some(5),
        compressed_size: None,
        modified: None,
        mode: Some(0o644),
        encrypted: Some(false),
        method: Some("Stored".to_owned()),
        crc: Some(7),
        comment: None,
        link_target: None,
    }
}

fn rows(paths: &[&str]) -> Vec<BrowserEntry> {
    let listing = ArchiveListing {
        entries: paths.iter().enumerate().map(|(index, path)| engine_entry(index as u64, path, BrowserEntryKind::File)).collect(),
    };
    browser_rows(listing).entries
}

#[test]
fn browser_rows_carry_the_engine_fields() {
    let listing = ArchiveListing { entries: vec![engine_entry(0, "project/a.txt", BrowserEntryKind::File)] };
    let rows = browser_rows(listing).entries;
    assert_eq!(rows.len(), 1);
    assert_eq!(rows[0].path, "project/a.txt");
    assert_eq!(rows[0].mode, Some(0o644));
    assert_eq!(rows[0].method.as_deref(), Some("Stored"));
    assert!(rows[0].metadata_diagnostics.is_empty());
    assert!(rows[0].owner.is_none());
}

#[test]
fn directory_paging_keeps_immediate_children_only() {
    let all = rows(&["project/a.txt", "project/sub/b.txt", "project/sub", "other.txt", "project\\c.txt"]);
    let children: Vec<String> = directory_children(all.clone(), "project").into_iter().map(|entry| entry.path).collect();
    assert_eq!(children, vec!["project/a.txt", "project/sub", "project\\c.txt"]);
    let root: Vec<String> = directory_children(all.clone(), "").into_iter().map(|entry| entry.path).collect();
    assert_eq!(root, vec!["other.txt"]);
    let slashed: Vec<String> = directory_children(all, "\\project\\sub/").into_iter().map(|entry| entry.path).collect();
    assert_eq!(slashed, vec!["project/sub/b.txt"]);
}

#[test]
fn browser_errors_name_their_source() {
    let source = ArchiveError::usable(ErrorKind::InvalidFormat, "bad".to_owned());
    let tzap = ArchiveBrowserError::Engine { format: Some(FormatId("tzap")), source: source.clone() };
    assert!(tzap.to_text().starts_with("TZAP browser operation failed: "));
    let other = ArchiveBrowserError::Engine { format: None, source };
    assert!(other.to_text().starts_with("archive engine listing failed: "));
    let entry = ArchiveBrowserError::UnsupportedEntry { path: "x".to_owned(), kind: BrowserEntryKind::Symlink };
    assert_eq!(entry.to_text(), "unsupported preview/extract entry x: Symlink");
    assert_eq!(ArchiveBrowserError::Cancelled.to_text(), "archive enumeration cancelled");
}

#[test]
fn msi_listing_is_numbered_in_order() {
    let listing = map_msi_entries(vec![
        MsiListEntry { path: "payload/a.txt".to_owned(), size: 3 },
        MsiListEntry { path: "payload/b.txt".to_owned(), size: 4 },
    ]);
    assert_eq!(listing.entries.len(), 2);
    assert_eq!(listing.entries[1].id, EntryId(1));
    assert_eq!(listing.entries[1].size, Some(4));
    assert_eq!(listing.entries[0].encrypted, Some(false));
}
