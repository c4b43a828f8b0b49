use zmanager_core::msi_backend::{
    group_by_cabinet, list_msi, read_manifest, target_dir_components, target_file_leaf, ComponentRow, DirectoryRow, FileRow, MediaRow,
    MsiExtractReport,
};

struct Rows {
    dirs: Vec<DirectoryRow>,
    comps: Vec<ComponentRow>,
    media: Vec<MediaRow>,
    files: Vec<FileRow>,
}

fn dir(id: &str, parent: Option<&str>, default_dir: &str) -> DirectoryRow {
    DirectoryRow { id: id.to_owned(), parent: parent.map(str::to_owned), default_dir: default_dir.to_owned() }
}

fn file(key: &str, component: &str, file_name: &str, file_size: u64, sequence: u32) -> FileRow {
    FileRow { file_key: Some(key.to_owned()), component: component.to_owned(), file_name: file_name.to_owned(), file_size, sequence }
}

fn media(disk_id: i32, last_sequence: u32, cabinet: &str) -> MediaRow {
    MediaRow { disk_id, last_sequence, cabinet: cabinet.to_owned() }
}

fn crafted_rows() -> Rows {
    Rows {
        dirs: vec![dir("TARGETDIR", None, "SourceDir"), dir("PAYLOADDIR", Some("TARGETDIR"), "payload")],
        comps: vec![ComponentRow { component: "PayloadFiles".to_owned(), directory: "PAYLOADDIR".to_owned() }],
        media: Vec::new(),
        files: Vec::new(),
    }
}

/// Runs the extraction bookkeeping over the rows, given the names of the
/// embedded streams the package holds; every file found is taken as
/// written with its declared size.
fn extract_report(rows: &Rows, streams: &[&str]) -> MsiExtractReport {
    let manifest = read_manifest(&rows.dirs, &rows.comps, &rows.media, &rows.files);
    let (groups, external) = group_by_cabinet(&manifest.entries);
    let mut report = MsiExtractReport::from_manifest(&manifest);
    for warning in external {
        report.record_skip(warning);
    }
    for group in &groups {
        if !streams.contains(&group.stream_name.as_str()) {
            report.record_missing_stream(&manifest.entries, group);
            continue;
        }
        for position in &group.entries {
            let entry = &manifest.entries[*position];
            report.record_written(entry, entry.size);
        }
    }
    report
}

fn listed_paths(rows: &Rows) -> Vec<String> {
    list_msi(&rows.dirs, &rows.comps, &rows.media, &rows.files).into_iter().map(|entry| entry.path).collect()
}

#[test]
fn target_dir_components_resolves_spec_forms() {
    assert_eq!(target_dir_components("payload"), vec!["payload"]);
    assert_eq!(target_dir_components("SHORT|payload"), vec!["payload"]);
    assert_eq!(target_dir_components("target:source"), vec!["target"]);
    assert_eq!(target_dir_components("SHORT|target:SHORT2|source"), vec!["target"]);
    assert_eq!(target_dir_components("part1\\part2"), vec!["part1", "part2"]);
    assert_eq!(target_dir_components("."), Vec::<String>::new());
    assert_eq!(target_dir_components("SourceDir"), Vec::<String>::new());
    assert_eq!(target_dir_components(""), Vec::<String>::new());
    assert_eq!(target_dir_components("#hidden"), vec!["#hidden"]);
}

#[test]
fn target_file_leaf_resolves_spec_forms() {
    assert_eq!(target_file_leaf("README.txt"), Some("README.txt".to_owned()));
    assert_eq!(target_file_leaf("README.TXT|README.txt"), Some("README.txt".to_owned()));
    assert_eq!(target_file_leaf("SHORT.TXT|"), Some("SHORT.TXT".to_owned()));
    assert_eq!(target_file_leaf(""), None);
    assert_eq!(target_file_leaf("|"), None);
}

#[test]
fn external_cabinet_files_are_skipped_with_warning_in_rows() {
    let mut rows = crafted_rows();
    rows.files = vec![file("readme", "PayloadFiles", "README.txt", 25, 1)];
    rows.media = vec![media(1, 10, "ext.cab")];

    let report = extract_report(&rows, &[]);
    assert_eq!(report.written_entries, 0);
    assert_eq!(report.skipped_entries, 1);
    assert!(report.warnings.iter().any(|warning| warning.contains("external cabinet ext.cab")), "{:?}", report.warnings);

    assert_eq!(listed_paths(&rows), vec!["payload/README.txt"]);
}

#[test]
fn missing_cabinet_stream_is_skipped_with_warning_in_rows() {
    let mut rows = crafted_rows();
    rows.files = vec![file("readme", "PayloadFiles", "README.txt", 25, 1)];
    rows.media = vec![media(1, 10, "#nope.cab")];

    let report = extract_report(&rows, &[]);
    assert_eq!(report.written_entries, 0);
    assert_eq!(report.skipped_entries, 1);
    assert!(report.warnings.iter().any(|warning| warning.contains("cabinet stream nope.cab is missing")), "{:?}", report.warnings);
}

#[test]
fn empty_file_name_row_is_skipped_with_warning_in_rows() {
    let mut rows = crafted_rows();
    rows.files = vec![file("anon", "PayloadFiles", "", 11, 1)];
    rows.media = vec![media(1, 10, "#data.cab")];

    let report = extract_report(&rows, &["data.cab"]);
    assert_eq!(report.written_entries, 0);
    assert_eq!(report.skipped_entries, 1);
    assert!(report.warnings.iter().any(|warning| warning.contains("no usable file name")), "{:?}", report.warnings);
    assert!(listed_paths(&rows).is_empty());
}

#[test]
fn file_without_covering_cabinet_row_is_skipped_with_warning_in_rows() {
    let mut rows = crafted_rows();
    rows.files = vec![file("readme", "PayloadFiles", "README.txt", 25, 99)];
    rows.media = vec![media(1, 10, "#data.cab")];

    let report = extract_report(&rows, &["data.cab"]);
    assert_eq!(report.written_entries, 0);
    assert_eq!(report.skipped_entries, 1);
    assert!(report.warnings.iter().any(|warning| warning.contains("no cabinet covers file sequence 99")), "{:?}", report.warnings);
}

#[test]
fn listing_resolves_spec_name_forms() {
    let mut rows = crafted_rows();
    rows.dirs = vec![
        dir("TARGETDIR", None, "SourceDir"),
        dir("PAYLOADDIR", Some("TARGETDIR"), "SHORT|payload"),
        dir("MULTIDIR", Some("PAYLOADDIR"), "part1\\part2"),
        dir("DOTDIR", Some("PAYLOADDIR"), "."),
        dir("COLONDIR", Some("PAYLOADDIR"), "target:source"),
    ];
    rows.comps = [("C1", "PAYLOADDIR"), ("C2", "MULTIDIR"), ("C3", "DOTDIR"), ("C4", "COLONDIR")]
        .iter()
        .map(|(component, directory)| ComponentRow { component: (*component).to_owned(), directory: (*directory).to_owned() })
        .collect();
    rows.files = vec![
        file("k1", "C1", "README.TXT|readme.txt", 3, 1),
        file("k2", "C1", "SHORT2.TXT|", 3, 2),
        file("k3", "C2", "f3.txt", 3, 3),
        file("k4", "C3", "f4.txt", 3, 4),
        file("k5", "C4", "f5.txt", 3, 5),
    ];
    rows.media = vec![media(1, 10, "#data.cab")];

    assert_eq!(
        listed_paths(&rows),
        vec!["payload/readme.txt", "payload/SHORT2.TXT", "payload/part1/part2/f3.txt", "payload/f4.txt", "payload/target/f5.txt"]
    );
    let report = extract_report(&rows, &["data.cab"]);
    assert_eq!(report.skipped_entries, 0, "warnings: {:?}", report.warnings);
    assert_eq!(report.written_entries, 5);
    assert_eq!(report.written_bytes, 15);
}

#[test]
fn size_mismatch_is_written_with_a_warning() {
    let mut rows = crafted_rows();
    rows.files = vec![file("readme", "PayloadFiles", "README.txt", 100, 1)];
    rows.media = vec![media(1, 10, "#data.cab")];
    let manifest = read_manifest(&rows.dirs, &rows.comps, &rows.media, &rows.files);
    let mut report = MsiExtractReport::from_manifest(&manifest);
    report.record_written(&manifest.entries[0], 11);
    assert_eq!(report.written_entries, 1);
    assert_eq!(report.written_bytes, 11);
    assert!(report.warnings.iter().any(|warning| warning.contains("extracted 11 bytes, File table declares 100")), "{:?}", report.warnings);
}

#[test]
fn absent_cabinet_key_is_recorded_as_a_skip() {
    let mut rows = crafted_rows();
    rows.files = vec![file("readme", "PayloadFiles", "README.txt", 11, 1), file("ghost", "PayloadFiles", "ghost.txt", 11, 2)];
    rows.media = vec![media(1, 10, "#data.cab")];
    let manifest = read_manifest(&rows.dirs, &rows.comps, &rows.media, &rows.files);
    let (groups, _) = group_by_cabinet(&manifest.entries);
    assert_eq!(groups.len(), 1);
    assert_eq!(groups[0].entries, vec![0, 1]);
    let mut report = MsiExtractReport::from_manifest(&manifest);
    report.record_written(&manifest.entries[0], 11);
    report.record_absent_key(&manifest.entries[1], &groups[0].stream_name);
    assert_eq!(report.written_entries, 1);
    assert_eq!(report.skipped_entries, 1);
    assert!(report.warnings.iter().any(|warning| warning.contains("ghost.txt: not present in cabinet data.cab")), "{:?}", report.warnings);
}

#[test]
fn files_are_grouped_by_cabinet_in_first_seen_order() {
    let mut rows = crafted_rows();
    rows.files = vec![
        file("a", "PayloadFiles", "a.txt", 1, 1),
        file("b", "PayloadFiles", "b.txt", 1, 15),
        file("c", "PayloadFiles", "c.txt", 1, 2),
    ];
    rows.media = vec![media(2, 20, "#two.cab"), media(1, 10, "#one.cab")];
    let manifest = read_manifest(&rows.dirs, &rows.comps, &rows.media, &rows.files);
    let (groups, external) = group_by_cabinet(&manifest.entries);
    assert!(external.is_empty());
    assert_eq!(groups.iter().map(|group| group.stream_name.as_str()).collect::<Vec<_>>(), vec!["one.cab", "two.cab"]);
    assert_eq!(groups[0].entries, vec![0, 2]);
    assert_eq!(groups[1].entries, vec![1]);
}
