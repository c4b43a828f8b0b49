use std::io::{Cursor, Write};

use zmanager_core::msi_backend::{list_msi_package, plan_msi_extraction, MsiBackendError, MsiExtractPlan};

struct FileSpec {
    key: &'static str,
    component: &'static str,
    file_name: &'static str,
    file_size: i32,
    sequence: i32,
}

struct CabinetSpec {
    stream_name: &'static str,
    files: Vec<(&'static str, &'static [u8])>,
}

struct PackageSpec {
    directories: Vec<(&'static str, Option<&'static str>, &'static str)>,
    components: Vec<(&'static str, &'static str)>,
    files: Vec<FileSpec>,
    media: Vec<(i32, i32, &'static str)>,
    streams: Vec<CabinetSpec>,
}

fn crafted() -> PackageSpec {
    PackageSpec {
        directories: vec![("TARGETDIR", None, "SourceDir"), ("PAYLOADDIR", Some("TARGETDIR"), "payload")],
        components: vec![("PayloadFiles", "PAYLOADDIR")],
        files: Vec::new(),
        media: Vec::new(),
        streams: Vec::new(),
    }
}

/// Writes the package through the `msi` and `cab` crates' writers and
/// returns its bytes.
fn package_bytes(spec: &PackageSpec) -> Vec<u8> {
    let mut package = msi::Package::create(msi::PackageType::Installer, Cursor::new(Vec::new())).unwrap();
    package
        .create_table(
            "Directory",
            vec![
                msi::Column::build("Directory").primary_key().string(72),
                msi::Column::build("Directory_Parent").nullable().string(72),
                msi::Column::build("DefaultDir").string(255),
            ],
        )
        .unwrap();
    let mut insert = msi::Insert::into("Directory");
    for (id, parent, default_dir) in &spec.directories {
        insert = insert.row(vec![
            msi::Value::Str((*id).to_owned()),
            parent.map_or(msi::Value::Null, |parent| msi::Value::Str(parent.to_owned())),
            msi::Value::Str((*default_dir).to_owned()),
        ]);
    }
    package.insert_rows(insert).unwrap();

    package
        .create_table("Component", vec![msi::Column::build("Component").primary_key().string(72), msi::Column::build("Directory_").string(72)])
        .unwrap();
    let mut insert = msi::Insert::into("Component");
    for (component, directory) in &spec.components {
        insert = insert.row(vec![msi::Value::Str((*component).to_owned()), msi::Value::Str((*directory).to_owned())]);
    }
    package.insert_rows(insert).unwrap();

    package
        .create_table(
            "File",
            vec![
                msi::Column::build("File").primary_key().string(72),
                msi::Column::build("Component_").string(72),
                msi::Column::build("FileName").string(255),
                msi::Column::build("FileSize").int32(),
                msi::Column::build("Sequence").int32(),
            ],
        )
        .unwrap();
    let mut insert = msi::Insert::into("File");
    for file in &spec.files {
        insert = insert.row(vec![
            msi::Value::Str(file.key.to_owned()),
            msi::Value::Str(file.component.to_owned()),
            msi::Value::Str(file.file_name.to_owned()),
            msi::Value::Int(file.file_size),
            msi::Value::Int(file.sequence),
        ]);
    }
    package.insert_rows(insert).unwrap();

    package
        .create_table(
            "Media",
            vec![
                msi::Column::build("DiskId").primary_key().int16(),
                msi::Column::build("LastSequence").int32(),
                msi::Column::build("Cabinet").nullable().string(255),
            ],
        )
        .unwrap();
    let mut insert = msi::Insert::into("Media");
    for (disk_id, last_sequence, cabinet) in &spec.media {
        insert = insert.row(vec![msi::Value::Int(*disk_id), msi::Value::Int(*last_sequence), msi::Value::Str((*cabinet).to_owned())]);
    }
    package.insert_rows(insert).unwrap();

    for cabinet in &spec.streams {
        let mut builder = cab::CabinetBuilder::new();
        let folder = builder.add_folder(cab::CompressionType::MsZip);
        for (name, _) in &cabinet.files {
            folder.add_file(*name);
        }
        let mut cab_bytes = Cursor::new(Vec::new());
        let mut writer = builder.build(&mut cab_bytes).unwrap();
        for (_, data) in &cabinet.files {
            let mut file_writer = writer.next_file().unwrap().unwrap();
            file_writer.write_all(data).unwrap();
        }
        writer.finish().unwrap();
        let mut stream = package.write_stream(cabinet.stream_name).unwrap();
        stream.write_all(cab_bytes.get_ref()).unwrap();
    }

    package.flush().unwrap();
    package.into_inner().unwrap().into_inner()
}

fn plan(spec: &PackageSpec) -> MsiExtractPlan {
    match plan_msi_extraction(&package_bytes(spec), false) {
        Ok(plan) => plan,
        Err(_) => panic!("the crafted package plans"),
    }
}

fn listed(bytes: &[u8]) -> Vec<(String, u64)> {
    match list_msi_package(bytes) {
        Ok(entries) => entries.into_iter().map(|entry| (entry.path, entry.size)).collect(),
        Err(_) => panic!("the crafted package lists"),
    }
}

/// The package the fixture holds: three payload files, one of them in a
/// directory whose name has spaces, in one embedded cabinet.
fn basic_package() -> PackageSpec {
    PackageSpec {
        directories: vec![
            ("TARGETDIR", None, "SourceDir"),
            ("PAYLOADDIR", Some("TARGETDIR"), "PAYLOAD|payload"),
            ("NESTEDDIR", Some("PAYLOADDIR"), "nested"),
            ("SPACESDIR", Some("PAYLOADDIR"), "DIRWIT~1|dir with spaces"),
        ],
        components: vec![("Readme", "PAYLOADDIR"), ("Nested", "NESTEDDIR"), ("Spaces", "SPACESDIR")],
        files: vec![
            FileSpec { key: "readme", component: "Readme", file_name: "README.txt", file_size: 25, sequence: 1 },
            FileSpec { key: "nested", component: "Nested", file_name: "file.txt", file_size: 20, sequence: 2 },
            FileSpec { key: "spaces", component: "Spaces", file_name: "FILEWI~1.TXT|file with spaces.txt", file_size: 15, sequence: 3 },
        ],
        media: vec![(1, 3, "#payload.cab")],
        streams: vec![CabinetSpec {
            stream_name: "payload.cab",
            files: vec![
                ("readme", b"ZManager fixture payload\n"),
                ("nested", b"nested fixture file\n"),
                ("spaces", b"spaces in path\n"),
            ],
        }],
    }
}

#[test]
fn checked_in_msi_fixture_lists_with_resolved_directory_paths() {
    let listing = listed(&package_bytes(&basic_package()));
    let paths = listing.iter().map(|(path, _)| path.as_str()).collect::<Vec<_>>();
    assert!(paths.contains(&"payload/README.txt"), "{paths:?}");
    assert!(paths.contains(&"payload/nested/file.txt"), "{paths:?}");
    assert!(paths.contains(&"payload/dir with spaces/file with spaces.txt"), "{paths:?}");
    assert!(listing.iter().all(|(path, _)| !path.starts_with('/') && !path.starts_with("./")), "msi paths must be normalized: {paths:?}");

    let readme = listing.iter().find(|(path, _)| path == "payload/README.txt").unwrap();
    assert_eq!(readme.1, 25);
    assert!(listing.iter().all(|(path, _)| !path.ends_with('/')));
}

#[test]
fn checked_in_msi_fixture_extracts_every_file_with_byte_accurate_report() {
    let spec = basic_package();
    let plan = plan(&spec);
    assert_eq!(plan.report.skipped_entries, 0, "warnings: {:?}", plan.report.warnings);
    let written = |path: &str| plan.writes.iter().find(|(p, _)| p == path).map(|(_, bytes)| bytes.clone());
    assert_eq!(written("payload/README.txt"), Some(b"ZManager fixture payload\n".to_vec()));
    assert_eq!(written("payload/nested/file.txt"), Some(b"nested fixture file\n".to_vec()));
    assert_eq!(written("payload/dir with spaces/file with spaces.txt"), Some(b"spaces in path\n".to_vec()));

    let listing = listed(&package_bytes(&spec));
    let declared: u64 = listing.iter().map(|(_, size)| size).sum();
    assert_eq!(plan.report.written_entries, listing.len());
    assert_eq!(plan.report.written_bytes, declared, "written bytes must sum the declared sizes of all listed files");
}

#[test]
fn external_cabinet_files_are_skipped_with_warning() {
    let mut spec = crafted();
    spec.files = vec![FileSpec { key: "readme", component: "PayloadFiles", file_name: "README.txt", file_size: 25, sequence: 1 }];
    spec.media = vec![(1, 10, "ext.cab")];

    let plan = plan(&spec);
    assert_eq!(plan.report.written_entries, 0);
    assert_eq!(plan.report.skipped_entries, 1);
    assert!(plan.report.warnings.iter().any(|warning| warning.contains("external cabinet ext.cab")), "{:?}", plan.report.warnings);
    assert!(plan.writes.is_empty());

    let paths = listed(&package_bytes(&spec)).into_iter().map(|(path, _)| path).collect::<Vec<_>>();
    assert_eq!(paths, vec!["payload/README.txt"]);
}

#[test]
fn missing_cabinet_stream_is_skipped_with_warning() {
    let mut spec = crafted();
    spec.files = vec![FileSpec { key: "readme", component: "PayloadFiles", file_name: "README.txt", file_size: 25, sequence: 1 }];
    spec.media = vec![(1, 10, "#nope.cab")];

    let plan = plan(&spec);
    assert_eq!(plan.report.written_entries, 0);
    assert_eq!(plan.report.skipped_entries, 1);
    assert!(plan.report.warnings.iter().any(|warning| warning.contains("cabinet stream nope.cab is missing")), "{:?}", plan.report.warnings);
}

#[test]
fn file_key_absent_from_cabinet_is_skipped_with_warning() {
    let mut spec = crafted();
    spec.files = vec![
        FileSpec { key: "readme", component: "PayloadFiles", file_name: "README.txt", file_size: 11, sequence: 1 },
        FileSpec { key: "ghost", component: "PayloadFiles", file_name: "ghost.txt", file_size: 11, sequence: 2 },
    ];
    spec.media = vec![(1, 10, "#data.cab")];
    spec.streams = vec![CabinetSpec { stream_name: "data.cab", files: vec![("readme", b"hello world")] }];

    let plan = plan(&spec);
    assert_eq!(plan.report.written_entries, 1);
    assert_eq!(plan.report.skipped_entries, 1);
    assert!(plan.report.warnings.iter().any(|warning| warning.contains("ghost.txt: not present in cabinet data.cab")), "{:?}", plan.report.warnings);
    assert_eq!(plan.writes, vec![("payload/README.txt".to_owned(), b"hello world".to_vec())]);
}

#[test]
fn empty_file_name_row_is_skipped_with_warning() {
    let mut spec = crafted();
    spec.files = vec![FileSpec { key: "anon", component: "PayloadFiles", file_name: "", file_size: 11, sequence: 1 }];
    spec.media = vec![(1, 10, "#data.cab")];
    spec.streams = vec![CabinetSpec { stream_name: "data.cab", files: vec![("anon", b"hello world")] }];

    let plan = plan(&spec);
    assert_eq!(plan.report.written_entries, 0);
    assert_eq!(plan.report.skipped_entries, 1);
    assert!(plan.report.warnings.iter().any(|warning| warning.contains("no usable file name")), "{:?}", plan.report.warnings);
    assert!(listed(&package_bytes(&spec)).is_empty());
}

#[test]
fn file_without_covering_cabinet_row_is_skipped_with_warning() {
    let mut spec = crafted();
    spec.files = vec![FileSpec { key: "readme", component: "PayloadFiles", file_name: "README.txt", file_size: 25, sequence: 99 }];
    spec.media = vec![(1, 10, "#data.cab")];

    let plan = plan(&spec);
    assert_eq!(plan.report.written_entries, 0);
    assert_eq!(plan.report.skipped_entries, 1);
    assert!(plan.report.warnings.iter().any(|warning| warning.contains("no cabinet covers file sequence 99")), "{:?}", plan.report.warnings);
}

#[test]
fn size_mismatch_warns_but_still_writes_the_file() {
    let mut spec = crafted();
    spec.files = vec![FileSpec { key: "readme", component: "PayloadFiles", file_name: "README.txt", file_size: 100, sequence: 1 }];
    spec.media = vec![(1, 10, "#data.cab")];
    spec.streams = vec![CabinetSpec { stream_name: "data.cab", files: vec![("readme", b"hello world")] }];

    let plan = plan(&spec);
    assert_eq!(plan.report.written_entries, 1);
    assert_eq!(plan.report.written_bytes, 11);
    assert!(plan.report.warnings.iter().any(|warning| warning.contains("extracted 11 bytes, File table declares 100")), "{:?}", plan.report.warnings);
}

#[test]
fn cancelled_plan_writes_nothing() {
    let spec = basic_package();
    assert!(matches!(plan_msi_extraction(&package_bytes(&spec), true), Err(MsiBackendError::Cancelled)));
}

#[test]
fn bytes_that_are_no_package_are_refused() {
    assert!(matches!(list_msi_package(b"not a package"), Err(MsiBackendError::Msi(_))));
    assert!(matches!(plan_msi_extraction(b"not a package", false), Err(MsiBackendError::Msi(_))));
}
