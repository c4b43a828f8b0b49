use zmanager_core::archive_format::{detect_archive_format, path_detection_facts, ArchiveFormatKind, FormatDetectionFacts};
use zmanager_core::engine::handle::OpenOptions;
use zmanager_core::engine::types::{ErrorKind, SessionDisposition};
use zmanager_core::engine::ArchiveSource;
use zmanager_core::engine::create_default_engine;
use zmanager_core::engine::plugins::build_engine_with_plugins;
use zmanager_core::engine::source::SourceAccess;
use zmanager_core::engine::types::ArchiveOperation;
use zmanager_core::engine::DefaultArchivePlugin;

#[test]
fn capability_snapshot_lists_each_format_once_in_first_claim_order() {
    let engine = create_default_engine().expect("default engine");
    let snapshot = engine.capability_snapshot();
    let formats: Vec<&str> = snapshot.iter().map(|c| c.format.as_str()).collect();
    assert_eq!(formats.len(), 21);
    assert_eq!(formats[0], "zip");
    assert_eq!(formats[1], "split_zip");
    for (i, f) in formats.iter().enumerate() {
        assert!(!formats[..i].contains(f), "{f} listed twice");
    }
    let zip = &snapshot[0];
    assert_eq!(
        zip.operations,
        vec![ArchiveOperation::List, ArchiveOperation::Test, ArchiveOperation::Extract, ArchiveOperation::Create]
    );
    assert!(zip.encryption_supported);
    // The creator registered last decides the source access.
    assert_eq!(snapshot[1].source_access, SourceAccess::Seekable);
}

#[test]
fn building_without_plugins_gives_an_empty_engine() {
    let plugins: [DefaultArchivePlugin; 0] = [];
    let engine = build_engine_with_plugins(&plugins).expect("empty build");
    assert!(engine.capability_snapshot().is_empty());
}

#[test]
fn building_with_the_default_plugin_matches_the_default_engine() {
    let engine = build_engine_with_plugins(&[DefaultArchivePlugin]).expect("default plugin build");
    let expected = create_default_engine().expect("default engine").capability_snapshot();
    let got = engine.capability_snapshot();
    assert_eq!(got.len(), expected.len());
    for (a, b) in got.iter().zip(expected.iter()) {
        assert_eq!(a.format.as_str(), b.format.as_str());
        assert_eq!(a.operations, b.operations);
    }
}

fn zip_facts() -> FormatDetectionFacts {
    FormatDetectionFacts {
        raw_stream: false,
        split_zip: false,
        sevenz_volume: false,
        tzap: false,
        apple_archive: false,
    }
}

#[test]
fn opening_a_format_without_an_adapter_is_refused() {
    let plugins: [DefaultArchivePlugin; 0] = [];
    let engine = build_engine_with_plugins(&plugins).expect("empty build");
    let options = OpenOptions { password: None, recipient_key: None };
    let error = engine.open(ArchiveSource::Path("bundle.zip".to_owned()), options, zip_facts(), true).unwrap_err();
    assert_eq!(error.kind, ErrorKind::UnsupportedOperation);
    assert_eq!(error.disposition, SessionDisposition::Usable);
    assert_eq!(error.message, "No adapter registered for format 'zip'");
    assert_eq!(error.path.as_deref(), Some("bundle.zip"));
}

#[test]
fn an_opened_handle_keeps_its_source() {
    let engine = create_default_engine().expect("default engine");
    let options = OpenOptions { password: Some("pw".to_owned()), recipient_key: None };
    let handle = engine.open(ArchiveSource::Path("bundle.zip".to_owned()), options, zip_facts(), true).unwrap();
    assert_eq!(handle.detected().format.as_str(), "zip");
    match &handle.detected().source {
        ArchiveSource::Path(p) => assert_eq!(p, "bundle.zip"),
        ArchiveSource::VolumeSet(_) => panic!("volume set"),
    }
}

#[test]
fn apple_archive_is_detected_only_where_the_platform_reads_it() {
    let mut facts = zip_facts();
    assert_eq!(detect_archive_format(Some("backup.aar"), facts), ArchiveFormatKind::Unknown);
    facts.apple_archive = true;
    assert_eq!(detect_archive_format(Some("backup.aar"), facts), ArchiveFormatKind::AppleArchive);
}

#[test]
fn known_kinds_have_distinct_format_ids() {
    let kinds = [
        ArchiveFormatKind::Zip,
        ArchiveFormatKind::SplitZip,
        ArchiveFormatKind::SevenZ,
        ArchiveFormatKind::Tar,
        ArchiveFormatKind::TarGz,
        ArchiveFormatKind::TarXz,
        ArchiveFormatKind::Ar,
        ArchiveFormatKind::Rar,
        ArchiveFormatKind::RawStream,
    ];
    let names: Vec<&str> = kinds
        .iter()
        .map(|k| zmanager_core::engine::format::FormatId::from_archive_format_kind(*k).expect("known kind").as_str())
        .collect();
    for (i, a) in names.iter().enumerate() {
        for b in &names[i + 1..] {
            assert_ne!(a, b);
        }
    }
    assert!(zmanager_core::engine::format::FormatId::from_archive_format_kind(ArchiveFormatKind::Unknown).is_none());
    assert_eq!(names[0], "zip");
}

#[test]
fn capabilities_agree_with_resolution() {
    let engine = create_default_engine().expect("default engine");
    for caps in engine.capability_snapshot() {
        for (i, op) in caps.operations.iter().enumerate() {
            assert!(!caps.operations[..i].contains(op), "operation listed twice");
        }
        for op in [
            ArchiveOperation::List,
            ArchiveOperation::Test,
            ArchiveOperation::Extract,
            ArchiveOperation::SelectedExtract,
            ArchiveOperation::CopyToWriter,
            ArchiveOperation::Create,
        ] {
            assert_eq!(caps.operations.contains(&op), engine.registry().resolve(caps.format, op).is_some());
        }
    }
}

#[test]
fn path_detection_facts_come_from_the_name_and_listing() {
    let listing = vec!["set.z01".to_owned(), "set.zip".to_owned()];
    let facts = path_detection_facts("dir/set.zip", Some(&listing), false, false);
    assert!(facts.split_zip);
    assert!(!facts.sevenz_volume && !facts.tzap && !facts.raw_stream && !facts.apple_archive);

    let facts = path_detection_facts("dir/archive.7z.001", None, false, true);
    assert!(facts.sevenz_volume && facts.apple_archive && !facts.split_zip);

    let facts = path_detection_facts("backup.TZAP", None, true, false);
    assert!(facts.tzap && facts.raw_stream);
}
