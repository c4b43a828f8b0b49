use zmanager_core::engine::source::ArchiveSource;
use zmanager_core::engine::split_zip::{
    discover_split_zip_volume_names, discover_split_zip_volumes, is_numbered_zip_volume_name, is_split_zip_archive_path,
    is_split_zip_sidecar_extension,
};

fn names(list: &[&str]) -> Vec<String> {
    list.iter().map(|name| (*name).to_owned()).collect()
}

#[test]
fn sidecar_extensions_are_z_and_two_digits() {
    assert!(is_split_zip_sidecar_extension("payload.z01"));
    assert!(is_split_zip_sidecar_extension("payload.Z99"));
    assert!(!is_split_zip_sidecar_extension("payload.z1"));
    assert!(!is_split_zip_sidecar_extension("payload.zip"));
    assert!(!is_split_zip_sidecar_extension("payload"));
}

#[test]
fn numbered_zip_volumes_need_three_digits_after_zip() {
    assert!(is_numbered_zip_volume_name("payload.zip.001"));
    assert!(is_numbered_zip_volume_name("payload.ZIP.002"));
    assert!(!is_numbered_zip_volume_name("payload.7z.001"));
    assert!(!is_numbered_zip_volume_name("payload.zip.01"));
}

#[test]
fn final_zip_is_split_only_with_a_z01_sibling() {
    let listing = names(&["payload.zip", "payload.z01"]);
    assert!(is_split_zip_archive_path("dir/payload.zip", Some(&listing)));
    let alone = names(&["payload.zip"]);
    assert!(!is_split_zip_archive_path("dir/payload.zip", Some(&alone)));
    assert!(!is_split_zip_archive_path("dir/payload.zip", None));
    assert!(is_split_zip_archive_path("dir/payload.z02", None));
}

#[test]
fn sidecar_scan_finds_the_run_and_the_final_volume() {
    let listing = names(&["data.zip", "data.z02", "data.z01", "data.z04"]);
    assert_eq!(discover_split_zip_volume_names("data.zip", Some(&listing)), Some(names(&["data.z01", "data.z02", "data.zip"])));
    let no_final = names(&["data.z01", "data.z02"]);
    assert_eq!(discover_split_zip_volume_names("data.zip", Some(&no_final)), None);
}

#[test]
fn volumes_are_placed_in_the_directory_of_the_path() {
    let listing = names(&["payload.z01", "payload.z02", "payload.zip"]);
    assert_eq!(
        discover_split_zip_volumes("/tmp/set/payload.zip", Some(&listing)),
        Some(names(&["/tmp/set/payload.z01", "/tmp/set/payload.z02", "/tmp/set/payload.zip"]))
    );
}

#[test]
fn autodetect_builds_a_volume_set_or_keeps_the_path() {
    let listing = names(&["payload.z01", "payload.zip"]);
    match ArchiveSource::from_path_autodetect("in/payload.zip", Some(&listing)) {
        ArchiveSource::VolumeSet(volumes) => assert_eq!(volumes, names(&["in/payload.z01", "in/payload.zip"])),
        ArchiveSource::Path(path) => panic!("expected a volume set, got {path}"),
    }
    match ArchiveSource::from_path_autodetect("in/other.zip", Some(&listing)) {
        ArchiveSource::Path(path) => assert_eq!(path, "in/other.zip"),
        ArchiveSource::VolumeSet(volumes) => panic!("unexpected volumes {volumes:?}"),
    }
}
