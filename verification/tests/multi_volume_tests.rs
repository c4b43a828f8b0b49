use zmanager_core::multi_volume::{
    discover_multi_volume_names, is_split_zip_name, parse_numbered_7z_volume_name, parse_numbered_archive_volume_name,
};

fn names(list: &[&str]) -> Vec<String> {
    list.iter().map(|name| (*name).to_owned()).collect()
}

#[test]
fn parses_only_numbered_7z_volume_names() {
    assert_eq!(parse_numbered_7z_volume_name("payload.7z.001"), Some(("payload.7z".to_owned(), 1)));
    assert_eq!(parse_numbered_7z_volume_name("payload.7z.000"), None);
    assert_eq!(parse_numbered_7z_volume_name("payload.zip.001"), None);
    assert_eq!(parse_numbered_7z_volume_name("payload.7z.01"), None);
    assert_eq!(parse_numbered_archive_volume_name("payload.zip.001"), Some(("payload.zip".to_owned(), 1)));
}

#[test]
fn discovers_numbered_7z_volumes_from_any_part() {
    let listing = names(&["payload.7z.002", "payload.7z.001", "payload.7z.003"]);
    let from_first = discover_multi_volume_names("payload.7z.001", Some(&listing));
    let from_middle = discover_multi_volume_names("payload.7z.002", Some(&listing));
    assert_eq!(from_first, Some(names(&["payload.7z.001", "payload.7z.002", "payload.7z.003"])));
    assert_eq!(from_middle, from_first);
}

#[test]
fn discovers_numbered_zip_stream_volumes_from_any_part() {
    let listing = names(&["payload.zip.001", "payload.zip.003", "payload.zip.002"]);
    let from_first = discover_multi_volume_names("payload.zip.001", Some(&listing));
    let from_middle = discover_multi_volume_names("payload.zip.002", Some(&listing));
    assert_eq!(from_first, Some(names(&["payload.zip.001", "payload.zip.002", "payload.zip.003"])));
    assert_eq!(from_middle, from_first);
}

#[test]
fn discovers_standard_split_zip_volumes_from_final_or_sidecar() {
    let listing = names(&["payload.zip", "payload.z02", "payload.z01"]);
    let from_final = discover_multi_volume_names("payload.zip", Some(&listing));
    let from_sidecar = discover_multi_volume_names("payload.z01", Some(&listing));
    assert_eq!(from_final, Some(names(&["payload.z01", "payload.z02", "payload.zip"])));
    assert_eq!(from_sidecar, from_final);
    assert!(is_split_zip_name("payload.zip", &listing));
}

#[test]
fn a_lone_file_is_not_a_volume_set() {
    let listing = names(&["payload.7z.001", "other.txt"]);
    assert_eq!(discover_multi_volume_names("payload.7z.001", Some(&listing)), None);
    assert_eq!(discover_multi_volume_names("payload.7z.001", None), None);
    assert!(!is_split_zip_name("payload.zip", &names(&["payload.zip"])));
}
