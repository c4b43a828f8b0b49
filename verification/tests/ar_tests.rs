use zmanager_core::ar_backend::{list, occurrence_index, ArError};

fn header(name: &str, size: usize) -> Vec<u8> {
    let text = format!("{:<16}{:<12}{:<6}{:<6}{:<8}{:<10}`\n", name, "0", "0", "0", "644", size);
    assert_eq!(text.len(), 60);
    text.into_bytes()
}

fn gnu_archive() -> Vec<u8> {
    let mut data = b"!<arch>\n".to_vec();
    let table = b"long_member_name.o/\n";
    data.extend(header("//", table.len()));
    data.extend_from_slice(table);
    data.extend(header("/0", 1));
    data.extend_from_slice(b"x\n");
    data
}

#[test]
fn gnu_long_name_member_is_listed_under_its_table_name() {
    let entries = list("long.a", &gnu_archive()).unwrap();
    assert_eq!(entries.len(), 1);
    assert_eq!(entries[0].index, 0);
    assert_eq!(entries[0].path, "long_member_name.o");
    assert_eq!(entries[0].size, 1);
}

#[test]
fn symbol_table_is_not_listed() {
    let mut data = b"!<arch>\n".to_vec();
    data.extend(header("/", 4));
    data.extend_from_slice(b"\0\0\0\0");
    data.extend(header("plain.o/", 2));
    data.extend_from_slice(b"ab");
    let entries = list("plain.a", &data).unwrap();
    assert_eq!(entries.len(), 1);
    assert_eq!(entries[0].path, "plain.o");
}

#[test]
fn listing_without_magic_is_invalid() {
    let mut data = gnu_archive();
    data[0] = b'?';
    assert!(matches!(list("bad.a", &data), Err(ArError::Invalid { .. })));
}

#[test]
fn occurrence_index_counts_duplicates_in_order() {
    let mut data = b"!<arch>\n".to_vec();
    for (name, byte) in [("a.o/", b'1'), ("b.o/", b'2'), ("a.o/", b'3')] {
        data.extend(header(name, 1));
        data.push(byte);
        data.push(b'\n');
    }
    let entries = list("dup.a", &data).unwrap();
    assert_eq!(occurrence_index(&entries, "a.o", 0), Some(0));
    assert_eq!(occurrence_index(&entries, "a.o", 1), Some(2));
    assert_eq!(occurrence_index(&entries, "a.o", 2), None);
    assert_eq!(occurrence_index(&entries, "c.o", 0), None);
}
