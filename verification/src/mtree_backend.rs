//! MTREE manifests: the checks on a manifest's bytes and the listing, test
//! and kind mapping of its records. MTREE describes filesystem metadata; it
//! holds no file payloads.
use crate::archive_browser::BrowserEntryKind;
use crate::text::{chars_of, concat_chars, string_from_chars};
use vstd::prelude::*;

verus! {

/// The largest manifest read.
pub const MAX_MTREE_BYTES: u64 = 67108864;

/// One normalized MTREE manifest entry.
#[derive(Debug, Clone)]
pub struct MtreeEntry {
    /// Retained manifest-order entry ID.
    pub index: usize,
    /// Normalized relative manifest path.
    pub path: String,
    /// Portable entry kind.
    pub kind: BrowserEntryKind,
    /// Declared regular-file size, when present.
    pub size: Option<u64>,
    /// Declared file type name.
    pub file_type: String,
    /// Symbolic-link target when the manifest declares one.
    pub link_target: Option<String>,
}

/// Native MTREE operation report.
#[derive(Debug, Clone)]
pub struct MtreeReport {
    /// Manifest entries parsed or verified.
    pub entries: usize,
    /// Entries skipped by selection.
    pub skipped_entries: usize,
    /// Declared regular-file bytes covered by the operation.
    pub bytes: u64,
    /// Non-fatal diagnostics.
    pub warnings: Vec<String>,
}

/// Native MTREE operation error.
#[derive(Debug, Clone)]
pub enum MtreeError {
    /// Filesystem I/O failed.
    Io { path: String, message: String },
    /// The manifest is malformed or cannot be normalized safely.
    Invalid { path: String, message: String },
    /// A manifest path violated shared path safety rules.
    Safety(String),
    /// The caller cancelled the operation.
    Cancelled,
}

/// The message of an MTREE error.
pub open spec fn mtree_error_text(e: MtreeError) -> Seq<char> {
    match e {
        MtreeError::Io { path, message } => "I/O failed for "@ + path@ + ": "@ + message@,
        MtreeError::Invalid { path, message } => "invalid MTREE "@ + path@ + ": "@ + message@,
        MtreeError::Safety(m) => "MTREE path rejected by extraction safety: "@ + m@,
        MtreeError::Cancelled => "job cancelled"@,
    }
}

fn join(a: &str, b: &str) -> (r: String)
    ensures
        r@ == a@ + b@,
{
    string_from_chars(&concat_chars(&chars_of(a), &chars_of(b)))
}

impl MtreeError {
    /// The error's message.
    pub fn to_text(&self) -> (r: String)
        ensures
            r@ == mtree_error_text(*self),
    {
        match self {
            MtreeError::Io { path, message } => {
                let a = join("I/O failed for ", path.as_str());
                let b = join(a.as_str(), ": ");
                join(b.as_str(), message.as_str())
            },
            MtreeError::Invalid { path, message } => {
                let a = join("invalid MTREE ", path.as_str());
                let b = join(a.as_str(), ": ");
                join(b.as_str(), message.as_str())
            },
            MtreeError::Safety(m) => join("MTREE path rejected by extraction safety: ", m.as_str()),
            MtreeError::Cancelled => "job cancelled".to_string(),
        }
    }
}

/// The file types an MTREE record declares.
#[derive(Debug, Clone, Copy, PartialEq, Eq, Structural)]
pub enum MtreeFileType {
    BlockDevice,
    CharacterDevice,
    Directory,
    Fifo,
    File,
    SymbolicLink,
    Socket,
}

/// The browser kind of a declared file type.
pub open spec fn mtree_kind(t: MtreeFileType) -> BrowserEntryKind {
    match t {
        MtreeFileType::Directory => BrowserEntryKind::Directory,
        MtreeFileType::SymbolicLink => BrowserEntryKind::Symlink,
        MtreeFileType::File => BrowserEntryKind::File,
        _ => BrowserEntryKind::Special,
    }
}

/// The browser kind of a declared file type: devices, FIFOs and sockets are
/// special entries.
pub fn map_kind(file_type: MtreeFileType) -> (r: BrowserEntryKind)
    ensures
        r == mtree_kind(file_type),
{
    match file_type {
        MtreeFileType::Directory => BrowserEntryKind::Directory,
        MtreeFileType::SymbolicLink => BrowserEntryKind::Symlink,
        MtreeFileType::File => BrowserEntryKind::File,
        MtreeFileType::BlockDevice | MtreeFileType::CharacterDevice | MtreeFileType::Fifo | MtreeFileType::Socket => {
            BrowserEntryKind::Special
        },
    }
}

/// What extracting a manifest entry materialises.
#[derive(Debug, Clone)]
pub enum MtreeExtractionKind {
    /// A regular file: a placeholder of its declared size.
    File { size: u64 },
    Directory,
    Symlink { target: String },
    Hardlink { target: String },
    /// Devices, FIFOs, sockets and file copies.
    Special,
}

/// What extracting `entry` of the manifest at `path` materialises: files
/// with their declared size (zero when none is declared), directories,
/// links to their declared target, and everything else as special; a link
/// without a declared target is an invalid manifest.
pub open spec fn extraction_kind_spec(path: Seq<char>, entry: MtreeEntry, r: Result<MtreeExtractionKind, MtreeError>) -> bool {
    match entry.kind {
        BrowserEntryKind::File => r matches Ok(MtreeExtractionKind::File { size }) && size == match entry.size {
            Some(n) => n,
            None => 0,
        },
        BrowserEntryKind::Directory => r matches Ok(MtreeExtractionKind::Directory),
        BrowserEntryKind::Symlink => match entry.link_target {
            Some(t) => r matches Ok(MtreeExtractionKind::Symlink { target }) && target@ == t@,
            None => r matches Err(MtreeError::Invalid { path: p, message }) && p@ == path && message@ == "symbolic-link entry "@
                + entry.path@ + " has no link target"@,
        },
        BrowserEntryKind::Hardlink => match entry.link_target {
            Some(t) => r matches Ok(MtreeExtractionKind::Hardlink { target }) && target@ == t@,
            None => r matches Err(MtreeError::Invalid { path: p, message }) && p@ == path && message@ == "hard-link entry "@
                + entry.path@ + " has no link target"@,
        },
        _ => r matches Ok(MtreeExtractionKind::Special),
    }
}

/// What extracting `entry` of the manifest read from `path` materialises.
pub fn extraction_kind(path: &str, entry: &MtreeEntry) -> (r: Result<MtreeExtractionKind, MtreeError>)
    ensures
        extraction_kind_spec(path@, *entry, r),
{
    match entry.kind {
        BrowserEntryKind::File => Ok(
            MtreeExtractionKind::File {
                size: match entry.size {
                    Some(n) => n,
                    None => 0,
                },
            },
        ),
        BrowserEntryKind::Directory => Ok(MtreeExtractionKind::Directory),
        BrowserEntryKind::Symlink => match &entry.link_target {
            Some(t) => Ok(MtreeExtractionKind::Symlink { target: t.clone() }),
            None => {
                let a = join("symbolic-link entry ", entry.path.as_str());
                Err(MtreeError::Invalid { path: path.to_string(), message: join(a.as_str(), " has no link target") })
            },
        },
        BrowserEntryKind::Hardlink => match &entry.link_target {
            Some(t) => Ok(MtreeExtractionKind::Hardlink { target: t.clone() }),
            None => {
                let a = join("hard-link entry ", entry.path.as_str());
                Err(MtreeError::Invalid { path: path.to_string(), message: join(a.as_str(), " has no link target") })
            },
        },
        _ => Ok(MtreeExtractionKind::Special),
    }
}

/// ASCII whitespace as `u8::is_ascii_whitespace` defines it.
pub open spec fn ascii_space(b: u8) -> bool {
    b == 0x20 || b == 0x09 || b == 0x0a || b == 0x0c || b == 0x0d
}

/// Whether the line starting at `start` reads `/unset` once its leading
/// ASCII whitespace is skipped (the line ends at the next `\\n`).
pub open spec fn unset_at(bytes: Seq<u8>, start: int) -> bool {
    exists|k: int|
        start <= k && k + 6 <= bytes.len() && (forall|j: int| start <= j < k ==> ascii_space(#[trigger] bytes[j]) && bytes[j]
            != 0x0a) && #[trigger] bytes.subrange(k, k + 6) == seq![0x2fu8, 0x75u8, 0x6eu8, 0x73u8, 0x65u8, 0x74u8]
}

/// Whether some line of the manifest is an `/unset` directive.
pub open spec fn has_unset_directive(bytes: Seq<u8>) -> bool {
    exists|start: int|
        0 <= start <= bytes.len() && (start == 0 || bytes[start - 1] == 0x0a) && #[trigger] unset_at(bytes, start)
}

/// Why the bytes of a manifest are refused before parsing: they exceed the
/// size limit, or a line is an `/unset` directive, which the parser does not
/// support.
pub open spec fn manifest_bytes_defect(bytes: Seq<u8>) -> Option<Seq<char>> {
    if bytes.len() > MAX_MTREE_BYTES {
        Some("manifest exceeds 67108864 byte limit"@)
    } else if has_unset_directive(bytes) {
        Some("the selected MTREE parser does not support /unset directives"@)
    } else {
        None
    }
}

fn unset_from(bytes: &[u8], start: usize) -> (r: bool)
    requires
        start <= bytes@.len(),
    ensures
        r == unset_at(bytes@, start as int),
{
    let mut k = start;
    while k < bytes.len() && (bytes[k] == 0x20 || bytes[k] == 0x09 || bytes[k] == 0x0c || bytes[k] == 0x0d)
        invariant
            start <= k <= bytes@.len(),
            forall|j: int| start <= j < k ==> ascii_space(#[trigger] bytes@[j]) && bytes@[j] != 0x0a,
        decreases bytes@.len() - k,
    {
        k += 1;
    }
    let found = bytes.len() >= 6 && k <= bytes.len() - 6 && bytes[k] == 0x2f && bytes[k + 1] == 0x75 && bytes[k + 2] == 0x6e && bytes[k + 3] == 0x73
        && bytes[k + 4] == 0x65 && bytes[k + 5] == 0x74;
    if found {
        assert(bytes@.subrange(k as int, k + 6) =~= seq![0x2fu8, 0x75u8, 0x6eu8, 0x73u8, 0x65u8, 0x74u8]);
    } else {
        assert(!unset_at(bytes@, start as int)) by {
            if unset_at(bytes@, start as int) {
                let k2 = choose|k2: int|
                    start <= k2 && k2 + 6 <= bytes@.len() && (forall|j: int| start <= j < k2 ==> ascii_space(#[trigger] bytes@[j])
                        && bytes@[j] != 0x0a) && #[trigger] bytes@.subrange(k2, k2 + 6) == seq![0x2fu8, 0x75u8, 0x6eu8, 0x73u8, 0x65u8, 0x74u8];
                if k2 < k {
                    assert(bytes@.subrange(k2, k2 + 6)[0] == bytes@[k2]);
                } else if k2 > k {
                    assert(k < bytes@.len());
                } else {
                    assert(bytes@.subrange(k2, k2 + 6)[0] == bytes@[k2]);
                    assert(bytes@.subrange(k2, k2 + 6)[1] == bytes@[k2 + 1]);
                    assert(bytes@.subrange(k2, k2 + 6)[2] == bytes@[k2 + 2]);
                    assert(bytes@.subrange(k2, k2 + 6)[3] == bytes@[k2 + 3]);
                    assert(bytes@.subrange(k2, k2 + 6)[4] == bytes@[k2 + 4]);
                    assert(bytes@.subrange(k2, k2 + 6)[5] == bytes@[k2 + 5]);
                }
            }
        }
    }
    found
}

/// Checks the bytes of a manifest before it is parsed.
pub fn check_manifest_bytes(bytes: &[u8]) -> (r: Result<(), String>)
    ensures
        match manifest_bytes_defect(bytes@) {
            Some(m) => r matches Err(e) && e@ == m,
            None => r is Ok,
        },
{
    if bytes.len() as u64 > MAX_MTREE_BYTES {
        return Err("manifest exceeds 67108864 byte limit".to_string());
    }
    let mut start: usize = 0;
    loop
        invariant
            bytes@.len() <= MAX_MTREE_BYTES,
            start <= bytes@.len(),
            start == 0 || bytes@[start - 1] == 0x0a,
            forall|s: int|
                0 <= s < start && (s == 0 || bytes@[s - 1] == 0x0a) ==> !#[trigger] unset_at(bytes@, s),
        decreases bytes@.len() - start,
    {
        if unset_from(bytes, start) {
            return Err("the selected MTREE parser does not support /unset directives".to_string());
        }
        let mut next = start;
        while next < bytes.len() && bytes[next] != 0x0a
            invariant
                start <= next <= bytes@.len(),
                forall|j: int| start <= j < next ==> bytes@[j] != 0x0a,
            decreases bytes@.len() - next,
        {
            next += 1;
        }
        if next == bytes.len() {
            assert forall|s: int| 0 <= s <= bytes@.len() && (s == 0 || bytes@[s - 1] == 0x0a) implies !#[trigger] unset_at(
                bytes@,
                s,
            ) by {
                if s > start {
                    assert(bytes@[s - 1] != 0x0a);
                }
            }
            return Ok(());
        }
        assert forall|s: int| 0 <= s < next + 1 && (s == 0 || bytes@[s - 1] == 0x0a) implies !#[trigger] unset_at(bytes@, s) by {
            if s > start && s <= next {
                assert(bytes@[s - 1] != 0x0a);
            }
        }
        start = next + 1;
    }
}

/// The declared bytes of a manifest's regular files, adding up with
/// saturation.
pub open spec fn file_bytes(entries: Seq<MtreeEntry>) -> u64
    decreases entries.len(),
{
    if entries.len() == 0 {
        0
    } else {
        let rest = file_bytes(entries.drop_last());
        let e = entries.last();
        let add: u64 = if e.kind == BrowserEntryKind::File {
            match e.size {
                Some(s) => s,
                None => 0,
            }
        } else {
            0
        };
        if rest + add > u64::MAX {
            u64::MAX
        } else {
            (rest + add) as u64
        }
    }
}

/// Tests a manifest's records: each counts as verified, and regular files
/// add their declared size. A cancelled test stops with `Cancelled`.
pub fn test_entries(entries: &[MtreeEntry], cancelled: bool) -> (r: Result<MtreeReport, MtreeError>)
    ensures
        cancelled && entries@.len() > 0 ==> (r matches Err(MtreeError::Cancelled)),
        !cancelled || entries@.len() == 0 ==> (r matches Ok(report) && report.entries == entries@.len()
            && report.skipped_entries == 0 && report.warnings@.len() == 0 && report.bytes == file_bytes(entries@)),
{
    let mut report = MtreeReport { entries: 0, skipped_entries: 0, bytes: 0, warnings: Vec::new() };
    let mut i: usize = 0;
    while i < entries.len()
        invariant
            i <= entries@.len(),
            report.entries == i,
            report.skipped_entries == 0,
            report.warnings@.len() == 0,
            i > 0 ==> !cancelled,
            report.bytes == file_bytes(entries@.take(i as int)),
        decreases entries@.len() - i,
    {
        if cancelled {
            return Err(MtreeError::Cancelled);
        }
        assert(entries@.take(i as int + 1).drop_last() =~= entries@.take(i as int));
        report.entries = report.entries + 1;
        if entries[i].kind == BrowserEntryKind::File {
            let size = match entries[i].size {
                Some(s) => s,
                None => 0,
            };
            report.bytes = report.bytes.saturating_add(size);
        }
        i += 1;
    }
    assert(entries@.take(i as int) =~= entries@);
    Ok(report)
}

/// Whether some entry already has the path.
pub open spec fn mtree_path_listed(entries: Seq<MtreeEntry>, path: Seq<char>) -> bool {
    exists|i: int| 0 <= i < entries.len() && (#[trigger] entries[i]).path@ == path
}

/// Adds the manifest record just parsed, under its normalized path, to the
/// listing: a path seen before makes the manifest invalid; otherwise the
/// record is numbered by its position and takes the browser kind of its
/// file type. `file_type_name` is the file type as the manifest names it.
pub fn add_record(
    entries: &mut Vec<MtreeEntry>,
    manifest_path: &str,
    path: String,
    file_type: MtreeFileType,
    file_type_name: String,
    size: Option<u64>,
    link_target: Option<String>,
) -> (r: Result<(), MtreeError>)
    ensures
        mtree_path_listed(old(entries)@, path@) ==> (r matches Err(MtreeError::Invalid { path: p, message })
            && p@ == manifest_path@ && message@ == "duplicate path "@ + path@ && final(entries)@ == old(entries)@),
        !mtree_path_listed(old(entries)@, path@) ==> (r is Ok && final(entries)@.len() == old(entries)@.len() + 1
            && final(entries)@.drop_last() == old(entries)@ && ({
            let e = final(entries)@.last();
            &&& e.index == old(entries)@.len()
            &&& e.path@ == path@
            &&& e.kind == mtree_kind(file_type)
            &&& e.size == size
            &&& e.file_type@ == file_type_name@
            &&& e.link_target == link_target
        })),
{
    let mut i: usize = 0;
    while i < entries.len()
        invariant
            i <= entries@.len(),
            forall|j: int| 0 <= j < i ==> (#[trigger] entries@[j]).path@ != path@,
        decreases entries@.len() - i,
    {
        if crate::text::str_eq(entries[i].path.as_str(), path.as_str()) {
            let message = join("duplicate path ", path.as_str());
            return Err(MtreeError::Invalid { path: manifest_path.to_string(), message });
        }
        i += 1;
    }
    let index = entries.len();
    entries.push(MtreeEntry { index, path, kind: map_kind(file_type), size, file_type: file_type_name, link_target });
    assert(entries@.drop_last() =~= old(entries)@);
    Ok(())
}

} // verus!
