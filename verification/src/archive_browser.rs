//! Archive browser rows and listing vocabulary: the rows a browser shows,
//! taken from an engine handle's listing, and directory paging.
use crate::archive_format::FormatDetectionFacts;
use crate::engine::format::{FormatId, TZAP};
use crate::engine::handle::{runs_adapter, settles, ArchiveHandle, ReadAdapterFactory};
use crate::engine::types::{ArchiveError, ArchiveListing, ArchiveOperation, EngineEntry};
use crate::text::{
    chars_of, chars_start_with, concat_chars, contains_char, slice_chars, starts_with, string_from_chars, trim_end_char,
    trim_end_matching, trim_start_char, trim_start_matching,
};
use vstd::prelude::*;

verus! {

/// Portable archive entry type for the browser UI.
#[derive(Debug, Clone, Copy, PartialEq, Eq, Structural)]
pub enum BrowserEntryKind {
    /// Regular file.
    File,
    /// Directory.
    Directory,
    /// Symbolic link.
    Symlink,
    /// Hard link.
    Hardlink,
    /// RAR file-copy redirection.
    FileCopy,
    /// Other special entry.
    Special,
}

/// The `Debug` name of an entry kind.
pub open spec fn kind_debug(k: BrowserEntryKind) -> Seq<char> {
    match k {
        BrowserEntryKind::File => "File"@,
        BrowserEntryKind::Directory => "Directory"@,
        BrowserEntryKind::Symlink => "Symlink"@,
        BrowserEntryKind::Hardlink => "Hardlink"@,
        BrowserEntryKind::FileCopy => "FileCopy"@,
        BrowserEntryKind::Special => "Special"@,
    }
}

impl BrowserEntryKind {
    /// The kind's `Debug` name.
    pub fn debug_name(self) -> (r: &'static str)
        ensures
            r@ == kind_debug(self),
    {
        match self {
            BrowserEntryKind::File => "File",
            BrowserEntryKind::Directory => "Directory",
            BrowserEntryKind::Symlink => "Symlink",
            BrowserEntryKind::Hardlink => "Hardlink",
            BrowserEntryKind::FileCopy => "FileCopy",
            BrowserEntryKind::Special => "Special",
        }
    }
}

/// One archive browser row.
#[derive(Debug, Clone)]
pub struct BrowserEntry {
    /// Raw archive path.
    pub path: String,
    /// Portable entry kind.
    pub kind: BrowserEntryKind,
    /// Uncompressed size when known.
    pub size: Option<u64>,
    /// Compressed size when known.
    pub compressed_size: Option<u64>,
    /// Modification time formatted for display.
    pub modified: Option<String>,
    /// Portable Unix mode bits when the archive exposes them.
    pub mode: Option<u32>,
    /// Authenticated metadata diagnostics reported by the backend.
    pub metadata_diagnostics: Vec<String>,
    /// Whether entry data or metadata is encrypted.
    pub encrypted: Option<bool>,
    /// Compression algorithm or method name.
    pub method: Option<String>,
    /// Pre-computed checksum (e.g. CRC-32).
    pub crc: Option<u32>,
    /// Zip comment or entry-level comment.
    pub comment: Option<String>,
    /// Creation time formatted for display.
    pub created: Option<String>,
    /// Access time formatted for display.
    pub accessed: Option<String>,
    /// Solid archive member indicator (7z).
    pub solid: Option<bool>,
    /// Target path for symlinks or hardlinks.
    pub link_target: Option<String>,
    /// OS-specific or format-specific attribute flags.
    pub attributes: Option<String>,
    /// User identifier.
    pub uid: Option<u32>,
    /// Group identifier.
    pub gid: Option<u32>,
    /// Owner username.
    pub owner: Option<String>,
    /// Group name.
    pub group: Option<String>,
}

/// Archive browser listing.
#[derive(Debug, Clone)]
pub struct BrowserListing {
    /// Entries in archive order.
    pub entries: Vec<BrowserEntry>,
}

/// Options for browser-driven listing.
#[derive(Debug, Clone, Default)]
pub struct BrowserListOptions {
    /// Optional password for archive formats that encrypt headers or metadata.
    pub password: Option<String>,
    /// Optional private key file for recipient-encrypted TZAP metadata.
    pub recipient_key: Option<String>,
}

/// Report for selected-entry extraction.
#[derive(Debug, Clone)]
pub struct EntryExtractReport {
    /// Destination path written for the selected entry.
    pub destination_path: String,
    /// Number of regular file bytes written.
    pub written_bytes: u64,
    /// Metadata restoration diagnostics for this entry.
    pub metadata_diagnostics: Vec<String>,
}

/// Preview extraction report.
#[derive(Debug, Clone)]
pub struct PreviewExtractReport {
    /// Temporary root that owns the preview extraction.
    pub cleanup_root: String,
    /// Extracted path to open for preview.
    pub preview_path: String,
    /// Number of regular file bytes written.
    pub written_bytes: u64,
}

/// Archive browser error. A backend's failure is carried as its message.
#[derive(Debug, Clone)]
pub enum ArchiveBrowserError {
    /// Enumeration was cancelled by the caller between entries.
    Cancelled,
    Zip(String),
    TarZst(String),
    SevenZ(String),
    Rar(String),
    Tzap(String),
    AppleArchive(String),
    Libarchive(String),
    RawStream(String),
    /// The stateful archive engine rejected a request.
    Engine { format: Option<FormatId>, source: ArchiveError },
    /// Filesystem I/O failed.
    Io { path: String, message: String },
    /// Extraction safety rejected an entry.
    Safety(String),
    /// Selected entry was not found.
    EntryNotFound { path: String },
    /// Selected entry cannot be materialized by the browser yet.
    UnsupportedEntry { path: String, kind: BrowserEntryKind },
    /// Selected operation is not supported by the format.
    UnsupportedOperation(String),
}

/// The message of an engine error as the browser shows it.
pub open spec fn engine_source_text(e: ArchiveError) -> Seq<char> {
    crate::engine::types::error_text(
        e.kind,
        e.message@,
        match e.path {
            Some(p) => Some(p@),
            None => None,
        },
    )
}

/// The message of a browser error.
pub open spec fn browser_error_text(e: ArchiveBrowserError) -> Seq<char> {
    match e {
        ArchiveBrowserError::Cancelled => "archive enumeration cancelled"@,
        ArchiveBrowserError::Zip(m) => "ZIP browser operation failed: "@ + m@,
        ArchiveBrowserError::TarZst(m) => "TAR.ZST browser operation failed: "@ + m@,
        ArchiveBrowserError::SevenZ(m) => "7z browser operation failed: "@ + m@,
        ArchiveBrowserError::Rar(m) => "RAR browser operation failed: "@ + m@,
        ArchiveBrowserError::Tzap(m) => "TZAP browser operation failed: "@ + m@,
        ArchiveBrowserError::AppleArchive(m) => "AppleArchive browser operation failed: "@ + m@,
        ArchiveBrowserError::Libarchive(m) => "libarchive browser operation failed: "@ + m@,
        ArchiveBrowserError::RawStream(m) => "raw stream browser operation failed: "@ + m@,
        ArchiveBrowserError::Engine { format, source } => if format matches Some(f) && f.0@ == TZAP@ {
            "TZAP browser operation failed: "@ + engine_source_text(source)
        } else {
            "archive engine listing failed: "@ + engine_source_text(source)
        },
        ArchiveBrowserError::Io { path, message } => "I/O failed for "@ + path@ + ": "@ + message@,
        ArchiveBrowserError::Safety(m) => "extraction safety rejected entry: "@ + m@,
        ArchiveBrowserError::EntryNotFound { path } => "archive entry not found: "@ + path@,
        ArchiveBrowserError::UnsupportedEntry { path, kind } => "unsupported preview/extract entry "@ + path@ + ": "@
            + kind_debug(kind),
        ArchiveBrowserError::UnsupportedOperation(m) => "unsupported operation: "@ + m@,
    }
}

fn join(a: &str, b: &str) -> (r: String)
    ensures
        r@ == a@ + b@,
{
    string_from_chars(&concat_chars(&chars_of(a), &chars_of(b)))
}

impl ArchiveBrowserError {
    /// The error's message.
    pub fn to_text(&self) -> (r: String)
        ensures
            r@ == browser_error_text(*self),
    {
        match self {
            ArchiveBrowserError::Cancelled => "archive enumeration cancelled".to_string(),
            ArchiveBrowserError::Zip(m) => join("ZIP browser operation failed: ", m.as_str()),
            ArchiveBrowserError::TarZst(m) => join("TAR.ZST browser operation failed: ", m.as_str()),
            ArchiveBrowserError::SevenZ(m) => join("7z browser operation failed: ", m.as_str()),
            ArchiveBrowserError::Rar(m) => join("RAR browser operation failed: ", m.as_str()),
            ArchiveBrowserError::Tzap(m) => join("TZAP browser operation failed: ", m.as_str()),
            ArchiveBrowserError::AppleArchive(m) => join("AppleArchive browser operation failed: ", m.as_str()),
            ArchiveBrowserError::Libarchive(m) => join("libarchive browser operation failed: ", m.as_str()),
            ArchiveBrowserError::RawStream(m) => join("raw stream browser operation failed: ", m.as_str()),
            ArchiveBrowserError::Engine { format, source } => {
                let text = source.to_text();
                let is_tzap = match format {
                    Some(f) => f.is(TZAP),
                    None => false,
                };
                if is_tzap {
                    join("TZAP browser operation failed: ", text.as_str())
                } else {
                    join("archive engine listing failed: ", text.as_str())
                }
            },
            ArchiveBrowserError::Io { path, message } => {
                let a = join("I/O failed for ", path.as_str());
                let b = join(a.as_str(), ": ");
                join(b.as_str(), message.as_str())
            },
            ArchiveBrowserError::Safety(m) => join("extraction safety rejected entry: ", m.as_str()),
            ArchiveBrowserError::EntryNotFound { path } => join("archive entry not found: ", path.as_str()),
            ArchiveBrowserError::UnsupportedEntry { path, kind } => {
                let a = join("unsupported preview/extract entry ", path.as_str());
                let b = join(a.as_str(), ": ");
                join(b.as_str(), kind.debug_name())
            },
            ArchiveBrowserError::UnsupportedOperation(m) => join("unsupported operation: ", m.as_str()),
        }
    }
}

/// `b` is the browser row of the engine entry `e`: the engine's fields are
/// carried over, and what the engine does not report is absent.
pub open spec fn browser_row(b: BrowserEntry, e: EngineEntry) -> bool {
    &&& b.path == e.path
    &&& b.kind == e.kind
    &&& b.size == e.size
    &&& b.compressed_size == e.compressed_size
    &&& b.modified == e.modified
    &&& b.mode == e.mode
    &&& b.metadata_diagnostics@.len() == 0
    &&& b.encrypted == e.encrypted
    &&& b.method == e.method
    &&& b.crc == e.crc
    &&& b.comment == e.comment
    &&& b.created is None
    &&& b.accessed is None
    &&& b.solid is None
    &&& b.link_target == e.link_target
    &&& b.attributes is None
    &&& b.uid is None
    &&& b.gid is None
    &&& b.owner is None
    &&& b.group is None
}

/// The browser rows of an engine listing, in order.
pub fn browser_rows(listing: ArchiveListing) -> (r: BrowserListing)
    ensures
        r.entries@.len() == listing.entries@.len(),
        forall|i: int| 0 <= i < listing.entries@.len() ==> browser_row(#[trigger] r.entries@[i], listing.entries@[i]),
{
    let ghost before = listing.entries@;
    let mut rest = listing.entries;
    let mut rows: Vec<BrowserEntry> = Vec::new();
    while rest.len() > 0
        invariant
            rows@.len() + rest@.len() == before.len(),
            rest@ == before.subrange(rows@.len() as int, before.len() as int),
            forall|i: int| 0 <= i < rows@.len() ==> browser_row(#[trigger] rows@[i], before[i]),
        decreases rest@.len(),
    {
        let ghost k = rows@.len() as int;
        let e = rest.remove(0);
        assert(e == before[k]);
        assert(rest@ =~= before.subrange(k + 1, before.len() as int));
        rows.push(
            BrowserEntry {
                path: e.path,
                kind: e.kind,
                size: e.size,
                compressed_size: e.compressed_size,
                modified: e.modified,
                mode: e.mode,
                metadata_diagnostics: Vec::new(),
                encrypted: e.encrypted,
                method: e.method,
                crc: e.crc,
                comment: e.comment,
                created: None,
                accessed: None,
                solid: None,
                link_target: e.link_target,
                attributes: None,
                uid: None,
                gid: None,
                owner: None,
                group: None,
            },
        );
    }
    BrowserListing { entries: rows }
}

/// `r` is what the adapter the handle's list call hands its request to
/// may give, for the archive and options the handle was opened with (true
/// when the handle lists without an adapter).
pub open spec fn listed_by_adapter<A: ReadAdapterFactory>(adapters: Seq<A>, handle: ArchiveHandle, r: Result<ArchiveListing, ArchiveError>) -> bool {
    match runs_adapter(handle@, ArchiveOperation::List, None) {
        Some(a) => adapters[a as int].lists(handle.detected_archive(), handle@.options, r),
        None => true,
    }
}

/// Maps a retained engine handle's listing into browser rows; an engine
/// failure is reported with the detected format.
pub fn list_entries_from_engine_handle<A: ReadAdapterFactory>(handle: &mut ArchiveHandle, adapters: &[A]) -> (r: Result<
    BrowserListing,
    ArchiveBrowserError,
>)
    requires
        old(handle).wf(),
        adapters@.len() == old(handle)@.registry.descriptors.len(),
    ensures
        final(handle).wf(),
        match r {
            Ok(b) => exists|l: ArchiveListing|
                #[trigger] settles(old(handle)@, final(handle)@, ArchiveOperation::List, None, Ok::<ArchiveListing, ArchiveError>(l))
                    && listed_by_adapter(adapters@, *old(handle), Ok::<ArchiveListing, ArchiveError>(l))
                    && b.entries@.len() == l.entries@.len() && forall|i: int|
                    0 <= i < l.entries@.len() ==> browser_row(#[trigger] b.entries@[i], l.entries@[i]),
            Err(ArchiveBrowserError::Engine { format, source }) => format matches Some(f) && f.0@ == old(handle)@.format
                && settles(old(handle)@, final(handle)@, ArchiveOperation::List, None, Err::<ArchiveListing, ArchiveError>(source))
                && listed_by_adapter(adapters@, *old(handle), Err::<ArchiveListing, ArchiveError>(source)),
            Err(_) => false,
        },
{
    let format = handle.detected().format;
    match handle.list(adapters) {
        Ok(listing) => {
            let ghost l = listing;
            let rows = browser_rows(listing);
            assert(settles(old(handle)@, handle@, ArchiveOperation::List, None, Ok::<ArchiveListing, ArchiveError>(l)));
            Ok(rows)
        },
        Err(source) => Err(ArchiveBrowserError::Engine { format: Some(format), source }),
    }
}

/// `\` separators written as `/`.
pub open spec fn forward_slashes(s: Seq<char>) -> Seq<char> {
    Seq::new(s.len(), |i: int| if s[i] == '\\' { '/' } else { s[i] })
}

/// The path prefix of a directory's children: the directory with `\`
/// written as `/`, stripped of slashes at both ends, and a `/` after it
/// (nothing for the root).
pub open spec fn children_prefix(dir_path: Seq<char>) -> Seq<char> {
    let parent = trim_start_char(trim_end_char(forward_slashes(dir_path), '/'), '/');
    if parent.len() == 0 {
        Seq::empty()
    } else {
        parent + seq!['/']
    }
}

/// Whether an entry path names an immediate child under `prefix`.
pub open spec fn is_child(path: Seq<char>, prefix: Seq<char>) -> bool {
    let normalized = forward_slashes(path);
    &&& starts_with(normalized, prefix)
    &&& normalized.len() > prefix.len()
    &&& !normalized.subrange(prefix.len() as int, normalized.len() as int).contains('/')
}

/// The rows that are immediate children under `prefix`, in order.
pub open spec fn children(rows: Seq<BrowserEntry>, prefix: Seq<char>) -> Seq<BrowserEntry>
    decreases rows.len(),
{
    if rows.len() == 0 {
        Seq::empty()
    } else {
        let rest = children(rows.drop_last(), prefix);
        if is_child(rows.last().path@, prefix) {
            rest.push(rows.last())
        } else {
            rest
        }
    }
}

fn forward_slash_chars(s: &[char]) -> (r: Vec<char>)
    ensures
        r@ == forward_slashes(s@),
{
    let mut out: Vec<char> = Vec::new();
    let mut i: usize = 0;
    while i < s.len()
        invariant
            i <= s@.len(),
            out@ == forward_slashes(s@).take(i as int),
        decreases s@.len() - i,
    {
        let c = if s[i] == '\\' { '/' } else { s[i] };
        out.push(c);
        assert(out@ =~= forward_slashes(s@).take(i as int + 1));
        i += 1;
    }
    assert(forward_slashes(s@).take(i as int) =~= forward_slashes(s@));
    out
}

fn children_prefix_chars(dir_path: &str) -> (r: Vec<char>)
    ensures
        r@ == children_prefix(dir_path@),
{
    let normalized = forward_slash_chars(&chars_of(dir_path));
    let parent = trim_start_matching(&trim_end_matching(&normalized, '/'), '/');
    if parent.len() == 0 {
        Vec::new()
    } else {
        let slash: Vec<char> = vec!['/'];
        concat_chars(&parent, &slash)
    }
}

fn child_path(path: &str, prefix: &[char]) -> (r: bool)
    ensures
        r == is_child(path@, prefix@),
{
    let normalized = forward_slash_chars(&chars_of(path));
    if !chars_start_with(&normalized, prefix) || normalized.len() <= prefix.len() {
        return false;
    }
    let relative = slice_chars(&normalized, prefix.len(), normalized.len());
    !contains_char(&relative, '/')
}

/// The immediate children of the directory `dir_path` among the rows (the
/// root when `dir_path` is empty), in order.
pub fn directory_children(rows: Vec<BrowserEntry>, dir_path: &str) -> (r: Vec<BrowserEntry>)
    ensures
        r@ == children(rows@, children_prefix(dir_path@)),
{
    let prefix = children_prefix_chars(dir_path);
    let ghost all_rows = rows@;
    let mut rest = rows;
    let mut kept: Vec<BrowserEntry> = Vec::new();
    let ghost mut taken: int = 0;
    while rest.len() > 0
        invariant
            0 <= taken <= all_rows.len(),
            rest@ == all_rows.subrange(taken, all_rows.len() as int),
            kept@ == children(all_rows.take(taken), prefix@),
        decreases rest@.len(),
    {
        let e = rest.remove(0);
        assert(e == all_rows[taken]);
        assert(all_rows.take(taken + 1).drop_last() =~= all_rows.take(taken));
        assert(all_rows.take(taken + 1).last() == e);
        if child_path(e.path.as_str(), &prefix) {
            kept.push(e);
        }
        proof {
            taken = taken + 1;
        }
        assert(rest@ =~= all_rows.subrange(taken, all_rows.len() as int));
    }
    assert(all_rows.take(taken) =~= all_rows);
    kept
}

/// Lists the immediate children of a directory from a retained engine
/// handle.
pub fn list_directory_from_engine_handle<A: ReadAdapterFactory>(
    handle: &mut ArchiveHandle,
    adapters: &[A],
    dir_path: &str,
) -> (r: Result<BrowserListing, ArchiveBrowserError>)
    requires
        old(handle).wf(),
        adapters@.len() == old(handle)@.registry.descriptors.len(),
    ensures
        final(handle).wf(),
        match r {
            Ok(b) => exists|l: ArchiveListing, rows: Seq<BrowserEntry>|
                #![trigger settles(old(handle)@, final(handle)@, ArchiveOperation::List, None, Ok::<ArchiveListing, ArchiveError>(l)), children(rows, children_prefix(dir_path@))]
                settles(old(handle)@, final(handle)@, ArchiveOperation::List, None, Ok::<ArchiveListing, ArchiveError>(l))
                    && listed_by_adapter(adapters@, *old(handle), Ok::<ArchiveListing, ArchiveError>(l))
                    && rows.len() == l.entries@.len() && (forall|i: int| 0 <= i < l.entries@.len() ==> browser_row(#[trigger] rows[i], l.entries@[i]))
                    && b.entries@ == children(rows, children_prefix(dir_path@)),
            Err(ArchiveBrowserError::Engine { format, source }) => format matches Some(f) && f.0@ == old(handle)@.format
                && settles(old(handle)@, final(handle)@, ArchiveOperation::List, None, Err::<ArchiveListing, ArchiveError>(source))
                && listed_by_adapter(adapters@, *old(handle), Err::<ArchiveListing, ArchiveError>(source)),
            Err(_) => false,
        },
{
    let listing = list_entries_from_engine_handle(handle, adapters)?;
    let ghost rows = listing.entries@;
    let entries = directory_children(listing.entries, dir_path);
    Ok(BrowserListing { entries })
}

/// Whether the archive supports on-demand directory listing: only TZAP
/// archives do. `facts` are the detection facts of the archive's path.
pub fn supports_on_demand_directories(facts: FormatDetectionFacts) -> (r: bool)
    ensures
        r == facts.tzap,
{
    facts.tzap
}

/// The message of a refused on-demand directory listing.
pub open spec fn no_on_demand_directories_message() -> Seq<char> {
    "Archive format does not support on-demand directory listing."@
}

/// Admits an on-demand directory listing of the archive whose path has the
/// detection facts `facts`, or refuses it as an unsupported operation.
pub fn check_on_demand_directories(facts: FormatDetectionFacts) -> (r: Result<(), ArchiveBrowserError>)
    ensures
        r is Ok <==> facts.tzap,
        r matches Err(e) ==> e matches ArchiveBrowserError::UnsupportedOperation(m) && m@ == no_on_demand_directories_message(),
{
    if supports_on_demand_directories(facts) {
        Ok(())
    } else {
        Err(ArchiveBrowserError::UnsupportedOperation("Archive format does not support on-demand directory listing.".to_string()))
    }
}

/// A directory listing is the entry listing filtered: a row is listed for
/// the directory exactly when the entry listing holds it and it lies
/// directly under the directory.
pub proof fn lemma_directory_listing_filters_entries(rows: Seq<BrowserEntry>, prefix: Seq<char>, b: BrowserEntry)
    ensures
        children(rows, prefix).contains(b) <==> rows.contains(b) && is_child(b.path@, prefix),
    decreases rows.len(),
{
    if rows.len() > 0 {
        let rest = rows.drop_last();
        lemma_directory_listing_filters_entries(rest, prefix, b);
        let c = children(rest, prefix);
        if rows.contains(b) && is_child(b.path@, prefix) {
            let k = choose|k: int| 0 <= k < rows.len() && rows[k] == b;
            if k < rows.len() - 1 {
                assert(rest[k] == b);
                if is_child(rows.last().path@, prefix) {
                    let j = choose|j: int| 0 <= j < c.len() && c[j] == b;
                    assert(c.push(rows.last())[j] == b);
                }
            } else {
                assert(c.push(rows.last())[c.len() as int] == b);
            }
        }
        if children(rows, prefix).contains(b) {
            let out = children(rows, prefix);
            let j = choose|j: int| 0 <= j < out.len() && out[j] == b;
            if is_child(rows.last().path@, prefix) && j == c.len() {
                assert(rows[rows.len() - 1] == b);
            } else {
                assert(c[j] == b);
                assert(c.contains(b));
                let k = choose|k: int| 0 <= k < rest.len() && rest[k] == b;
                assert(rows[k] == b);
            }
        }
    }
}

/// Two browser rows show the same entry: every field agrees, the
/// diagnostics by their contents.
pub open spec fn same_row(x: BrowserEntry, y: BrowserEntry) -> bool {
    &&& x.path == y.path
    &&& x.kind == y.kind
    &&& x.size == y.size
    &&& x.compressed_size == y.compressed_size
    &&& x.modified == y.modified
    &&& x.mode == y.mode
    &&& x.encrypted == y.encrypted
    &&& x.method == y.method
    &&& x.crc == y.crc
    &&& x.comment == y.comment
    &&& x.created == y.created
    &&& x.accessed == y.accessed
    &&& x.solid == y.solid
    &&& x.link_target == y.link_target
    &&& x.attributes == y.attributes
    &&& x.uid == y.uid
    &&& x.gid == y.gid
    &&& x.owner == y.owner
    &&& x.group == y.group
    &&& x.metadata_diagnostics@ == y.metadata_diagnostics@
}

/// The entry listing is a function of what the list call returns: two
/// browser listings made from the same engine listing show the same rows.
pub proof fn lemma_entry_listing_follows_list_call(l: ArchiveListing, a: Seq<BrowserEntry>, b: Seq<BrowserEntry>)
    requires
        a.len() == l.entries@.len(),
        b.len() == l.entries@.len(),
        forall|i: int| 0 <= i < l.entries@.len() ==> browser_row(#[trigger] a[i], l.entries@[i]),
        forall|i: int| 0 <= i < l.entries@.len() ==> browser_row(#[trigger] b[i], l.entries@[i]),
    ensures
        forall|i: int| 0 <= i < a.len() ==> same_row(#[trigger] a[i], b[i]),
{
    assert forall|i: int| 0 <= i < a.len() implies same_row(#[trigger] a[i], b[i]) by {
        assert(browser_row(a[i], l.entries@[i]));
        assert(browser_row(b[i], l.entries@[i]));
        assert(a[i].metadata_diagnostics@ =~= b[i].metadata_diagnostics@);
    }
}

} // verus!
