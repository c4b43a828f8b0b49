//! Normalized read domain types and errors for the core engine.
use crate::archive_browser::BrowserEntryKind;
use crate::engine::format::FormatId;
use crate::engine::source::{ArchiveSource, SourceAccess};
use crate::text::{chars_of, concat_chars, string_from_chars};
use vstd::prelude::*;

verus! {

/// Session-scoped entry identifier.
///
/// `EntryId` is issued during listing and uniquely identifies physical entry
/// records within one opened `ArchiveHandle` session. Duplicate paths retain
/// distinct `EntryId` values. `EntryId` is invalidated when the handle closes.
#[derive(Debug, Clone, Copy, PartialEq, Eq, Hash, PartialOrd, Ord, Structural)]
pub struct EntryId(pub u64);

/// Archive format and source layout detected by the engine.
#[derive(Debug, Clone)]
pub struct DetectedArchive {
    /// Detected format identifier.
    pub format: FormatId,
    /// Resolved source descriptor.
    pub source: ArchiveSource,
}

/// One normalized entry record returned by engine listing.
#[derive(Debug, Clone)]
pub struct EngineEntry {
    /// Session-scoped physical entry handle.
    pub id: EntryId,
    /// Normalized archive path (forward slashes, trimmed leading `./`).
    pub path: String,
    /// Portable entry type.
    pub kind: BrowserEntryKind,
    /// Uncompressed size when known.
    pub size: Option<u64>,
    /// Compressed size when known.
    pub compressed_size: Option<u64>,
    /// Modification time string.
    pub modified: Option<String>,
    /// Unix permission bits when available.
    pub mode: Option<u32>,
    /// Encryption status.
    pub encrypted: Option<bool>,
    /// Compression algorithm or method name.
    pub method: Option<String>,
    /// Checksum (e.g. CRC-32) when available.
    pub crc: Option<u32>,
    /// Entry comment when available.
    pub comment: Option<String>,
    /// Symlink or hardlink target path when applicable.
    pub link_target: Option<String>,
}

/// Archive listing returned by an opened engine handle.
#[derive(Debug, Clone)]
pub struct ArchiveListing {
    /// Entries in archive order.
    pub entries: Vec<EngineEntry>,
}

/// Archive operation supported by the engine seam.
#[derive(Debug, Clone, Copy, PartialEq, Eq, Hash, Structural)]
pub enum ArchiveOperation {
    /// List entries in the archive.
    List,
    /// Data verification / integrity test.
    Test,
    /// Full extraction to destination directory.
    Extract,
    /// Selected single or batch entry extraction.
    SelectedExtract,
    /// Copy single entry payload to writer.
    CopyToWriter,
    /// Create new archive from manifest.
    Create,
}

/// Session disposition after an operation or error.
#[derive(Debug, Clone, Copy, PartialEq, Eq, Hash, Structural)]
pub enum SessionDisposition {
    /// Session remains usable for subsequent operations.
    Usable,
    /// Session cursor or parser state is corrupted/uncertain; subsequent operations must fail.
    Unusable,
}

/// Category of operation error.
#[derive(Debug, Clone, Copy, PartialEq, Eq, Hash, Structural)]
pub enum ErrorKind {
    /// Unsupported or unrecognized format.
    InvalidFormat,
    /// Password required to read header or payload.
    PasswordRequired,
    /// Provided password was rejected.
    WrongPassword,
    /// Data corruption or checksum failure.
    CorruptData,
    /// Resource or security limit exceeded.
    ResourceLimitExceeded,
    /// Extraction safety policy violation.
    SafetyViolation,
    /// Underlying filesystem I/O error.
    Io,
    /// Operation not supported by this format/adapter.
    UnsupportedOperation,
    /// The operation observed cooperative cancellation.
    Cancelled,
}

/// Structured error returned by the archive engine interface.
#[derive(Debug, Clone)]
pub struct ArchiveError {
    /// Category of error.
    pub kind: ErrorKind,
    /// User-facing descriptive message.
    pub message: String,
    /// Handle session state disposition after this error.
    pub disposition: SessionDisposition,
    /// Optional underlying path.
    pub path: Option<String>,
}

/// The display label of an error kind.
pub open spec fn kind_label(kind: ErrorKind) -> Seq<char> {
    match kind {
        ErrorKind::InvalidFormat => "invalid format"@,
        ErrorKind::PasswordRequired => "password required"@,
        ErrorKind::WrongPassword => "wrong password"@,
        ErrorKind::CorruptData => "corrupt data"@,
        ErrorKind::ResourceLimitExceeded => "resource limit exceeded"@,
        ErrorKind::SafetyViolation => "safety violation"@,
        ErrorKind::Io => "I/O error"@,
        ErrorKind::UnsupportedOperation => "unsupported operation"@,
        ErrorKind::Cancelled => "cancelled"@,
    }
}

/// The one-line rendering of an error: its kind, message and path.
pub open spec fn error_text(kind: ErrorKind, message: Seq<char>, path: Option<Seq<char>>) -> Seq<char> {
    let head = kind_label(kind) + seq![':', ' '] + message;
    match path {
        Some(p) => head + seq![' ', '('] + p + seq![')'],
        None => head,
    }
}

impl ArchiveError {
    /// Creates a usable session error.
    pub fn usable(kind: ErrorKind, message: String) -> (r: ArchiveError)
        ensures
            r.kind == kind,
            r.message == message,
            r.disposition == SessionDisposition::Usable,
            r.path is None,
    {
        ArchiveError { kind, message, disposition: SessionDisposition::Usable, path: None }
    }

    /// Creates an unusable session error.
    pub fn unusable(kind: ErrorKind, message: String) -> (r: ArchiveError)
        ensures
            r.kind == kind,
            r.message == message,
            r.disposition == SessionDisposition::Unusable,
            r.path is None,
    {
        ArchiveError { kind, message, disposition: SessionDisposition::Unusable, path: None }
    }

    /// Attaches an associated file path to this error.
    pub fn with_path(self, path: String) -> (r: ArchiveError)
        ensures
            r.kind == self.kind,
            r.message == self.message,
            r.disposition == self.disposition,
            r.path == Some(path),
    {
        ArchiveError { path: Some(path), ..self }
    }

    /// The display label of this error's kind.
    pub fn kind_str(&self) -> (r: &'static str)
        ensures
            r@ == kind_label(self.kind),
    {
        match self.kind {
            ErrorKind::InvalidFormat => "invalid format",
            ErrorKind::PasswordRequired => "password required",
            ErrorKind::WrongPassword => "wrong password",
            ErrorKind::CorruptData => "corrupt data",
            ErrorKind::ResourceLimitExceeded => "resource limit exceeded",
            ErrorKind::SafetyViolation => "safety violation",
            ErrorKind::Io => "I/O error",
            ErrorKind::UnsupportedOperation => "unsupported operation",
            ErrorKind::Cancelled => "cancelled",
        }
    }

    /// The one-line rendering `kind: message`, followed by ` (path)` when a
    /// path is attached.
    pub fn to_text(&self) -> (r: String)
        ensures
            r@ == error_text(
                self.kind,
                self.message@,
                match self.path {
                    Some(p) => Some(p@),
                    None => None,
                },
            ),
    {
        let label = chars_of(self.kind_str());
        let sep: Vec<char> = vec![':', ' '];
        let a = concat_chars(&label, &sep);
        let msg = chars_of(self.message.as_str());
        let head = concat_chars(&a, &msg);
        match &self.path {
            Some(p) => {
                let open: Vec<char> = vec![' ', '('];
                let close: Vec<char> = vec![')'];
                let b = concat_chars(&head, &open);
                let pc = chars_of(p.as_str());
                let c = concat_chars(&b, &pc);
                let d = concat_chars(&c, &close);
                string_from_chars(&d)
            },
            None => string_from_chars(&head),
        }
    }
}

/// Immutable capability summary reported by an engine handle or registry snapshot.
#[derive(Debug, Clone)]
pub struct HandleCapabilities {
    /// Format identifier.
    pub format: FormatId,
    /// Source access capability.
    pub source_access: SourceAccess,
    /// Supported operations.
    pub operations: Vec<ArchiveOperation>,
    /// Whether header or payload encryption is supported.
    pub encryption_supported: bool,
}

} // verus!
