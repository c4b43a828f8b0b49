//! LHA/LZH archives: the listing built from the member headers and the
//! bookkeeping of a test run. The headers and data are read by the caller.
use crate::archive_browser::BrowserEntryKind;
use crate::text::{chars_of, concat_chars, str_eq, string_from_chars};
use vstd::prelude::*;

verus! {

/// One normalized LHA entry.
#[derive(Debug, Clone)]
pub struct LhaEntry {
    /// Retained archive-order entry ID.
    pub index: usize,
    /// Normalized archive path.
    pub path: String,
    /// Portable entry kind.
    pub kind: BrowserEntryKind,
    /// Declared uncompressed size.
    pub size: u64,
    /// Whether the compression method can be decoded.
    pub supported: bool,
}

/// Native LHA operation report.
#[derive(Debug, Clone)]
pub struct LhaReport {
    /// Entries written or verified.
    pub entries: usize,
    /// Entries skipped by selection or policy.
    pub skipped_entries: usize,
    /// Regular-file bytes written or verified.
    pub bytes: u64,
    /// Non-fatal diagnostics.
    pub warnings: Vec<String>,
}

/// Native LHA operation error.
#[derive(Debug, Clone)]
pub enum LhaError {
    /// Filesystem I/O failed.
    Io { path: String, message: String },
    /// The archive or one of its members is malformed or unsupported.
    Invalid { path: String, message: String },
    /// Extraction safety rejected an entry.
    Safety(String),
    /// The caller cancelled the operation.
    Cancelled,
}

/// The message of an LHA error.
pub open spec fn lha_error_text(e: LhaError) -> Seq<char> {
    match e {
        LhaError::Io { path, message } => "I/O failed for "@ + path@ + ": "@ + message@,
        LhaError::Invalid { path, message } => "invalid LHA "@ + path@ + ": "@ + message@,
        LhaError::Safety(m) => "extraction safety rejected LHA entry: "@ + m@,
        LhaError::Cancelled => "job cancelled"@,
    }
}

fn join(a: &str, b: &str) -> (r: String)
    ensures
        r@ == a@ + b@,
{
    string_from_chars(&concat_chars(&chars_of(a), &chars_of(b)))
}

impl LhaError {
    /// The error's message.
    pub fn to_text(&self) -> (r: String)
        ensures
            r@ == lha_error_text(*self),
    {
        match self {
            LhaError::Io { path, message } => {
                let a = join("I/O failed for ", path.as_str());
                let b = join(a.as_str(), ": ");
                join(b.as_str(), message.as_str())
            },
            LhaError::Invalid { path, message } => {
                let a = join("invalid LHA ", path.as_str());
                let b = join(a.as_str(), ": ");
                join(b.as_str(), message.as_str())
            },
            LhaError::Safety(m) => join("extraction safety rejected LHA entry: ", m.as_str()),
            LhaError::Cancelled => "job cancelled".to_string(),
        }
    }
}

/// Whether some entry already has the path.
pub open spec fn path_listed(entries: Seq<LhaEntry>, path: Seq<char>) -> bool {
    exists|i: int| 0 <= i < entries.len() && (#[trigger] entries[i]).path@ == path
}

/// Adds the member whose header was just read to the listing: a path seen
/// before makes the archive invalid; otherwise the member is numbered by its
/// position, and a directory counts as supported.
pub fn add_member(
    entries: &mut Vec<LhaEntry>,
    archive_path: &str,
    path: String,
    is_directory: bool,
    size: u64,
    decoder_supported: bool,
) -> (r: Result<(), LhaError>)
    ensures
        path_listed(old(entries)@, path@) ==> (r matches Err(LhaError::Invalid { path: p, message }) && p@ == archive_path@
            && message@ == "duplicate path "@ + path@ && final(entries)@ == old(entries)@),
        !path_listed(old(entries)@, path@) ==> (r is Ok && final(entries)@.len() == old(entries)@.len() + 1
            && final(entries)@.drop_last() == old(entries)@ && ({
            let e = final(entries)@.last();
            &&& e.index == old(entries)@.len()
            &&& e.path@ == path@
            &&& e.kind == if is_directory {
                BrowserEntryKind::Directory
            } else {
                BrowserEntryKind::File
            }
            &&& e.size == size
            &&& e.supported == (is_directory || decoder_supported)
        })),
{
    let mut i: usize = 0;
    while i < entries.len()
        invariant
            i <= entries@.len(),
            forall|j: int| 0 <= j < i ==> (#[trigger] entries@[j]).path@ != path@,
        decreases entries@.len() - i,
    {
        if str_eq(entries[i].path.as_str(), path.as_str()) {
            let message = join("duplicate path ", path.as_str());
            return Err(LhaError::Invalid { path: archive_path.to_string(), message });
        }
        i += 1;
    }
    let index = entries.len();
    let kind = if is_directory {
        BrowserEntryKind::Directory
    } else {
        BrowserEntryKind::File
    };
    entries.push(LhaEntry { index, path, kind, size, supported: is_directory || decoder_supported });
    assert(entries@.drop_last() =~= old(entries)@);
    Ok(())
}

impl LhaReport {
    /// An empty report.
    pub fn new() -> (r: Self)
        ensures
            r.entries == 0,
            r.skipped_entries == 0,
            r.bytes == 0,
            r.warnings@.len() == 0,
    {
        LhaReport { entries: 0, skipped_entries: 0, bytes: 0, warnings: Vec::new() }
    }

    /// Counts a member left out by the selection.
    pub fn record_skipped(&mut self)
        ensures
            final(self).skipped_entries == if old(self).skipped_entries == usize::MAX {
                usize::MAX
            } else {
                (old(self).skipped_entries + 1) as usize
            },
            final(self).entries == old(self).entries,
            final(self).bytes == old(self).bytes,
    {
        self.skipped_entries = self.skipped_entries.saturating_add(1);
    }

    /// Counts a verified member: a directory, or a file whose data decoded
    /// to `decoded` bytes. A file that decoded to another size than its
    /// header declares makes the archive invalid.
    pub fn record_verified(&mut self, archive_path: &str, entry_path: &str, is_directory: bool, decoded: u64, declared: u64) -> (r: Result<
        (),
        LhaError,
    >)
        ensures
            !is_directory && decoded != declared ==> (r matches Err(LhaError::Invalid { path, message }) && path@
                == archive_path@ && message@ == entry_path@ + " decoded to "@ + crate::text::decimal_string(decoded as nat)
                + " bytes, expected "@ + crate::text::decimal_string(declared as nat)),
            is_directory || decoded == declared ==> (r is Ok && final(self).entries == if old(self).entries == usize::MAX {
                usize::MAX
            } else {
                (old(self).entries + 1) as usize
            } && final(self).bytes == if is_directory {
                old(self).bytes
            } else if old(self).bytes + decoded > u64::MAX {
                u64::MAX
            } else {
                (old(self).bytes + decoded) as u64
            }),
    {
        if !is_directory && decoded != declared {
            let a = join(entry_path, " decoded to ");
            let b = join(a.as_str(), crate::text::decimal_text(decoded).as_str());
            let c = join(b.as_str(), " bytes, expected ");
            let message = join(c.as_str(), crate::text::decimal_text(declared).as_str());
            return Err(LhaError::Invalid { path: archive_path.to_string(), message });
        }
        self.entries = self.entries.saturating_add(1);
        if !is_directory {
            self.bytes = self.bytes.saturating_add(decoded);
        }
        Ok(())
    }
}

} // verus!
