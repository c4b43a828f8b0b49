//! Apple flat package (`.pkg`) entries: the payload's cpio entries as the
//! extraction sees them.
use crate::text::{chars_of, concat_chars, slice_chars, string_from_chars, utf8_lossy, utf8_lossy_of};
use vstd::prelude::*;

verus! {

/// `.pkg` extraction report.
#[derive(Debug, Clone)]
pub struct PkgExtractReport {
    /// Number of entries written.
    pub written_entries: usize,
    /// Number of entries skipped by policy.
    pub skipped_entries: usize,
    /// Number of file bytes extracted.
    pub written_bytes: u64,
    /// Non-fatal warnings.
    pub warnings: Vec<String>,
}

/// `.pkg` backend error.
#[derive(Debug, Clone)]
pub enum PkgBackendError {
    /// Manifest planning failed.
    Plan(String),
    /// Filesystem I/O failed.
    Io { path: String, message: String },
    /// Extraction safety rejected an entry.
    Safety(String),
    /// Underlying XAR error.
    Xara(String),
    /// Underlying PBZX error.
    Pbzx(String),
    /// Job was cancelled cooperatively.
    Cancelled,
}

/// The message of a `.pkg` backend error.
pub open spec fn pkg_error_text(e: PkgBackendError) -> Seq<char> {
    match e {
        PkgBackendError::Plan(m) => "manifest planning failed: "@ + m@,
        PkgBackendError::Io { path, message } => "I/O failed for "@ + path@ + ": "@ + message@,
        PkgBackendError::Safety(m) => "extraction safety rejected entry: "@ + m@,
        PkgBackendError::Xara(m) => "XAR backend error: "@ + m@,
        PkgBackendError::Pbzx(m) => "PBZX backend error: "@ + m@,
        PkgBackendError::Cancelled => "job cancelled"@,
    }
}

fn join(a: &str, b: &str) -> (r: String)
    ensures
        r@ == a@ + b@,
{
    let x = chars_of(a);
    let y = chars_of(b);
    string_from_chars(&concat_chars(&x, &y))
}

impl PkgBackendError {
    /// The error's message.
    pub fn to_text(&self) -> (r: String)
        ensures
            r@ == pkg_error_text(*self),
    {
        match self {
            PkgBackendError::Plan(m) => join("manifest planning failed: ", m.as_str()),
            PkgBackendError::Io { path, message } => {
                let a = join("I/O failed for ", path.as_str());
                let b = join(a.as_str(), ": ");
                join(b.as_str(), message.as_str())
            },
            PkgBackendError::Safety(m) => join("extraction safety rejected entry: ", m.as_str()),
            PkgBackendError::Xara(m) => join("XAR backend error: ", m.as_str()),
            PkgBackendError::Pbzx(m) => join("PBZX backend error: ", m.as_str()),
            PkgBackendError::Cancelled => "job cancelled".to_string(),
        }
    }
}

/// What a payload entry becomes on extraction.
#[derive(Debug, Clone)]
pub enum PkgEntryKind {
    Directory,
    File,
    /// A symbolic link to the target its data names.
    Symlink { target: String },
}

/// A payload entry as the extraction sees it.
#[derive(Debug, Clone)]
pub struct PkgEntry {
    /// Archive path without its leading `/`.
    pub archive_path: String,
    pub kind: PkgEntryKind,
    /// Declared size.
    pub size: u64,
}

/// A cpio path with one leading `/` removed.
pub open spec fn pkg_relative_path(path: Seq<char>) -> Seq<char> {
    if path.len() > 0 && path[0] == '/' {
        path.drop_first()
    } else {
        path
    }
}

/// Turns one cpio entry of a component's payload into the entry to
/// extract: the path loses one leading `/`, an entry left with an empty
/// path is passed over (`None`), directories win over symbolic links, and a
/// symbolic link's target is its data decoded as lossy UTF-8 (empty when it
/// has none).
pub fn pkg_entry(path: &str, size: u64, is_dir: bool, is_symlink: bool, data: Option<&[u8]>) -> (r: Option<PkgEntry>)
    ensures
        pkg_relative_path(path@).len() == 0 <==> r is None,
        r matches Some(e) ==> {
            &&& e.archive_path@ == pkg_relative_path(path@)
            &&& e.size == size
            &&& if is_dir {
                e.kind is Directory
            } else if is_symlink {
                e.kind matches PkgEntryKind::Symlink { target } && target@ == utf8_lossy_of(
                    match data {
                        Some(d) => d@,
                        None => Seq::<u8>::empty(),
                    },
                )
            } else {
                e.kind is File
            }
        },
{
    let chars = chars_of(path);
    let relative = if chars.len() > 0 && chars[0] == '/' {
        let rest = slice_chars(&chars, 1, chars.len());
        assert(rest@ =~= chars@.drop_first());
        rest
    } else {
        chars
    };
    if relative.len() == 0 {
        return None;
    }
    let kind = if is_dir {
        PkgEntryKind::Directory
    } else if is_symlink {
        let empty: Vec<u8> = Vec::new();
        let target = match data {
            Some(d) => utf8_lossy(d),
            None => {
                assert(empty@ =~= Seq::<u8>::empty());
                utf8_lossy(empty.as_slice())
            },
        };
        PkgEntryKind::Symlink { target }
    } else {
        PkgEntryKind::File
    };
    Some(PkgEntry { archive_path: string_from_chars(&relative), kind, size })
}

impl PkgExtractReport {
    /// An empty report.
    pub fn new() -> (r: Self)
        ensures
            r.written_entries == 0,
            r.skipped_entries == 0,
            r.written_bytes == 0,
            r.warnings@.len() == 0,
    {
        PkgExtractReport { written_entries: 0, skipped_entries: 0, written_bytes: 0, warnings: Vec::new() }
    }

    /// Counts a written file of `size` bytes.
    pub fn record_file(&mut self, size: u64)
        requires
            old(self).written_entries < usize::MAX,
            old(self).written_bytes + size <= u64::MAX,
        ensures
            final(self).written_entries == old(self).written_entries + 1,
            final(self).written_bytes == old(self).written_bytes + size,
            final(self).skipped_entries == old(self).skipped_entries,
            final(self).warnings@ == old(self).warnings@,
    {
        self.written_entries = self.written_entries + 1;
        self.written_bytes = self.written_bytes + size;
    }

    /// Counts a skipped entry and keeps its warning.
    pub fn record_skip(&mut self, warning: String)
        requires
            old(self).skipped_entries < usize::MAX,
        ensures
            final(self).skipped_entries == old(self).skipped_entries + 1,
            final(self).warnings@ == old(self).warnings@.push(warning),
            final(self).written_entries == old(self).written_entries,
            final(self).written_bytes == old(self).written_bytes,
    {
        self.skipped_entries = self.skipped_entries + 1;
        self.warnings.push(warning);
    }
}

} // verus!
