//! The libarchive compatibility surface of this build profile.
//!
//! The libarchive fallback is disabled in this profile: every operation
//! reports [`LibarchiveError::Unsupported`], and no path is treated as a
//! split ZIP member. The report and error vocabulary stays available so
//! shared callers work unchanged.
use crate::jobs::JobContext;
use vstd::prelude::*;

verus! {

/// One entry of a libarchive listing.
#[derive(Debug, Clone)]
pub struct LibarchiveListEntry {
    pub path: String,
    pub kind: LibarchiveEntryKind,
    pub size: i64,
    pub mode: u32,
    /// Modification time in seconds since the Unix epoch, when known.
    pub modified: Option<u64>,
    pub data_encrypted: bool,
    pub metadata_encrypted: bool,
    pub uid: Option<u32>,
    pub gid: Option<u32>,
    pub owner: Option<String>,
    pub group: Option<String>,
    pub link_target: Option<String>,
}

/// Entry type reported by libarchive.
#[derive(Debug, Clone, Copy, PartialEq, Eq, Structural)]
pub enum LibarchiveEntryKind {
    File,
    Directory,
    Symlink,
    Hardlink,
    Device,
    Special,
}

/// A libarchive listing.
#[derive(Debug, Clone)]
pub struct LibarchiveListing {
    pub entries: Vec<LibarchiveListEntry>,
}

/// Report of a libarchive extraction.
#[derive(Debug, Clone)]
pub struct LibarchiveExtractReport {
    pub written_entries: usize,
    pub skipped_entries: usize,
    pub written_bytes: u64,
    pub warnings: Vec<String>,
}

/// Report of a libarchive data test.
#[derive(Debug, Clone, Copy)]
pub struct LibarchiveTestReport {
    pub tested_entries: usize,
    pub skipped_entries: usize,
    pub tested_bytes: u64,
}

/// Libarchive backend failure.
#[derive(Debug, Clone)]
pub enum LibarchiveError {
    /// libarchive reported a failure.
    Archive(String),
    /// A compressed tar stream failed to decode.
    RawStream(String),
    /// File system I/O failed for `path`.
    Io { path: String, message: String },
    /// Extraction safety rejected an entry.
    Safety(String),
    /// An entry had no path.
    MissingPath,
    /// A link entry had no target.
    MissingLinkTarget { path: String },
    /// The requested entry does not exist.
    EntryNotFound { path: String },
    /// The job was cancelled.
    Cancelled,
    /// A standard-output selection did not resolve to a single file.
    StdoutSelectionNotSingleFile { selected_files: usize },
    /// The libarchive fallback is disabled in this build profile.
    Unsupported,
}

/// The result every operation of this profile returns.
pub open spec fn unsupported<T>(r: Result<T, LibarchiveError>) -> bool {
    r matches Err(LibarchiveError::Unsupported)
}

/// Lists the entries of the archive at `path`.
pub fn list_archive(path: &str) -> (r: Result<LibarchiveListing, LibarchiveError>)
    ensures
        unsupported(r),
{
    Err(LibarchiveError::Unsupported)
}

/// Lists the entries of the archive at `path`, decrypting with `password`.
pub fn list_archive_with_password(path: &str, password: Option<&str>) -> (r: Result<LibarchiveListing, LibarchiveError>)
    ensures
        unsupported(r),
{
    Err(LibarchiveError::Unsupported)
}

/// Extracts the archive at `archive_path` into `destination`.
pub fn extract_archive(archive_path: &str, destination: &str) -> (r: Result<LibarchiveExtractReport, LibarchiveError>)
    ensures
        unsupported(r),
{
    Err(LibarchiveError::Unsupported)
}

/// Extracts the archive at `archive_path` into `destination`, decrypting
/// with `password`.
pub fn extract_archive_with_password(archive_path: &str, destination: &str, password: Option<&str>) -> (r: Result<
    LibarchiveExtractReport,
    LibarchiveError,
>)
    ensures
        unsupported(r),
{
    Err(LibarchiveError::Unsupported)
}

/// Extracts the archive at `archive_path` into `destination` and reports
/// progress to `context`.
pub fn extract_archive_with_password_and_context(
    archive_path: &str,
    destination: &str,
    password: Option<&str>,
    context: &mut JobContext,
) -> (r: Result<LibarchiveExtractReport, LibarchiveError>)
    ensures
        unsupported(r),
        final(context)@ == old(context)@,
{
    Err(LibarchiveError::Unsupported)
}

/// Extracts the archive at `archive_path` into `destination`, consulting the
/// caller's overwrite decisions.
pub fn extract_archive_with_overwrite_resolver_and_password(
    archive_path: &str,
    destination: &str,
    password: Option<&str>,
) -> (r: Result<LibarchiveExtractReport, LibarchiveError>)
    ensures
        unsupported(r),
{
    Err(LibarchiveError::Unsupported)
}

/// Extracts the entry `entry_path` of the archive at `archive_path`.
pub fn extract_archive_entry(archive_path: &str, entry_path: &str, destination: &str) -> (r: Result<
    LibarchiveExtractReport,
    LibarchiveError,
>)
    ensures
        unsupported(r),
{
    Err(LibarchiveError::Unsupported)
}

/// Extracts the entry `entry_path` of the archive at `archive_path`,
/// decrypting with `password`.
pub fn extract_archive_entry_with_password(
    archive_path: &str,
    entry_path: &str,
    destination: &str,
    password: Option<&str>,
) -> (r: Result<LibarchiveExtractReport, LibarchiveError>)
    ensures
        unsupported(r),
{
    Err(LibarchiveError::Unsupported)
}

/// Extracts the entry at position `entry_index` of the archive at
/// `archive_path`.
pub fn extract_archive_entry_by_index(
    archive_path: &str,
    destination: &str,
    password: Option<&str>,
    entry_index: usize,
) -> (r: Result<LibarchiveExtractReport, LibarchiveError>)
    ensures
        unsupported(r),
{
    Err(LibarchiveError::Unsupported)
}

/// Copies the selected files of the archive at `archive_path` to `output`.
pub fn copy_archive_files_to_writer(archive_path: &str, password: Option<&str>, output: &mut Vec<u8>) -> (r: Result<
    LibarchiveExtractReport,
    LibarchiveError,
>)
    ensures
        unsupported(r),
        final(output)@ == old(output)@,
{
    Err(LibarchiveError::Unsupported)
}

/// Copies the entry at position `entry_index` of the archive at
/// `archive_path` to `output`.
pub fn copy_archive_entry_by_index(archive_path: &str, password: Option<&str>, entry_index: usize, output: &mut Vec<u8>) -> (r: Result<
    u64,
    LibarchiveError,
>)
    ensures
        unsupported(r),
        final(output)@ == old(output)@,
{
    Err(LibarchiveError::Unsupported)
}

/// Verifies the selected entries of the archive at `archive_path`.
pub fn test_archive_with_password_filter(archive_path: &str, password: Option<&str>) -> (r: Result<
    LibarchiveTestReport,
    LibarchiveError,
>)
    ensures
        unsupported(r),
{
    Err(LibarchiveError::Unsupported)
}

/// Whether libarchive treats `path` as a split ZIP member: never, in this
/// profile.
pub fn is_split_zip_path(path: &str) -> (r: bool)
    ensures
        !r,
{
    false
}

} // verus!
