//! Job model: event types, the progress projection, and progress coalescing.
use crate::engine::format::{FormatId, APPLE_ARCHIVE, SEVEN_Z, SPLIT_ZIP, TAR_GZ, TAR_ZST, TZAP, ZIP};
use vstd::prelude::*;

pub mod progress;
pub mod context;

pub use context::{JobCancelled, JobContext};

pub use progress::{
    path_identity, JobEventSink, JobProgressState, PROGRESS_ENTRY_STEP, PROGRESS_INTERVAL_MILLIS, PROGRESS_MIN_BYTE_STEP,
    PROGRESS_PATH_DISPLAY_BYTES_LIMIT, PROGRESS_RECENT_PATH_BYTES_LIMIT, PROGRESS_RECENT_PATH_LIMIT,
};


verus! {

/// Bounded identity of an exact producer path whose display copy may be truncated.
pub type ProgressPathIdentity = [u8; 32];

/// Long-running job kind.
#[derive(Debug, Clone, Copy, PartialEq, Eq, Structural)]
pub enum JobKind {
    /// ZIP creation.
    ZipCreate,
    /// ZIP extraction.
    ZipExtract,
    /// 7z creation.
    SevenZCreate,
    /// 7z extraction.
    SevenZExtract,
    /// RAR extraction.
    RarExtract,
    /// TAR.ZST creation.
    TarZstdCreate,
    /// TAR.GZ creation.
    TarGzCreate,
    /// TAR.ZST extraction.
    TarZstdExtract,
    /// TZAP creation.
    TzapCreate,
    /// TZAP extraction.
    TzapExtract,
    /// `AppleArchive` creation.
    AppleArchiveCreate,
    /// `AppleArchive` extraction.
    AppleArchiveExtract,
    /// Broad libarchive-backed extraction.
    ArchiveExtract,
    /// Raw single-file stream extraction.
    RawStreamExtract,
}

/// One observable phase of an archive job.
#[derive(Debug, Clone, Copy, PartialEq, Eq, Structural)]
pub enum JobPhase {
    /// Read and compress source payloads to determine the archive layout.
    PlanningPayload,
    /// Build indexes and metadata after the payload layout is known.
    PlanningMetadata,
    /// Read, compress, protect, and write payload blocks.
    EmittingPayload,
    /// Protect and write indexes, recovery metadata, footers, and trailers.
    EmittingMetadata,
    /// Publish temporary output files at their final paths.
    CommittingOutput,
}

/// Progress and lifecycle event emitted by archive jobs.
#[derive(Debug, Clone, PartialEq, Eq)]
pub enum JobEvent {
    /// Job started.
    Started {
        /// Job kind.
        kind: JobKind,
        /// Planned source bytes when known.
        total_bytes: Option<u64>,
    },
    /// An archive entry started processing.
    EntryStarted {
        /// Archive path.
        path: String,
        /// Entry bytes when known.
        bytes: Option<u64>,
    },
    /// Bytes were processed for an entry.
    BytesProcessed {
        /// Archive path when associated with a specific entry.
        path: Option<String>,
        /// Most recently active archive paths, capped by the producer.
        recent_paths: Vec<String>,
        /// Bounded identities of the exact producer paths corresponding to `recent_paths`.
        recent_path_identities: Vec<ProgressPathIdentity>,
        /// Incremental bytes processed by this event.
        bytes: u64,
        /// Total bytes processed so far by this job context.
        total_bytes_processed: u64,
        /// Incremental completed entries represented by this aggregate.
        entries: u64,
        /// Total completed entries so far in the job.
        total_entries_processed: u64,
        /// Whether any display path was truncated to satisfy the UTF-8 storage bound.
        recent_paths_truncated: bool,
    },
    /// A job entered a new observable phase.
    PhaseStarted {
        /// Newly active phase.
        phase: JobPhase,
        /// Total source bytes for this phase when known.
        total_bytes: Option<u64>,
    },
    /// Source bytes were processed within one observable phase.
    PhaseBytesProcessed {
        /// Active phase.
        phase: JobPhase,
        /// Archive path when associated with a specific entry.
        path: Option<String>,
        /// Most recently active archive paths, capped by the producer.
        recent_paths: Vec<String>,
        /// Bounded identities of the exact producer paths corresponding to `recent_paths`.
        recent_path_identities: Vec<ProgressPathIdentity>,
        /// Incremental bytes processed by this event.
        bytes: u64,
        /// Total bytes processed so far within this phase.
        total_bytes_processed: u64,
        /// Total source bytes for this phase when known.
        total_bytes: Option<u64>,
        /// Whether any display path was truncated to satisfy the UTF-8 storage bound.
        recent_paths_truncated: bool,
    },
    /// An archive entry finished processing.
    EntryFinished {
        /// Archive path.
        path: String,
        /// Entry bytes processed.
        bytes: u64,
    },
    /// Non-fatal warning.
    Warning {
        /// Warning message.
        message: String,
    },
    /// Job completed successfully.
    Completed {
        /// Entries written or extracted.
        entries: usize,
        /// Bytes written or extracted.
        bytes: u64,
    },
    /// Job failed.
    Failed {
        /// Failure message.
        message: String,
    },
    /// Job was cancelled cooperatively.
    Cancelled {
        /// Cancellation message.
        message: String,
    },
}

/// Terminal outcome of a core archive execution.
#[derive(Debug, Clone, Copy, PartialEq, Eq, Structural)]
pub enum JobOutcome {
    /// The operation committed successfully.
    Completed,
    /// The operation failed.
    Failed,
    /// The operation observed cooperative cancellation before success.
    Cancelled,
}

/// The creation job kind reported for an archive created in `format`.
pub open spec fn create_job_kind_spec(format: Seq<char>) -> JobKind {
    if format == ZIP@ || format == SPLIT_ZIP@ {
        JobKind::ZipCreate
    } else if format == SEVEN_Z@ {
        JobKind::SevenZCreate
    } else if format == TAR_ZST@ {
        JobKind::TarZstdCreate
    } else if format == TAR_GZ@ {
        JobKind::TarGzCreate
    } else if format == TZAP@ {
        JobKind::TzapCreate
    } else if format == APPLE_ARCHIVE@ {
        JobKind::AppleArchiveCreate
    } else {
        JobKind::ArchiveExtract
    }
}

/// The job kind that an engine creation job in `format` announces in its
/// `Started` event.
pub fn create_job_kind(format: FormatId) -> (r: JobKind)
    ensures
        r == create_job_kind_spec(format.0@),
{
    if format.is(ZIP) || format.is(SPLIT_ZIP) {
        JobKind::ZipCreate
    } else if format.is(SEVEN_Z) {
        JobKind::SevenZCreate
    } else if format.is(TAR_ZST) {
        JobKind::TarZstdCreate
    } else if format.is(TAR_GZ) {
        JobKind::TarGzCreate
    } else if format.is(TZAP) {
        JobKind::TzapCreate
    } else if format.is(APPLE_ARCHIVE) {
        JobKind::AppleArchiveCreate
    } else {
        JobKind::ArchiveExtract
    }
}

} // verus!
