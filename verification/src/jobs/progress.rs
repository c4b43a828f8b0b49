//! Progress projection and coalescing.
//!
//! [`JobProgressState`] is the runtime-neutral projection of job events that
//! consumers read; [`ProgressCoalescer`] batches byte/entry activity so event
//! sinks are not flooded.
use crate::digest::{sha256, sha256_digest};
use crate::jobs::{JobEvent, JobOutcome, JobPhase, ProgressPathIdentity};
use crate::text::{char_byte_width, chars_of, lemma_utf8_len_monotone, lemma_utf8_len_take, prefix_within, truncate_utf8, utf8_len};
use vstd::prelude::*;
use vstd::utf8::encode_utf8;

verus! {

/// Consumer of job events.
pub trait JobEventSink {
    /// Receives one event.
    fn emit(&mut self, event: JobEvent);
}

/// A vector collects the events it receives, in order.
impl JobEventSink for Vec<JobEvent> {
    fn emit(&mut self, event: JobEvent)
        ensures
            final(self)@ == old(self)@.push(event),
    {
        self.push(event);
    }
}

pub const PROGRESS_INTERVAL_MILLIS: u64 = 1000;
pub const PROGRESS_MIN_BYTE_STEP: u64 = 4194304;
pub const PROGRESS_RECENT_PATH_LIMIT: usize = 10;
pub const PROGRESS_RECENT_PATH_BYTES_LIMIT: usize = 4096;
/// `PROGRESS_RECENT_PATH_BYTES_LIMIT / PROGRESS_RECENT_PATH_LIMIT`.
pub const PROGRESS_PATH_DISPLAY_BYTES_LIMIT: usize = 409;
pub const PROGRESS_ENTRY_STEP: u64 = 128;

/// The identity recorded for a producer path: the SHA-256 of its UTF-8 bytes.
pub open spec fn identity_of(path: Seq<char>) -> Seq<u8> {
    sha256_digest(encode_utf8(path))
}

/// Bounded identity of an exact producer path.
pub fn path_identity(path: &str) -> (r: ProgressPathIdentity)
    ensures
        r@ == identity_of(path@),
{
    sha256(path.as_bytes())
}

/// Display copy of a path, cut to the per-path byte bound.
pub open spec fn display_path(path: Seq<char>) -> Seq<char> {
    prefix_within(path, PROGRESS_PATH_DISPLAY_BYTES_LIMIT as nat)
}

/// Total UTF-8 bytes of a list of paths.
pub open spec fn total_bytes(paths: Seq<Seq<char>>) -> nat
    decreases paths.len(),
{
    if paths.len() == 0 {
        0
    } else {
        total_bytes(paths.drop_last()) + utf8_len(paths.last())
    }
}

/// Abstract value of a [`JobProgressState`].
pub struct ProgressStateView {
    pub processed_bytes: u64,
    pub total_bytes: Option<u64>,
    pub processed_entries: u64,
    pub total_entries: Option<u64>,
    pub current_path: Option<Seq<char>>,
    pub recent_paths: Seq<Seq<char>>,
    pub active_phase: Option<JobPhase>,
    pub phase_processed_bytes: u64,
    pub phase_total_bytes: Option<u64>,
    pub warning_count: u64,
    pub outcome: Option<JobOutcome>,
    pub identities: Seq<Seq<u8>>,
}

/// Index of the first `identity` in `ids`.
pub open spec fn first_identity_index(ids: Seq<Seq<u8>>, identity: Seq<u8>) -> Option<int>
    decreases ids.len(),
{
    if ids.len() == 0 {
        None
    } else if ids[0] == identity {
        Some(0)
    } else {
        match first_identity_index(ids.drop_first(), identity) {
            Some(i) => Some(i + 1),
            None => None,
        }
    }
}

/// The recent paths and identities after dropping the oldest records while
/// the paths hold more than the byte bound in all.
pub open spec fn evict_to_byte_bound(paths: Seq<Seq<char>>, ids: Seq<Seq<u8>>) -> (Seq<Seq<char>>, Seq<Seq<u8>>)
    decreases paths.len(),
{
    if paths.len() > 0 && total_bytes(paths) > PROGRESS_RECENT_PATH_BYTES_LIMIT {
        evict_to_byte_bound(paths.drop_first(), ids.drop_first())
    } else {
        (paths, ids)
    }
}

/// The recent-path list and the identities are paired: one identity per
/// path.
pub open spec fn recent_paths_paired(v: ProgressStateView) -> bool {
    v.recent_paths.len() == v.identities.len()
}

/// The recent-path list after recording `path` under `identity`: an earlier
/// record with the same identity moves to the back, the display copy is cut
/// to its byte bound, the oldest record is dropped beyond the count bound,
/// and then the oldest records while the list exceeds its byte bound.
pub open spec fn record_spec(v: ProgressStateView, path: Seq<char>, identity: Seq<u8>) -> ProgressStateView {
    let p = display_path(path);
    let (paths1, ids1) = match first_identity_index(v.identities, identity) {
        Some(i) => (v.recent_paths.remove(i), v.identities.remove(i)),
        None => (v.recent_paths, v.identities),
    };
    let paths2 = paths1.push(p);
    let ids2 = ids1.push(identity);
    let (paths3, ids3) = if paths2.len() > PROGRESS_RECENT_PATH_LIMIT {
        (paths2.drop_first(), ids2.drop_first())
    } else {
        (paths2, ids2)
    };
    let (paths4, ids4) = evict_to_byte_bound(paths3, ids3);
    ProgressStateView { recent_paths: paths4, identities: ids4, current_path: Some(p), ..v }
}

/// The projection after recording the recent paths from position `k` on
/// (each with the identity given at the same position, or its own digest),
/// then the current path.
pub open spec fn record_paths_tail(
    v: ProgressStateView,
    current: Option<Seq<char>>,
    recent: Seq<Seq<char>>,
    ids: Seq<Seq<u8>>,
    k: int,
) -> ProgressStateView
    decreases recent.len() - k,
{
    if k < 0 || k >= recent.len() {
        match current {
            None => v,
            Some(c) => record_spec(v, c, current_identity(c, recent, ids)),
        }
    } else {
        let identity = if k < ids.len() {
            ids[k]
        } else {
            identity_of(recent[k])
        };
        record_paths_tail(record_spec(v, recent[k], identity), current, recent, ids, k + 1)
    }
}

/// Identity of the current path: the identity given for its last occurrence
/// among the recent paths, or its own digest.
pub open spec fn current_identity(c: Seq<char>, recent: Seq<Seq<char>>, ids: Seq<Seq<u8>>) -> Seq<u8> {
    match last_path_index(recent, c) {
        Some(i) => if i < ids.len() {
            ids[i]
        } else {
            identity_of(c)
        },
        None => identity_of(c),
    }
}

pub open spec fn last_path_index(paths: Seq<Seq<char>>, c: Seq<char>) -> Option<int>
    decreases paths.len(),
{
    if paths.len() == 0 {
        None
    } else if paths.last() == c {
        Some(paths.len() - 1)
    } else {
        last_path_index(paths.drop_last(), c)
    }
}

/// The projection after one event; once an outcome is recorded nothing
/// changes.
pub open spec fn apply_spec(v: ProgressStateView, event: JobEvent) -> ProgressStateView {
    if v.outcome is Some {
        v
    } else {
        match event {
            JobEvent::Started { total_bytes, .. } => ProgressStateView { total_bytes, ..v },
            JobEvent::EntryStarted { path, .. } => record_spec(v, path@, identity_of(path@)),
            JobEvent::BytesProcessed {
                path,
                recent_paths,
                recent_path_identities,
                total_bytes_processed,
                total_entries_processed,
                ..
            } => {
                let v1 = ProgressStateView {
                    processed_bytes: if v.processed_bytes >= total_bytes_processed {
                        v.processed_bytes
                    } else {
                        total_bytes_processed
                    },
                    processed_entries: if v.processed_entries >= total_entries_processed {
                        v.processed_entries
                    } else {
                        total_entries_processed
                    },
                    ..v
                };
                record_paths_tail(
                    v1,
                    match path {
                        Some(p) => Some(p@),
                        None => None,
                    },
                    recent_paths@.map_values(|s: String| s@),
                    recent_path_identities@.map_values(|a: ProgressPathIdentity| a@),
                    0,
                )
            },
            JobEvent::PhaseStarted { phase, total_bytes } => ProgressStateView {
                active_phase: Some(phase),
                phase_processed_bytes: 0,
                phase_total_bytes: total_bytes,
                ..v
            },
            JobEvent::PhaseBytesProcessed {
                phase,
                path,
                recent_paths,
                recent_path_identities,
                total_bytes_processed,
                total_bytes,
                ..
            } => {
                let base = if v.active_phase != Some(phase) {
                    0u64
                } else {
                    v.phase_processed_bytes
                };
                let v1 = ProgressStateView {
                    active_phase: Some(phase),
                    phase_processed_bytes: if base >= total_bytes_processed {
                        base
                    } else {
                        total_bytes_processed
                    },
                    phase_total_bytes: total_bytes,
                    ..v
                };
                record_paths_tail(
                    v1,
                    match path {
                        Some(p) => Some(p@),
                        None => None,
                    },
                    recent_paths@.map_values(|s: String| s@),
                    recent_path_identities@.map_values(|a: ProgressPathIdentity| a@),
                    0,
                )
            },
            JobEvent::EntryFinished { path, .. } => {
                let v1 = ProgressStateView {
                    processed_entries: if v.processed_entries == u64::MAX {
                        u64::MAX
                    } else {
                        (v.processed_entries + 1) as u64
                    },
                    ..v
                };
                record_spec(v1, path@, identity_of(path@))
            },
            JobEvent::Warning { .. } => ProgressStateView {
                warning_count: if v.warning_count == u64::MAX {
                    u64::MAX
                } else {
                    (v.warning_count + 1) as u64
                },
                ..v
            },
            JobEvent::Completed { entries, bytes } => ProgressStateView {
                processed_entries: if v.processed_entries >= entries as u64 {
                    v.processed_entries
                } else {
                    entries as u64
                },
                processed_bytes: if v.processed_bytes >= bytes {
                    v.processed_bytes
                } else {
                    bytes
                },
                outcome: Some(JobOutcome::Completed),
                ..v
            },
            JobEvent::Failed { .. } => ProgressStateView { outcome: Some(JobOutcome::Failed), ..v },
            JobEvent::Cancelled { .. } => ProgressStateView { outcome: Some(JobOutcome::Cancelled), ..v },
        }
    }
}

/// The bounds the recent-path list keeps: at most the count bound, each
/// display path within its byte bound, and one identity per path.
pub open spec fn recent_paths_bounded(v: ProgressStateView) -> bool {
    &&& v.recent_paths.len() <= PROGRESS_RECENT_PATH_LIMIT
    &&& v.recent_paths.len() == v.identities.len()
    &&& forall|i: int| 0 <= i < v.recent_paths.len() ==> utf8_len(#[trigger] v.recent_paths[i]) <= PROGRESS_PATH_DISPLAY_BYTES_LIMIT
}

/// Recording paths touches only the path fields of the projection.
pub proof fn lemma_record_paths_keeps_counters(
    v: ProgressStateView,
    current: Option<Seq<char>>,
    recent: Seq<Seq<char>>,
    ids: Seq<Seq<u8>>,
    k: int,
)
    ensures
        ({
            let w = record_paths_tail(v, current, recent, ids, k);
            &&& w.processed_bytes == v.processed_bytes
            &&& w.processed_entries == v.processed_entries
            &&& w.total_bytes == v.total_bytes
            &&& w.phase_processed_bytes == v.phase_processed_bytes
            &&& w.active_phase == v.active_phase
            &&& w.outcome == v.outcome
        }),
    decreases recent.len() - k,
{
    if 0 <= k < recent.len() {
        let identity = if k < ids.len() {
            ids[k]
        } else {
            identity_of(recent[k])
        };
        lemma_record_paths_keeps_counters(record_spec(v, recent[k], identity), current, recent, ids, k + 1);
    }
}

/// Once a terminal outcome is recorded, no later event changes the
/// projection.
pub proof fn lemma_terminal_outcome_is_immutable(v: ProgressStateView, event: JobEvent)
    requires
        v.outcome is Some,
    ensures
        apply_spec(v, event) == v,
{
}

/// The processed byte and entry counts never decrease, and a recorded
/// outcome is never replaced.
pub proof fn lemma_progress_is_monotonic(v: ProgressStateView, event: JobEvent)
    ensures
        apply_spec(v, event).processed_bytes >= v.processed_bytes,
        apply_spec(v, event).processed_entries >= v.processed_entries,
        v.outcome is Some ==> apply_spec(v, event).outcome == v.outcome,
{
    if v.outcome is None {
        match event {
            JobEvent::BytesProcessed { path, recent_paths, recent_path_identities, total_bytes_processed, total_entries_processed, .. } => {
                let v1 = ProgressStateView {
                    processed_bytes: if v.processed_bytes >= total_bytes_processed { v.processed_bytes } else { total_bytes_processed },
                    processed_entries: if v.processed_entries >= total_entries_processed { v.processed_entries } else { total_entries_processed },
                    ..v
                };
                lemma_record_paths_keeps_counters(
                    v1,
                    match path { Some(p) => Some(p@), None => None },
                    recent_paths@.map_values(|s: String| s@),
                    recent_path_identities@.map_values(|a: ProgressPathIdentity| a@),
                    0,
                );
            },
            JobEvent::PhaseBytesProcessed { phase, path, recent_paths, recent_path_identities, total_bytes_processed, total_bytes, .. } => {
                let base = if v.active_phase != Some(phase) { 0u64 } else { v.phase_processed_bytes };
                let v1 = ProgressStateView {
                    active_phase: Some(phase),
                    phase_processed_bytes: if base >= total_bytes_processed { base } else { total_bytes_processed },
                    phase_total_bytes: total_bytes,
                    ..v
                };
                lemma_record_paths_keeps_counters(
                    v1,
                    match path { Some(p) => Some(p@), None => None },
                    recent_paths@.map_values(|s: String| s@),
                    recent_path_identities@.map_values(|a: ProgressPathIdentity| a@),
                    0,
                );
            },
            _ => {},
        }
    }
}

/// Starting a phase resets only the phase-local facts: the job-wide byte and
/// entry counts are kept, and the phase's own byte count restarts at zero.
pub proof fn lemma_phase_start_resets_only_phase_facts(v: ProgressStateView, phase: JobPhase, total: Option<u64>)
    requires
        v.outcome is None,
    ensures
        ({
            let w = apply_spec(v, JobEvent::PhaseStarted { phase, total_bytes: total });
            &&& w.processed_bytes == v.processed_bytes
            &&& w.processed_entries == v.processed_entries
            &&& w.recent_paths == v.recent_paths
            &&& w.phase_processed_bytes == 0
            &&& w.active_phase == Some(phase)
            &&& w.phase_total_bytes == total
        }),
{
}

proof fn lemma_total_bytes_bounded(paths: Seq<Seq<char>>)
    requires
        forall|i: int| 0 <= i < paths.len() ==> utf8_len(#[trigger] paths[i]) <= PROGRESS_PATH_DISPLAY_BYTES_LIMIT,
    ensures
        total_bytes(paths) <= paths.len() * PROGRESS_PATH_DISPLAY_BYTES_LIMIT,
    decreases paths.len(),
{
    if paths.len() > 0 {
        assert forall|i: int| 0 <= i < paths.len() - 1 implies utf8_len(#[trigger] paths.drop_last()[i]) <= PROGRESS_PATH_DISPLAY_BYTES_LIMIT by {
            assert(paths.drop_last()[i] == paths[i]);
        }
        lemma_total_bytes_bounded(paths.drop_last());
        assert(utf8_len(paths[paths.len() - 1]) <= PROGRESS_PATH_DISPLAY_BYTES_LIMIT);
    }
}

/// A bounded recent-path list holds at most the count bound of paths and at
/// most the byte bound of UTF-8 bytes in all.
pub proof fn lemma_recent_paths_within_byte_bound(v: ProgressStateView)
    requires
        recent_paths_bounded(v),
    ensures
        v.recent_paths.len() <= PROGRESS_RECENT_PATH_LIMIT,
        total_bytes(v.recent_paths) <= PROGRESS_RECENT_PATH_BYTES_LIMIT,
{
    lemma_total_bytes_bounded(v.recent_paths);
    assert(v.recent_paths.len() * PROGRESS_PATH_DISPLAY_BYTES_LIMIT <= 10 * 409) by (nonlinear_arith)
        requires
            v.recent_paths.len() <= 10,
    ;
}

/// The projection before any event is bounded.
pub proof fn lemma_initial_projection_is_bounded()
    ensures
        recent_paths_bounded(JobProgressState::initial_view()),
{
}

/// Runtime-neutral projection of the latest raw progress facts.
#[derive(Debug, Clone, PartialEq, Eq)]
pub struct JobProgressState {
    pub processed_bytes: u64,
    pub total_bytes: Option<u64>,
    pub processed_entries: u64,
    pub total_entries: Option<u64>,
    pub current_path: Option<String>,
    pub recent_paths: Vec<String>,
    pub active_phase: Option<JobPhase>,
    pub phase_processed_bytes: u64,
    pub phase_total_bytes: Option<u64>,
    pub warning_count: u64,
    pub outcome: Option<JobOutcome>,
    recent_path_identities: Vec<ProgressPathIdentity>,
}

impl View for JobProgressState {
    type V = ProgressStateView;

    closed spec fn view(&self) -> ProgressStateView {
        ProgressStateView {
            processed_bytes: self.processed_bytes,
            total_bytes: self.total_bytes,
            processed_entries: self.processed_entries,
            total_entries: self.total_entries,
            current_path: match self.current_path {
                Some(p) => Some(p@),
                None => None,
            },
            recent_paths: self.recent_paths@.map_values(|s: String| s@),
            active_phase: self.active_phase,
            phase_processed_bytes: self.phase_processed_bytes,
            phase_total_bytes: self.phase_total_bytes,
            warning_count: self.warning_count,
            outcome: self.outcome,
            identities: self.recent_path_identities@.map_values(|a: ProgressPathIdentity| a@),
        }
    }
}

impl Default for JobProgressState {
    fn default() -> (r: Self)
        ensures
            r@ == JobProgressState::initial_view(),
    {
        let r = JobProgressState {
            processed_bytes: 0,
            total_bytes: None,
            processed_entries: 0,
            total_entries: None,
            current_path: None,
            recent_paths: Vec::new(),
            active_phase: None,
            phase_processed_bytes: 0,
            phase_total_bytes: None,
            warning_count: 0,
            outcome: None,
            recent_path_identities: Vec::new(),
        };
        assert(r@.recent_paths =~= Seq::<Seq<char>>::empty());
        assert(r@.identities =~= Seq::<Seq<u8>>::empty());
        r
    }
}

impl JobProgressState {
    /// The projection before any event.
    pub open spec fn initial_view() -> ProgressStateView {
        ProgressStateView {
            processed_bytes: 0,
            total_bytes: None,
            processed_entries: 0,
            total_entries: None,
            current_path: None,
            recent_paths: Seq::empty(),
            active_phase: None,
            phase_processed_bytes: 0,
            phase_total_bytes: None,
            warning_count: 0,
            outcome: None,
            identities: Seq::empty(),
        }
    }

    /// Applies one semantic event. The first terminal outcome is immutable.
    pub fn apply(&mut self, event: &JobEvent)
        requires
            recent_paths_paired(old(self)@),
        ensures
            final(self)@ == apply_spec(old(self)@, *event),
            recent_paths_paired(final(self)@),
            recent_paths_bounded(old(self)@) ==> recent_paths_bounded(final(self)@),
    {
        proof {
            lemma_apply_keeps_paired(self@, *event);
            if recent_paths_bounded(self@) {
                lemma_apply_keeps_bounded(self@, *event);
            }
        }
        if self.outcome.is_some() {
            return;
        }
        match event {
            JobEvent::Started { total_bytes, .. } => {
                self.total_bytes = *total_bytes;
            },
            JobEvent::EntryStarted { path, .. } => {
                self.record_path(path.as_str());
            },
            JobEvent::BytesProcessed {
                path,
                recent_paths,
                recent_path_identities,
                total_bytes_processed,
                total_entries_processed,
                ..
            } => {
                if self.processed_bytes < *total_bytes_processed {
                    self.processed_bytes = *total_bytes_processed;
                }
                if self.processed_entries < *total_entries_processed {
                    self.processed_entries = *total_entries_processed;
                }
                let current = match path {
                    Some(p) => Some(p.as_str()),
                    None => None,
                };
                self.record_paths(current, recent_paths, recent_path_identities);
            },
            JobEvent::PhaseStarted { phase, total_bytes } => {
                self.active_phase = Some(*phase);
                self.phase_processed_bytes = 0;
                self.phase_total_bytes = *total_bytes;
            },
            JobEvent::PhaseBytesProcessed {
                phase,
                path,
                recent_paths,
                recent_path_identities,
                total_bytes_processed,
                total_bytes,
                ..
            } => {
                let same_phase = match self.active_phase {
                    Some(active) => active == *phase,
                    None => false,
                };
                if !same_phase {
                    self.active_phase = Some(*phase);
                    self.phase_processed_bytes = 0;
                }
                if self.phase_processed_bytes < *total_bytes_processed {
                    self.phase_processed_bytes = *total_bytes_processed;
                }
                self.phase_total_bytes = *total_bytes;
                let current = match path {
                    Some(p) => Some(p.as_str()),
                    None => None,
                };
                self.record_paths(current, recent_paths, recent_path_identities);
            },
            JobEvent::EntryFinished { path, .. } => {
                self.processed_entries = self.processed_entries.saturating_add(1);
                self.record_path(path.as_str());
            },
            JobEvent::Warning { .. } => {
                self.warning_count = self.warning_count.saturating_add(1);
            },
            JobEvent::Completed { entries, bytes } => {
                if self.processed_entries < *entries as u64 {
                    self.processed_entries = *entries as u64;
                }
                if self.processed_bytes < *bytes {
                    self.processed_bytes = *bytes;
                }
                self.outcome = Some(JobOutcome::Completed);
            },
            JobEvent::Failed { .. } => {
                self.outcome = Some(JobOutcome::Failed);
            },
            JobEvent::Cancelled { .. } => {
                self.outcome = Some(JobOutcome::Cancelled);
            },
        }
    }

    fn record_paths(&mut self, current: Option<&str>, recent: &Vec<String>, identities: &Vec<ProgressPathIdentity>)
        requires
            recent_paths_paired(old(self)@),
        ensures
            final(self)@ == record_paths_tail(
                old(self)@,
                match current {
                    Some(c) => Some(c@),
                    None => None,
                },
                recent@.map_values(|s: String| s@),
                identities@.map_values(|a: ProgressPathIdentity| a@),
                0,
            ),
            recent_paths_paired(final(self)@),
    {
        let ghost cur = match current {
            Some(c) => Some(c@),
            None => None,
        };
        let ghost rs = recent@.map_values(|s: String| s@);
        let ghost is = identities@.map_values(|a: ProgressPathIdentity| a@);
        let ghost target = record_paths_tail(old(self)@, cur, rs, is, 0);
        let mut index: usize = 0;
        while index < recent.len()
            invariant
                index <= recent@.len(),
                rs == recent@.map_values(|s: String| s@),
                is == identities@.map_values(|a: ProgressPathIdentity| a@),
                recent_paths_paired(self@),
                record_paths_tail(self@, cur, rs, is, index as int) == target,
            decreases recent@.len() - index,
        {
            let identity = if index < identities.len() {
                identities[index]
            } else {
                path_identity(recent[index].as_str())
            };
            self.record_path_with_identity(recent[index].as_str(), identity);
            index += 1;
        }
        if let Some(path) = current {
            let found = find_last_path(recent, path);
            let identity = match found {
                Some(i) => if i < identities.len() {
                    identities[i]
                } else {
                    path_identity(path)
                },
                None => path_identity(path),
            };
            self.record_path_with_identity(path, identity);
        }
    }

    fn record_path(&mut self, path: &str)
        requires
            recent_paths_paired(old(self)@),
        ensures
            final(self)@ == record_spec(old(self)@, path@, identity_of(path@)),
            recent_paths_paired(final(self)@),
    {
        let identity = path_identity(path);
        self.record_path_with_identity(path, identity);
    }

    fn record_path_with_identity(&mut self, path: &str, identity: ProgressPathIdentity)
        requires
            recent_paths_paired(old(self)@),
        ensures
            final(self)@ == record_spec(old(self)@, path@, identity@),
            recent_paths_paired(final(self)@),
    {
        let ghost v = self@;
        proof {
            lemma_record_keeps_paired(v, path@, identity@);
        }
        let display = truncate_utf8(path, PROGRESS_PATH_DISPLAY_BYTES_LIMIT);
        let found = find_identity(&self.recent_path_identities, &identity);
        proof {
            lemma_first_identity_index(v.identities, identity@);
        }
        let ghost p = display_path(path@);
        let ghost (paths1, ids1) = match first_identity_index(v.identities, identity@) {
            Some(i) => (v.recent_paths.remove(i), v.identities.remove(i)),
            None => (v.recent_paths, v.identities),
        };
        if let Some(index) = found {
            self.recent_paths.remove(index);
            self.recent_path_identities.remove(index);
        }
        assert(self.recent_paths@.map_values(|s: String| s@) =~= paths1);
        assert(self.recent_path_identities@.map_values(|a: ProgressPathIdentity| a@) =~= ids1);
        self.recent_paths.push(display.clone());
        self.recent_path_identities.push(identity);
        assert(self.recent_paths@.map_values(|s: String| s@) =~= paths1.push(p));
        assert(self.recent_path_identities@.map_values(|a: ProgressPathIdentity| a@) =~= ids1.push(identity@));
        if self.recent_paths.len() > PROGRESS_RECENT_PATH_LIMIT {
            self.recent_paths.remove(0);
            self.recent_path_identities.remove(0);
            assert(self.recent_paths@.map_values(|s: String| s@) =~= paths1.push(p).drop_first());
            assert(self.recent_path_identities@.map_values(|a: ProgressPathIdentity| a@) =~= ids1.push(identity@).drop_first());
        }
        let ghost paths3 = self.recent_paths@.map_values(|s: String| s@);
        let ghost ids3 = self.recent_path_identities@.map_values(|a: ProgressPathIdentity| a@);
        let mut over = paths_exceed_byte_bound(&self.recent_paths);
        let ghost pre = self@;
        while over
            invariant
                self@ == (ProgressStateView { recent_paths: self@.recent_paths, identities: self@.identities, ..pre }),
                self.recent_paths@.len() == self.recent_path_identities@.len(),
                over == (total_bytes(self.recent_paths@.map_values(|s: String| s@)) > PROGRESS_RECENT_PATH_BYTES_LIMIT),
                evict_to_byte_bound(
                    self.recent_paths@.map_values(|s: String| s@),
                    self.recent_path_identities@.map_values(|a: ProgressPathIdentity| a@),
                ) == evict_to_byte_bound(paths3, ids3),
            decreases self.recent_paths@.len(),
        {
            let ghost cp = self.recent_paths@.map_values(|s: String| s@);
            let ghost ci = self.recent_path_identities@.map_values(|a: ProgressPathIdentity| a@);
            proof {
                if cp.len() == 0 {
                    assert(total_bytes(cp) == 0);
                }
            }
            self.recent_paths.remove(0);
            self.recent_path_identities.remove(0);
            assert(self.recent_paths@.map_values(|s: String| s@) =~= cp.drop_first());
            assert(self.recent_path_identities@.map_values(|a: ProgressPathIdentity| a@) =~= ci.drop_first());
            over = paths_exceed_byte_bound(&self.recent_paths);
        }
        proof {
            let cp = self.recent_paths@.map_values(|s: String| s@);
            let ci = self.recent_path_identities@.map_values(|a: ProgressPathIdentity| a@);
            assert(evict_to_byte_bound(cp, ci) == (cp, ci));
        }
        self.current_path = Some(display);
    }
}

/// Whether the paths hold more than the byte bound of UTF-8 bytes in all.
fn paths_exceed_byte_bound(paths: &Vec<String>) -> (r: bool)
    ensures
        r == (total_bytes(paths@.map_values(|s: String| s@)) > PROGRESS_RECENT_PATH_BYTES_LIMIT),
{
    let ghost ps = paths@.map_values(|s: String| s@);
    let mut acc: usize = 0;
    let mut i: usize = 0;
    while i < paths.len()
        invariant
            i <= paths@.len(),
            ps == paths@.map_values(|s: String| s@),
            acc == total_bytes(ps.take(i as int)),
            acc <= PROGRESS_RECENT_PATH_BYTES_LIMIT,
        decreases paths@.len() - i,
    {
        let chars = chars_of(paths[i].as_str());
        assert(chars@ == ps[i as int]);
        let mut k: usize = 0;
        while k < chars.len()
            invariant
                k <= chars@.len(),
                i < ps.len(),
                ps == paths@.map_values(|s: String| s@),
                chars@ == ps[i as int],
                acc == total_bytes(ps.take(i as int)) + utf8_len(chars@.take(k as int)),
                acc <= PROGRESS_RECENT_PATH_BYTES_LIMIT,
            decreases chars@.len() - k,
        {
            proof {
                lemma_utf8_len_take(chars@, k as int);
            }
            acc = acc + char_byte_width(chars[k]);
            if acc > PROGRESS_RECENT_PATH_BYTES_LIMIT {
                proof {
                    lemma_utf8_len_monotone(chars@, k + 1, chars@.len() as int);
                    assert(chars@.take(chars@.len() as int) =~= chars@);
                    assert(utf8_len(chars@) >= utf8_len(chars@.take(k + 1)));
                    let t = ps.take(i as int + 1);
                    assert(t.drop_last() =~= ps.take(i as int));
                    assert(t.last() == ps[i as int]);
                    assert(total_bytes(t) == total_bytes(ps.take(i as int)) + utf8_len(ps[i as int]));
                    lemma_total_bytes_prefix_monotone(ps, i as int + 1, ps.len() as int);
                    assert(ps.take(ps.len() as int) =~= ps);
                }
                return true;
            }
            k += 1;
        }
        proof {
            assert(chars@.take(chars@.len() as int) =~= chars@);
            let t = ps.take(i as int + 1);
            assert(t.drop_last() =~= ps.take(i as int));
            assert(t.last() == ps[i as int]);
        }
        i += 1;
    }
    proof {
        assert(ps.take(ps.len() as int) =~= ps);
    }
    false
}

/// The total of a prefix never exceeds that of a longer prefix.
proof fn lemma_total_bytes_prefix_monotone(ps: Seq<Seq<char>>, a: int, b: int)
    requires
        0 <= a <= b <= ps.len(),
    ensures
        total_bytes(ps.take(a)) <= total_bytes(ps.take(b)),
    decreases b - a,
{
    if a < b {
        lemma_total_bytes_prefix_monotone(ps, a, b - 1);
        assert(ps.take(b).drop_last() =~= ps.take(b - 1));
    }
}

proof fn lemma_first_identity_index(ids: Seq<Seq<u8>>, identity: Seq<u8>)
    ensures
        match first_identity_index(ids, identity) {
            Some(i) => 0 <= i < ids.len() && ids[i] == identity && forall|j: int| 0 <= j < i ==> ids[j] != identity,
            None => forall|j: int| 0 <= j < ids.len() ==> ids[j] != identity,
        },
    decreases ids.len(),
{
    if ids.len() > 0 && ids[0] != identity {
        lemma_first_identity_index(ids.drop_first(), identity);
        assert forall|j: int| 1 <= j < ids.len() implies ids[j] == ids.drop_first()[j - 1] by {}
    }
}

proof fn lemma_last_path_index(paths: Seq<Seq<char>>, c: Seq<char>)
    ensures
        match last_path_index(paths, c) {
            Some(i) => 0 <= i < paths.len() && paths[i] == c && forall|j: int| i < j < paths.len() ==> paths[j] != c,
            None => forall|j: int| 0 <= j < paths.len() ==> paths[j] != c,
        },
    decreases paths.len(),
{
    if paths.len() > 0 && paths.last() != c {
        lemma_last_path_index(paths.drop_last(), c);
        assert forall|j: int| 0 <= j < paths.len() - 1 implies paths[j] == paths.drop_last()[j] by {}
    }
}

/// Position of the first recorded identity equal to `identity`.
fn find_identity(ids: &Vec<ProgressPathIdentity>, identity: &ProgressPathIdentity) -> (r: Option<usize>)
    ensures
        match r {
            Some(i) => first_identity_index(ids@.map_values(|a: ProgressPathIdentity| a@), identity@) == Some(i as int),
            None => first_identity_index(ids@.map_values(|a: ProgressPathIdentity| a@), identity@) is None,
        },
{
    let ghost s = ids@.map_values(|a: ProgressPathIdentity| a@);
    proof {
        lemma_first_identity_index(s, identity@);
    }
    let mut i: usize = 0;
    while i < ids.len()
        invariant
            i <= ids@.len(),
            s == ids@.map_values(|a: ProgressPathIdentity| a@),
            forall|j: int| 0 <= j < i ==> s[j] != identity@,
        decreases ids@.len() - i,
    {
        if arrays_equal(&ids[i], identity) {
            proof {
                lemma_first_identity_index(s, identity@);
                assert(s[i as int] == identity@);
                match first_identity_index(s, identity@) {
                    Some(k) => {
                        if k < i {
                            assert(s[k] != identity@);
                        } else if k > i {
                            assert(s[i as int] != identity@);
                        }
                    },
                    None => {
                        assert(s[i as int] != identity@);
                    },
                }
            }
            return Some(i);
        }
        i += 1;
    }
    proof {
        lemma_first_identity_index(s, identity@);
        match first_identity_index(s, identity@) {
            Some(k) => {
                assert(s[k] != identity@);
            },
            None => {},
        }
    }
    None
}

/// Position of the last recent path equal to `path`.
fn find_last_path(recent: &Vec<String>, path: &str) -> (r: Option<usize>)
    ensures
        match r {
            Some(i) => last_path_index(recent@.map_values(|s: String| s@), path@) == Some(i as int),
            None => last_path_index(recent@.map_values(|s: String| s@), path@) is None,
        },
{
    let ghost s = recent@.map_values(|s: String| s@);
    let mut k = recent.len();
    while k > 0
        invariant
            k <= recent@.len(),
            s == recent@.map_values(|s: String| s@),
            forall|j: int| k <= j < recent@.len() ==> s[j] != path@,
        decreases k,
    {
        if crate::text::str_eq(recent[k - 1].as_str(), path) {
            proof {
                lemma_last_path_index(s, path@);
                assert(s[k - 1] == path@);
                match last_path_index(s, path@) {
                    Some(m) => {
                        if m < k - 1 {
                            assert(s[k - 1] != path@);
                        } else if m > k - 1 {
                            assert(s[m] != path@);
                        }
                    },
                    None => {
                        assert(s[k - 1] != path@);
                    },
                }
            }
            return Some(k - 1);
        }
        k -= 1;
    }
    proof {
        lemma_last_path_index(s, path@);
        match last_path_index(s, path@) {
            Some(m) => {
                assert(s[m] != path@);
            },
            None => {},
        }
    }
    None
}

/// Whether two path identities are equal.
fn arrays_equal(a: &ProgressPathIdentity, b: &ProgressPathIdentity) -> (r: bool)
    ensures
        r == (a@ == b@),
{
    let mut i: usize = 0;
    while i < 32
        invariant
            i <= 32,
            a@.len() == 32,
            b@.len() == 32,
            forall|j: int| 0 <= j < i ==> a@[j] == b@[j],
        decreases 32 - i,
    {
        if a[i] != b[i] {
            return false;
        }
        i += 1;
    }
    assert(a@ =~= b@);
    true
}

} // verus!

verus! {

/// The bounds a recent-path list and its identities keep.
pub open spec fn recent_lists_bounded(paths: Seq<Seq<char>>, ids: Seq<Seq<u8>>) -> bool {
    &&& paths.len() <= PROGRESS_RECENT_PATH_LIMIT
    &&& paths.len() == ids.len()
    &&& forall|i: int| 0 <= i < paths.len() ==> utf8_len(#[trigger] paths[i]) <= PROGRESS_PATH_DISPLAY_BYTES_LIMIT
}

/// The coalescer's recent-path list after activity on `path`: unchanged when
/// the newest record already has its identity; otherwise an earlier record
/// with that identity moves to the back (as its display copy), and the oldest
/// record is dropped beyond the count bound.
pub open spec fn coalesce_recent(paths: Seq<Seq<char>>, ids: Seq<Seq<u8>>, path: Seq<char>) -> (Seq<Seq<char>>, Seq<Seq<u8>>) {
    let id = identity_of(path);
    let d = display_path(path);
    if ids.len() > 0 && ids.last() == id {
        (paths, ids)
    } else {
        let (p1, i1) = match first_identity_index(ids, id) {
            Some(i) => (paths.remove(i), ids.remove(i)),
            None => (paths, ids),
        };
        let p2 = p1.push(d);
        let i2 = i1.push(id);
        if p2.len() > PROGRESS_RECENT_PATH_LIMIT {
            (p2.drop_first(), i2.drop_first())
        } else {
            (p2, i2)
        }
    }
}

/// Abstract value of a [`ProgressCoalescer`].
pub struct CoalescerView {
    pub total_bytes: Option<u64>,
    pub pending_bytes: u64,
    pub pending_entries: u64,
    pub latest_path: Option<Seq<char>>,
    pub recent_paths: Seq<Seq<char>>,
    pub recent_ids: Seq<Seq<u8>>,
    pub last_emitted_millis: u64,
    pub emitted_once: bool,
    pub truncated: bool,
}

/// Abstract value of a [`ProgressBatch`].
pub struct BatchView {
    pub path: Option<Seq<char>>,
    pub recent_paths: Seq<Seq<char>>,
    pub recent_ids: Seq<Seq<u8>>,
    pub bytes: u64,
    pub entries: u64,
    pub truncated: bool,
}

/// A fresh coalescer whose interval clock starts at `now`.
pub open spec fn coalescer_at(total_bytes: Option<u64>, now: u64) -> CoalescerView {
    CoalescerView {
        total_bytes,
        pending_bytes: 0,
        pending_entries: 0,
        latest_path: None,
        recent_paths: Seq::empty(),
        recent_ids: Seq::empty(),
        last_emitted_millis: now,
        emitted_once: false,
        truncated: false,
    }
}

pub open spec fn sat_add(a: u64, b: u64) -> u64 {
    if a + b > u64::MAX {
        u64::MAX
    } else {
        (a + b) as u64
    }
}

/// The pending state after activity of `bytes` and `entries` on `path`.
pub open spec fn note_activity(v: CoalescerView, path: Option<Seq<char>>, bytes: u64, entries: u64) -> CoalescerView {
    let w = CoalescerView {
        pending_bytes: sat_add(v.pending_bytes, bytes),
        pending_entries: sat_add(v.pending_entries, entries),
        ..v
    };
    match path {
        None => w,
        Some(p) => {
            let (paths, ids) = coalesce_recent(w.recent_paths, w.recent_ids, p);
            CoalescerView {
                truncated: w.truncated || display_path(p) != p,
                latest_path: Some(display_path(p)),
                recent_paths: paths,
                recent_ids: ids,
                ..w
            }
        },
    }
}

/// The byte threshold: the larger of the minimum step and one percent
/// (rounded up) of the known total.
pub open spec fn byte_step(total_bytes: Option<u64>) -> int {
    let t: u64 = match total_bytes {
        Some(t) => t,
        None => 0,
    };
    let one_percent = t / 100 + if t % 100 == 0 {
        0int
    } else {
        1int
    };
    if one_percent > PROGRESS_MIN_BYTE_STEP {
        one_percent
    } else {
        PROGRESS_MIN_BYTE_STEP as int
    }
}

/// Whether pending activity is flushed at `now`: before the first batch,
/// once the byte or entry threshold is reached, or once the interval has
/// passed since the last batch.
pub open spec fn flush_due(v: CoalescerView, now: u64) -> bool {
    ||| !v.emitted_once
    ||| v.pending_bytes >= byte_step(v.total_bytes)
    ||| v.pending_entries >= PROGRESS_ENTRY_STEP
    ||| (now >= v.last_emitted_millis && now - v.last_emitted_millis >= PROGRESS_INTERVAL_MILLIS)
}

/// Hands out all pending activity as one batch, if there is any.
pub open spec fn flush_spec(v: CoalescerView, now: u64) -> (CoalescerView, Option<BatchView>) {
    if v.pending_bytes == 0 && v.pending_entries == 0 {
        (v, None)
    } else {
        (
            CoalescerView {
                pending_bytes: 0,
                pending_entries: 0,
                latest_path: None,
                recent_paths: Seq::empty(),
                recent_ids: Seq::empty(),
                last_emitted_millis: now,
                emitted_once: true,
                truncated: false,
                ..v
            },
            Some(
                BatchView {
                    path: v.latest_path,
                    recent_paths: v.recent_paths,
                    recent_ids: v.recent_ids,
                    bytes: v.pending_bytes,
                    entries: v.pending_entries,
                    truncated: v.truncated,
                },
            ),
        )
    }
}

/// Records activity at `now`; no activity changes nothing.
pub open spec fn record_activity_spec(
    v: CoalescerView,
    path: Option<Seq<char>>,
    bytes: u64,
    entries: u64,
    now: u64,
) -> (CoalescerView, Option<BatchView>) {
    if bytes == 0 && entries == 0 {
        (v, None)
    } else {
        let w = note_activity(v, path, bytes, entries);
        if flush_due(w, now) {
            flush_spec(w, now)
        } else {
            (w, None)
        }
    }
}

pub open spec fn coalescer_bounded(v: CoalescerView) -> bool {
    recent_lists_bounded(v.recent_paths, v.recent_ids)
}

/// One coalesced report of byte and entry activity.
pub struct ProgressBatch {
    pub path: Option<String>,
    pub recent_paths: Vec<String>,
    pub recent_path_identities: Vec<ProgressPathIdentity>,
    pub bytes: u64,
    pub entries: u64,
    pub recent_paths_truncated: bool,
}

impl View for ProgressBatch {
    type V = BatchView;

    open spec fn view(&self) -> BatchView {
        BatchView {
            path: match self.path {
                Some(p) => Some(p@),
                None => None,
            },
            recent_paths: self.recent_paths@.map_values(|s: String| s@),
            recent_ids: self.recent_path_identities@.map_values(|a: ProgressPathIdentity| a@),
            bytes: self.bytes,
            entries: self.entries,
            truncated: self.recent_paths_truncated,
        }
    }
}

/// Batches byte and entry activity so event sinks are not flooded. Time is
/// given in milliseconds on a monotonic clock of the caller's choosing.
pub struct ProgressCoalescer {
    total_bytes: Option<u64>,
    pending_bytes: u64,
    pending_entries: u64,
    latest_path: Option<String>,
    recent_paths: Vec<String>,
    recent_path_identities: Vec<ProgressPathIdentity>,
    last_emitted_millis: u64,
    emitted_once: bool,
    recent_paths_truncated: bool,
}

impl View for ProgressCoalescer {
    type V = CoalescerView;

    closed spec fn view(&self) -> CoalescerView {
        CoalescerView {
            total_bytes: self.total_bytes,
            pending_bytes: self.pending_bytes,
            pending_entries: self.pending_entries,
            latest_path: match self.latest_path {
                Some(p) => Some(p@),
                None => None,
            },
            recent_paths: self.recent_paths@.map_values(|s: String| s@),
            recent_ids: self.recent_path_identities@.map_values(|a: ProgressPathIdentity| a@),
            last_emitted_millis: self.last_emitted_millis,
            emitted_once: self.emitted_once,
            truncated: self.recent_paths_truncated,
        }
    }
}

/// Applies [`coalesce_recent`] to a pair of lists.
fn coalesce_recent_into(paths: &mut Vec<String>, ids: &mut Vec<ProgressPathIdentity>, path: &str)
    requires
        recent_lists_bounded(
            old(paths)@.map_values(|s: String| s@),
            old(ids)@.map_values(|a: ProgressPathIdentity| a@),
        ),
    ensures
        (final(paths)@.map_values(|s: String| s@), final(ids)@.map_values(|a: ProgressPathIdentity| a@))
            == coalesce_recent(
            old(paths)@.map_values(|s: String| s@),
            old(ids)@.map_values(|a: ProgressPathIdentity| a@),
            path@,
        ),
        recent_lists_bounded(
            final(paths)@.map_values(|s: String| s@),
            final(ids)@.map_values(|a: ProgressPathIdentity| a@),
        ),
{
    let ghost ps = paths@.map_values(|s: String| s@);
    let ghost is = ids@.map_values(|a: ProgressPathIdentity| a@);
    let identity = path_identity(path);
    let n = ids.len();
    if n > 0 && arrays_equal(&ids[n - 1], &identity) {
        assert(is.last() == identity@);
        return;
    }
    let display = truncate_utf8(path, PROGRESS_PATH_DISPLAY_BYTES_LIMIT);
    let ghost p = display_path(path@);
    let found = find_identity(ids, &identity);
    proof {
        lemma_first_identity_index(is, identity@);
    }
    let ghost (paths1, ids1) = match first_identity_index(is, identity@) {
        Some(i) => (ps.remove(i), is.remove(i)),
        None => (ps, is),
    };
    if let Some(index) = found {
        paths.remove(index);
        ids.remove(index);
    }
    assert(paths@.map_values(|s: String| s@) =~= paths1);
    assert(ids@.map_values(|a: ProgressPathIdentity| a@) =~= ids1);
    paths.push(display);
    ids.push(identity);
    assert(paths@.map_values(|s: String| s@) =~= paths1.push(p));
    assert(ids@.map_values(|a: ProgressPathIdentity| a@) =~= ids1.push(identity@));
    if paths.len() > PROGRESS_RECENT_PATH_LIMIT {
        paths.remove(0);
        ids.remove(0);
        assert(paths@.map_values(|s: String| s@) =~= paths1.push(p).drop_first());
        assert(ids@.map_values(|a: ProgressPathIdentity| a@) =~= ids1.push(identity@).drop_first());
    }
    proof {
        let np = paths@.map_values(|s: String| s@);
        assert forall|j: int| 0 <= j < np.len() implies utf8_len(#[trigger] np[j]) <= PROGRESS_PATH_DISPLAY_BYTES_LIMIT by {
            if np[j] != p {
                match first_identity_index(is, identity@) {
                    Some(i) => {
                        let q = paths1.push(p);
                        if np == q {
                            assert(q[j] == ps[if j < i { j } else { j + 1 }]);
                        } else {
                            let jj = j + 1;
                            assert(np[j] == q[jj]);
                            assert(q[jj] == ps[if jj < i { jj } else { jj + 1 }]);
                        }
                    },
                    None => {
                        let q = paths1.push(p);
                        if np == q {
                            assert(q[j] == ps[j]);
                        } else {
                            assert(np[j] == q[j + 1]);
                            assert(q[j + 1] == ps[j + 1]);
                        }
                    },
                }
            }
        }
    }
}

impl ProgressCoalescer {
    /// A coalescer for a job of `total_bytes` (when known), whose interval
    /// clock starts at `now_millis`.
    pub fn new_at(total_bytes: Option<u64>, now_millis: u64) -> (r: Self)
        ensures
            r@ == coalescer_at(total_bytes, now_millis),
            coalescer_bounded(r@),
    {
        let r = ProgressCoalescer {
            total_bytes,
            pending_bytes: 0,
            pending_entries: 0,
            latest_path: None,
            recent_paths: Vec::new(),
            recent_path_identities: Vec::new(),
            last_emitted_millis: now_millis,
            emitted_once: false,
            recent_paths_truncated: false,
        };
        assert(r@.recent_paths =~= Seq::<Seq<char>>::empty());
        assert(r@.recent_ids =~= Seq::<Seq<u8>>::empty());
        r
    }

    /// Starts over for a new job of `total_bytes`, dropping pending activity.
    pub fn reset_at(&mut self, total_bytes: Option<u64>, now_millis: u64)
        ensures
            final(self)@ == coalescer_at(total_bytes, now_millis),
            coalescer_bounded(final(self)@),
    {
        *self = ProgressCoalescer::new_at(total_bytes, now_millis);
    }

    /// Records byte activity on `path` at `now_millis`.
    pub fn record_at(&mut self, path: Option<&str>, bytes: u64, now_millis: u64) -> (r: Option<ProgressBatch>)
        requires
            coalescer_bounded(old(self)@),
        ensures
            (final(self)@, match r {
                Some(b) => Some(b@),
                None => None,
            }) == record_activity_spec(
                old(self)@,
                match path {
                    Some(p) => Some(p@),
                    None => None,
                },
                bytes,
                0,
                now_millis,
            ),
            coalescer_bounded(final(self)@),
    {
        self.record_activity_at(path, bytes, 0, now_millis)
    }

    /// Records byte and entry activity on `path` at `now_millis`, and hands
    /// out a batch when a threshold is reached.
    pub fn record_activity_at(&mut self, path: Option<&str>, bytes: u64, entries: u64, now_millis: u64) -> (r: Option<
        ProgressBatch,
    >)
        requires
            coalescer_bounded(old(self)@),
        ensures
            (final(self)@, match r {
                Some(b) => Some(b@),
                None => None,
            }) == record_activity_spec(
                old(self)@,
                match path {
                    Some(p) => Some(p@),
                    None => None,
                },
                bytes,
                entries,
                now_millis,
            ),
            coalescer_bounded(final(self)@),
    {
        if bytes == 0 && entries == 0 {
            return None;
        }
        self.pending_bytes = self.pending_bytes.saturating_add(bytes);
        self.pending_entries = self.pending_entries.saturating_add(entries);
        if let Some(path) = path {
            let display = truncate_utf8(path, PROGRESS_PATH_DISPLAY_BYTES_LIMIT);
            if !crate::text::str_eq(display.as_str(), path) {
                self.recent_paths_truncated = true;
            }
            self.latest_path = Some(display);
            coalesce_recent_into(&mut self.recent_paths, &mut self.recent_path_identities, path);
        }
        let t: u64 = match self.total_bytes {
            Some(t) => t,
            None => 0,
        };
        let one_percent: u64 = t / 100 + if t % 100 == 0 {
            0
        } else {
            1
        };
        let step: u64 = if one_percent > PROGRESS_MIN_BYTE_STEP {
            one_percent
        } else {
            PROGRESS_MIN_BYTE_STEP
        };
        if !self.emitted_once || self.pending_bytes >= step || self.pending_entries >= PROGRESS_ENTRY_STEP || (
        now_millis >= self.last_emitted_millis && now_millis - self.last_emitted_millis >= PROGRESS_INTERVAL_MILLIS) {
            self.flush_at(now_millis)
        } else {
            None
        }
    }

    /// Hands out all pending activity as one batch at `now_millis`.
    pub fn flush_at(&mut self, now_millis: u64) -> (r: Option<ProgressBatch>)
        ensures
            (final(self)@, match r {
                Some(b) => Some(b@),
                None => None,
            }) == flush_spec(old(self)@, now_millis),
            coalescer_bounded(old(self)@) ==> coalescer_bounded(final(self)@),
    {
        if self.pending_bytes == 0 && self.pending_entries == 0 {
            return None;
        }
        self.emitted_once = true;
        self.last_emitted_millis = now_millis;
        let path = self.latest_path.take();
        let mut paths: Vec<String> = Vec::new();
        let mut ids: Vec<ProgressPathIdentity> = Vec::new();
        std::mem::swap(&mut paths, &mut self.recent_paths);
        std::mem::swap(&mut ids, &mut self.recent_path_identities);
        let batch = ProgressBatch {
            path,
            recent_paths: paths,
            recent_path_identities: ids,
            bytes: self.pending_bytes,
            entries: self.pending_entries,
            recent_paths_truncated: self.recent_paths_truncated,
        };
        self.pending_bytes = 0;
        self.pending_entries = 0;
        self.recent_paths_truncated = false;
        assert(self@.recent_paths =~= Seq::<Seq<char>>::empty());
        assert(self@.recent_ids =~= Seq::<Seq<u8>>::empty());
        Some(batch)
    }

    /// Whether activity is waiting for the next batch.
    pub fn has_pending(&self) -> (r: bool)
        ensures
            r == (self@.pending_bytes > 0 || self@.pending_entries > 0),
    {
        self.pending_bytes > 0 || self.pending_entries > 0
    }
}

/// Every batch the coalescer hands out reports some activity, and what it
/// reports is exactly what was pending: nothing is reported twice or lost.
pub proof fn lemma_batches_carry_all_pending_activity(v: CoalescerView, now: u64)
    ensures
        ({
            let (w, b) = flush_spec(v, now);
            match b {
                Some(batch) => {
                    &&& batch.bytes > 0 || batch.entries > 0
                    &&& batch.bytes == v.pending_bytes
                    &&& batch.entries == v.pending_entries
                    &&& w.pending_bytes == 0
                    &&& w.pending_entries == 0
                },
                None => w == v && v.pending_bytes == 0 && v.pending_entries == 0,
            }
        }),
{
}

/// The first activity of a job is reported at once.
pub proof fn lemma_first_activity_is_reported(v: CoalescerView, path: Option<Seq<char>>, bytes: u64, entries: u64, now: u64)
    requires
        !v.emitted_once,
        bytes > 0 || entries > 0,
    ensures
        record_activity_spec(v, path, bytes, entries, now).1 is Some,
{
}

/// Activity below every threshold stays pending, accumulated with what was
/// pending before (short of the saturation bound).
pub proof fn lemma_quiet_activity_accumulates(v: CoalescerView, path: Option<Seq<char>>, bytes: u64, entries: u64, now: u64)
    requires
        bytes > 0 || entries > 0,
        !flush_due(note_activity(v, path, bytes, entries), now),
        v.pending_bytes + bytes <= u64::MAX,
        v.pending_entries + entries <= u64::MAX,
    ensures
        ({
            let (w, b) = record_activity_spec(v, path, bytes, entries, now);
            &&& b is None
            &&& w.pending_bytes == v.pending_bytes + bytes
            &&& w.pending_entries == v.pending_entries + entries
        }),
{
}

} // verus!

verus! {

/// One piece of recorded activity: its path, bytes, entries and the time
/// it was recorded at.
pub type Activity = (Option<Seq<char>>, u64, u64, u64);

/// Recording `acts` in order on a coalescer holding `v`: the final state,
/// and the bytes and entries of all batches handed out on the way.
pub open spec fn run_activity(v: CoalescerView, acts: Seq<Activity>) -> (CoalescerView, int, int)
    decreases acts.len(),
{
    if acts.len() == 0 {
        (v, 0, 0)
    } else {
        let (w, bytes, entries) = run_activity(v, acts.drop_last());
        let a = acts.last();
        let (w2, batch) = record_activity_spec(w, a.0, a.1, a.2, a.3);
        match batch {
            Some(b) => (w2, bytes + b.bytes, entries + b.entries),
            None => (w2, bytes, entries),
        }
    }
}

/// The bytes of all the activity in `acts`.
pub open spec fn activity_bytes(acts: Seq<Activity>) -> int
    decreases acts.len(),
{
    if acts.len() == 0 {
        0
    } else {
        activity_bytes(acts.drop_last()) + acts.last().1
    }
}

/// The entries of all the activity in `acts`.
pub open spec fn activity_entries(acts: Seq<Activity>) -> int
    decreases acts.len(),
{
    if acts.len() == 0 {
        0
    } else {
        activity_entries(acts.drop_last()) + acts.last().2
    }
}

/// No activity is lost to coalescing: over any run of recordings, the
/// batches handed out and what is still pending together hold exactly the
/// pending activity before plus the activity recorded, as long as the
/// counters never reach their saturation bound.
pub proof fn lemma_no_activity_lost(v: CoalescerView, acts: Seq<Activity>)
    requires
        v.pending_bytes + activity_bytes(acts) <= u64::MAX,
        v.pending_entries + activity_entries(acts) <= u64::MAX,
    ensures
        run_activity(v, acts).1 + run_activity(v, acts).0.pending_bytes == v.pending_bytes + activity_bytes(acts),
        run_activity(v, acts).2 + run_activity(v, acts).0.pending_entries == v.pending_entries + activity_entries(acts),
    decreases acts.len(),
{
    if acts.len() > 0 {
        let a = acts.last();
        assert(activity_bytes(acts) == activity_bytes(acts.drop_last()) + a.1);
        assert(activity_entries(acts) == activity_entries(acts.drop_last()) + a.2);
        lemma_no_activity_lost(v, acts.drop_last());
        let (w, bytes, entries) = run_activity(v, acts.drop_last());
        assert(bytes >= 0 && entries >= 0) by {
            lemma_run_reports_nonnegative(v, acts.drop_last());
        }
        assert(w.pending_bytes + a.1 <= u64::MAX);
        assert(w.pending_entries + a.2 <= u64::MAX);
    }
}

proof fn lemma_run_reports_nonnegative(v: CoalescerView, acts: Seq<Activity>)
    ensures
        run_activity(v, acts).1 >= 0,
        run_activity(v, acts).2 >= 0,
    decreases acts.len(),
{
    if acts.len() > 0 {
        lemma_run_reports_nonnegative(v, acts.drop_last());
    }
}

/// The projection after the events `events`, applied in order.
pub open spec fn apply_all(v: ProgressStateView, events: Seq<JobEvent>) -> ProgressStateView
    decreases events.len(),
{
    if events.len() == 0 {
        v
    } else {
        apply_spec(apply_all(v, events.drop_last()), events.last())
    }
}

/// Over any run of events the processed byte and entry counts never
/// decrease, and a projection that holds an outcome stays as it is.
pub proof fn lemma_progress_monotonic_over_events(v: ProgressStateView, events: Seq<JobEvent>)
    ensures
        apply_all(v, events).processed_bytes >= v.processed_bytes,
        apply_all(v, events).processed_entries >= v.processed_entries,
        v.outcome is Some ==> apply_all(v, events) == v,
        v.outcome is Some ==> apply_all(v, events).outcome == v.outcome,
    decreases events.len(),
{
    if events.len() > 0 {
        lemma_progress_monotonic_over_events(v, events.drop_last());
        let w = apply_all(v, events.drop_last());
        lemma_progress_is_monotonic(w, events.last());
        if v.outcome is Some {
            lemma_terminal_outcome_is_immutable(w, events.last());
        }
    }
}

/// Whether `event` leaves the running total of phase `p` running: it
/// neither starts a phase nor reports bytes of another phase.
pub open spec fn keeps_phase(event: JobEvent, p: JobPhase) -> bool {
    match event {
        JobEvent::PhaseStarted { .. } => false,
        JobEvent::PhaseBytesProcessed { phase, .. } => phase == p,
        _ => true,
    }
}

/// Per-phase running totals: while the events keep phase `p` running, it
/// stays the active phase and its processed byte count never decreases.
pub proof fn lemma_phase_total_runs(v: ProgressStateView, events: Seq<JobEvent>, p: JobPhase)
    requires
        v.active_phase == Some(p),
        forall|i: int| 0 <= i < events.len() ==> keeps_phase(#[trigger] events[i], p),
    ensures
        apply_all(v, events).active_phase == Some(p),
        apply_all(v, events).phase_processed_bytes >= v.phase_processed_bytes,
    decreases events.len(),
{
    if events.len() > 0 {
        assert forall|i: int| 0 <= i < events.drop_last().len() implies keeps_phase(#[trigger] events.drop_last()[i], p) by {
            assert(events.drop_last()[i] == events[i]);
        }
        lemma_phase_total_runs(v, events.drop_last(), p);
        let w = apply_all(v, events.drop_last());
        let e = events.last();
        assert(keeps_phase(events[events.len() - 1], p));
        if w.outcome is None {
            match e {
                JobEvent::BytesProcessed { path, recent_paths, recent_path_identities, total_bytes_processed, total_entries_processed, .. } => {
                    let v1 = ProgressStateView {
                        processed_bytes: if w.processed_bytes >= total_bytes_processed { w.processed_bytes } else { total_bytes_processed },
                        processed_entries: if w.processed_entries >= total_entries_processed { w.processed_entries } else { total_entries_processed },
                        ..w
                    };
                    lemma_record_paths_keeps_counters(
                        v1,
                        match path { Some(q) => Some(q@), None => None },
                        recent_paths@.map_values(|s: String| s@),
                        recent_path_identities@.map_values(|a: ProgressPathIdentity| a@),
                        0,
                    );
                },
                JobEvent::PhaseBytesProcessed { phase, path, recent_paths, recent_path_identities, total_bytes_processed, total_bytes, .. } => {
                    let base = if w.active_phase != Some(phase) { 0u64 } else { w.phase_processed_bytes };
                    let v1 = ProgressStateView {
                        active_phase: Some(phase),
                        phase_processed_bytes: if base >= total_bytes_processed { base } else { total_bytes_processed },
                        phase_total_bytes: total_bytes,
                        ..w
                    };
                    lemma_record_paths_keeps_counters(
                        v1,
                        match path { Some(q) => Some(q@), None => None },
                        recent_paths@.map_values(|s: String| s@),
                        recent_path_identities@.map_values(|a: ProgressPathIdentity| a@),
                        0,
                    );
                },
                _ => {},
            }
        }
    }
}


/// A display path fits its byte bound.
proof fn lemma_display_path_bounded(path: Seq<char>)
    ensures
        utf8_len(display_path(path)) <= PROGRESS_PATH_DISPLAY_BYTES_LIMIT,
{
    lemma_prefix_within_bounded(path, PROGRESS_PATH_DISPLAY_BYTES_LIMIT as nat);
}

proof fn lemma_prefix_within_bounded(s: Seq<char>, limit: nat)
    ensures
        utf8_len(prefix_within(s, limit)) <= limit,
    decreases s.len(),
{
    if !(utf8_len(s) <= limit || s.len() == 0) {
        lemma_prefix_within_bounded(s.drop_last(), limit);
    }
}

/// Recording one path keeps the recent-path list within its bounds.
pub proof fn lemma_record_keeps_bounded(v: ProgressStateView, path: Seq<char>, identity: Seq<u8>)
    requires
        recent_paths_bounded(v),
    ensures
        recent_paths_bounded(record_spec(v, path, identity)),
{
    let p = display_path(path);
    lemma_display_path_bounded(path);
    lemma_first_identity_index(v.identities, identity);
    let (paths1, ids1) = match first_identity_index(v.identities, identity) {
        Some(i) => (v.recent_paths.remove(i), v.identities.remove(i)),
        None => (v.recent_paths, v.identities),
    };
    assert(paths1.len() == ids1.len() && paths1.len() <= PROGRESS_RECENT_PATH_LIMIT);
    assert forall|j: int| 0 <= j < paths1.len() implies utf8_len(#[trigger] paths1[j]) <= PROGRESS_PATH_DISPLAY_BYTES_LIMIT by {
        match first_identity_index(v.identities, identity) {
            Some(i) => {
                assert(paths1[j] == v.recent_paths[if j < i { j } else { j + 1 }]);
            },
            None => {},
        }
    }
    let paths2 = paths1.push(p);
    assert forall|j: int| 0 <= j < paths2.len() implies utf8_len(#[trigger] paths2[j]) <= PROGRESS_PATH_DISPLAY_BYTES_LIMIT by {
        if j < paths1.len() {
            assert(paths2[j] == paths1[j]);
        }
    }
    let ids2 = ids1.push(identity);
    let (paths3, ids3) = if paths2.len() > PROGRESS_RECENT_PATH_LIMIT {
        (paths2.drop_first(), ids2.drop_first())
    } else {
        (paths2, ids2)
    };
    assert forall|j: int| 0 <= j < paths3.len() implies utf8_len(#[trigger] paths3[j]) <= PROGRESS_PATH_DISPLAY_BYTES_LIMIT by {
        if paths2.len() > PROGRESS_RECENT_PATH_LIMIT {
            assert(paths3[j] == paths2[j + 1]);
        } else {
            assert(paths3[j] == paths2[j]);
        }
    }
    let v3 = ProgressStateView { recent_paths: paths3, identities: ids3, ..v };
    assert(recent_paths_bounded(v3));
    lemma_recent_paths_within_byte_bound(v3);
    assert(evict_to_byte_bound(paths3, ids3) == (paths3, ids3));
}

/// Dropping records while the byte bound is exceeded keeps the paths and
/// identities paired.
proof fn lemma_evict_keeps_paired(paths: Seq<Seq<char>>, ids: Seq<Seq<u8>>)
    requires
        paths.len() == ids.len(),
    ensures
        evict_to_byte_bound(paths, ids).0.len() == evict_to_byte_bound(paths, ids).1.len(),
    decreases paths.len(),
{
    if paths.len() > 0 && total_bytes(paths) > PROGRESS_RECENT_PATH_BYTES_LIMIT {
        lemma_evict_keeps_paired(paths.drop_first(), ids.drop_first());
    }
}

/// Recording one path keeps the recent paths and identities paired.
pub proof fn lemma_record_keeps_paired(v: ProgressStateView, path: Seq<char>, identity: Seq<u8>)
    requires
        recent_paths_paired(v),
    ensures
        recent_paths_paired(record_spec(v, path, identity)),
{
    lemma_first_identity_index(v.identities, identity);
    let (paths1, ids1) = match first_identity_index(v.identities, identity) {
        Some(i) => (v.recent_paths.remove(i), v.identities.remove(i)),
        None => (v.recent_paths, v.identities),
    };
    let paths2 = paths1.push(display_path(path));
    let ids2 = ids1.push(identity);
    let (paths3, ids3) = if paths2.len() > PROGRESS_RECENT_PATH_LIMIT {
        (paths2.drop_first(), ids2.drop_first())
    } else {
        (paths2, ids2)
    };
    lemma_evict_keeps_paired(paths3, ids3);
}

/// Recording a report's paths keeps the recent paths and identities paired.
proof fn lemma_record_paths_keeps_paired(
    v: ProgressStateView,
    current: Option<Seq<char>>,
    recent: Seq<Seq<char>>,
    ids: Seq<Seq<u8>>,
    k: int,
)
    requires
        recent_paths_paired(v),
    ensures
        recent_paths_paired(record_paths_tail(v, current, recent, ids, k)),
    decreases recent.len() - k,
{
    if k < 0 || k >= recent.len() {
        if let Some(c) = current {
            lemma_record_keeps_paired(v, c, current_identity(c, recent, ids));
        }
    } else {
        let identity = if k < ids.len() {
            ids[k]
        } else {
            identity_of(recent[k])
        };
        lemma_record_keeps_paired(v, recent[k], identity);
        lemma_record_paths_keeps_paired(record_spec(v, recent[k], identity), current, recent, ids, k + 1);
    }
}

/// Applying one event keeps the recent paths and identities paired.
pub proof fn lemma_apply_keeps_paired(v: ProgressStateView, event: JobEvent)
    requires
        recent_paths_paired(v),
    ensures
        recent_paths_paired(apply_spec(v, event)),
{
    if v.outcome is None {
        match event {
            JobEvent::EntryStarted { path, .. } => {
                lemma_record_keeps_paired(v, path@, identity_of(path@));
            },
            JobEvent::BytesProcessed { path, recent_paths, recent_path_identities, total_bytes_processed, total_entries_processed, .. } => {
                let v1 = ProgressStateView {
                    processed_bytes: if v.processed_bytes >= total_bytes_processed { v.processed_bytes } else { total_bytes_processed },
                    processed_entries: if v.processed_entries >= total_entries_processed { v.processed_entries } else { total_entries_processed },
                    ..v
                };
                lemma_record_paths_keeps_paired(
                    v1,
                    match path { Some(q) => Some(q@), None => None },
                    recent_paths@.map_values(|s: String| s@),
                    recent_path_identities@.map_values(|a: ProgressPathIdentity| a@),
                    0,
                );
            },
            JobEvent::PhaseBytesProcessed { phase, path, recent_paths, recent_path_identities, total_bytes_processed, total_bytes, .. } => {
                let base = if v.active_phase != Some(phase) { 0u64 } else { v.phase_processed_bytes };
                let v1 = ProgressStateView {
                    active_phase: Some(phase),
                    phase_processed_bytes: if base >= total_bytes_processed { base } else { total_bytes_processed },
                    phase_total_bytes: total_bytes,
                    ..v
                };
                lemma_record_paths_keeps_paired(
                    v1,
                    match path { Some(q) => Some(q@), None => None },
                    recent_paths@.map_values(|s: String| s@),
                    recent_path_identities@.map_values(|a: ProgressPathIdentity| a@),
                    0,
                );
            },
            JobEvent::EntryFinished { path, .. } => {
                let v1 = ProgressStateView {
                    processed_entries: if v.processed_entries == u64::MAX { u64::MAX } else { (v.processed_entries + 1) as u64 },
                    ..v
                };
                lemma_record_keeps_paired(v1, path@, identity_of(path@));
            },
            _ => {},
        }
    }
}

/// Recording the recent paths of a report and its current path keeps the
/// recent-path list within its bounds.
pub proof fn lemma_record_paths_keeps_bounded(
    v: ProgressStateView,
    current: Option<Seq<char>>,
    recent: Seq<Seq<char>>,
    ids: Seq<Seq<u8>>,
    k: int,
)
    requires
        recent_paths_bounded(v),
    ensures
        recent_paths_bounded(record_paths_tail(v, current, recent, ids, k)),
    decreases recent.len() - k,
{
    if k < 0 || k >= recent.len() {
        if let Some(c) = current {
            lemma_record_keeps_bounded(v, c, current_identity(c, recent, ids));
        }
    } else {
        let identity = if k < ids.len() {
            ids[k]
        } else {
            identity_of(recent[k])
        };
        lemma_record_keeps_bounded(v, recent[k], identity);
        lemma_record_paths_keeps_bounded(record_spec(v, recent[k], identity), current, recent, ids, k + 1);
    }
}

/// Applying one event keeps the recent-path list within its bounds.
pub proof fn lemma_apply_keeps_bounded(v: ProgressStateView, event: JobEvent)
    requires
        recent_paths_bounded(v),
    ensures
        recent_paths_bounded(apply_spec(v, event)),
{
    if v.outcome is None {
        match event {
            JobEvent::EntryStarted { path, .. } => {
                lemma_record_keeps_bounded(v, path@, identity_of(path@));
            },
            JobEvent::BytesProcessed { path, recent_paths, recent_path_identities, total_bytes_processed, total_entries_processed, .. } => {
                let v1 = ProgressStateView {
                    processed_bytes: if v.processed_bytes >= total_bytes_processed { v.processed_bytes } else { total_bytes_processed },
                    processed_entries: if v.processed_entries >= total_entries_processed { v.processed_entries } else { total_entries_processed },
                    ..v
                };
                lemma_record_paths_keeps_bounded(
                    v1,
                    match path { Some(q) => Some(q@), None => None },
                    recent_paths@.map_values(|s: String| s@),
                    recent_path_identities@.map_values(|a: ProgressPathIdentity| a@),
                    0,
                );
            },
            JobEvent::PhaseBytesProcessed { phase, path, recent_paths, recent_path_identities, total_bytes_processed, total_bytes, .. } => {
                let base = if v.active_phase != Some(phase) { 0u64 } else { v.phase_processed_bytes };
                let v1 = ProgressStateView {
                    active_phase: Some(phase),
                    phase_processed_bytes: if base >= total_bytes_processed { base } else { total_bytes_processed },
                    phase_total_bytes: total_bytes,
                    ..v
                };
                lemma_record_paths_keeps_bounded(
                    v1,
                    match path { Some(q) => Some(q@), None => None },
                    recent_paths@.map_values(|s: String| s@),
                    recent_path_identities@.map_values(|a: ProgressPathIdentity| a@),
                    0,
                );
            },
            JobEvent::EntryFinished { path, .. } => {
                let v1 = ProgressStateView {
                    processed_entries: if v.processed_entries == u64::MAX { u64::MAX } else { (v.processed_entries + 1) as u64 },
                    ..v
                };
                lemma_record_keeps_bounded(v1, path@, identity_of(path@));
            },
            _ => {},
        }
    }
}

/// The progress projection is monotone and bounded: over any run of events
/// from a bounded projection (the initial one among them), the processed
/// byte and entry counts never decrease and the recent-path list keeps at
/// most its count bound of paths, each within its byte bound, and at most
/// the byte bound in all.
pub proof fn lemma_progress_bounded_over_events(v: ProgressStateView, events: Seq<JobEvent>)
    requires
        recent_paths_bounded(v),
    ensures
        recent_paths_bounded(apply_all(v, events)),
        total_bytes(apply_all(v, events).recent_paths) <= PROGRESS_RECENT_PATH_BYTES_LIMIT,
        apply_all(v, events).processed_bytes >= v.processed_bytes,
        apply_all(v, events).processed_entries >= v.processed_entries,
    decreases events.len(),
{
    lemma_progress_monotonic_over_events(v, events);
    if events.len() > 0 {
        lemma_progress_bounded_over_events(v, events.drop_last());
        lemma_apply_keeps_bounded(apply_all(v, events.drop_last()), events.last());
    }
    lemma_recent_paths_within_byte_bound(apply_all(v, events));
}

} // verus!
