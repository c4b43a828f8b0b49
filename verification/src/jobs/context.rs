//! The job context: cumulative counters, progress coalescing and
//! phase-scoped byte counts for one running job, with the events it emits
//! queued for the caller's event sink.
use crate::jobs::progress::{
    coalescer_at, coalescer_bounded, identity_of, path_identity, record_activity_spec, flush_spec, sat_add,
    BatchView, CoalescerView, JobEventSink, ProgressBatch, ProgressCoalescer,
};
use crate::jobs::{JobEvent, JobPhase, ProgressPathIdentity};
use vstd::prelude::*;

verus! {

/// Returned when a job observes that cancellation was requested.
#[derive(Debug, Clone, Copy, PartialEq, Eq, Structural)]
pub struct JobCancelled;

/// Slot of a phase in the per-phase byte counters.
pub open spec fn phase_slot(phase: JobPhase) -> int {
    match phase {
        JobPhase::PlanningPayload => 0,
        JobPhase::PlanningMetadata => 1,
        JobPhase::EmittingPayload => 2,
        JobPhase::EmittingMetadata => 3,
        JobPhase::CommittingOutput => 4,
    }
}

fn phase_index(phase: JobPhase) -> (r: usize)
    ensures
        r == phase_slot(phase),
{
    match phase {
        JobPhase::PlanningPayload => 0,
        JobPhase::PlanningMetadata => 1,
        JobPhase::EmittingPayload => 2,
        JobPhase::EmittingMetadata => 3,
        JobPhase::CommittingOutput => 4,
    }
}

pub open spec fn opt_view(p: Option<String>) -> Option<Seq<char>> {
    match p {
        Some(s) => Some(s@),
        None => None,
    }
}

/// `e` is the aggregate byte event for batch `b` with the given running
/// totals.
pub open spec fn is_batch_event(e: JobEvent, b: BatchView, total_bytes: u64, total_entries: u64) -> bool {
    match e {
        JobEvent::BytesProcessed {
            path,
            recent_paths,
            recent_path_identities,
            bytes,
            total_bytes_processed,
            entries,
            total_entries_processed,
            recent_paths_truncated,
        } => {
            &&& opt_view(path) == b.path
            &&& recent_paths@.map_values(|s: String| s@) == b.recent_paths
            &&& recent_path_identities@.map_values(|a: ProgressPathIdentity| a@) == b.recent_ids
            &&& bytes == b.bytes
            &&& total_bytes_processed == total_bytes
            &&& entries == b.entries
            &&& total_entries_processed == total_entries
            &&& recent_paths_truncated == b.truncated
        },
        _ => false,
    }
}

/// `after` is `before` followed by the byte event for `batch`, if any.
pub open spec fn emits_batch(
    before: Seq<JobEvent>,
    after: Seq<JobEvent>,
    batch: Option<BatchView>,
    total_bytes: u64,
    total_entries: u64,
) -> bool {
    match batch {
        None => after == before,
        Some(b) => {
            &&& after.len() == before.len() + 1
            &&& after.drop_last() == before
            &&& is_batch_event(after.last(), b, total_bytes, total_entries)
        },
    }
}

/// Abstract value of a [`JobContext`].
pub struct JobContextView {
    pub cancelled: bool,
    pub events: Seq<JobEvent>,
    pub total_bytes_processed: u64,
    pub total_entries_processed: u64,
    pub progress: CoalescerView,
    pub phase_bytes: Seq<u64>,
}

/// Per-job state shared by an archive backend and its caller: cumulative
/// counters, progress coalescing, and per-phase byte counts. Events are
/// queued in order; the caller hands them to its event sink with
/// [`JobContext::take_events`]. Cancellation is observed through
/// [`JobContext::set_cancelled`], and time is given in milliseconds.
pub struct JobContext {
    cancelled: bool,
    events: Vec<JobEvent>,
    total_bytes_processed: u64,
    total_entries_processed: u64,
    progress: ProgressCoalescer,
    phase_bytes_processed: Vec<u64>,
}

impl View for JobContext {
    type V = JobContextView;

    closed spec fn view(&self) -> JobContextView {
        JobContextView {
            cancelled: self.cancelled,
            events: self.events@,
            total_bytes_processed: self.total_bytes_processed,
            total_entries_processed: self.total_entries_processed,
            progress: self.progress@,
            phase_bytes: self.phase_bytes_processed@,
        }
    }
}

impl JobContext {
    /// The context's invariant: one counter per phase and a bounded
    /// recent-path list.
    pub open spec fn wf(&self) -> bool {
        &&& self@.phase_bytes.len() == 5
        &&& coalescer_bounded(self@.progress)
    }

    /// A context with no known byte total.
    pub fn new(now_millis: u64) -> (r: Self)
        ensures
            r.wf(),
            r@.events == Seq::<JobEvent>::empty(),
            !r@.cancelled,
            r@.total_bytes_processed == 0,
            r@.total_entries_processed == 0,
            r@.progress == coalescer_at(None, now_millis),
            r@.phase_bytes == seq![0u64, 0u64, 0u64, 0u64, 0u64],
    {
        JobContext::new_with_progress_total(None, now_millis)
    }

    /// A context with a known logical byte total for progress batching.
    pub fn new_with_progress_total(total_bytes: Option<u64>, now_millis: u64) -> (r: Self)
        ensures
            r.wf(),
            r@.events == Seq::<JobEvent>::empty(),
            !r@.cancelled,
            r@.total_bytes_processed == 0,
            r@.total_entries_processed == 0,
            r@.progress == coalescer_at(total_bytes, now_millis),
            r@.phase_bytes == seq![0u64, 0u64, 0u64, 0u64, 0u64],
    {
        let r = JobContext {
            cancelled: false,
            events: Vec::new(),
            total_bytes_processed: 0,
            total_entries_processed: 0,
            progress: ProgressCoalescer::new_at(total_bytes, now_millis),
            phase_bytes_processed: vec![0u64, 0u64, 0u64, 0u64, 0u64],
        };
        assert(r@.phase_bytes =~= seq![0u64, 0u64, 0u64, 0u64, 0u64]);
        assert(r@.events =~= Seq::<JobEvent>::empty());
        r
    }

    /// Records what the job's cancellation token reports.
    pub fn set_cancelled(&mut self, cancelled: bool)
        ensures
            final(self)@ == (JobContextView { cancelled, ..old(self)@ }),
    {
        self.cancelled = cancelled;
    }

    /// Queues an event.
    pub fn emit(&mut self, event: JobEvent)
        ensures
            final(self)@ == (JobContextView { events: old(self)@.events.push(event), ..old(self)@ }),
    {
        self.events.push(event);
    }

    /// Hands out the queued events, oldest first, and empties the queue.
    pub fn take_events(&mut self) -> (r: Vec<JobEvent>)
        ensures
            r@ == old(self)@.events,
            final(self)@ == (JobContextView { events: Seq::empty(), ..old(self)@ }),
    {
        let mut out: Vec<JobEvent> = Vec::new();
        std::mem::swap(&mut out, &mut self.events);
        assert(self@.events =~= Seq::<JobEvent>::empty());
        out
    }

    /// Hands the queued events, oldest first, to `sink` and empties the
    /// queue.
    pub fn deliver_events<S: JobEventSink>(&mut self, sink: &mut S)
        ensures
            final(self)@ == (JobContextView { events: Seq::empty(), ..old(self)@ }),
    {
        let events = self.take_events();
        let mut i: usize = 0;
        while i < events.len()
            invariant
                i <= events@.len(),
            decreases events@.len() - i,
        {
            sink.emit(events[i].clone());
            i += 1;
        }
    }

    /// Queues an entry-started event carrying the entry's known byte size.
    pub fn entry_started(&mut self, path: String, bytes: Option<u64>)
        ensures
            final(self)@ == (JobContextView {
                events: old(self)@.events.push(JobEvent::EntryStarted { path, bytes }),
                ..old(self)@
            }),
    {
        self.emit(JobEvent::EntryStarted { path, bytes });
    }

    fn emit_batch(&mut self, batch: Option<ProgressBatch>)
        ensures
            emits_batch(
                old(self)@.events,
                final(self)@.events,
                match batch {
                    Some(b) => Some(b@),
                    None => None,
                },
                old(self)@.total_bytes_processed,
                old(self)@.total_entries_processed,
            ),
            final(self)@ == (JobContextView { events: final(self)@.events, ..old(self)@ }),
    {
        if let Some(batch) = batch {
            let event = JobEvent::BytesProcessed {
                path: batch.path,
                recent_paths: batch.recent_paths,
                recent_path_identities: batch.recent_path_identities,
                bytes: batch.bytes,
                total_bytes_processed: self.total_bytes_processed,
                entries: batch.entries,
                total_entries_processed: self.total_entries_processed,
                recent_paths_truncated: batch.recent_paths_truncated,
            };
            self.events.push(event);
            assert(self@.events.drop_last() =~= old(self)@.events);
        }
    }

    /// Queues an entry-finished event, counts one completed entry, and
    /// queues a byte event when that activity completes a batch.
    pub fn entry_finished(&mut self, path: String, bytes: u64, now_millis: u64)
        requires
            old(self).wf(),
        ensures
            final(self).wf(),
            ({
                let entries = sat_add(old(self)@.total_entries_processed, 1);
                let finished = old(self)@.events.push(JobEvent::EntryFinished { path, bytes });
                let (p, b) = record_activity_spec(old(self)@.progress, Some(path@), 0, 1, now_millis);
                &&& final(self)@.total_entries_processed == entries
                &&& final(self)@.total_bytes_processed == old(self)@.total_bytes_processed
                &&& final(self)@.progress == p
                &&& emits_batch(finished, final(self)@.events, b, old(self)@.total_bytes_processed, entries)
                &&& final(self)@.phase_bytes == old(self)@.phase_bytes
                &&& final(self)@.cancelled == old(self)@.cancelled
            }),
    {
        self.total_entries_processed = self.total_entries_processed.saturating_add(1);
        let copy = path.clone();
        self.emit(JobEvent::EntryFinished { path, bytes });
        let batch = self.progress.record_activity_at(Some(copy.as_str()), 0, 1, now_millis);
        self.emit_batch(batch);
    }

    /// Queues a warning event.
    pub fn warning(&mut self, message: String)
        ensures
            final(self)@ == (JobContextView {
                events: old(self)@.events.push(JobEvent::Warning { message }),
                ..old(self)@
            }),
    {
        self.emit(JobEvent::Warning { message });
    }

    /// Counts processed bytes and queues a byte event when they complete a
    /// batch.
    pub fn bytes_processed(&mut self, path: Option<&str>, bytes: u64, now_millis: u64)
        requires
            old(self).wf(),
        ensures
            final(self).wf(),
            ({
                let total = sat_add(old(self)@.total_bytes_processed, bytes);
                let (p, b) = record_activity_spec(
                    old(self)@.progress,
                    match path {
                        Some(s) => Some(s@),
                        None => None,
                    },
                    bytes,
                    0,
                    now_millis,
                );
                &&& final(self)@.total_bytes_processed == total
                &&& final(self)@.total_entries_processed == old(self)@.total_entries_processed
                &&& final(self)@.progress == p
                &&& emits_batch(old(self)@.events, final(self)@.events, b, total, old(self)@.total_entries_processed)
                &&& final(self)@.phase_bytes == old(self)@.phase_bytes
                &&& final(self)@.cancelled == old(self)@.cancelled
            }),
    {
        self.total_bytes_processed = self.total_bytes_processed.saturating_add(bytes);
        let batch = self.progress.record_at(path, bytes, now_millis);
        self.emit_batch(batch);
    }

    /// Queues a byte event for any pending activity.
    pub fn flush_progress(&mut self, now_millis: u64)
        requires
            old(self).wf(),
        ensures
            final(self).wf(),
            ({
                let (p, b) = flush_spec(old(self)@.progress, now_millis);
                &&& final(self)@.progress == p
                &&& emits_batch(
                    old(self)@.events,
                    final(self)@.events,
                    b,
                    old(self)@.total_bytes_processed,
                    old(self)@.total_entries_processed,
                )
                &&& final(self)@.total_bytes_processed == old(self)@.total_bytes_processed
                &&& final(self)@.total_entries_processed == old(self)@.total_entries_processed
                &&& final(self)@.phase_bytes == old(self)@.phase_bytes
                &&& final(self)@.cancelled == old(self)@.cancelled
            }),
    {
        let batch = self.progress.flush_at(now_millis);
        self.emit_batch(batch);
    }

    /// Flushes pending progress, restarts the phase's byte count at zero,
    /// and queues a phase-started event.
    pub fn phase_started(&mut self, phase: JobPhase, total_bytes: Option<u64>, now_millis: u64)
        requires
            old(self).wf(),
        ensures
            final(self).wf(),
            ({
                let (p, b) = flush_spec(old(self)@.progress, now_millis);
                let flushed = final(self)@.events.drop_last();
                &&& final(self)@.progress == p
                &&& emits_batch(
                    old(self)@.events,
                    flushed,
                    b,
                    old(self)@.total_bytes_processed,
                    old(self)@.total_entries_processed,
                )
                &&& final(self)@.events.len() > 0
                &&& final(self)@.events.last() == (JobEvent::PhaseStarted { phase, total_bytes })
                &&& final(self)@.phase_bytes == old(self)@.phase_bytes.update(phase_slot(phase), 0)
                &&& final(self)@.total_bytes_processed == old(self)@.total_bytes_processed
                &&& final(self)@.total_entries_processed == old(self)@.total_entries_processed
                &&& final(self)@.cancelled == old(self)@.cancelled
            }),
    {
        self.flush_progress(now_millis);
        let i = phase_index(phase);
        self.phase_bytes_processed.set(i, 0);
        let ghost flushed = self@.events;
        self.emit(JobEvent::PhaseStarted { phase, total_bytes });
        assert(self@.events.drop_last() =~= flushed);
    }

    /// Counts bytes processed within `phase` and queues a phase-scoped byte
    /// event carrying the recent-path activity list and each path's identity.
    pub fn phase_bytes_processed_with_recent_paths(
        &mut self,
        phase: JobPhase,
        path: Option<&str>,
        recent_paths: Vec<String>,
        bytes: u64,
        total_bytes: Option<u64>,
        recent_paths_truncated: bool,
    )
        requires
            old(self).wf(),
        ensures
            final(self).wf(),
            ({
                let total = sat_add(old(self)@.phase_bytes[phase_slot(phase)], bytes);
                let e = final(self)@.events.last();
                &&& final(self)@.phase_bytes == old(self)@.phase_bytes.update(phase_slot(phase), total)
                &&& final(self)@.events.len() == old(self)@.events.len() + 1
                &&& final(self)@.events.drop_last() == old(self)@.events
                &&& e matches JobEvent::PhaseBytesProcessed {
                    phase: ep,
                    path: epath,
                    recent_paths: erecent,
                    recent_path_identities: eids,
                    bytes: ebytes,
                    total_bytes_processed: etotal,
                    total_bytes: etb,
                    recent_paths_truncated: etr,
                }
                &&& ep == phase
                &&& opt_view(epath) == (match path {
                    Some(s) => Some(s@),
                    None => None,
                })
                &&& erecent == recent_paths
                &&& eids@.map_values(|a: ProgressPathIdentity| a@) == recent_paths@.map_values(|s: String| identity_of(s@))
                &&& ebytes == bytes
                &&& etotal == total
                &&& etb == total_bytes
                &&& etr == recent_paths_truncated
                &&& final(self)@.progress == old(self)@.progress
                &&& final(self)@.total_bytes_processed == old(self)@.total_bytes_processed
                &&& final(self)@.total_entries_processed == old(self)@.total_entries_processed
                &&& final(self)@.cancelled == old(self)@.cancelled
            }),
    {
        let mut identities: Vec<ProgressPathIdentity> = Vec::new();
        let mut k: usize = 0;
        while k < recent_paths.len()
            invariant
                k <= recent_paths@.len(),
                identities@.len() == k,
                forall|j: int| 0 <= j < k ==> (#[trigger] identities@[j])@ == identity_of(recent_paths@[j]@),
            decreases recent_paths@.len() - k,
        {
            identities.push(path_identity(recent_paths[k].as_str()));
            k += 1;
        }
        assert(identities@.map_values(|a: ProgressPathIdentity| a@) =~= recent_paths@.map_values(|s: String| identity_of(s@)));
        let i = phase_index(phase);
        let total = self.phase_bytes_processed[i].saturating_add(bytes);
        self.phase_bytes_processed.set(i, total);
        let owned = match path {
            Some(p) => Some(p.to_owned()),
            None => None,
        };
        self.emit(JobEvent::PhaseBytesProcessed {
            phase,
            path: owned,
            recent_paths,
            recent_path_identities: identities,
            bytes,
            total_bytes_processed: total,
            total_bytes,
            recent_paths_truncated,
        });
        assert(self@.events.drop_last() =~= old(self)@.events);
    }

    /// Fails with [`JobCancelled`] once cancellation was requested.
    pub fn check_cancelled(&self) -> (r: Result<(), JobCancelled>)
        ensures
            r is Err <==> self@.cancelled,
    {
        if self.cancelled {
            Err(JobCancelled)
        } else {
            Ok(())
        }
    }

    /// Bytes counted so far by this context.
    pub fn total_bytes_processed(&self) -> (r: u64)
        ensures
            r == self@.total_bytes_processed,
    {
        self.total_bytes_processed
    }

    /// Entries counted so far by this context.
    pub fn total_entries_processed(&self) -> (r: u64)
        ensures
            r == self@.total_entries_processed,
    {
        self.total_entries_processed
    }
}


/// Adding `bytes` in order, one saturating addition at a time, from zero.
pub open spec fn saturating_total(bytes: Seq<u64>) -> u64
    decreases bytes.len(),
{
    if bytes.len() == 0 {
        0
    } else {
        sat_add(saturating_total(bytes.drop_last()), bytes.last())
    }
}

/// The sum of `bytes`.
pub open spec fn plain_total(bytes: Seq<u64>) -> int
    decreases bytes.len(),
{
    if bytes.len() == 0 {
        0
    } else {
        plain_total(bytes.drop_last()) + bytes.last()
    }
}

/// Per-phase totals are saturating sums: when a phase's counter starts at
/// zero and each step adds the bytes of one report the way
/// `phase_bytes_processed_with_recent_paths` does, the counter is the sum
/// of the bytes reported, or the largest `u64` when that sum exceeds it.
pub proof fn lemma_phase_total_is_saturating_sum(counters: Seq<Seq<u64>>, bytes: Seq<u64>, slot: int)
    requires
        counters.len() == bytes.len() + 1,
        0 <= slot < counters[0].len(),
        counters[0][slot] == 0,
        forall|k: int|
            0 <= k < bytes.len() ==> #[trigger] counters[k + 1] == counters[k].update(slot, sat_add(counters[k][slot], bytes[k])),
    ensures
        counters.last()[slot] == saturating_total(bytes),
        saturating_total(bytes) == if plain_total(bytes) <= u64::MAX {
            plain_total(bytes)
        } else {
            u64::MAX as int
        },
    decreases bytes.len(),
{
    if bytes.len() > 0 {
        let n = bytes.len() - 1;
        assert forall|k: int| 0 <= k < bytes.drop_last().len() implies #[trigger] counters.drop_last()[k + 1]
            == counters.drop_last()[k].update(slot, sat_add(counters.drop_last()[k][slot], bytes.drop_last()[k])) by {
            assert(counters.drop_last()[k + 1] == counters[k + 1]);
            assert(counters.drop_last()[k] == counters[k]);
        }
        assert(counters.drop_last()[0] == counters[0]);
        lemma_phase_total_is_saturating_sum(counters.drop_last(), bytes.drop_last(), slot);
        lemma_counter_length_kept(counters, bytes, slot, n);
        assert(counters[n + 1] == counters[n].update(slot, sat_add(counters[n][slot], bytes[n])));
        assert(counters.drop_last().last() == counters[n]);
    }
}

proof fn lemma_counter_length_kept(counters: Seq<Seq<u64>>, bytes: Seq<u64>, slot: int, k: int)
    requires
        counters.len() == bytes.len() + 1,
        0 <= slot < counters[0].len(),
        0 <= k <= bytes.len(),
        forall|j: int|
            0 <= j < bytes.len() ==> #[trigger] counters[j + 1] == counters[j].update(slot, sat_add(counters[j][slot], bytes[j])),
    ensures
        counters[k].len() == counters[0].len(),
    decreases k,
{
    if k > 0 {
        lemma_counter_length_kept(counters, bytes, slot, k - 1);
        assert(counters[(k - 1) + 1] == counters[k - 1].update(slot, sat_add(counters[k - 1][slot], bytes[k - 1])));
    }
}

} // verus!
