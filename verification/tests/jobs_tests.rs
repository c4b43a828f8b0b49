use zmanager_core::jobs::progress::ProgressCoalescer;
use zmanager_core::jobs::{JobContext, JobEvent, JobEventSink, JobKind, JobOutcome, JobPhase, JobProgressState, PROGRESS_ENTRY_STEP, PROGRESS_RECENT_PATH_LIMIT};

#[test]
fn progress_projection_is_monotonic_bounded_and_terminal_is_immutable() {
    let mut state = JobProgressState::default();
    state.apply(&JobEvent::Started { kind: JobKind::ZipCreate, total_bytes: Some(10) });
    for index in 0..20 {
        state.apply(&JobEvent::BytesProcessed {
            path: Some(format!("file-{index}")),
            recent_paths: vec![],
            recent_path_identities: vec![],
            bytes: 1,
            total_bytes_processed: index + 1,
            entries: 0,
            total_entries_processed: 0,
            recent_paths_truncated: false,
        });
    }
    state.apply(&JobEvent::Completed { entries: 20, bytes: 20 });
    let terminal = state.clone();
    state.apply(&JobEvent::Failed { message: "late".into() });
    assert_eq!(state, terminal);
    assert_eq!(state.outcome, Some(JobOutcome::Completed));
    assert_eq!(state.processed_bytes, 20);
    assert_eq!(state.recent_paths.len(), PROGRESS_RECENT_PATH_LIMIT);
    assert_eq!(state.current_path.as_deref(), Some("file-19"));
}

#[test]
fn progress_projection_resets_only_phase_local_facts() {
    let mut state = JobProgressState::default();
    state.apply(&JobEvent::BytesProcessed {
        path: None,
        recent_paths: vec![],
        recent_path_identities: vec![],
        bytes: 5,
        total_bytes_processed: 5,
        entries: 0,
        total_entries_processed: 0,
        recent_paths_truncated: false,
    });
    state.apply(&JobEvent::PhaseStarted { phase: JobPhase::PlanningPayload, total_bytes: Some(8) });
    state.apply(&JobEvent::PhaseBytesProcessed {
        phase: JobPhase::PlanningPayload,
        path: None,
        recent_paths: vec![],
        recent_path_identities: vec![],
        bytes: 4,
        total_bytes_processed: 4,
        total_bytes: Some(8),
        recent_paths_truncated: false,
    });
    state.apply(&JobEvent::PhaseStarted { phase: JobPhase::EmittingPayload, total_bytes: Some(8) });
    assert_eq!(state.processed_bytes, 5);
    assert_eq!(state.phase_processed_bytes, 0);
}

#[test]
fn progress_coalescer_flushes_entry_and_time_thresholds_without_sleeping() {
    let start = 0_u64;
    let mut entries = ProgressCoalescer::new_at(None, start);
    assert!(entries.record_activity_at(Some("first"), 0, 1, start).is_some());
    for index in 0..(PROGRESS_ENTRY_STEP - 1) {
        assert!(entries.record_activity_at(Some("tiny"), 0, 1, start + index).is_none());
    }
    let batch = entries.record_activity_at(Some("tiny"), 0, 1, start + PROGRESS_ENTRY_STEP - 1).expect("entry threshold flush");
    assert_eq!(batch.entries, PROGRESS_ENTRY_STEP);
}

#[test]
fn processed_bytes_never_move_backwards() {
    let mut state = JobProgressState::default();
    for total in [5_u64, 3, 9] {
        state.apply(&JobEvent::BytesProcessed {
            path: None,
            recent_paths: vec![],
            recent_path_identities: vec![],
            bytes: 1,
            total_bytes_processed: total,
            entries: 0,
            total_entries_processed: 0,
            recent_paths_truncated: false,
        });
    }
    assert_eq!(state.processed_bytes, 9);
}

#[test]
fn warnings_are_counted_until_the_job_ends() {
    let mut state = JobProgressState::default();
    state.apply(&JobEvent::Warning { message: "one".into() });
    state.apply(&JobEvent::Warning { message: "two".into() });
    state.apply(&JobEvent::Cancelled { message: "stop".into() });
    state.apply(&JobEvent::Warning { message: "three".into() });
    assert_eq!(state.warning_count, 2);
    assert_eq!(state.outcome, Some(JobOutcome::Cancelled));
}

#[test]
fn context_counts_entries_and_reports_first_activity() {
    let mut context = JobContext::new(0);
    context.entry_started("a.txt".into(), Some(3));
    context.bytes_processed(Some("a.txt"), 3, 0);
    context.entry_finished("a.txt".into(), 3, 1);
    assert_eq!(context.total_bytes_processed(), 3);
    assert_eq!(context.total_entries_processed(), 1);
    let events = context.take_events();
    assert!(matches!(events[0], JobEvent::EntryStarted { .. }));
    assert!(events.iter().any(|event| matches!(event, JobEvent::BytesProcessed { total_bytes_processed: 3, .. })));
    assert!(events.iter().any(|event| matches!(event, JobEvent::EntryFinished { .. })));
    assert!(context.take_events().is_empty());
}

#[test]
fn cancelled_context_refuses_to_continue() {
    let mut context = JobContext::new(0);
    assert!(context.check_cancelled().is_ok());
    context.set_cancelled(true);
    assert!(context.check_cancelled().is_err());
}

#[test]
fn context_delivers_queued_events_in_order_and_empties_its_queue() {
    let mut context = JobContext::new(0);
    context.warning("first".to_string());
    context.emit(JobEvent::Completed { entries: 1, bytes: 2 });
    let mut sink: Vec<JobEvent> = Vec::new();
    context.deliver_events(&mut sink);
    assert_eq!(sink.len(), 2);
    assert!(matches!(&sink[0], JobEvent::Warning { message } if message == "first"));
    assert!(matches!(sink[1], JobEvent::Completed { entries: 1, bytes: 2 }));
    assert!(context.take_events().is_empty());
    JobEventSink::emit(&mut sink, JobEvent::Completed { entries: 0, bytes: 0 });
    assert_eq!(sink.len(), 3);
}

#[test]
fn coalescing_loses_no_activity() {
    let mut coalescer = ProgressCoalescer::new_at(None, 0);
    let mut reported_bytes = 0_u64;
    let mut reported_entries = 0_u64;
    let mut recorded_bytes = 0_u64;
    for index in 0..300_u64 {
        let bytes = index * 37 % 1000;
        recorded_bytes += bytes;
        if let Some(batch) = coalescer.record_activity_at(Some("file"), bytes, 1, index) {
            reported_bytes += batch.bytes;
            reported_entries += batch.entries;
        }
    }
    if let Some(batch) = coalescer.flush_at(300) {
        reported_bytes += batch.bytes;
        reported_entries += batch.entries;
    }
    assert_eq!(reported_bytes, recorded_bytes);
    assert_eq!(reported_entries, 300);
}

#[test]
fn phase_running_total_never_moves_backwards() {
    let mut state = JobProgressState::default();
    state.apply(&JobEvent::PhaseStarted { phase: JobPhase::PlanningPayload, total_bytes: Some(20) });
    for total in [4_u64, 2, 9, 7] {
        state.apply(&JobEvent::PhaseBytesProcessed {
            phase: JobPhase::PlanningPayload,
            path: None,
            recent_paths: vec![],
            recent_path_identities: vec![],
            bytes: 1,
            total_bytes_processed: total,
            total_bytes: Some(20),
            recent_paths_truncated: false,
        });
        state.apply(&JobEvent::Warning { message: "note".into() });
    }
    assert_eq!(state.active_phase, Some(JobPhase::PlanningPayload));
    assert_eq!(state.phase_processed_bytes, 9);
}
