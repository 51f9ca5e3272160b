use nai_core::job::{is_terminal, JobKind, JobStatus, JobStore, TERMINAL_WINDOW};

fn succeeded() -> JobStatus {
    JobStatus::Succeeded { outputs: Vec::new() }
}

#[test]
fn create_starts_queued_with_distinct_ids() {
    let mut store = JobStore::new();
    let (a, _) = store.create(JobKind::T2i, 100);
    let (b, _) = store.create(JobKind::I2i, 100);
    assert_ne!(a, b);
    assert!(matches!(store.get_status(a), Some(JobStatus::Queued)));
    assert!(matches!(store.get_status(b), Some(JobStatus::Queued)));
    let items = store.list(10);
    assert_eq!(items.len(), 2);
    assert_eq!(items[0].id, a);
    assert_eq!(items[0].kind, JobKind::T2i);
    assert_eq!(items[0].created_at_ms, 100);
    assert_eq!(items[0].updated_at_ms, 100);
    assert_eq!(items[0].started_at_ms, None);
    assert_eq!(items[0].finished_at_ms, None);
}

#[test]
fn running_then_terminal_sets_timestamps() {
    let mut store = JobStore::new();
    let (id, _) = store.create(JobKind::T2i, 10);
    store.set_status(id, JobStatus::Running, 20);
    let s = &store.list(1)[0];
    assert_eq!(s.started_at_ms, Some(20));
    assert_eq!(s.finished_at_ms, None);
    assert_eq!(s.updated_at_ms, 20);
    store.set_status(id, JobStatus::Failed { error: "boom".to_string() }, 30);
    let s = &store.list(1)[0];
    assert_eq!(s.started_at_ms, Some(20));
    assert_eq!(s.finished_at_ms, Some(30));
    match &s.status {
        JobStatus::Failed { error } => assert_eq!(error, "boom"),
        other => panic!("unexpected {:?}", other),
    }
}

#[test]
fn terminal_without_running_sets_start_too() {
    let mut store = JobStore::new();
    let (id, _) = store.create(JobKind::Inpaint, 5);
    store.set_status(id, JobStatus::Cancelled, 7);
    let s = &store.list(1)[0];
    assert_eq!(s.started_at_ms, Some(7));
    assert_eq!(s.finished_at_ms, Some(7));
}

#[test]
fn clock_never_runs_backwards() {
    let mut store = JobStore::new();
    let (id, _) = store.create(JobKind::T2i, 50);
    store.set_status(id, JobStatus::Running, 40);
    store.set_status(id, succeeded(), 30);
    let s = &store.list(1)[0];
    assert_eq!(s.created_at_ms, 50);
    assert_eq!(s.started_at_ms, Some(50));
    assert_eq!(s.finished_at_ms, Some(50));
    assert!(s.started_at_ms.unwrap() <= s.finished_at_ms.unwrap());
}

#[test]
fn set_status_leaves_terminal_jobs_alone() {
    let mut store = JobStore::new();
    let (id, _) = store.create(JobKind::T2i, 1);
    store.set_status(id, succeeded(), 2);
    store.set_status(id, JobStatus::Running, 3);
    store.set_status(id, JobStatus::Failed { error: "late".to_string() }, 4);
    let s = &store.list(1)[0];
    assert!(matches!(s.status, JobStatus::Succeeded { .. }));
    assert_eq!(s.updated_at_ms, 2);
    assert_eq!(s.finished_at_ms, Some(2));
}

#[test]
fn cancel_overrides_terminal_status() {
    let mut store = JobStore::new();
    let (id, token) = store.create(JobKind::Character, 1);
    store.set_status(id, succeeded(), 2);
    assert!(!token.is_cancelled());
    assert!(store.cancel(id, 5));
    assert!(token.is_cancelled());
    let s = &store.list(1)[0];
    assert!(matches!(s.status, JobStatus::Cancelled));
    assert_eq!(s.updated_at_ms, 5);
    assert_eq!(s.finished_at_ms, Some(2));
}

#[test]
fn cancel_queued_job_finishes_it() {
    let mut store = JobStore::new();
    let (id, token) = store.create(JobKind::T2i, 1);
    assert!(store.cancel(id, 3));
    assert!(token.is_cancelled());
    let s = &store.list(1)[0];
    assert!(matches!(s.status, JobStatus::Cancelled));
    assert_eq!(s.started_at_ms, Some(3));
    assert_eq!(s.finished_at_ms, Some(3));
}

#[test]
fn unknown_ids() {
    let mut store = JobStore::new();
    assert!(store.get_status(42).is_none());
    assert!(!store.cancel(42, 1));
    store.set_status(42, JobStatus::Running, 1);
    assert_eq!(store.len(), 0);
}

#[test]
fn retention_keeps_three_most_recent_terminal_records() {
    let mut store = JobStore::new();
    let mut ids = Vec::new();
    for t in 0..5u64 {
        ids.push(store.create(JobKind::T2i, t).0);
    }
    let (queued, _) = store.create(JobKind::T2i, 10);
    for (k, id) in ids.iter().enumerate() {
        store.set_status(*id, succeeded(), 20 + k as u64);
    }
    let items = store.list(100);
    assert_eq!(items.len(), 4);
    let terminal = items.iter().filter(|s| is_terminal(&s.status)).count();
    assert_eq!(terminal, TERMINAL_WINDOW);
    assert_eq!(items[0].id, ids[2]);
    assert_eq!(items[1].id, ids[3]);
    assert_eq!(items[2].id, ids[4]);
    assert_eq!(items[3].id, queued);
    assert!(store.get_status(ids[0]).is_none());
    assert!(store.get_status(ids[1]).is_none());
    assert!(matches!(store.get_status(queued), Some(JobStatus::Queued)));
}

#[test]
fn non_terminal_records_are_never_evicted() {
    let mut store = JobStore::new();
    let mut running = Vec::new();
    for t in 0..6u64 {
        let (id, _) = store.create(JobKind::I2i, t);
        store.set_status(id, JobStatus::Running, t);
        running.push(id);
    }
    for t in 0..6u64 {
        let (id, _) = store.create(JobKind::I2i, 10 + t);
        store.set_status(id, JobStatus::Cancelled, 10 + t);
    }
    assert_eq!(store.len(), 9);
    for id in running {
        assert!(matches!(store.get_status(id), Some(JobStatus::Running)));
    }
}

#[test]
fn list_returns_most_recent_in_creation_order() {
    let mut store = JobStore::new();
    let mut ids = Vec::new();
    for t in 0..5u64 {
        ids.push(store.create(JobKind::T2i, 100 + t).0);
    }
    let items = store.list(2);
    assert_eq!(items.len(), 2);
    assert_eq!(items[0].id, ids[3]);
    assert_eq!(items[1].id, ids[4]);
    assert!(items[0].created_at_ms <= items[1].created_at_ms);
    assert_eq!(store.list(0).len(), 0);
    assert_eq!(store.list(200).len(), 5);
}

#[test]
fn job_kind_names() {
    assert_eq!(JobKind::T2i.as_str(), "t2i");
    assert_eq!(JobKind::I2i.as_str(), "i2i");
    assert_eq!(JobKind::Inpaint.as_str(), "inpaint");
    assert_eq!(JobKind::Character.as_str(), "character");
}

#[test]
fn ids_are_fresh_and_not_exhausted() {
    let mut store = JobStore::new();
    assert!(!store.ids_exhausted());
    let (a, _) = store.create(JobKind::T2i, 0);
    let (b, _) = store.create(JobKind::T2i, 0);
    assert_eq!(a as u64, 0);
    assert_eq!(b as u64, 1);
}
