use downzer::engine::{
    classify_lowered, classify_response, download_file_name, next_worker_action, unit_outcome, Batch,
    ResponseClass, WorkerAction,
};
use downzer::task::{Stats, TaskStatus, UnitOutcome};

fn list(words: &[&str]) -> Vec<String> {
    words.iter().map(|w| w.to_string()).collect()
}

#[test]
fn gate_bounds_units_in_flight() {
    let n = 7;
    let k = 3;
    let mut batch = Batch::new(n, k);
    let mut pending: Vec<usize> = Vec::new();
    let mut dispatched: Vec<usize> = Vec::new();
    let mut max_seen = 0;
    while !batch.is_done() {
        while let Some(i) = batch.dispatch_next() {
            pending.push(i);
            dispatched.push(i);
        }
        max_seen = max_seen.max(batch.in_flight());
        assert!(batch.in_flight() <= k);
        let i = pending.remove(0);
        let outcome = match i % 4 {
            0 => UnitOutcome::Downloaded(10),
            1 => UnitOutcome::Ignored,
            2 => UnitOutcome::NotFound,
            _ => UnitOutcome::Error,
        };
        batch.finish(Some(outcome));
    }
    assert_eq!(max_seen, k);
    assert_eq!(dispatched, (0..n).collect::<Vec<_>>());
    let s = batch.stats();
    assert_eq!(s.downloaded + s.ignored + s.errors + s.not_found, n);
    assert_eq!(s.downloaded, 2);
    assert_eq!(s.ignored, 2);
    assert_eq!(s.not_found, 2);
    assert_eq!(s.errors, 1);
    assert_eq!(s.total_bytes, 20);
}

#[test]
fn abandoned_units_count_nothing() {
    let mut batch = Batch::new(4, 4);
    while batch.dispatch_next().is_some() {}
    assert_eq!(batch.in_flight(), 4);
    batch.finish(Some(UnitOutcome::Downloaded(5)));
    batch.finish(None);
    batch.finish(None);
    batch.finish(Some(UnitOutcome::Error));
    assert!(batch.is_done());
    let s = batch.stats();
    assert_eq!(s.downloaded + s.ignored + s.errors + s.not_found, 2);
}

#[test]
fn empty_batch_is_done_at_once() {
    let mut batch = Batch::new(0, 20);
    assert!(batch.is_done());
    assert_eq!(batch.dispatch_next(), None);
}

#[test]
fn classification_priority() {
    let none: Vec<String> = Vec::new();
    assert_eq!(classify_response(404, "text/html", &none), ResponseClass::NotFound);
    assert_eq!(classify_response(404, "text/html", &list(&["image"])), ResponseClass::NotFound);
    assert_eq!(classify_response(500, "image/png", &list(&["image"])), ResponseClass::Failed);
    assert_eq!(classify_response(302, "", &none), ResponseClass::Failed);
    assert_eq!(classify_response(200, "text/html", &list(&["image"])), ResponseClass::Ignored);
    assert_eq!(classify_response(200, "text/html", &none), ResponseClass::Accepted);
    assert_eq!(classify_response(299, "", &none), ResponseClass::Accepted);
}

#[test]
fn content_type_is_compared_in_lower_case() {
    let filters = list(&["video", "image"]);
    assert_eq!(classify_response(200, "Image/PNG", &filters), ResponseClass::Accepted);
    assert_eq!(classify_lowered(200, "Image/PNG", &filters), ResponseClass::Ignored);
}

#[test]
fn outcome_of_each_class() {
    assert_eq!(unit_outcome(ResponseClass::NotFound, None), UnitOutcome::NotFound);
    assert_eq!(unit_outcome(ResponseClass::Failed, None), UnitOutcome::Error);
    assert_eq!(unit_outcome(ResponseClass::Ignored, None), UnitOutcome::Ignored);
    assert_eq!(unit_outcome(ResponseClass::Accepted, Some(42)), UnitOutcome::Downloaded(42));
    assert_eq!(unit_outcome(ResponseClass::Accepted, None), UnitOutcome::Error);
}

#[test]
fn file_names_are_zero_padded() {
    assert_eq!(download_file_name(7), "download_000007");
    assert_eq!(download_file_name(0), "download_000000");
    assert_eq!(download_file_name(123456), "download_123456");
    assert_eq!(download_file_name(1234567), "download_1234567");
}

#[test]
fn worker_waits_while_paused() {
    assert_eq!(next_worker_action(Some(TaskStatus::Paused)), WorkerAction::Wait);
    assert_eq!(next_worker_action(Some(TaskStatus::Running)), WorkerAction::Work);
    assert_eq!(next_worker_action(Some(TaskStatus::Stopped)), WorkerAction::Exit);
    assert_eq!(next_worker_action(Some(TaskStatus::Queued)), WorkerAction::Exit);
    assert_eq!(next_worker_action(None), WorkerAction::Exit);
}

#[test]
fn stats_record_one_class_each() {
    let mut s = Stats::new();
    assert_eq!((s.downloaded, s.total_bytes, s.ignored, s.errors, s.not_found), (0, 0, 0, 0, 0));
    s.record(UnitOutcome::Downloaded(u64::MAX));
    s.record(UnitOutcome::Downloaded(3));
    s.record(UnitOutcome::NotFound);
    assert_eq!((s.downloaded, s.total_bytes, s.ignored, s.errors, s.not_found), (2, u64::MAX, 0, 0, 1));
}
