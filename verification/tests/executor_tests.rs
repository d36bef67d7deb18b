use fanout::executor::{decide, exit_code, report, Executor, MoveDecision, MoveOutcome};
use fanout::planner::PlanEntry;

fn entry(dest: &[u8]) -> PlanEntry {
    PlanEntry {
        source: b"src/f".to_vec(),
        prefix: b"out/p".to_vec(),
        group: Some(0),
        dest: dest.to_vec(),
    }
}

#[test]
fn dry_run_only_reports() {
    for &dest_exists in &[false, true] {
        for &same_content in &[false, true] {
            assert_eq!(decide(true, dest_exists, same_content), MoveDecision::Report);
        }
    }
}

#[test]
fn collision_is_skipped_and_run_continues() {
    let e1 = entry(b"out/p/0/f");
    let e2 = entry(b"out/p/0/f");
    let mut ex = Executor::new(vec![e1, e2]);

    assert!(!ex.finished());
    assert_eq!(decide(false, false, false), MoveDecision::DoMove);
    ex.record(MoveOutcome::Moved);

    assert!(!ex.finished());
    assert_eq!(decide(false, true, false), MoveDecision::SkipCollision);
    ex.record(MoveOutcome::Collision);

    assert!(ex.finished());
    let r = report(&ex, 0, 0);
    assert_eq!(r.planned, 2);
    assert_eq!(r.moved, 1);
    assert_eq!(r.collisions, 1);
    assert!(!r.fatal);
    assert_eq!(exit_code(&r), 0);
}

#[test]
fn moving_over_identical_content_proceeds() {
    assert_eq!(decide(false, true, true), MoveDecision::DoMove);
}

#[test]
fn fatal_outcome_stops_the_run() {
    let mut ex = Executor::new(vec![entry(b"a"), entry(b"b"), entry(b"c")]);
    ex.record(MoveOutcome::Fatal);
    assert!(ex.finished());
    let r = report(&ex, 0, 0);
    assert_eq!(r.io_errors, 1);
    assert!(r.fatal);
    assert_eq!(exit_code(&r), 1);
}

#[test]
fn per_file_io_error_does_not_stop_the_run() {
    let mut ex = Executor::new(vec![entry(b"a"), entry(b"b")]);
    ex.record(MoveOutcome::IoError);
    assert!(!ex.finished());
    ex.record(MoveOutcome::Moved);
    assert!(ex.finished());
    let r = report(&ex, 4, 2);
    assert_eq!(r.io_errors, 1);
    assert_eq!(r.moved, 1);
    assert_eq!(r.skipped_limit, 4);
    assert_eq!(r.failed_extract, 2);
    assert!(!r.fatal);
    assert_eq!(exit_code(&r), 0);
}

#[test]
fn dry_run_counts_every_entry_as_reported() {
    let mut ex = Executor::new(vec![entry(b"a"), entry(b"b")]);
    while !ex.finished() {
        let d = decide(true, false, false);
        assert_eq!(d, MoveDecision::Report);
        ex.record(MoveOutcome::Reported);
    }
    let r = report(&ex, 0, 0);
    assert_eq!(r.reported, 2);
    assert_eq!(r.moved, 0);
}
