use asset_extractor::progress::{ProgressCounter, ProgressReport};
use asset_extractor::worker::{Worker, WorkerAction, WorkerEvent, WorkerPhase, WorkerReport};

fn paths(names: &[&str]) -> Vec<String> {
    names.iter().map(|name| name.to_string()).collect()
}

fn read(path: &str) -> WorkerAction {
    WorkerAction::Read { path: path.to_string() }
}

fn write(path: &str) -> WorkerAction {
    WorkerAction::Write { path: path.to_string() }
}

#[test]
fn new_worker_is_idle_and_waits_for_start() {
    let mut worker = Worker::new(paths(&["a"]), "out".to_string());
    assert_eq!(worker.phase(), WorkerPhase::Idle);
    assert_eq!(worker.pending(), WorkerAction::AwaitStart);
    assert_eq!(worker.step(WorkerEvent::NotFound), WorkerAction::AwaitStart);
    assert_eq!(worker.step(WorkerEvent::Written), WorkerAction::AwaitStart);
    assert_eq!(worker.phase(), WorkerPhase::Idle);
    assert_eq!(
        worker.report(),
        WorkerReport { extracted: 0, skipped: 0, failed: false }
    );
}

#[test]
fn worker_without_paths_is_done_at_once() {
    let mut worker = Worker::new(Vec::new(), "out".to_string());
    assert_eq!(worker.step(WorkerEvent::Start), WorkerAction::Finish);
    assert_eq!(worker.phase(), WorkerPhase::Done);
    assert!(!worker.failed());
    assert_eq!(worker.extracted(), 0);
}

#[test]
fn worker_takes_its_paths_in_order() {
    let mut worker = Worker::new(paths(&["a/b.txt", "c.txt", "d.txt"]), "out".to_string());
    assert_eq!(worker.step(WorkerEvent::Start), read("a/b.txt"));
    assert_eq!(worker.phase(), WorkerPhase::Running);
    assert_eq!(worker.step(WorkerEvent::Found { len: 4 }), write("out/a/b.txt"));
    assert_eq!(worker.phase(), WorkerPhase::Running);
    assert_eq!(worker.extracted(), 0);
    assert_eq!(worker.step(WorkerEvent::Written), read("c.txt"));
    assert_eq!(worker.extracted(), 1);
    assert_eq!(worker.step(WorkerEvent::Found { len: 0 }), write("out/c.txt"));
    assert_eq!(worker.step(WorkerEvent::Written), read("d.txt"));
    assert_eq!(worker.step(WorkerEvent::Found { len: 9 }), write("out/d.txt"));
    assert_eq!(worker.step(WorkerEvent::Written), WorkerAction::Finish);
    assert_eq!(worker.phase(), WorkerPhase::Done);
    assert_eq!(
        worker.report(),
        WorkerReport { extracted: 3, skipped: 0, failed: false }
    );
}

#[test]
fn missing_path_is_skipped_and_not_counted() {
    let mut worker = Worker::new(paths(&["missing.dat", "present.dat"]), "out".to_string());
    assert_eq!(worker.step(WorkerEvent::Start), read("missing.dat"));
    assert_eq!(worker.step(WorkerEvent::NotFound), read("present.dat"));
    assert_eq!(worker.extracted(), 0);
    assert_eq!(worker.skipped(), 1);
    assert_eq!(worker.phase(), WorkerPhase::Running);
    assert_eq!(worker.step(WorkerEvent::Found { len: 2 }), write("out/present.dat"));
    assert_eq!(worker.step(WorkerEvent::Written), WorkerAction::Finish);
    assert_eq!(
        worker.report(),
        WorkerReport { extracted: 1, skipped: 1, failed: false }
    );
}

#[test]
fn missing_last_path_finishes_the_worker_without_failure() {
    let mut worker = Worker::new(paths(&["present.dat", "missing.dat"]), "out".to_string());
    worker.step(WorkerEvent::Start);
    worker.step(WorkerEvent::Found { len: 1 });
    assert_eq!(worker.step(WorkerEvent::Written), read("missing.dat"));
    assert_eq!(worker.step(WorkerEvent::NotFound), WorkerAction::Finish);
    assert_eq!(worker.phase(), WorkerPhase::Done);
    assert!(!worker.failed());
}

#[test]
fn failed_write_stops_the_worker() {
    let mut worker = Worker::new(paths(&["a", "b", "c"]), "out".to_string());
    worker.step(WorkerEvent::Start);
    worker.step(WorkerEvent::Found { len: 1 });
    assert_eq!(worker.step(WorkerEvent::Written), read("b"));
    assert_eq!(worker.step(WorkerEvent::Found { len: 1 }), write("out/b"));
    assert_eq!(worker.step(WorkerEvent::WriteFailed), WorkerAction::Finish);
    assert_eq!(worker.phase(), WorkerPhase::Done);
    assert!(worker.failed());
    assert_eq!(
        worker.report(),
        WorkerReport { extracted: 1, skipped: 0, failed: true }
    );
    assert_eq!(worker.step(WorkerEvent::Start), WorkerAction::Finish);
    assert_eq!(worker.step(WorkerEvent::Found { len: 1 }), WorkerAction::Finish);
    assert_eq!(worker.step(WorkerEvent::Written), WorkerAction::Finish);
    assert_eq!(
        worker.report(),
        WorkerReport { extracted: 1, skipped: 0, failed: true }
    );
}

#[test]
fn events_that_answer_nothing_are_ignored() {
    let mut worker = Worker::new(paths(&["a", "b"]), "out".to_string());
    assert_eq!(worker.step(WorkerEvent::Start), read("a"));
    assert_eq!(worker.step(WorkerEvent::Start), read("a"));
    assert_eq!(worker.step(WorkerEvent::Written), read("a"));
    assert_eq!(worker.step(WorkerEvent::WriteFailed), read("a"));
    assert!(!worker.failed());
    assert_eq!(worker.step(WorkerEvent::Found { len: 7 }), write("out/a"));
    assert_eq!(worker.step(WorkerEvent::Found { len: 8 }), write("out/a"));
    assert_eq!(worker.step(WorkerEvent::NotFound), write("out/a"));
    assert_eq!(worker.step(WorkerEvent::Start), write("out/a"));
    assert_eq!(worker.pending(), write("out/a"));
    assert_eq!(worker.step(WorkerEvent::Written), read("b"));
    assert_eq!(worker.extracted(), 1);
    assert_eq!(worker.skipped(), 0);
}

#[test]
fn write_goes_to_the_mapped_output_path() {
    let mut worker = Worker::new(paths(&["ui/icon/000000/000001.tex"]), "/srv/out/".to_string());
    worker.step(WorkerEvent::Start);
    assert_eq!(
        worker.step(WorkerEvent::Found { len: 3 }),
        write("/srv/out/ui/icon/000000/000001.tex")
    );
}

#[test]
fn counted_step_advances_progress_once_per_extracted_path() {
    let mut progress = ProgressCounter::new(3);
    let mut worker = Worker::new(paths(&["a", "b", "c"]), "out".to_string());
    assert_eq!(worker.step_counted(WorkerEvent::Start, &mut progress), (read("a"), None));
    assert_eq!(
        worker.step_counted(WorkerEvent::Found { len: 1 }, &mut progress),
        (write("out/a"), None)
    );
    assert_eq!(progress.completed(), 0);
    assert_eq!(worker.step_counted(WorkerEvent::Written, &mut progress), (read("b"), None));
    assert_eq!(progress.completed(), 1);
    assert_eq!(worker.step_counted(WorkerEvent::Written, &mut progress), (read("b"), None));
    assert_eq!(progress.completed(), 1);
    assert_eq!(worker.step_counted(WorkerEvent::NotFound, &mut progress), (read("c"), None));
    assert_eq!(progress.completed(), 1);
    worker.step_counted(WorkerEvent::Found { len: 1 }, &mut progress);
    assert_eq!(
        worker.step_counted(WorkerEvent::WriteFailed, &mut progress),
        (WorkerAction::Finish, None)
    );
    assert_eq!(progress.completed(), 1);
    assert_eq!(worker.extracted(), 1);
}

#[test]
fn counted_step_hands_out_the_report_that_is_due() {
    let mut progress = ProgressCounter::new(5000);
    for _ in 0..999 {
        progress.record_extracted();
    }
    let mut worker = Worker::new(paths(&["a", "b"]), "out".to_string());
    worker.step_counted(WorkerEvent::Start, &mut progress);
    worker.step_counted(WorkerEvent::Found { len: 1 }, &mut progress);
    assert_eq!(
        worker.step_counted(WorkerEvent::Written, &mut progress),
        (read("b"), Some(ProgressReport { completed: 1000, total: 5000 }))
    );
    worker.step_counted(WorkerEvent::Found { len: 1 }, &mut progress);
    assert_eq!(
        worker.step_counted(WorkerEvent::Written, &mut progress),
        (WorkerAction::Finish, None)
    );
    assert_eq!(progress.completed(), 1001);
}
