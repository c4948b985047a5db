use asset_extractor::progress::{ProgressCounter, ProgressReport, REPORT_INTERVAL};

#[test]
fn counter_starts_at_zero() {
    let counter = ProgressCounter::new(12);
    assert_eq!(counter.completed(), 0);
    assert_eq!(counter.total(), 12);
    assert_eq!(counter.report(), ProgressReport { completed: 0, total: 12 });
}

#[test]
fn every_extracted_file_counts_once() {
    let mut counter = ProgressCounter::new(5);
    for expected in 1..=5 {
        assert_eq!(counter.record_extracted(), None);
        assert_eq!(counter.completed(), expected);
    }
}

#[test]
fn counter_never_exceeds_the_manifest_length() {
    let mut counter = ProgressCounter::new(2);
    counter.record_extracted();
    counter.record_extracted();
    assert_eq!(counter.record_extracted(), None);
    assert_eq!(counter.completed(), 2);
    let mut empty = ProgressCounter::new(0);
    assert_eq!(empty.record_extracted(), None);
    assert_eq!(empty.completed(), 0);
}

#[test]
fn report_is_due_at_every_thousandth_file() {
    assert_eq!(REPORT_INTERVAL, 1000);
    let mut counter = ProgressCounter::new(2500);
    let mut reports = Vec::new();
    for _ in 0..2500 {
        if let Some(report) = counter.record_extracted() {
            reports.push(report);
        }
    }
    assert_eq!(
        reports,
        vec![
            ProgressReport { completed: 1000, total: 2500 },
            ProgressReport { completed: 2000, total: 2500 },
        ]
    );
    assert_eq!(counter.completed(), 2500);
}

#[test]
fn no_report_at_the_cap() {
    let mut counter = ProgressCounter::new(1000);
    for _ in 0..999 {
        assert_eq!(counter.record_extracted(), None);
    }
    assert_eq!(
        counter.record_extracted(),
        Some(ProgressReport { completed: 1000, total: 1000 })
    );
    assert_eq!(counter.record_extracted(), None);
    assert_eq!(counter.completed(), 1000);
}
