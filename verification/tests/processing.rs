use adcp::backup::{Backup, RawAppendEffect};
use adcp::datetime::{Date, DateTime, Time};
use adcp::processing::{failed_name, is_skipped_name, plan_cycle, processing_name, FileInfo};

fn info(name: &str, age_secs: u64, marker_age_secs: Option<u64>) -> FileInfo {
    FileInfo { name: name.to_string(), age_secs, marker_age_secs }
}

#[test]
fn young_file_is_not_stable() {
    let e = info("2026-01-01.raw", 3, None);
    assert!(!e.is_stable(5));
}

#[test]
fn old_file_with_fresh_marker_is_not_stable() {
    let e = info("2026-01-01.raw", 10, Some(2));
    assert!(!e.is_stable(5));
}

#[test]
fn old_file_without_marker_is_stable() {
    let e = info("2026-01-01.raw", 10, None);
    assert!(e.is_stable(5));
}

#[test]
fn old_file_with_old_marker_is_stable() {
    let e = info("2026-01-01.raw", 10, Some(7));
    assert!(e.is_stable(5));
}

#[test]
fn markers_and_reserved_files_are_skipped() {
    assert!(is_skipped_name("2026-01-01.raw.writing"));
    assert!(is_skipped_name("2026-01-01.raw.failed"));
    assert!(is_skipped_name("2026-01-01.raw.processing"));
    assert!(!is_skipped_name("2026-01-01.raw"));
}

#[test]
fn plan_is_sorted_and_keeps_only_stable_files() {
    let entries = vec![
        info("2026-01-02.raw", 10, None),
        info("2026-01-01.raw", 10, Some(9)),
        info("2026-01-03.raw", 1, None),
        info("2026-01-04.raw", 10, Some(2)),
        info("2026-01-05.raw.writing", 10, None),
    ];
    let plan = plan_cycle(&entries, 5);
    assert_eq!(plan, vec!["2026-01-01.raw".to_string(), "2026-01-02.raw".to_string()]);
}

#[test]
fn files_are_processed_in_name_order() {
    let entries = vec![info("b.raw", 10, None), info("a.raw", 10, None)];
    let plan = plan_cycle(&entries, 5);
    assert_eq!(plan, vec!["a.raw".to_string(), "b.raw".to_string()]);
}

#[test]
fn a_freshly_written_file_is_never_reserved() {
    // the per-append sink advertises its writer through the marker; while the
    // marker is fresh, the scan plan leaves the file alone
    let mut sink = Backup::new_per_append();
    let ts = DateTime {
        date: Date { year: 2026, month: 1, day: 1 },
        time: Time { hour: 0, minute: 0, second: 0 },
    };
    let RawAppendEffect { file_name, marker_name } = sink.append("$PNORI,4*41", &ts);
    assert_eq!(file_name, "2026-01-01.raw");
    assert_eq!(marker_name.as_deref(), Some("2026-01-01.raw.writing"));
    let entries = vec![info(&file_name, 60, Some(0))];
    let plan = plan_cycle(&entries, 5);
    assert!(plan.is_empty());
}

#[test]
fn reservation_and_failure_names() {
    let name = "2026-01-01.raw".to_string();
    assert_eq!(processing_name(&name), "2026-01-01.raw.processing");
    assert_eq!(failed_name(&name), "2026-01-01.raw.failed");
}
