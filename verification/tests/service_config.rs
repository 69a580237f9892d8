use adcp::backup::{archive_dir_name, is_marker_name, is_raw_name, Backup, RawAppendEffect};
use adcp::config::{effective_service_name, AppConfig, ServiceMode, SplitMode};
use adcp::datetime::{Date, DateTime, Time};
use adcp::metrics::Metrics;
use adcp::platform::platform_template;
use adcp::service::{heartbeat_file_path, heartbeat_interval_secs, heartbeat_stale, stale_threshold_secs};

#[test]
fn linux_template_includes_execstart() {
    let template = platform_template();
    assert!(template.contains("ExecStart=/usr/local/bin/adcp"));
}

#[test]
fn defaults_match_the_documented_configuration() {
    let config = AppConfig::with_defaults("test-dummy".to_string());
    assert_eq!(config.service_name, "test-dummy");
    assert_eq!(config.log_level, "info");
    assert_eq!(config.data_directory, "./deployment/data");
    assert_eq!(config.baud_rate, 115200);
    assert_eq!(config.idle_threshold_seconds, 30);
    assert!(config.alert_webhook.is_none());
    assert!(matches!(config.mode, ServiceMode::Recording));
    assert_eq!(config.backup_folder, "./deployment/backup");
    assert_eq!(config.data_process_folder, "./deployment/to_process");
    assert_eq!(config.processed_folder, "./deployment/processed");
    assert!(matches!(config.split_mode, SplitMode::Daily));
    assert!(config.max_backup_files.is_none());
    assert!(config.max_backup_age_days.is_none());
    assert_eq!(config.file_stability_seconds, 5);
    assert_eq!(AppConfig::default_path(), "config/adcp.toml");
}

#[test]
fn blank_service_name_falls_back() {
    assert_eq!(effective_service_name(&"   ".to_string()), "adcp-supervisor");
    assert_eq!(effective_service_name(&"sonar".to_string()), "sonar");
}

#[test]
fn heartbeat_cadence_follows_stability() {
    assert_eq!(heartbeat_interval_secs(0), 1);
    assert_eq!(heartbeat_interval_secs(1), 1);
    assert_eq!(heartbeat_interval_secs(3), 3);
    assert_eq!(heartbeat_interval_secs(5), 5);
    assert_eq!(heartbeat_interval_secs(600), 5);
}

#[test]
fn watchdog_threshold_is_three_periods_with_a_floor() {
    assert_eq!(stale_threshold_secs(0), 10);
    assert_eq!(stale_threshold_secs(3), 10);
    assert_eq!(stale_threshold_secs(4), 12);
    assert_eq!(stale_threshold_secs(5), 15);
    assert_eq!(stale_threshold_secs(u64::MAX), u64::MAX);
    assert!(heartbeat_stale(11, 10));
    assert!(!heartbeat_stale(10, 10));
}

#[test]
fn heartbeat_path_replaces_spaces() {
    let p = heartbeat_file_path(&"my recorder".to_string());
    assert_eq!(p, "./deployment/tmp/adcp_my_recorder_hb");
}

#[test]
fn metrics_count_and_report() {
    let mut m = Metrics::new();
    let s0 = m.snapshot();
    assert_eq!(s0.frames, 0);
    assert!(s0.last_frame_age.is_none());
    m.record_frame();
    m.record_frame();
    m.record_parse_error();
    m.record_persistence_error();
    let s = m.snapshot();
    assert_eq!(s.frames, 2);
    assert_eq!(s.parse_errors, 1);
    assert_eq!(s.persistence_errors, 1);
    assert!(s.last_frame_age.is_some());
    assert!(!s.idle_exceeded(u64::MAX));
}

#[test]
fn long_lived_sink_rolls_by_date() {
    let mut sink = Backup::new();
    let day1 = DateTime {
        date: Date { year: 2026, month: 1, day: 5 },
        time: Time { hour: 10, minute: 0, second: 0 },
    };
    let day2 = DateTime {
        date: Date { year: 2026, month: 2, day: 5 },
        time: Time { hour: 10, minute: 0, second: 0 },
    };
    let e1: RawAppendEffect = sink.append("line1", &day1);
    assert_eq!(e1.file_name, "2026-01-05.raw");
    assert!(e1.marker_name.is_none());
    let e2 = sink.append("line2", &day2);
    assert_eq!(e2.file_name, "2026-02-05.raw");
}

#[test]
fn startup_archive_names_and_filters() {
    let now = DateTime {
        date: Date { year: 2026, month: 1, day: 5 },
        time: Time { hour: 22, minute: 8, second: 0 },
    };
    assert_eq!(archive_dir_name(&now), "archive_20260105_220800");
    assert!(is_raw_name("2026-01-05.raw"));
    assert!(!is_raw_name("2026-01-05.raw.writing"));
    assert!(is_marker_name("2026-01-05.raw.writing"));
}
