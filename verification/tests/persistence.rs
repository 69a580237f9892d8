use adcp::parser::Frame;
use adcp::persistence::{AppendEffect, Persistence};

fn write_effect(eff: AppendEffect) -> (String, Vec<String>) {
    match eff {
        AppendEffect::Write { file_name, lines } => (file_name, lines),
        AppendEffect::Buffered => panic!("expected a write effect"),
    }
}

#[test]
fn rotates_using_frame_timestamp_date() {
    let mut persistence = Persistence::new();
    let sensor = Frame::from_line(
        "$PNORS,010526,220800,00000000,3ED40002,23.7,1532.0,275.4,-49.1,83.0,0.000,24.02,0,0*77",
    )
    .expect("parse sensor");
    let (file_name, lines) = write_effect(persistence.append(&sensor));
    assert!(
        persistence.current_path().contains("2026-01-05"),
        "expected file to reflect payload date"
    );
    assert_eq!(file_name, "adcp-2026-01-05.log");
    assert_eq!(lines.len(), 1);
    assert!(lines[0].contains("PNORS"));
}

#[test]
fn buffers_undated_until_timestamp_present() {
    let mut persistence = Persistence::new();
    let config = Frame::from_line("$PNORI,4,Signature1000_100297,4,21,0.20,1.00,0*41")
        .expect("parse config");
    let eff = persistence.append(&config);
    assert!(matches!(eff, AppendEffect::Buffered));
    assert_eq!(persistence.day_count(), 0);
    assert_eq!(persistence.pending_count(), 1);

    let sensor = Frame::from_line(
        "$PNORS,010526,220800,00000000,3ED40002,23.7,1532.0,275.4,-49.1,83.0,0.000,24.02,0,0*77",
    )
    .expect("parse sensor");
    let (file_name, lines) = write_effect(persistence.append(&sensor));
    assert_eq!(file_name, "adcp-2026-01-05.log");
    assert_eq!(lines.len(), 2);
    assert!(lines[0].contains("PNORI"));
    assert!(lines[1].contains("PNORS"));
}

#[test]
fn rotation_across_days_writes_two_files() {
    let mut persistence = Persistence::new();
    let day1 = Frame::from_line(
        "$PNORS,010526,220800,00000000,3ED40002,23.7,1532.0,275.4,-49.1,83.0,0.000,24.02,0,0*77",
    )
    .expect("parse day one sensor");
    let day2 = Frame::from_line(
        "$PNORS,020526,220800,00000000,3ED40002,23.7,1532.0,275.4,-49.1,83.0,0.000,24.02,0,0*74",
    )
    .expect("parse day two sensor");
    let (name1, lines1) = write_effect(persistence.append(&day1));
    assert_eq!(name1, "adcp-2026-01-05.log");
    assert_eq!(lines1.len(), 1);
    assert_eq!(persistence.current_path(), "adcp-2026-01-05.log");
    let (name2, lines2) = write_effect(persistence.append(&day2));
    assert_eq!(name2, "adcp-2026-02-05.log");
    assert_eq!(lines2.len(), 1);
    assert_eq!(persistence.current_path(), "adcp-2026-02-05.log");
    assert_ne!(name1, name2);
    assert_eq!(persistence.day_count(), 2);
}

#[test]
fn current_path_names_the_latest_appended_date() {
    let mut persistence = Persistence::new();
    let sensor = Frame::from_line(
        "$PNORS,020526,220800,00000000,3ED40002,23.7,1532.0,275.4,-49.1,83.0,0.000,24.02,0,0*74",
    )
    .expect("parse sensor");
    persistence.append(&sensor);
    assert_eq!(persistence.current_path(), "adcp-2026-02-05.log");
}

#[test]
fn current_path_falls_back_to_today() {
    let persistence = Persistence::new();
    let path = persistence.current_path();
    assert!(path.starts_with("adcp-"));
    assert!(path.ends_with(".log"));
    assert_eq!(path.len(), "adcp-0000-00-00.log".len());
}

#[test]
fn undated_after_dated_joins_the_open_file() {
    let mut persistence = Persistence::new();
    let sensor = Frame::from_line(
        "$PNORS,010526,220800,00000000,3ED40002,23.7,1532.0,275.4,-49.1,83.0,0.000,24.02,0,0*77",
    )
    .expect("parse sensor");
    let config = Frame::from_line("$PNORI,4,Signature1000_100297,4,21,0.20,1.00,0*41")
        .expect("parse config");
    persistence.append(&sensor);
    let (file_name, lines) = write_effect(persistence.append(&config));
    assert_eq!(file_name, "adcp-2026-01-05.log");
    assert_eq!(lines.len(), 1);
    assert!(lines[0].contains("PNORI"));
}
