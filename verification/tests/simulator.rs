use adcp::persistence::{AppendEffect, Persistence};
use adcp::simulator::{normalize_capture, replay_capture};

#[test]
fn normalizes_literal_crlf_sequences() {
    let raw = "$PNORI,4*41\\r\\n$PNORS,010526,220800*77";
    let lines = normalize_capture(raw);
    assert_eq!(lines.len(), 2);
    assert_eq!(lines[0], "$PNORI,4*41");
    assert_eq!(lines[1], "$PNORS,010526,220800*77");
}

#[test]
fn normalizes_real_line_endings_and_blanks() {
    let raw = "\r\n$PNORI,4*41\r\n\r\n$PNORS,010526,220800*77\r\n";
    let lines = normalize_capture(raw);
    assert_eq!(lines.len(), 2);
    assert_eq!(lines[0], "$PNORI,4*41");
    assert_eq!(lines[1], "$PNORS,010526,220800*77");
}

#[test]
fn replay_counts_and_persists() {
    let content = "$PNORI,4,Signature1000_100297,4,21,0.20,1.00,0*41\n$PNORS,010526,220800,00000000,3ED40002,23.7,1532.0,275.4,-49.1,83.0,0.000,24.02,0,0*77\nnot a sentence\n";
    let mut persistence = Persistence::new();
    let (result, effects) = replay_capture(content, &mut persistence);
    assert_eq!(result.frames_processed, 2);
    // the trailing junk shares the sensor's chunk and is discarded, not fatal
    assert_eq!(result.parse_errors, 0);
    assert_eq!(result.persistence_errors, 0);
    assert_eq!(result.failures, vec!["\nnot a sentence".to_string()]);
    assert_eq!(effects.len(), 2);
    assert!(matches!(effects[0], AppendEffect::Buffered));
    match &effects[1] {
        AppendEffect::Write { file_name, lines } => {
            assert_eq!(file_name, "adcp-2026-01-05.log");
            assert_eq!(lines.len(), 2);
            assert!(lines[0].contains("PNORI"));
            assert!(lines[1].contains("PNORS"));
        }
        AppendEffect::Buffered => panic!("expected a write"),
    }
    assert_eq!(persistence.current_path(), "adcp-2026-01-05.log");
}

#[test]
fn replay_rotates_across_days() {
    let content = "$PNORS,010526,220800,00000000,3ED40002,23.7,1532.0,275.4,-49.1,83.0,0.000,24.02,0,0*77\n$PNORS,020526,220800,00000000,3ED40002,23.7,1532.0,275.4,-49.1,83.0,0.000,24.02,0,0*74\n";
    let mut persistence = Persistence::new();
    let (result, effects) = replay_capture(content, &mut persistence);
    assert_eq!(result.frames_processed, 2);
    assert_eq!(result.parse_errors, 0);
    let names: Vec<String> = effects
        .into_iter()
        .map(|e| match e {
            AppendEffect::Write { file_name, .. } => file_name,
            AppendEffect::Buffered => panic!("expected writes"),
        })
        .collect();
    assert_eq!(names, vec!["adcp-2026-01-05.log".to_string(), "adcp-2026-02-05.log".to_string()]);
    assert_eq!(persistence.current_path(), "adcp-2026-02-05.log");
}

#[test]
fn replay_collects_discarded_junk() {
    let content = "junk$PNORI,4,Signature1000_100297,4,21,0.20,1.00,0*41tail\n";
    let mut persistence = Persistence::new();
    let (result, _effects) = replay_capture(content, &mut persistence);
    assert_eq!(result.frames_processed, 1);
    assert_eq!(result.parse_errors, 1);
    assert_eq!(result.failures.len(), 2);
    assert!(result.failures.contains(&"tail".to_string()));
    assert!(result.failures.contains(&"$junk".to_string()));
}
