use adcp::datetime::{Date, DateTime, Time};
use adcp::parser::{
    is_invalid_field, parse_coordinate_system, parse_hex_u32, parse_opt_number, parse_opt_u8,
    AmplitudeUnit, CoordinateSystem, Frame, InstrumentType, ParseError, Payload,
};
use adcp::text::str_chars;

fn dt(year: u16, month: u8, day: u8, hour: u8, minute: u8, second: u8) -> DateTime {
    DateTime { date: Date { year, month, day }, time: Time { hour, minute, second } }
}

#[test]
fn parses_pnori_config() {
    let raw = "$PNORI,4,Signature1000_100297,4,21,0.20,1.00,0*41";
    let frame = Frame::from_line(raw).expect("parse config");
    match frame.payload {
        Payload::Config(cfg) => {
            assert!(frame.checksum.valid);
            assert!(matches!(cfg.instrument_type, InstrumentType::Signature));
            assert_eq!(cfg.head_id, "Signature1000_100297");
            assert_eq!(cfg.beams, 4);
            assert_eq!(cfg.cells, 21);
            assert_eq!(cfg.coordinate_system, CoordinateSystem::Enu);
        }
        _ => panic!("expected config"),
    }
}

#[test]
fn parses_pnors_sensor() {
    let raw = "$PNORS,010526,220800,00000000,3ED40002,23.7,1532.0,275.4,-49.1,83.0,0.000,24.02,0,0*77";
    let frame = Frame::from_line(raw).expect("parse sensor");
    match frame.payload {
        Payload::Sensor(sensor) => {
            let expected_ts = dt(2026, 1, 5, 22, 8, 0);
            assert_eq!(sensor.sent_at, expected_ts);
            assert_eq!(sensor.error_code_hex, 0x00000000);
            assert_eq!(sensor.status_code_hex, 0x3ED40002);
            assert_eq!(sensor.battery_voltage_v, Some("23.7".to_string()));
            assert_eq!(sensor.temperature_c, Some("24.02".to_string()));
        }
        _ => panic!("expected sensor"),
    }
}

#[test]
fn parses_pnorc_current_with_invalid_flags() {
    let raw = "$PNORC,010526,220800,4,0.56,-0.80,-1.99,-1.33,0.98,305.2,C,80,88,67,78,13,17,10,18*26";
    let frame = Frame::from_line(raw).expect("parse current");
    match frame.payload {
        Payload::Current(cur) => {
            assert_eq!(cur.cell_number, 4);
            assert_eq!(cur.direction_deg, Some("305.2".to_string()));
            assert_eq!(cur.amplitude_unit, AmplitudeUnit::Counts);
            assert_eq!(cur.amplitude_beam_1, Some(80));
            assert_eq!(cur.correlation_beam_4_pct, Some(18));
        }
        _ => panic!("expected current"),
    }
}

#[test]
fn rejects_bad_checksum() {
    let raw = "$PNORI,4,Signature1000_100297,4,21,0.20,1.00,0*40";
    let err = Frame::from_line(raw).unwrap_err();
    assert!(matches!(err, ParseError::ChecksumMismatch { .. }));
}

#[test]
fn treats_minus_nine_variants_as_missing() {
    let raw = "$PNORC,010526,220800,1,-9.00,-9,-9.0,-9.99,-9,305.2,C,-9,-9,-9,-9,-9,-9,-9,-9*1A";
    let frame = Frame::from_line(raw).expect("parse with sentinels");
    match frame.payload {
        Payload::Current(cur) => {
            assert_eq!(cur.velocity_1_m_s, None);
            assert_eq!(cur.correlation_beam_4_pct, None);
        }
        _ => panic!("expected current"),
    }
}

#[test]
fn parses_with_junk_and_records_it() {
    let raw = "prefix_junk$PNORI,4,Signature1000_100297,4,21,0.20,1.00,0*41suffix_junk";
    let frame = Frame::from_line(raw).expect("parse config with junk");
    assert_eq!(frame.discarded.len(), 2);
    assert!(frame.discarded.contains(&"prefix_junk".to_string()));
    assert!(frame.discarded.contains(&"suffix_junk".to_string()));
    assert_eq!(frame.raw, "$PNORI,4,Signature1000_100297,4,21,0.20,1.00,0*41");
}

#[test]
fn junk_does_not_change_the_payload() {
    let clean = "$PNORI,4,Signature1000_100297,4,21,0.20,1.00,0*41";
    let noisy = "prefix_junk$PNORI,4,Signature1000_100297,4,21,0.20,1.00,0*41suffix_junk";
    let a = Frame::from_line(clean).expect("parse clean");
    let b = Frame::from_line(noisy).expect("parse noisy");
    assert_eq!(a.payload, b.payload);
    assert_eq!(a.checksum, b.checksum);
    // the junk is stripped from the kept line, not just recorded
    assert_eq!(a.raw, clean);
    assert_eq!(b.raw, clean);
    assert!(a.discarded.is_empty());
}

#[test]
fn valid_config_scenario() {
    let raw = "$PNORI,4,Signature1000_100297,4,21,0.20,1.00,0*41";
    let frame = Frame::from_line(raw).expect("parse config");
    assert!(frame.checksum.valid);
    assert!(frame.discarded.is_empty());
    assert_eq!(frame.raw, raw);
    match frame.payload {
        Payload::Config(cfg) => {
            assert_eq!(cfg.instrument_type, InstrumentType::Signature);
            assert_eq!(cfg.head_id, "Signature1000_100297");
            assert_eq!(cfg.beams, 4);
            assert_eq!(cfg.cells, 21);
            assert_eq!(cfg.blanking_m, "0.20");
            assert_eq!(cfg.cell_size_m, "1.00");
            assert_eq!(cfg.coordinate_system, CoordinateSystem::Enu);
        }
        _ => panic!("expected config"),
    }
}

#[test]
fn sentinel_scenario_keeps_direction_and_unit() {
    let raw = "$PNORC,010526,220800,1,-9.00,-9,-9.0,-9.99,-9,305.2,C,-9,-9,-9,-9,-9,-9,-9,-9*1A";
    let frame = Frame::from_line(raw).expect("parse with sentinels");
    match frame.payload {
        Payload::Current(cur) => {
            assert_eq!(cur.velocity_1_m_s, None);
            assert_eq!(cur.velocity_2_m_s, None);
            assert_eq!(cur.velocity_3_m_s, None);
            assert_eq!(cur.velocity_4_m_s, None);
            assert_eq!(cur.speed_m_s, None);
            assert_eq!(cur.amplitude_beam_1, None);
            assert_eq!(cur.amplitude_beam_2, None);
            assert_eq!(cur.amplitude_beam_3, None);
            assert_eq!(cur.amplitude_beam_4, None);
            assert_eq!(cur.correlation_beam_1_pct, None);
            assert_eq!(cur.correlation_beam_2_pct, None);
            assert_eq!(cur.correlation_beam_3_pct, None);
            assert_eq!(cur.correlation_beam_4_pct, None);
            assert_eq!(cur.direction_deg, Some("305.2".to_string()));
            assert_eq!(cur.amplitude_unit, AmplitudeUnit::Counts);
        }
        _ => panic!("expected current"),
    }
}

#[test]
fn checksum_mismatch_reports_both_values() {
    let raw = "$PNORI,4,Signature1000_100297,4,21,0.20,1.00,0*40";
    let err = Frame::from_line(raw).unwrap_err();
    assert_eq!(err, ParseError::ChecksumMismatch { provided: 0x40, computed: 0x41 });
}

#[test]
fn missing_star_is_malformed() {
    let err = Frame::from_line("$PNORI,4,head").unwrap_err();
    assert_eq!(err, ParseError::ChecksumMalformed);
}

#[test]
fn one_hex_digit_is_malformed() {
    let err = Frame::from_line("$PNORI,4,head*4").unwrap_err();
    assert_eq!(err, ParseError::ChecksumMalformed);
}

#[test]
fn unsupported_sentence_is_a_schema_error() {
    let err = Frame::from_line("$PNORX,1,2*58").unwrap_err();
    assert_eq!(err, ParseError::SchemaError);
}

#[test]
fn short_config_is_a_schema_error() {
    let err = Frame::from_line("$PNORI,4,head,4,21,0.20,1.00*42").unwrap_err();
    assert_eq!(err, ParseError::SchemaError);
}

#[test]
fn impossible_date_is_a_date_error() {
    let err =
        Frame::from_line("$PNORS,990526,220800,00000000,3ED40002,1,1,1,1,1,1,1,1,1*40").unwrap_err();
    assert_eq!(err, ParseError::DateError);
}

#[test]
fn impossible_time_is_a_time_error() {
    let err =
        Frame::from_line("$PNORS,010526,236000,00000000,3ED40002,1,1,1,1,1,1,1,1,1*4E").unwrap_err();
    assert_eq!(err, ParseError::TimeError);
}

#[test]
fn bad_code_is_a_hex_error() {
    let err =
        Frame::from_line("$PNORS,010526,220800,XYZ,3ED40002,1,1,1,1,1,1,1,1,1*1A").unwrap_err();
    assert_eq!(err, ParseError::HexError);
}

#[test]
fn other_instrument_and_unknown_coordinates_survive() {
    let frame = Frame::from_line("$PNORI,5,head,4,21,0.20,1.00,3*5C").expect("parse config");
    match frame.payload {
        Payload::Config(cfg) => {
            assert_eq!(cfg.instrument_type, InstrumentType::Other(5));
            assert_eq!(cfg.coordinate_system, CoordinateSystem::Unknown(3));
        }
        _ => panic!("expected config"),
    }
}

#[test]
fn undated_frame_gets_a_real_clock_date() {
    let frame = Frame::from_line("$PNORI,4,Signature1000_100297,4,21,0.20,1.00,0*41")
        .expect("parse config");
    let d = frame.recorded_at.date;
    let t = frame.recorded_at.time;
    assert!((1..=12).contains(&d.month));
    assert!((1..=31).contains(&d.day));
    assert!(t.hour < 24 && t.minute < 60 && t.second < 60);
}

#[test]
fn sensor_line_serializes_exactly() {
    let raw = "$PNORS,010526,220800,00000000,3ED40002,23.7,1532.0,275.4,-49.1,83.0,0.000,24.02,0,0*77";
    let frame = Frame::from_line(raw).expect("parse sensor");
    let line = frame.to_persistence_line();
    let expected = "{\"recorded_at\":\"2026-01-05T22:08:00Z\",\"raw\":\"$PNORS,010526,220800,00000000,3ED40002,23.7,1532.0,275.4,-49.1,83.0,0.000,24.02,0,0*77\",\"checksum\":{\"provided\":119,\"computed\":119,\"valid\":true},\"payload\":{\"type\":\"sensor\",\"sent_at\":\"2026-01-05T22:08:00Z\",\"error_code_hex\":0,\"status_code_hex\":1054081026,\"battery_voltage_v\":23.7,\"sound_speed_m_s\":1532.0,\"heading_deg\":275.4,\"pitch_deg\":-49.1,\"roll_deg\":83.0,\"pressure_dbar\":0.000,\"temperature_c\":24.02,\"analog_input_1\":0,\"analog_input_2\":0}}";
    assert_eq!(line, expected);
}

#[test]
fn field_readers_follow_the_documented_policies() {
    assert_eq!(parse_coordinate_system(&str_chars("0")), Ok(CoordinateSystem::Enu));
    assert_eq!(parse_coordinate_system(&str_chars("1")), Ok(CoordinateSystem::Xyz));
    assert_eq!(parse_coordinate_system(&str_chars("2")), Ok(CoordinateSystem::Beam));
    assert_eq!(parse_coordinate_system(&str_chars("7")), Ok(CoordinateSystem::Unknown(7)));
    assert_eq!(parse_coordinate_system(&str_chars("x")), Err(ParseError::SchemaError));
    assert_eq!(parse_hex_u32(&str_chars("3ED40002")), Ok(0x3ED40002));
    assert_eq!(parse_hex_u32(&str_chars("zz")), Err(ParseError::HexError));
    assert!(is_invalid_field(&str_chars(" -9.7 ")));
    assert!(is_invalid_field(&str_chars("")));
    assert!(!is_invalid_field(&str_chars("-8.0")));
    assert_eq!(parse_opt_number(&str_chars("23.7")), Some("23.7".to_string()));
    assert_eq!(parse_opt_number(&str_chars("-9.00")), None);
    assert_eq!(parse_opt_number(&str_chars("abc")), None);
    assert_eq!(parse_opt_u8(&str_chars("80")), Some(80));
    assert_eq!(parse_opt_u8(&str_chars("-9")), None);
    assert_eq!(parse_opt_u8(&str_chars("300")), None);
}

#[test]
fn awkward_numerals_serialize_as_json_numbers() {
    // fields the permissive reader accepts but JSON would not take verbatim:
    // a plus sign, leading zeros, a bare trailing dot, a bare leading dot
    let raw = "$PNORS,010526,220800,00000000,3ED40002,+5,007,5.,.5,1,1,1,1,1*68";
    let frame = Frame::from_line(raw).expect("parse sensor");
    match &frame.payload {
        Payload::Sensor(sensor) => {
            // the fields keep the instrument's text
            assert_eq!(sensor.battery_voltage_v, Some("+5".to_string()));
            assert_eq!(sensor.sound_speed_m_s, Some("007".to_string()));
            assert_eq!(sensor.heading_deg, Some("5.".to_string()));
            assert_eq!(sensor.pitch_deg, Some(".5".to_string()));
        }
        _ => panic!("expected sensor"),
    }
    // the persisted line renders them as number tokens
    let line = frame.to_persistence_line();
    assert!(line.contains("\"battery_voltage_v\":5,"));
    assert!(line.contains("\"sound_speed_m_s\":7,"));
    assert!(line.contains("\"heading_deg\":5,"));
    assert!(line.contains("\"pitch_deg\":0.5,"));
}
