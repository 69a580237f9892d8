//! The NMEA-like sentence parser: checksum validation with junk-tolerant
//! framing, and the three supported sentences (`$PNORI` configuration,
//! `$PNORS` sensor, `$PNORC` current).
//!
//! Measurement fields that the instrument reports as decimal numerals are
//! kept as their validated numeral text, so that every accepted field is a
//! plain value the contracts can speak about.
use vstd::prelude::*;

use crate::clock::now_utc;
use crate::datetime::{days_in_month, Date, DateTime, Time};
use crate::text::{
    all_digits, chars_string, chars_vec, dec_val, hex_digit_char_q, hex_digit_val,
    hex_digit_val_of, is_hex_digit_char, is_number_text, is_space_char, number_text_q, parse_udec,
    parse_uhex, rfind_char_upto, space_char, spec_parse_udec, spec_parse_uhex, str_chars,
    trim_chars, trim_seq,
};
use vstd::utf8::encode_utf8;

verus! {

// ---------------------------------------------------------------------------
// Data model
// ---------------------------------------------------------------------------
/// A validated frame captured from the instrument stream.
#[derive(Debug, Clone, PartialEq)]
pub struct Frame {
    /// The payload's embedded timestamp when the sentence carries one,
    /// otherwise the instant of observation.
    pub recorded_at: DateTime,
    /// The cleaned input line: surrounding junk and terminators stripped,
    /// from the sentence marker through the second checksum digit.
    pub raw: String,
    pub checksum: Checksum,
    pub payload: Payload,
    /// Text fragments removed as junk during cleaning, in observed order.
    pub discarded: Vec<String>,
}

#[derive(Debug, Clone, Copy, PartialEq, Eq, Structural)]
pub struct Checksum {
    pub provided: u8,
    pub computed: u8,
    pub valid: bool,
}

#[derive(Debug, Clone, PartialEq)]
pub enum Payload {
    Config(ConfigSentence),
    Sensor(SensorSentence),
    Current(CurrentSentence),
}

#[derive(Debug, Clone, PartialEq)]
pub struct ConfigSentence {
    pub instrument_type: InstrumentType,
    pub head_id: String,
    pub beams: u8,
    pub cells: u16,
    /// Blanking distance in metres, as the accepted numeral text.
    pub blanking_m: String,
    /// Cell size in metres, as the accepted numeral text.
    pub cell_size_m: String,
    pub coordinate_system: CoordinateSystem,
}

#[derive(Debug, Clone, Copy, PartialEq, Eq, Structural)]
pub enum InstrumentType {
    Signature,
    Other(u8),
}

#[derive(Debug, Clone, Copy, PartialEq, Eq, Structural)]
pub enum CoordinateSystem {
    Enu,
    Xyz,
    Beam,
    Unknown(u8),
}

#[derive(Debug, Clone, PartialEq)]
pub struct SensorSentence {
    pub sent_at: DateTime,
    pub error_code_hex: u32,
    pub status_code_hex: u32,
    pub battery_voltage_v: Option<String>,
    pub sound_speed_m_s: Option<String>,
    pub heading_deg: Option<String>,
    pub pitch_deg: Option<String>,
    pub roll_deg: Option<String>,
    pub pressure_dbar: Option<String>,
    pub temperature_c: Option<String>,
    pub analog_input_1: Option<String>,
    pub analog_input_2: Option<String>,
}

#[derive(Debug, Clone, PartialEq)]
pub struct CurrentSentence {
    pub sent_at: DateTime,
    pub cell_number: u16,
    pub velocity_1_m_s: Option<String>,
    pub velocity_2_m_s: Option<String>,
    pub velocity_3_m_s: Option<String>,
    pub velocity_4_m_s: Option<String>,
    pub speed_m_s: Option<String>,
    pub direction_deg: Option<String>,
    pub amplitude_unit: AmplitudeUnit,
    pub amplitude_beam_1: Option<u8>,
    pub amplitude_beam_2: Option<u8>,
    pub amplitude_beam_3: Option<u8>,
    pub amplitude_beam_4: Option<u8>,
    pub correlation_beam_1_pct: Option<u8>,
    pub correlation_beam_2_pct: Option<u8>,
    pub correlation_beam_3_pct: Option<u8>,
    pub correlation_beam_4_pct: Option<u8>,
}

#[derive(Debug, Clone, PartialEq)]
pub enum AmplitudeUnit {
    Counts,
    Unknown(String),
}

/// Why a line was rejected. Every error is per-line and never fatal.
#[derive(Debug, Clone, Copy, PartialEq, Eq, Structural)]
pub enum ParseError {
    /// No `*` delimiter, or fewer than two hex digits in the checksum token.
    ChecksumMalformed,
    /// The provided checksum differs from the one computed over the body.
    ChecksumMismatch { provided: u8, computed: u8 },
    /// Wrong arity, unsupported sentence, or a malformed mandatory field.
    SchemaError,
    /// A date field that is not a real `MMDDYY` calendar date.
    DateError,
    /// A time field that is not a real `hhmmss` clock time.
    TimeError,
    /// A code field that is not a 32-bit hexadecimal number.
    HexError,
}

// ---------------------------------------------------------------------------
// Mathematical views
// ---------------------------------------------------------------------------
pub ghost struct ConfigV {
    pub instrument_type: InstrumentType,
    pub head_id: Seq<char>,
    pub beams: u8,
    pub cells: u16,
    pub blanking_m: Seq<char>,
    pub cell_size_m: Seq<char>,
    pub coordinate_system: CoordinateSystem,
}

pub ghost struct SensorV {
    pub sent_at: DateTime,
    pub error_code_hex: u32,
    pub status_code_hex: u32,
    pub battery_voltage_v: Option<Seq<char>>,
    pub sound_speed_m_s: Option<Seq<char>>,
    pub heading_deg: Option<Seq<char>>,
    pub pitch_deg: Option<Seq<char>>,
    pub roll_deg: Option<Seq<char>>,
    pub pressure_dbar: Option<Seq<char>>,
    pub temperature_c: Option<Seq<char>>,
    pub analog_input_1: Option<Seq<char>>,
    pub analog_input_2: Option<Seq<char>>,
}

pub ghost enum AmplitudeUnitV {
    Counts,
    Unknown(Seq<char>),
}

pub ghost struct CurrentV {
    pub sent_at: DateTime,
    pub cell_number: u16,
    pub velocity_1_m_s: Option<Seq<char>>,
    pub velocity_2_m_s: Option<Seq<char>>,
    pub velocity_3_m_s: Option<Seq<char>>,
    pub velocity_4_m_s: Option<Seq<char>>,
    pub speed_m_s: Option<Seq<char>>,
    pub direction_deg: Option<Seq<char>>,
    pub amplitude_unit: AmplitudeUnitV,
    pub amplitude_beam_1: Option<u8>,
    pub amplitude_beam_2: Option<u8>,
    pub amplitude_beam_3: Option<u8>,
    pub amplitude_beam_4: Option<u8>,
    pub correlation_beam_1_pct: Option<u8>,
    pub correlation_beam_2_pct: Option<u8>,
    pub correlation_beam_3_pct: Option<u8>,
    pub correlation_beam_4_pct: Option<u8>,
}

pub ghost enum PayloadV {
    Config(ConfigV),
    Sensor(SensorV),
    Current(CurrentV),
}

pub ghost struct FrameV {
    pub recorded_at: DateTime,
    pub raw: Seq<char>,
    pub checksum: Checksum,
    pub payload: PayloadV,
    pub discarded: Seq<Seq<char>>,
}

pub open spec fn opt_text_view(o: Option<String>) -> Option<Seq<char>> {
    match o {
        Some(s) => Some(s@),
        None => None,
    }
}

impl View for AmplitudeUnit {
    type V = AmplitudeUnitV;

    open spec fn view(&self) -> AmplitudeUnitV {
        match self {
            AmplitudeUnit::Counts => AmplitudeUnitV::Counts,
            AmplitudeUnit::Unknown(s) => AmplitudeUnitV::Unknown(s@),
        }
    }
}

impl View for ConfigSentence {
    type V = ConfigV;

    open spec fn view(&self) -> ConfigV {
        ConfigV {
            instrument_type: self.instrument_type,
            head_id: self.head_id@,
            beams: self.beams,
            cells: self.cells,
            blanking_m: self.blanking_m@,
            cell_size_m: self.cell_size_m@,
            coordinate_system: self.coordinate_system,
        }
    }
}

impl View for SensorSentence {
    type V = SensorV;

    open spec fn view(&self) -> SensorV {
        SensorV {
            sent_at: self.sent_at,
            error_code_hex: self.error_code_hex,
            status_code_hex: self.status_code_hex,
            battery_voltage_v: opt_text_view(self.battery_voltage_v),
            sound_speed_m_s: opt_text_view(self.sound_speed_m_s),
            heading_deg: opt_text_view(self.heading_deg),
            pitch_deg: opt_text_view(self.pitch_deg),
            roll_deg: opt_text_view(self.roll_deg),
            pressure_dbar: opt_text_view(self.pressure_dbar),
            temperature_c: opt_text_view(self.temperature_c),
            analog_input_1: opt_text_view(self.analog_input_1),
            analog_input_2: opt_text_view(self.analog_input_2),
        }
    }
}

impl View for CurrentSentence {
    type V = CurrentV;

    open spec fn view(&self) -> CurrentV {
        CurrentV {
            sent_at: self.sent_at,
            cell_number: self.cell_number,
            velocity_1_m_s: opt_text_view(self.velocity_1_m_s),
            velocity_2_m_s: opt_text_view(self.velocity_2_m_s),
            velocity_3_m_s: opt_text_view(self.velocity_3_m_s),
            velocity_4_m_s: opt_text_view(self.velocity_4_m_s),
            speed_m_s: opt_text_view(self.speed_m_s),
            direction_deg: opt_text_view(self.direction_deg),
            amplitude_unit: self.amplitude_unit@,
            amplitude_beam_1: self.amplitude_beam_1,
            amplitude_beam_2: self.amplitude_beam_2,
            amplitude_beam_3: self.amplitude_beam_3,
            amplitude_beam_4: self.amplitude_beam_4,
            correlation_beam_1_pct: self.correlation_beam_1_pct,
            correlation_beam_2_pct: self.correlation_beam_2_pct,
            correlation_beam_3_pct: self.correlation_beam_3_pct,
            correlation_beam_4_pct: self.correlation_beam_4_pct,
        }
    }
}

impl View for Payload {
    type V = PayloadV;

    open spec fn view(&self) -> PayloadV {
        match self {
            Payload::Config(c) => PayloadV::Config(c@),
            Payload::Sensor(s) => PayloadV::Sensor(s@),
            Payload::Current(c) => PayloadV::Current(c@),
        }
    }
}

impl View for Frame {
    type V = FrameV;

    open spec fn view(&self) -> FrameV {
        FrameV {
            recorded_at: self.recorded_at,
            raw: self.raw@,
            checksum: self.checksum,
            payload: self.payload@,
            discarded: self.discarded.deep_view(),
        }
    }
}

// ---------------------------------------------------------------------------
// Cleaning and checksum: the specification
// ---------------------------------------------------------------------------
/// The XOR of the first `i` bytes.
pub open spec fn xor_upto(b: Seq<u8>, i: int) -> u8
    decreases i when 0 <= i <= b.len()
{
    if i <= 0 {
        0
    } else {
        xor_upto(b, i - 1) ^ b[i - 1]
    }
}

/// The 8-bit XOR of all bytes of the UTF-8 encoding of `body`.
pub open spec fn nmea_checksum(body: Seq<char>) -> u8 {
    xor_upto(encode_utf8(body), encode_utf8(body).len() as int)
}

/// One of the known sentence markers starts at position `i`.
pub open spec fn is_marker_at(s: Seq<char>, i: int) -> bool {
    &&& i + 6 <= s.len()
    &&& s[i] == '$'
    &&& s[i + 1] == 'P'
    &&& s[i + 2] == 'N'
    &&& s[i + 3] == 'O'
    &&& s[i + 4] == 'R'
    &&& (s[i + 5] == 'C' || s[i + 5] == 'S' || s[i + 5] == 'I')
}

/// The earliest position at or after `i` where a known marker starts.
pub open spec fn find_marker_from(s: Seq<char>, i: int) -> Option<int>
    decreases s.len() - i when 0 <= i <= s.len()
{
    if i + 6 > s.len() {
        None
    } else if is_marker_at(s, i) {
        Some(i)
    } else {
        find_marker_from(s, i + 1)
    }
}

/// Scanning the checksum token: hex digits accumulate (two end the scan with
/// the position after the second), whitespace is skipped anywhere, and any
/// other character is skipped before the first hex digit but ends the scan
/// after it.
pub open spec fn scan_cktok(tok: Seq<char>, i: int, acc: Seq<char>) -> Option<(Seq<char>, int)>
    decreases tok.len() - i when 0 <= i <= tok.len() && acc.len() <= 1
{
    if i >= tok.len() {
        None
    } else if is_hex_digit_char(tok[i]) {
        if acc.len() == 1 {
            Some((acc.push(tok[i]), i + 1))
        } else {
            scan_cktok(tok, i + 1, acc.push(tok[i]))
        }
    } else if is_space_char(tok[i]) {
        scan_cktok(tok, i + 1, acc)
    } else if acc.len() > 0 {
        None
    } else {
        scan_cktok(tok, i + 1, acc)
    }
}

/// What cleaning determines: the checksum pair, the cleaned line, the body
/// the fields are read from, and the junk fragments that were removed.
pub ghost struct CleanedV {
    pub provided: u8,
    pub computed: u8,
    pub cleaned: Seq<char>,
    pub body: Seq<char>,
    pub discarded: Seq<Seq<char>>,
}

/// The framing of a line, before the checksum comparison: the provided
/// checksum read from the token, the cleaned line (the span from the earliest
/// sentence marker through the second checksum digit, with surrounding junk
/// stripped), the body (the cleaned line without checksum and one leading
/// `$`), and the removed junk fragments.
pub ghost struct FramingV {
    pub provided: u8,
    pub cleaned: Seq<char>,
    pub body: Seq<char>,
    pub discarded: Seq<Seq<char>>,
}

/// Framing a trimmed line: split at the last `*`; read two hex digits from
/// the token (trailing non-whitespace text is recorded as junk); strip text
/// before the earliest known marker (recorded as junk when not all
/// whitespace); strip one leading `$`. Nothing frames without the `*` and the
/// two hex digits.
pub open spec fn spec_framing(raw: Seq<char>) -> Option<FramingV> {
    match rfind_char_upto(raw, '*', raw.len() as int) {
        None => None,
        Some(star) => {
            let body_raw = raw.subrange(0, star);
            let tok = raw.subrange(star + 1, raw.len() as int);
            match scan_cktok(tok, 0, Seq::empty()) {
                None => None,
                Some(hx) => {
                    let provided = (hex_digit_val(hx.0[0]) * 16 + hex_digit_val(hx.0[1])) as u8;
                    let tail = tok.subrange(hx.1, tok.len() as int);
                    let d1: Seq<Seq<char>> = if trim_seq(tail).len() > 0 {
                        seq![tail]
                    } else {
                        Seq::empty()
                    };
                    let mp = find_marker_from(body_raw, 0);
                    let strip = mp is Some && mp->Some_0 > 0;
                    let pre = if strip {
                        body_raw.subrange(0, mp->Some_0)
                    } else {
                        Seq::empty()
                    };
                    let d2: Seq<Seq<char>> = if strip && trim_seq(pre).len() > 0 {
                        seq![pre]
                    } else {
                        Seq::empty()
                    };
                    let body1 = if strip {
                        body_raw.subrange(mp->Some_0, body_raw.len() as int)
                    } else {
                        body_raw
                    };
                    let body2 = if body1.len() > 0 && body1[0] == '$' {
                        body1.subrange(1, body1.len() as int)
                    } else {
                        body1
                    };
                    let cleaned = raw.subrange(
                        if strip {
                            mp->Some_0
                        } else {
                            0
                        },
                        star + 1 + hx.1,
                    );
                    Some(FramingV { provided, cleaned, body: body2, discarded: d1 + d2 })
                },
            }
        },
    }
}

/// Cleaning and checksum validation: the line must frame, and the provided
/// checksum must equal the XOR of the framed body's bytes.
pub open spec fn spec_clean(raw: Seq<char>) -> Result<CleanedV, ParseError> {
    match spec_framing(raw) {
        None => Err(ParseError::ChecksumMalformed),
        Some(fr) => {
            let computed = nmea_checksum(fr.body);
            if fr.provided != computed {
                Err(ParseError::ChecksumMismatch { provided: fr.provided, computed })
            } else {
                Ok(
                    CleanedV {
                        provided: fr.provided,
                        computed,
                        cleaned: fr.cleaned,
                        body: fr.body,
                        discarded: fr.discarded,
                    },
                )
            }
        },
    }
}

// ---------------------------------------------------------------------------
// Field policies: the specification
// ---------------------------------------------------------------------------
/// Splitting on commas; always at least one (possibly empty) field.
pub open spec fn split_commas(s: Seq<char>) -> Seq<Seq<char>> {
    crate::text::split_char(s, ',')
}

/// A field is treated as missing when, after trimming, it is empty or starts
/// with the `-9` sentinel family.
pub open spec fn spec_invalid_field(s: Seq<char>) -> bool {
    let t = trim_seq(s);
    t.len() == 0 || (t.len() >= 2 && t[0] == '-' && t[1] == '9')
}

/// An optional measurement: missing for sentinels, the numeral text when it
/// reads as a decimal number, and missing again for anything else.
pub open spec fn spec_opt_number(s: Seq<char>) -> Option<Seq<char>> {
    if spec_invalid_field(s) {
        None
    } else if is_number_text(s) {
        Some(s)
    } else {
        None
    }
}

/// An optional small count: missing for sentinels and for anything that does
/// not read as a decimal number up to 255.
pub open spec fn spec_opt_u8(s: Seq<char>) -> Option<u8> {
    if spec_invalid_field(s) {
        None
    } else {
        match spec_parse_udec(s, 255) {
            Some(v) => Some(v as u8),
            None => None,
        }
    }
}

pub open spec fn spec_coordinate_system(code: u8) -> CoordinateSystem {
    if code == 0 {
        CoordinateSystem::Enu
    } else if code == 1 {
        CoordinateSystem::Xyz
    } else if code == 2 {
        CoordinateSystem::Beam
    } else {
        CoordinateSystem::Unknown(code)
    }
}

pub open spec fn spec_amplitude_unit(s: Seq<char>) -> AmplitudeUnitV {
    if s.len() == 1 && (s[0] == 'C' || s[0] == 'c') {
        AmplitudeUnitV::Counts
    } else {
        AmplitudeUnitV::Unknown(s)
    }
}

/// A `MMDDYY` date; the century is 2000.
pub open spec fn spec_parse_date(s: Seq<char>) -> Result<Date, ParseError> {
    if s.len() != 6 {
        Err(ParseError::DateError)
    } else {
        let m = spec_parse_udec(s.subrange(0, 2), 0xFFFF_FFFF);
        let d = spec_parse_udec(s.subrange(2, 4), 0xFFFF_FFFF);
        let y = spec_parse_udec(s.subrange(4, 6), 0xFFFF_FFFF);
        if m is None || d is None || y is None {
            Err(ParseError::DateError)
        } else {
            let year = 2000 + y->Some_0;
            let month = m->Some_0;
            let day = d->Some_0;
            if 1 <= month <= 12 && 1 <= day <= days_in_month(year, month) {
                Ok(Date { year: year as u16, month: month as u8, day: day as u8 })
            } else {
                Err(ParseError::DateError)
            }
        }
    }
}

/// An `hhmmss` clock time.
pub open spec fn spec_parse_time(s: Seq<char>) -> Result<Time, ParseError> {
    if s.len() != 6 {
        Err(ParseError::TimeError)
    } else {
        let h = spec_parse_udec(s.subrange(0, 2), 0xFFFF_FFFF);
        let m = spec_parse_udec(s.subrange(2, 4), 0xFFFF_FFFF);
        let sec = spec_parse_udec(s.subrange(4, 6), 0xFFFF_FFFF);
        if h is None || m is None || sec is None {
            Err(ParseError::TimeError)
        } else if h->Some_0 < 24 && m->Some_0 < 60 && sec->Some_0 < 60 {
            Ok(Time { hour: h->Some_0 as u8, minute: m->Some_0 as u8, second: sec->Some_0 as u8 })
        } else {
            Err(ParseError::TimeError)
        }
    }
}

pub open spec fn spec_parse_datetime(ds: Seq<char>, ts: Seq<char>) -> Result<DateTime, ParseError> {
    match spec_parse_date(ds) {
        Err(e) => Err(e),
        Ok(d) => match spec_parse_time(ts) {
            Err(e) => Err(e),
            Ok(t) => Ok(DateTime { date: d, time: t }),
        },
    }
}

// ---------------------------------------------------------------------------
// Sentences: the specification
// ---------------------------------------------------------------------------
pub open spec fn spec_parse_config(args: Seq<Seq<char>>) -> Result<ConfigV, ParseError> {
    if args.len() < 7 {
        Err(ParseError::SchemaError)
    } else {
        let it = spec_parse_udec(args[0], 255);
        let beams = spec_parse_udec(args[2], 255);
        let cells = spec_parse_udec(args[3], 0xFFFF);
        let coord = spec_parse_udec(args[6], 255);
        if it is None || beams is None || cells is None || coord is None {
            Err(ParseError::SchemaError)
        } else if !is_number_text(args[4]) || !is_number_text(args[5]) {
            Err(ParseError::SchemaError)
        } else {
            Ok(
                ConfigV {
                    instrument_type: if it->Some_0 == 4 {
                        InstrumentType::Signature
                    } else {
                        InstrumentType::Other(it->Some_0 as u8)
                    },
                    head_id: args[1],
                    beams: beams->Some_0 as u8,
                    cells: cells->Some_0 as u16,
                    blanking_m: args[4],
                    cell_size_m: args[5],
                    coordinate_system: spec_coordinate_system(coord->Some_0 as u8),
                },
            )
        }
    }
}

pub open spec fn spec_parse_sensor(args: Seq<Seq<char>>) -> Result<SensorV, ParseError> {
    if args.len() < 13 {
        Err(ParseError::SchemaError)
    } else {
        match spec_parse_datetime(args[0], args[1]) {
            Err(e) => Err(e),
            Ok(sent_at) => {
                let e = spec_parse_uhex(args[2], 0xFFFF_FFFF);
                let st = spec_parse_uhex(args[3], 0xFFFF_FFFF);
                if e is None || st is None {
                    Err(ParseError::HexError)
                } else {
                    Ok(
                        SensorV {
                            sent_at,
                            error_code_hex: e->Some_0 as u32,
                            status_code_hex: st->Some_0 as u32,
                            battery_voltage_v: spec_opt_number(args[4]),
                            sound_speed_m_s: spec_opt_number(args[5]),
                            heading_deg: spec_opt_number(args[6]),
                            pitch_deg: spec_opt_number(args[7]),
                            roll_deg: spec_opt_number(args[8]),
                            pressure_dbar: spec_opt_number(args[9]),
                            temperature_c: spec_opt_number(args[10]),
                            analog_input_1: spec_opt_number(args[11]),
                            analog_input_2: spec_opt_number(args[12]),
                        },
                    )
                }
            },
        }
    }
}

pub open spec fn spec_parse_current(args: Seq<Seq<char>>) -> Result<CurrentV, ParseError> {
    if args.len() < 18 {
        Err(ParseError::SchemaError)
    } else {
        match spec_parse_datetime(args[0], args[1]) {
            Err(e) => Err(e),
            Ok(sent_at) => {
                match spec_parse_udec(args[2], 0xFFFF) {
                    None => Err(ParseError::SchemaError),
                    Some(cell) => Ok(
                        CurrentV {
                            sent_at,
                            cell_number: cell as u16,
                            velocity_1_m_s: spec_opt_number(args[3]),
                            velocity_2_m_s: spec_opt_number(args[4]),
                            velocity_3_m_s: spec_opt_number(args[5]),
                            velocity_4_m_s: spec_opt_number(args[6]),
                            speed_m_s: spec_opt_number(args[7]),
                            direction_deg: spec_opt_number(args[8]),
                            amplitude_unit: spec_amplitude_unit(args[9]),
                            amplitude_beam_1: spec_opt_u8(args[10]),
                            amplitude_beam_2: spec_opt_u8(args[11]),
                            amplitude_beam_3: spec_opt_u8(args[12]),
                            amplitude_beam_4: spec_opt_u8(args[13]),
                            correlation_beam_1_pct: spec_opt_u8(args[14]),
                            correlation_beam_2_pct: spec_opt_u8(args[15]),
                            correlation_beam_3_pct: spec_opt_u8(args[16]),
                            correlation_beam_4_pct: spec_opt_u8(args[17]),
                        },
                    ),
                }
            },
        }
    }
}

/// The sentence identifier: `PNOR` followed by the given letter.
pub open spec fn is_ident(f: Seq<char>, last: char) -> bool {
    f.len() == 5 && f[0] == 'P' && f[1] == 'N' && f[2] == 'O' && f[3] == 'R' && f[4] == last
}

pub open spec fn spec_parse_payload(body: Seq<char>) -> Result<PayloadV, ParseError> {
    let fields = split_commas(body);
    let ident = fields[0];
    let args = fields.subrange(1, fields.len() as int);
    if is_ident(ident, 'I') {
        match spec_parse_config(args) {
            Ok(c) => Ok(PayloadV::Config(c)),
            Err(e) => Err(e),
        }
    } else if is_ident(ident, 'S') {
        match spec_parse_sensor(args) {
            Ok(s) => Ok(PayloadV::Sensor(s)),
            Err(e) => Err(e),
        }
    } else if is_ident(ident, 'C') {
        match spec_parse_current(args) {
            Ok(c) => Ok(PayloadV::Current(c)),
            Err(e) => Err(e),
        }
    } else {
        Err(ParseError::SchemaError)
    }
}

pub open spec fn spec_sent_at(p: PayloadV) -> Option<DateTime> {
    match p {
        PayloadV::Config(_) => None,
        PayloadV::Sensor(s) => Some(s.sent_at),
        PayloadV::Current(c) => Some(c.sent_at),
    }
}

/// The whole parser: trim, clean and validate, then read the sentence.
/// `now` stands for the observer's clock, used only when the sentence
/// carries no timestamp of its own.
pub open spec fn spec_parse(line: Seq<char>, now: DateTime) -> Result<FrameV, ParseError> {
    match spec_clean(trim_seq(line)) {
        Err(e) => Err(e),
        Ok(cl) => match spec_parse_payload(cl.body) {
            Err(e) => Err(e),
            Ok(payload) => Ok(
                FrameV {
                    recorded_at: match spec_sent_at(payload) {
                        Some(t) => t,
                        None => now,
                    },
                    raw: cl.cleaned,
                    checksum: Checksum {
                        provided: cl.provided,
                        computed: cl.computed,
                        valid: cl.provided == cl.computed,
                    },
                    payload,
                    discarded: cl.discarded,
                },
            ),
        },
    }
}

// ---------------------------------------------------------------------------
// Field parsers
// ---------------------------------------------------------------------------
/// A two-character run of digits reads as at most 99.
proof fn lemma_dec_val_two(t: Seq<char>)
    requires
        all_digits(t),
        t.len() <= 2,
    ensures
        0 <= dec_val(t) <= 99,
{
    if t.len() == 1 {
        assert(dec_val(t) == crate::text::dec_val_upto(t, 0) * 10 + crate::text::digit_val(t[0]));
    } else if t.len() == 2 {
        assert(dec_val(t) == crate::text::dec_val_upto(t, 1) * 10 + crate::text::digit_val(t[1]));
        assert(crate::text::dec_val_upto(t, 1) == crate::text::dec_val_upto(t, 0) * 10
            + crate::text::digit_val(t[0]));
    }
}

/// A field is missing when its trimmed text is empty or begins with `-9`.
pub fn is_invalid_field(f: &Vec<char>) -> (r: bool)
    ensures
        r == spec_invalid_field(f@),
{
    let t = trim_chars(f);
    t.len() == 0 || (t.len() >= 2 && t[0] == '-' && t[1] == '9')
}

/// An optional numeric field, kept as its numeral text when present.
pub fn parse_opt_number(f: &Vec<char>) -> (r: Option<String>)
    ensures
        opt_text_view(r) == spec_opt_number(f@),
{
    if is_invalid_field(f) {
        None
    } else if number_text_q(f) {
        let s = chars_string(f, 0, f.len());
        assert(s@ =~= f@);
        Some(s)
    } else {
        None
    }
}

/// An optional small count field.
pub fn parse_opt_u8(f: &Vec<char>) -> (r: Option<u8>)
    ensures
        r == spec_opt_u8(f@),
{
    if is_invalid_field(f) {
        None
    } else {
        match parse_udec(f, 255) {
            Some(v) => Some(v as u8),
            None => None,
        }
    }
}

pub fn parse_amplitude_unit(f: &Vec<char>) -> (r: AmplitudeUnit)
    ensures
        r@ == spec_amplitude_unit(f@),
{
    if f.len() == 1 && (f[0] == 'C' || f[0] == 'c') {
        AmplitudeUnit::Counts
    } else {
        let s = chars_string(f, 0, f.len());
        assert(s@ =~= f@);
        AmplitudeUnit::Unknown(s)
    }
}

pub fn parse_coordinate_system(f: &Vec<char>) -> (r: Result<CoordinateSystem, ParseError>)
    ensures
        match r {
            Ok(c) => spec_parse_udec(f@, 255) matches Some(code) && c == spec_coordinate_system(
                code as u8,
            ),
            Err(e) => spec_parse_udec(f@, 255) is None && e == ParseError::SchemaError,
        },
{
    match parse_udec(f, 255) {
        None => Err(ParseError::SchemaError),
        Some(code) => {
            let c = code as u8;
            if c == 0 {
                Ok(CoordinateSystem::Enu)
            } else if c == 1 {
                Ok(CoordinateSystem::Xyz)
            } else if c == 2 {
                Ok(CoordinateSystem::Beam)
            } else {
                Ok(CoordinateSystem::Unknown(c))
            }
        },
    }
}

/// A 32-bit code written in hexadecimal.
pub fn parse_hex_u32(f: &Vec<char>) -> (r: Result<u32, ParseError>)
    ensures
        match r {
            Ok(v) => spec_parse_uhex(f@, 0xFFFF_FFFF) == Some(v as int),
            Err(e) => spec_parse_uhex(f@, 0xFFFF_FFFF) is None && e == ParseError::HexError,
        },
{
    match parse_uhex(f, 0xFFFF_FFFF) {
        Some(v) => Ok(v as u32),
        None => Err(ParseError::HexError),
    }
}

pub fn parse_date(f: &Vec<char>) -> (r: Result<Date, ParseError>)
    ensures
        match r {
            Ok(d) => spec_parse_date(f@) == Ok::<Date, ParseError>(d) && d.wf(),
            Err(e) => spec_parse_date(f@) == Err::<Date, ParseError>(e),
        },
{
    if f.len() != 6 {
        return Err(ParseError::DateError);
    }
    let mv = chars_vec(f, 0, 2);
    let dv = chars_vec(f, 2, 4);
    let yv = chars_vec(f, 4, 6);
    let m = parse_udec(&mv, 0xFFFF_FFFF);
    let d = parse_udec(&dv, 0xFFFF_FFFF);
    let y = parse_udec(&yv, 0xFFFF_FFFF);
    match (m, d, y) {
        (Some(month), Some(day), Some(yy)) => {
            proof {
                let ty = crate::text::strip_plus(yv@);
                lemma_dec_val_two(ty);
                let tm = crate::text::strip_plus(mv@);
                lemma_dec_val_two(tm);
                let td = crate::text::strip_plus(dv@);
                lemma_dec_val_two(td);
            }
            let year: u16 = 2000 + (yy as u16);
            if 1 <= month && month <= 12 {
                let mm = month as u8;
                let dm = crate::datetime::month_days(year, mm);
                if 1 <= day && day <= dm as u64 {
                    Ok(Date { year, month: mm, day: day as u8 })
                } else {
                    Err(ParseError::DateError)
                }
            } else {
                Err(ParseError::DateError)
            }
        },
        _ => Err(ParseError::DateError),
    }
}

pub fn parse_time(f: &Vec<char>) -> (r: Result<Time, ParseError>)
    ensures
        match r {
            Ok(t) => spec_parse_time(f@) == Ok::<Time, ParseError>(t) && t.wf(),
            Err(e) => spec_parse_time(f@) == Err::<Time, ParseError>(e),
        },
{
    if f.len() != 6 {
        return Err(ParseError::TimeError);
    }
    let hv = chars_vec(f, 0, 2);
    let mv = chars_vec(f, 2, 4);
    let sv = chars_vec(f, 4, 6);
    let h = parse_udec(&hv, 0xFFFF_FFFF);
    let m = parse_udec(&mv, 0xFFFF_FFFF);
    let s = parse_udec(&sv, 0xFFFF_FFFF);
    match (h, m, s) {
        (Some(hour), Some(minute), Some(second)) => {
            if hour < 24 && minute < 60 && second < 60 {
                Ok(Time { hour: hour as u8, minute: minute as u8, second: second as u8 })
            } else {
                Err(ParseError::TimeError)
            }
        },
        _ => Err(ParseError::TimeError),
    }
}

pub fn parse_datetime(ds: &Vec<char>, ts: &Vec<char>) -> (r: Result<DateTime, ParseError>)
    ensures
        match r {
            Ok(t) => spec_parse_datetime(ds@, ts@) == Ok::<DateTime, ParseError>(t) && t.wf(),
            Err(e) => spec_parse_datetime(ds@, ts@) == Err::<DateTime, ParseError>(e),
        },
{
    match parse_date(ds) {
        Err(e) => Err(e),
        Ok(d) => match parse_time(ts) {
            Err(e) => Err(e),
            Ok(t) => Ok(DateTime { date: d, time: t }),
        },
    }
}

// ---------------------------------------------------------------------------
// Cleaning and checksum: the implementation
// ---------------------------------------------------------------------------
/// Cleaning and checksum validation of a trimmed line. Returns the provided
/// and computed checksum values, the cleaned line, the validated body, and
/// the removed junk.
pub fn validate_checksum(rawv: &Vec<char>) -> (r: Result<
    (u8, u8, String, String, Vec<String>),
    ParseError,
>)
    ensures
        match r {
            Ok(t) => ({
                &&& spec_clean(rawv@) matches Ok(cl)
                &&& cl.provided == t.0
                &&& cl.computed == t.1
                &&& cl.cleaned == t.2@
                &&& cl.body == t.3@
                &&& cl.discarded == t.4.deep_view()
            }),
            Err(e) => spec_clean(rawv@) == Err::<CleanedV, ParseError>(e),
        },
{
    let n: usize = rawv.len();
    // locate the last '*'
    let mut j: usize = n;
    while j > 0 && rawv[j - 1] != '*'
        invariant
            j <= n,
            n == rawv@.len(),
            rfind_char_upto(rawv@, '*', n as int) == rfind_char_upto(rawv@, '*', j as int),
        decreases j,
    {
        j = j - 1;
    }
    if j == 0 {
        return Err(ParseError::ChecksumMalformed);
    }
    let star: usize = j - 1;
    assert(rfind_char_upto(rawv@, '*', n as int) == Some(star as int));
    let ghost body_raw = rawv@.subrange(0, star as int);
    let ghost tok = rawv@.subrange(star as int + 1, n as int);

    // read two hex digits out of the checksum token
    let tok_off: usize = star + 1;
    let mut h: Vec<char> = Vec::new();
    let mut i: usize = tok_off;
    let mut endpos: usize = 0;
    let mut two: bool = false;
    while i < n
        invariant_except_break
            tok_off <= i <= n,
            n == rawv@.len(),
            tok_off == star + 1,
            star < n,
            tok == rawv@.subrange(tok_off as int, n as int),
            h@.len() <= 1,
            forall|k: int| 0 <= k < h@.len() ==> is_hex_digit_char(h@[k]),
            scan_cktok(tok, 0, Seq::empty()) == scan_cktok(tok, i - tok_off, h@),
            two == false,
        ensures
            n == rawv@.len(),
            star < n,
            tok_off == star + 1,
            tok == rawv@.subrange(tok_off as int, n as int),
            forall|k: int| 0 <= k < h@.len() ==> is_hex_digit_char(h@[k]),
            two ==> h@.len() == 2 && tok_off < endpos <= n && scan_cktok(tok, 0, Seq::empty())
                == Some((h@, endpos - tok_off)),
            !two ==> scan_cktok(tok, 0, Seq::empty()) is None,
        decreases n - i,
    {
        let c = rawv[i];
        assert(tok[i - tok_off] == c);
        if hex_digit_char_q(c) {
            if h.len() == 1 {
                h.push(c);
                endpos = i + 1;
                two = true;
                break;
            }
            h.push(c);
        } else if space_char(c) {
        } else if h.len() > 0 {
            break;
        }
        i = i + 1;
    }
    if !two {
        return Err(ParseError::ChecksumMalformed);
    }
    let ghost hx = scan_cktok(tok, 0, Seq::empty())->Some_0;
    let h0 = h[0];
    let h1 = h[1];
    let provided: u8 = hex_digit_val_of(h0) * 16 + hex_digit_val_of(h1);
    assert(provided as int == hex_digit_val(hx.0[0]) * 16 + hex_digit_val(hx.0[1]));

    // trailing junk after the two hex digits
    let ghost tail = tok.subrange(hx.1, tok.len() as int);
    assert(tail =~= rawv@.subrange(endpos as int, n as int));
    let mut discarded: Vec<String> = Vec::new();
    let ghost d1 = if trim_seq(tail).len() > 0 {
        seq![tail]
    } else {
        Seq::<Seq<char>>::empty()
    };
    if endpos < n {
        let tailv = chars_vec(rawv, endpos, n);
        let trimmed = trim_chars(&tailv);
        if trimmed.len() > 0 {
            let s = chars_string(rawv, endpos, n);
            discarded.push(s);
        }
    }
    assert(discarded.deep_view() =~= d1);

    // strip junk before the earliest known sentence marker
    let mut p: usize = 0;
    let mut found: bool = false;
    while p <= star && star - p >= 6
        invariant_except_break
            p <= star,
            star < n,
            n == rawv@.len(),
            body_raw == rawv@.subrange(0, star as int),
            find_marker_from(body_raw, 0) == find_marker_from(body_raw, p as int),
            found == false,
        ensures
            star < n,
            n == rawv@.len(),
            body_raw == rawv@.subrange(0, star as int),
            found ==> p + 6 <= star && find_marker_from(body_raw, 0) == Some(p as int),
            !found ==> find_marker_from(body_raw, 0) is None,
        decreases star - p,
    {
        if rawv[p] == '$' && rawv[p + 1] == 'P' && rawv[p + 2] == 'N' && rawv[p + 3] == 'O'
            && rawv[p + 4] == 'R' && (rawv[p + 5] == 'C' || rawv[p + 5] == 'S' || rawv[p + 5]
            == 'I') {
            assert(is_marker_at(body_raw, p as int));
            found = true;
            break;
        }
        assert(!is_marker_at(body_raw, p as int));
        p = p + 1;
    }
    let ghost strip = found && p > 0;
    let ghost pre = if strip {
        body_raw.subrange(0, p as int)
    } else {
        Seq::<char>::empty()
    };
    let ghost d2 = if strip && trim_seq(pre).len() > 0 {
        seq![pre]
    } else {
        Seq::<Seq<char>>::empty()
    };
    let mut body_lo: usize = 0;
    if found && p > 0 {
        assert(pre =~= rawv@.subrange(0, p as int));
        let prev = chars_vec(rawv, 0, p);
        let ptrim = trim_chars(&prev);
        if ptrim.len() > 0 {
            let ghost before = discarded.deep_view();
            let s = chars_string(rawv, 0, p);
            discarded.push(s);
            assert(discarded.deep_view() =~= before.push(s@));
        }
        body_lo = p;
    }
    assert(discarded.deep_view() =~= d1 + d2);
    // the cleaned line: from the marker (when one was found past junk)
    // through the second checksum digit
    let cleaned = chars_string(rawv, body_lo, endpos);
    let ghost body1 = if strip {
        body_raw.subrange(p as int, body_raw.len() as int)
    } else {
        body_raw
    };
    assert(body1 =~= rawv@.subrange(body_lo as int, star as int));

    // strip one leading '$'
    if body_lo < star && rawv[body_lo] == '$' {
        assert(body1.len() > 0 && body1[0] == '$');
        body_lo = body_lo + 1;
    }
    let ghost body2 = if body1.len() > 0 && body1[0] == '$' {
        body1.subrange(1, body1.len() as int)
    } else {
        body1
    };
    let body = chars_string(rawv, body_lo, star);
    assert(body@ =~= body2);

    // XOR of the body's bytes
    let bs = body.as_str().as_bytes_vec();
    assert(bs@ == encode_utf8(body@));
    let mut computed: u8 = 0;
    let mut k: usize = 0;
    while k < bs.len()
        invariant
            k <= bs@.len(),
            computed == xor_upto(bs@, k as int),
        decreases bs@.len() - k,
    {
        computed = computed ^ bs[k];
        k = k + 1;
    }
    assert(computed == nmea_checksum(body@));
    if provided != computed {
        return Err(ParseError::ChecksumMismatch { provided, computed });
    }
    Ok((provided, computed, cleaned, body, discarded))
}

// ---------------------------------------------------------------------------
// Field splitting
// ---------------------------------------------------------------------------
pub proof fn lemma_split_commas_len(s: Seq<char>)
    ensures
        split_commas(s).len() >= 1,
{
    crate::text::lemma_split_char_len(s, ',');
}

/// The comma-separated fields of `v[lo..hi]`.
pub fn split_fields(v: &Vec<char>, lo: usize, hi: usize) -> (fields: Vec<Vec<char>>)
    requires
        lo <= hi <= v@.len(),
    ensures
        fields.deep_view() == split_commas(v@.subrange(lo as int, hi as int)),
        fields@.len() >= 1,
{
    crate::text::split_chars(v, lo, hi, ',')
}

// ---------------------------------------------------------------------------
// Sentences: the implementation
// ---------------------------------------------------------------------------
proof fn lemma_field_view(fields: &Vec<Vec<char>>, k: int)
    requires
        0 <= k < fields@.len(),
    ensures
        fields.deep_view().len() == fields@.len(),
        fields.deep_view()[k] == fields@[k]@,
{
    assert(fields.deep_view()[k] =~= fields@[k]@);
}

/// The argument fields: everything after the sentence identifier.
pub open spec fn spec_args(fields: Seq<Seq<char>>) -> Seq<Seq<char>>
    recommends
        fields.len() >= 1,
{
    fields.subrange(1, fields.len() as int)
}

pub fn parse_config(fields: &Vec<Vec<char>>) -> (r: Result<ConfigSentence, ParseError>)
    requires
        fields@.len() >= 1,
    ensures
        (match r {
            Ok(c) => spec_parse_config(spec_args(fields.deep_view())) matches Ok(cv) && c@ == cv,
            Err(e) => spec_parse_config(spec_args(fields.deep_view())) == Err::<
                ConfigV,
                ParseError,
            >(e),
        }),
{
    let ghost args = spec_args(fields.deep_view());
    proof {
        lemma_field_view(fields, 0);
    }
    if fields.len() < 8 {
        return Err(ParseError::SchemaError);
    }
    proof {
        assert forall|j: int| 0 <= j < fields@.len() implies #[trigger] fields.deep_view()[j]
            == fields@[j]@ by {
            lemma_field_view(fields, j);
        }
    }
    let it = parse_udec(&fields[1], 255);
    let beams = parse_udec(&fields[3], 255);
    let cells = parse_udec(&fields[4], 0xFFFF);
    let coord = parse_udec(&fields[7], 255);
    match (it, beams, cells, coord) {
        (Some(itv), Some(bv), Some(cv), Some(cov)) => {
            if !number_text_q(&fields[5]) || !number_text_q(&fields[6]) {
                return Err(ParseError::SchemaError);
            }
            let head_id = chars_string(&fields[2], 0, fields[2].len());
            let blanking_m = chars_string(&fields[5], 0, fields[5].len());
            let cell_size_m = chars_string(&fields[6], 0, fields[6].len());
            assert(head_id@ =~= fields@[2]@);
            assert(blanking_m@ =~= fields@[5]@);
            assert(cell_size_m@ =~= fields@[6]@);
            let instrument_type = if itv == 4 {
                InstrumentType::Signature
            } else {
                InstrumentType::Other(itv as u8)
            };
            let c8 = cov as u8;
            let coordinate_system = if c8 == 0 {
                CoordinateSystem::Enu
            } else if c8 == 1 {
                CoordinateSystem::Xyz
            } else if c8 == 2 {
                CoordinateSystem::Beam
            } else {
                CoordinateSystem::Unknown(c8)
            };
            Ok(
                ConfigSentence {
                    instrument_type,
                    head_id,
                    beams: bv as u8,
                    cells: cv as u16,
                    blanking_m,
                    cell_size_m,
                    coordinate_system,
                },
            )
        },
        _ => Err(ParseError::SchemaError),
    }
}

pub fn parse_sensor(fields: &Vec<Vec<char>>) -> (r: Result<SensorSentence, ParseError>)
    requires
        fields@.len() >= 1,
    ensures
        (match r {
            Ok(s) => spec_parse_sensor(spec_args(fields.deep_view())) matches Ok(sv) && s@ == sv
                && s.sent_at.wf(),
            Err(e) => spec_parse_sensor(spec_args(fields.deep_view())) == Err::<
                SensorV,
                ParseError,
            >(e),
        }),
{
    let ghost args = spec_args(fields.deep_view());
    proof {
        lemma_field_view(fields, 0);
    }
    if fields.len() < 14 {
        return Err(ParseError::SchemaError);
    }
    proof {
        assert forall|j: int| 0 <= j < fields@.len() implies #[trigger] fields.deep_view()[j]
            == fields@[j]@ by {
            lemma_field_view(fields, j);
        }
    }
    let sent_at = match parse_datetime(&fields[1], &fields[2]) {
        Err(e) => {
            return Err(e);
        },
        Ok(t) => t,
    };
    let error_code_hex = match parse_hex_u32(&fields[3]) {
        Err(e) => {
            return Err(e);
        },
        Ok(v) => v,
    };
    let status_code_hex = match parse_hex_u32(&fields[4]) {
        Err(e) => {
            return Err(e);
        },
        Ok(v) => v,
    };
    Ok(
        SensorSentence {
            sent_at,
            error_code_hex,
            status_code_hex,
            battery_voltage_v: parse_opt_number(&fields[5]),
            sound_speed_m_s: parse_opt_number(&fields[6]),
            heading_deg: parse_opt_number(&fields[7]),
            pitch_deg: parse_opt_number(&fields[8]),
            roll_deg: parse_opt_number(&fields[9]),
            pressure_dbar: parse_opt_number(&fields[10]),
            temperature_c: parse_opt_number(&fields[11]),
            analog_input_1: parse_opt_number(&fields[12]),
            analog_input_2: parse_opt_number(&fields[13]),
        },
    )
}

pub fn parse_current(fields: &Vec<Vec<char>>) -> (r: Result<CurrentSentence, ParseError>)
    requires
        fields@.len() >= 1,
    ensures
        (match r {
            Ok(c) => spec_parse_current(spec_args(fields.deep_view())) matches Ok(cv) && c@ == cv
                && c.sent_at.wf(),
            Err(e) => spec_parse_current(spec_args(fields.deep_view())) == Err::<
                CurrentV,
                ParseError,
            >(e),
        }),
{
    let ghost args = spec_args(fields.deep_view());
    proof {
        lemma_field_view(fields, 0);
    }
    if fields.len() < 19 {
        return Err(ParseError::SchemaError);
    }
    proof {
        assert forall|j: int| 0 <= j < fields@.len() implies #[trigger] fields.deep_view()[j]
            == fields@[j]@ by {
            lemma_field_view(fields, j);
        }
    }
    let sent_at = match parse_datetime(&fields[1], &fields[2]) {
        Err(e) => {
            return Err(e);
        },
        Ok(t) => t,
    };
    let cell_number = match parse_udec(&fields[3], 0xFFFF) {
        None => {
            return Err(ParseError::SchemaError);
        },
        Some(v) => v as u16,
    };
    Ok(
        CurrentSentence {
            sent_at,
            cell_number,
            velocity_1_m_s: parse_opt_number(&fields[4]),
            velocity_2_m_s: parse_opt_number(&fields[5]),
            velocity_3_m_s: parse_opt_number(&fields[6]),
            velocity_4_m_s: parse_opt_number(&fields[7]),
            speed_m_s: parse_opt_number(&fields[8]),
            direction_deg: parse_opt_number(&fields[9]),
            amplitude_unit: parse_amplitude_unit(&fields[10]),
            amplitude_beam_1: parse_opt_u8(&fields[11]),
            amplitude_beam_2: parse_opt_u8(&fields[12]),
            amplitude_beam_3: parse_opt_u8(&fields[13]),
            amplitude_beam_4: parse_opt_u8(&fields[14]),
            correlation_beam_1_pct: parse_opt_u8(&fields[15]),
            correlation_beam_2_pct: parse_opt_u8(&fields[16]),
            correlation_beam_3_pct: parse_opt_u8(&fields[17]),
            correlation_beam_4_pct: parse_opt_u8(&fields[18]),
        },
    )
}

impl Payload {
    pub fn sent_at(&self) -> (r: Option<DateTime>)
        ensures
            r == spec_sent_at(self@),
    {
        match self {
            Payload::Config(_) => None,
            Payload::Sensor(s) => Some(s.sent_at),
            Payload::Current(c) => Some(c.sent_at),
        }
    }
}

pub open spec fn opt_number_wf(o: Option<Seq<char>>) -> bool {
    match o {
        Some(t) => is_number_text(t),
        None => true,
    }
}

/// Every numeral a payload keeps is a well-formed numeral text, ready to be
/// rendered as a number.
pub open spec fn payload_numerals_wf(p: PayloadV) -> bool {
    match p {
        PayloadV::Config(c) => is_number_text(c.blanking_m) && is_number_text(c.cell_size_m),
        PayloadV::Sensor(s) => {
            &&& opt_number_wf(s.battery_voltage_v)
            &&& opt_number_wf(s.sound_speed_m_s)
            &&& opt_number_wf(s.heading_deg)
            &&& opt_number_wf(s.pitch_deg)
            &&& opt_number_wf(s.roll_deg)
            &&& opt_number_wf(s.pressure_dbar)
            &&& opt_number_wf(s.temperature_c)
            &&& opt_number_wf(s.analog_input_1)
            &&& opt_number_wf(s.analog_input_2)
        },
        PayloadV::Current(c) => {
            &&& opt_number_wf(c.velocity_1_m_s)
            &&& opt_number_wf(c.velocity_2_m_s)
            &&& opt_number_wf(c.velocity_3_m_s)
            &&& opt_number_wf(c.velocity_4_m_s)
            &&& opt_number_wf(c.speed_m_s)
            &&& opt_number_wf(c.direction_deg)
        },
    }
}

/// A frame is well-formed when its timestamps are real civil instants and
/// its numeral texts are well-formed.
pub open spec fn frame_wf(f: FrameV) -> bool {
    f.recorded_at.wf() && payload_numerals_wf(f.payload) && match f.payload {
        PayloadV::Config(_) => true,
        PayloadV::Sensor(s) => s.sent_at.wf(),
        PayloadV::Current(c) => c.sent_at.wf(),
    }
}

/// The clock used by the parser does not decide whether a line parses: a
/// rejected line is rejected against every clock, with the same error.
pub proof fn lemma_parse_err_any_clock(line: Seq<char>, n1: DateTime, n2: DateTime)
    requires
        spec_parse(line, n1) is Err,
    ensures
        spec_parse(line, n2) == spec_parse(line, n1),
{
}

/// Nor does the clock decide anything about an accepted frame but the
/// fallback `recorded_at` of an undated sentence.
pub proof fn lemma_parse_ok_any_clock(line: Seq<char>, n1: DateTime, n2: DateTime)
    requires
        spec_parse(line, n1) is Ok,
    ensures
        spec_parse(line, n2) is Ok,
        ({
            let a = spec_parse(line, n1)->Ok_0;
            let b = spec_parse(line, n2)->Ok_0;
            a.raw == b.raw && a.checksum == b.checksum && a.payload == b.payload && a.discarded
                == b.discarded
        }),
{
}

impl Frame {
    /// Parses one line, taking `now` for the observer's clock. The result is
    /// exactly what the parsing rules determine from the line and the clock.
    pub fn from_line_at(line: &str, now: DateTime) -> (r: Result<Frame, ParseError>)
        requires
            now.wf(),
        ensures
            (match r {
                Ok(f) => spec_parse(line@, now) matches Ok(fv) && f@ == fv && frame_wf(f@),
                Err(e) => spec_parse(line@, now) == Err::<FrameV, ParseError>(e),
            }),
    {
        let chars = str_chars(line);
        let trimmed = trim_chars(&chars);
        assert(trimmed@ == trim_seq(line@));
        let (provided, computed, raw, body, discarded) = match validate_checksum(&trimmed) {
            Err(e) => {
                return Err(e);
            },
            Ok(t) => t,
        };
        let ghost cl = spec_clean(trim_seq(line@))->Ok_0;
        let bodyv = str_chars(body.as_str());
        let fields = split_fields(&bodyv, 0, bodyv.len());
        proof {
            assert(bodyv@.subrange(0, bodyv@.len() as int) =~= cl.body);
            lemma_split_commas_len(cl.body);
            lemma_field_view(&fields, 0);
        }
        let ghost sfields = split_commas(cl.body);
        let id = &fields[0];
        let idv = id.len() == 5 && id[0] == 'P' && id[1] == 'N' && id[2] == 'O' && id[3] == 'R';
        let is_i = idv && id[4] == 'I';
        let is_s = idv && id[4] == 'S';
        let is_c = idv && id[4] == 'C';
        assert(is_i == is_ident(sfields[0], 'I'));
        assert(is_s == is_ident(sfields[0], 'S'));
        assert(is_c == is_ident(sfields[0], 'C'));
        let payload: Payload = if is_i {
            match parse_config(&fields) {
                Ok(c) => Payload::Config(c),
                Err(e) => {
                    return Err(e);
                },
            }
        } else if is_s {
            match parse_sensor(&fields) {
                Ok(s) => Payload::Sensor(s),
                Err(e) => {
                    return Err(e);
                },
            }
        } else if is_c {
            match parse_current(&fields) {
                Ok(c) => Payload::Current(c),
                Err(e) => {
                    return Err(e);
                },
            }
        } else {
            return Err(ParseError::SchemaError);
        };
        assert(spec_args(fields.deep_view()) =~= spec_args(sfields));
        let recorded_at = match payload.sent_at() {
            Some(t) => t,
            None => now,
        };
        assert(recorded_at.wf() && payload_numerals_wf(payload@) && match payload@ {
            PayloadV::Config(_) => true,
            PayloadV::Sensor(s) => s.sent_at.wf(),
            PayloadV::Current(c) => c.sent_at.wf(),
        }) by {
            if spec_sent_at(payload@) is Some {
                // an embedded timestamp comes out of the date and time readers,
                // whose accepted values are well-formed by construction
                assert(payload@ matches PayloadV::Sensor(_) || payload@ matches PayloadV::Current(
                    _,
                ));
            }
        }
        let valid = provided == computed;
        let f = Frame {
            recorded_at,
            raw,
            checksum: Checksum { provided, computed, valid },
            payload,
            discarded,
        };
        assert(f@ == spec_parse(line@, now)->Ok_0);
        Ok(f)
    }

    /// Parses one line against the wall clock. Whether the line parses, and
    /// every part of the frame except the fallback `recorded_at` of an
    /// undated sentence, is independent of the clock.
    pub fn from_line(line: &str) -> (r: Result<Frame, ParseError>)
        ensures
            (match r {
                Ok(f) => frame_wf(f@) && (exists|now: DateTime|
                    now.wf() && #[trigger] spec_parse(line@, now) == Ok::<FrameV, ParseError>(f@)),
                Err(e) => forall|now: DateTime|
                    now.wf() ==> #[trigger] spec_parse(line@, now) == Err::<FrameV, ParseError>(e),
            }),
    {
        let now = now_utc();
        let r = Frame::from_line_at(line, now);
        proof {
            match &r {
                Ok(f) => {
                    assert(spec_parse(line@, now) == Ok::<FrameV, ParseError>(f@));
                },
                Err(e) => {
                    assert forall|n2: DateTime| n2.wf() implies #[trigger] spec_parse(line@, n2)
                        == Err::<FrameV, ParseError>(*e) by {
                        lemma_parse_err_any_clock(line@, now, n2);
                    }
                },
            }
        }
        r
    }
}

} // verus!
