//! The structured-log line format: one self-describing JSON object per frame,
//! with a `type` discriminator on the payload and RFC 3339 timestamps.
use vstd::prelude::*;

use crate::datetime::{rfc3339_str, spec_rfc3339_str};
use crate::parser::{
    frame_wf, opt_text_view, AmplitudeUnit, AmplitudeUnitV, ConfigSentence, ConfigV,
    CoordinateSystem, CurrentSentence, CurrentV, Frame, FrameV, InstrumentType, Payload, PayloadV,
    SensorSentence, SensorV,
};
use crate::parser::opt_number_wf;
use crate::text::{
    dec_str, digit_char, find_char_from, is_number_text, lemma_find_char_first, push_char,
    str_chars, strip_sign, u64_str,
};
use vstd::string::StringExecFns;

verus! {

// ---------------------------------------------------------------------------
// Escaping
// ---------------------------------------------------------------------------
pub open spec fn hex_lower_char(d: int) -> char {
    if d < 10 {
        digit_char(d)
    } else if d == 10 {
        'a'
    } else if d == 11 {
        'b'
    } else if d == 12 {
        'c'
    } else if d == 13 {
        'd'
    } else if d == 14 {
        'e'
    } else {
        'f'
    }
}

/// How one character appears inside a JSON string literal.
pub open spec fn esc_char(c: char) -> Seq<char> {
    if c == '"' {
        seq!['\\', '"']
    } else if c == '\\' {
        seq!['\\', '\\']
    } else if c == '\n' {
        seq!['\\', 'n']
    } else if c == '\r' {
        seq!['\\', 'r']
    } else if c == '\t' {
        seq!['\\', 't']
    } else if (c as u32) == 0x08 {
        seq!['\\', 'b']
    } else if (c as u32) == 0x0c {
        seq!['\\', 'f']
    } else if (c as u32) < 0x20 {
        seq!['\\', 'u', '0', '0', hex_lower_char(((c as u32) / 16) as int), hex_lower_char(
            ((c as u32) % 16) as int,
        )]
    } else {
        seq![c]
    }
}

pub open spec fn esc_upto(s: Seq<char>, i: int) -> Seq<char>
    decreases i when 0 <= i <= s.len()
{
    if i <= 0 {
        Seq::empty()
    } else {
        esc_upto(s, i - 1) + esc_char(s[i - 1])
    }
}

pub open spec fn json_escaped(s: Seq<char>) -> Seq<char> {
    esc_upto(s, s.len() as int)
}

/// A JSON string literal holding `s`.
pub open spec fn json_string(s: Seq<char>) -> Seq<char> {
    seq!['"'] + json_escaped(s) + seq!['"']
}

fn push_esc_char(out: &mut String, c: char)
    ensures
        final(out)@ == old(out)@ + esc_char(c),
{
    let v = c as u32;
    if c == '"' {
        push_char(out, '\\');
        push_char(out, '"');
    } else if c == '\\' {
        push_char(out, '\\');
        push_char(out, '\\');
    } else if c == '\n' {
        push_char(out, '\\');
        push_char(out, 'n');
    } else if c == '\r' {
        push_char(out, '\\');
        push_char(out, 'r');
    } else if c == '\t' {
        push_char(out, '\\');
        push_char(out, 't');
    } else if v == 0x08 {
        push_char(out, '\\');
        push_char(out, 'b');
    } else if v == 0x0c {
        push_char(out, '\\');
        push_char(out, 'f');
    } else if v < 0x20 {
        push_char(out, '\\');
        push_char(out, 'u');
        push_char(out, '0');
        push_char(out, '0');
        let hi = (v / 16) as u8;
        let lo = (v % 16) as u8;
        push_char(
            out,
            if hi < 10 {
                crate::text::digit_char_of(hi)
            } else {
                'a'
            },
        );
        push_char(
            out,
            match lo {
                10 => 'a',
                11 => 'b',
                12 => 'c',
                13 => 'd',
                14 => 'e',
                15 => 'f',
                _ => crate::text::digit_char_of(lo),
            },
        );
    } else {
        push_char(out, c);
    }
    assert(final(out)@ =~= old(out)@ + esc_char(c));
}

fn push_escaped(out: &mut String, s: &str)
    ensures
        final(out)@ == old(out)@ + json_escaped(s@),
{
    let v = str_chars(s);
    let n = v.len();
    let mut i: usize = 0;
    while i < n
        invariant
            i <= n,
            n == s@.len(),
            v@ == s@,
            out@ == old(out)@ + esc_upto(s@, i as int),
        decreases n - i,
    {
        push_esc_char(out, v[i]);
        i = i + 1;
    }
}

fn push_json_string(out: &mut String, s: &str)
    ensures
        final(out)@ == old(out)@ + json_string(s@),
{
    push_char(out, '"');
    push_escaped(out, s);
    push_char(out, '"');
    assert(final(out)@ =~= old(out)@ + json_string(s@));
}

// ---------------------------------------------------------------------------
// Number tokens
// ---------------------------------------------------------------------------
/// A digit run without leading zeros; an empty run stands for zero.
pub open spec fn strip_zeros(d: Seq<char>) -> Seq<char>
    decreases d.len(),
{
    if d.len() == 0 {
        seq!['0']
    } else if d.len() == 1 {
        d
    } else if d[0] == '0' {
        strip_zeros(d.subrange(1, d.len() as int))
    } else {
        d
    }
}

/// A numeral text as a JSON number token: the `+` sign dropped, leading
/// zeros reduced, a bare trailing dot dropped, and a leading dot given its
/// zero integer part.
pub open spec fn json_number(s: Seq<char>) -> Seq<char>
    recommends
        is_number_text(s),
{
    let sign: Seq<char> = if s.len() > 0 && s[0] == '-' {
        seq!['-']
    } else {
        Seq::empty()
    };
    let u = strip_sign(s);
    match find_char_from(u, '.', 0) {
        None => sign + strip_zeros(u),
        Some(p) => {
            let ip = u.subrange(0, p);
            let fp = u.subrange(p + 1, u.len() as int);
            sign + strip_zeros(ip) + (if fp.len() > 0 {
                seq!['.'] + fp
            } else {
                Seq::empty()
            })
        },
    }
}

proof fn lemma_strip_zeros_at(d: Seq<char>, z: int)
    requires
        0 <= z < d.len(),
        forall|m: int| 0 <= m < z ==> d[m] == '0',
        z == d.len() - 1 || d[z] != '0',
    ensures
        strip_zeros(d) == d.subrange(z, d.len() as int),
    decreases z,
{
    if z == 0 {
        if d.len() == 1 {
            assert(d.subrange(0, d.len() as int) =~= d);
        } else {
            assert(d.subrange(0, d.len() as int) =~= d);
        }
    } else {
        let rest = d.subrange(1, d.len() as int);
        lemma_strip_zeros_at(rest, z - 1);
        assert(rest.subrange(z - 1, rest.len() as int) =~= d.subrange(z, d.len() as int));
    }
}

/// Renders a numeral text as a JSON number token.
#[verifier::rlimit(100)]
fn push_number(out: &mut String, s: &str)
    requires
        is_number_text(s@),
    ensures
        final(out)@ == old(out)@ + json_number(s@),
{
    let v = str_chars(s);
    let n = v.len();
    let ghost u = strip_sign(s@);
    let start: usize = if n > 0 && (v[0] == '+' || v[0] == '-') {
        1
    } else {
        0
    };
    assert(u =~= s@.subrange(start as int, n as int));
    if n > 0 && v[0] == '-' {
        push_char(out, '-');
    }
    let ghost emitted = out@;
    // locate the first dot, if any
    let mut dot: usize = start;
    while dot < n && v[dot] != '.'
        invariant
            start <= dot <= n,
            n == s@.len(),
            v@ == s@,
            u == s@.subrange(start as int, n as int),
            forall|m: int| start <= m < dot ==> s@[m] != '.',
        decreases n - dot,
    {
        dot = dot + 1;
    }
    proof {
        lemma_find_char_first(u, '.', 0, dot - start);
    }
    // the integer part without leading zeros
    let ghost ip = if dot < n {
        u.subrange(0, dot - start)
    } else {
        u
    };
    if start == dot {
        push_char(out, '0');
        assert(out@ =~= emitted + strip_zeros(ip));
    } else {
        let mut z: usize = start;
        while z + 1 < dot && v[z] == '0'
            invariant
                start <= z < dot <= n,
                n == s@.len(),
                v@ == s@,
                forall|m: int| start <= m < z ==> s@[m] == '0',
            decreases dot - z,
        {
            z = z + 1;
        }
        let mut k: usize = z;
        while k < dot
            invariant
                start <= z <= k <= dot <= n,
                n == s@.len(),
                v@ == s@,
                out@ == emitted + s@.subrange(z as int, k as int),
            decreases dot - k,
        {
            let c = v[k];
            push_char(out, c);
            proof {
                crate::text::lemma_subrange_push(s@, z as int, k as int);
            }
            k = k + 1;
        }
        proof {
            lemma_strip_zeros_at(ip, z - start);
            assert(ip.subrange(z - start, ip.len() as int) =~= s@.subrange(z as int, dot as int));
        }
        assert(out@ == emitted + strip_zeros(ip));
    }
    // the fraction part, kept only when it has digits
    if dot < n && dot + 1 < n {
        let ghost mid = out@;
        push_char(out, '.');
        let mut k: usize = dot + 1;
        while k < n
            invariant
                dot + 1 <= k <= n,
                n == s@.len(),
                v@ == s@,
                out@ == mid + seq!['.'] + s@.subrange(dot + 1, k as int),
            decreases n - k,
        {
            let c = v[k];
            push_char(out, c);
            proof {
                crate::text::lemma_subrange_push(s@, dot + 1, k as int);
            }
            k = k + 1;
        }
        proof {
            let fp = u.subrange(dot - start + 1, u.len() as int);
            assert(fp =~= s@.subrange(dot + 1, n as int));
        }
    }
    proof {
        if dot < n {
            let fp = u.subrange(dot - start + 1, u.len() as int);
            if fp.len() > 0 {
                assert(final(out)@ =~= old(out)@ + json_number(s@));
            } else {
                assert(final(out)@ =~= old(out)@ + json_number(s@));
            }
        } else {
            assert(final(out)@ =~= old(out)@ + json_number(s@));
        }
    }
}

// ---------------------------------------------------------------------------
// Small pieces
// ---------------------------------------------------------------------------
/// `"name":` — an object key.
pub open spec fn jkey(name: Seq<char>) -> Seq<char> {
    seq!['"'] + name + seq!['"', ':']
}

fn push_key(out: &mut String, name: &str)
    ensures
        final(out)@ == old(out)@ + jkey(name@),
{
    push_char(out, '"');
    out.append(name);
    push_char(out, '"');
    push_char(out, ':');
    assert(final(out)@ =~= old(out)@ + jkey(name@));
}

pub open spec fn json_null() -> Seq<char> {
    seq!['n', 'u', 'l', 'l']
}

pub open spec fn json_bool(b: bool) -> Seq<char> {
    if b {
        seq!['t', 'r', 'u', 'e']
    } else {
        seq!['f', 'a', 'l', 's', 'e']
    }
}

fn push_bool(out: &mut String, b: bool)
    ensures
        final(out)@ == old(out)@ + json_bool(b),
{
    if b {
        push_char(out, 't');
        push_char(out, 'r');
        push_char(out, 'u');
        push_char(out, 'e');
    } else {
        push_char(out, 'f');
        push_char(out, 'a');
        push_char(out, 'l');
        push_char(out, 's');
        push_char(out, 'e');
    }
    assert(final(out)@ =~= old(out)@ + json_bool(b));
}

fn push_u64(out: &mut String, v: u64)
    ensures
        final(out)@ == old(out)@ + dec_str(v as int),
{
    let s = u64_str(v);
    out.append(s.as_str());
}

/// An optional numeral field: the numeral as a JSON number token, or `null`.
pub open spec fn json_opt_number(o: Option<Seq<char>>) -> Seq<char> {
    match o {
        Some(t) => json_number(t),
        None => json_null(),
    }
}

fn push_null(out: &mut String)
    ensures
        final(out)@ == old(out)@ + json_null(),
{
    push_char(out, 'n');
    push_char(out, 'u');
    push_char(out, 'l');
    push_char(out, 'l');
    assert(final(out)@ =~= old(out)@ + json_null());
}

fn push_opt_number(out: &mut String, o: &Option<String>)
    requires
        opt_number_wf(opt_text_view(*o)),
    ensures
        final(out)@ == old(out)@ + json_opt_number(opt_text_view(*o)),
{
    match o {
        Some(t) => push_number(out, t.as_str()),
        None => push_null(out),
    }
}

pub open spec fn json_opt_u8(o: Option<u8>) -> Seq<char> {
    match o {
        Some(v) => dec_str(v as int),
        None => json_null(),
    }
}

fn push_opt_u8(out: &mut String, o: &Option<u8>)
    ensures
        final(out)@ == old(out)@ + json_opt_u8(*o),
{
    match o {
        Some(v) => push_u64(out, *v as u64),
        None => push_null(out),
    }
}

// ---------------------------------------------------------------------------
// Enumerations
// ---------------------------------------------------------------------------
pub open spec fn instrument_json(it: InstrumentType) -> Seq<char> {
    match it {
        InstrumentType::Signature => json_string("signature"@),
        InstrumentType::Other(n) => seq!['{'] + jkey("other"@) + dec_str(n as int) + seq!['}'],
    }
}

fn push_instrument(out: &mut String, it: &InstrumentType)
    ensures
        final(out)@ == old(out)@ + instrument_json(*it),
{
    match it {
        InstrumentType::Signature => push_json_string(out, "signature"),
        InstrumentType::Other(n) => {
            push_char(out, '{');
            push_key(out, "other");
            push_u64(out, *n as u64);
            push_char(out, '}');
            assert(final(out)@ =~= old(out)@ + instrument_json(*it));
        },
    }
}

pub open spec fn coordinate_json(c: CoordinateSystem) -> Seq<char> {
    match c {
        CoordinateSystem::Enu => json_string("enu"@),
        CoordinateSystem::Xyz => json_string("xyz"@),
        CoordinateSystem::Beam => json_string("beam"@),
        CoordinateSystem::Unknown(n) => seq!['{'] + jkey("unknown"@) + dec_str(n as int)
            + seq!['}'],
    }
}

fn push_coordinate(out: &mut String, c: &CoordinateSystem)
    ensures
        final(out)@ == old(out)@ + coordinate_json(*c),
{
    match c {
        CoordinateSystem::Enu => push_json_string(out, "enu"),
        CoordinateSystem::Xyz => push_json_string(out, "xyz"),
        CoordinateSystem::Beam => push_json_string(out, "beam"),
        CoordinateSystem::Unknown(n) => {
            push_char(out, '{');
            push_key(out, "unknown");
            push_u64(out, *n as u64);
            push_char(out, '}');
            assert(final(out)@ =~= old(out)@ + coordinate_json(*c));
        },
    }
}

pub open spec fn amplitude_json(a: AmplitudeUnitV) -> Seq<char> {
    match a {
        AmplitudeUnitV::Counts => json_string("counts"@),
        AmplitudeUnitV::Unknown(s) => seq!['{'] + jkey("unknown"@) + json_string(s) + seq!['}'],
    }
}

fn push_amplitude(out: &mut String, a: &AmplitudeUnit)
    ensures
        final(out)@ == old(out)@ + amplitude_json(a@),
{
    match a {
        AmplitudeUnit::Counts => push_json_string(out, "counts"),
        AmplitudeUnit::Unknown(s) => {
            push_char(out, '{');
            push_key(out, "unknown");
            push_json_string(out, s.as_str());
            push_char(out, '}');
            assert(final(out)@ =~= old(out)@ + amplitude_json(a@));
        },
    }
}

// ---------------------------------------------------------------------------
// Object members
// ---------------------------------------------------------------------------
/// `,"name":<numeral or null>` — one optional measurement member.
pub open spec fn member_num(name: Seq<char>, o: Option<Seq<char>>) -> Seq<char> {
    seq![','] + jkey(name) + json_opt_number(o)
}

/// `,"name":<count or null>` — one optional small-count member.
pub open spec fn member_u8(name: Seq<char>, o: Option<u8>) -> Seq<char> {
    seq![','] + jkey(name) + json_opt_u8(o)
}

fn push_member_num(out: &mut String, name: &str, o: &Option<String>)
    requires
        opt_number_wf(opt_text_view(*o)),
    ensures
        final(out)@ == old(out)@ + member_num(name@, opt_text_view(*o)),
{
    push_char(out, ',');
    push_key(out, name);
    push_opt_number(out, o);
    assert(final(out)@ =~= old(out)@ + member_num(name@, opt_text_view(*o)));
}

fn push_member_u8(out: &mut String, name: &str, o: &Option<u8>)
    ensures
        final(out)@ == old(out)@ + member_u8(name@, *o),
{
    push_char(out, ',');
    push_key(out, name);
    push_opt_u8(out, o);
    assert(final(out)@ =~= old(out)@ + member_u8(name@, *o));
}

// ---------------------------------------------------------------------------
// Payloads
// ---------------------------------------------------------------------------
pub open spec fn config_json(c: ConfigV) -> Seq<char> {
    seq!['{'] + jkey("type"@) + json_string("config"@) + seq![','] + jkey("instrument_type"@)
        + instrument_json(c.instrument_type) + seq![','] + jkey("head_id"@) + json_string(c.head_id)
        + seq![','] + jkey("beams"@) + dec_str(c.beams as int) + seq![','] + jkey("cells"@)
        + dec_str(c.cells as int) + seq![','] + jkey("blanking_m"@) + json_number(c.blanking_m)
        + seq![','] + jkey("cell_size_m"@) + json_number(c.cell_size_m) + seq![','] + jkey(
        "coordinate_system"@,
    )
        + coordinate_json(c.coordinate_system) + seq!['}']
}

pub open spec fn sensor_json_head(s: SensorV) -> Seq<char> {
    seq!['{'] + jkey("type"@) + json_string("sensor"@) + seq![','] + jkey("sent_at"@)
        + json_string(spec_rfc3339_str(s.sent_at)) + seq![','] + jkey("error_code_hex"@) + dec_str(
        s.error_code_hex as int,
    ) + seq![','] + jkey("status_code_hex"@) + dec_str(s.status_code_hex as int) + member_num(
        "battery_voltage_v"@,
        s.battery_voltage_v,
    ) + member_num("sound_speed_m_s"@, s.sound_speed_m_s)
}

pub open spec fn sensor_json_tail(s: SensorV) -> Seq<char> {
    member_num("heading_deg"@, s.heading_deg) + member_num("pitch_deg"@, s.pitch_deg) + member_num(
        "roll_deg"@,
        s.roll_deg,
    ) + member_num("pressure_dbar"@, s.pressure_dbar) + member_num("temperature_c"@, s.temperature_c)
        + member_num("analog_input_1"@, s.analog_input_1) + member_num(
        "analog_input_2"@,
        s.analog_input_2,
    ) + seq!['}']
}

pub open spec fn sensor_json(s: SensorV) -> Seq<char> {
    sensor_json_head(s) + sensor_json_tail(s)
}

pub open spec fn current_json_head(c: CurrentV) -> Seq<char> {
    seq!['{'] + jkey("type"@) + json_string("current"@) + seq![','] + jkey("sent_at"@)
        + json_string(spec_rfc3339_str(c.sent_at)) + seq![','] + jkey("cell_number"@) + dec_str(
        c.cell_number as int,
    ) + member_num("velocity_1_m_s"@, c.velocity_1_m_s) + member_num(
        "velocity_2_m_s"@,
        c.velocity_2_m_s,
    ) + member_num("velocity_3_m_s"@, c.velocity_3_m_s) + member_num(
        "velocity_4_m_s"@,
        c.velocity_4_m_s,
    ) + member_num("speed_m_s"@, c.speed_m_s) + member_num("direction_deg"@, c.direction_deg)
}

pub open spec fn current_json_tail(c: CurrentV) -> Seq<char> {
    seq![','] + jkey("amplitude_unit"@) + amplitude_json(c.amplitude_unit) + member_u8(
        "amplitude_beam_1"@,
        c.amplitude_beam_1,
    ) + member_u8("amplitude_beam_2"@, c.amplitude_beam_2) + member_u8(
        "amplitude_beam_3"@,
        c.amplitude_beam_3,
    ) + member_u8("amplitude_beam_4"@, c.amplitude_beam_4) + member_u8(
        "correlation_beam_1_pct"@,
        c.correlation_beam_1_pct,
    ) + member_u8("correlation_beam_2_pct"@, c.correlation_beam_2_pct) + member_u8(
        "correlation_beam_3_pct"@,
        c.correlation_beam_3_pct,
    ) + member_u8("correlation_beam_4_pct"@, c.correlation_beam_4_pct) + seq!['}']
}

pub open spec fn current_json(c: CurrentV) -> Seq<char> {
    current_json_head(c) + current_json_tail(c)
}

pub open spec fn payload_json(p: PayloadV) -> Seq<char> {
    match p {
        PayloadV::Config(c) => config_json(c),
        PayloadV::Sensor(s) => sensor_json(s),
        PayloadV::Current(c) => current_json(c),
    }
}

#[verifier::rlimit(100)]
fn push_config(out: &mut String, c: &ConfigSentence)
    requires
        is_number_text(c.blanking_m@),
        is_number_text(c.cell_size_m@),
    ensures
        final(out)@ == old(out)@ + config_json(c@),
{
    push_char(out, '{');
    push_key(out, "type");
    push_json_string(out, "config");
    push_char(out, ',');
    push_key(out, "instrument_type");
    push_instrument(out, &c.instrument_type);
    push_char(out, ',');
    push_key(out, "head_id");
    push_json_string(out, c.head_id.as_str());
    push_char(out, ',');
    push_key(out, "beams");
    push_u64(out, c.beams as u64);
    push_char(out, ',');
    push_key(out, "cells");
    push_u64(out, c.cells as u64);
    push_char(out, ',');
    push_key(out, "blanking_m");
    push_number(out, c.blanking_m.as_str());
    push_char(out, ',');
    push_key(out, "cell_size_m");
    push_number(out, c.cell_size_m.as_str());
    push_char(out, ',');
    push_key(out, "coordinate_system");
    push_coordinate(out, &c.coordinate_system);
    push_char(out, '}');
    assert(final(out)@ =~= old(out)@ + config_json(c@));
}

#[verifier::rlimit(100)]
fn push_sensor(out: &mut String, s: &SensorSentence)
    requires
        s.sent_at.wf(),
        opt_number_wf(opt_text_view(s.battery_voltage_v)),
        opt_number_wf(opt_text_view(s.sound_speed_m_s)),
        opt_number_wf(opt_text_view(s.heading_deg)),
        opt_number_wf(opt_text_view(s.pitch_deg)),
        opt_number_wf(opt_text_view(s.roll_deg)),
        opt_number_wf(opt_text_view(s.pressure_dbar)),
        opt_number_wf(opt_text_view(s.temperature_c)),
        opt_number_wf(opt_text_view(s.analog_input_1)),
        opt_number_wf(opt_text_view(s.analog_input_2)),
    ensures
        final(out)@ == old(out)@ + sensor_json(s@),
{
    push_char(out, '{');
    push_key(out, "type");
    push_json_string(out, "sensor");
    push_char(out, ',');
    push_key(out, "sent_at");
    let ts = rfc3339_str(&s.sent_at);
    push_timestamp(out, &ts);
    push_char(out, ',');
    push_key(out, "error_code_hex");
    push_u64(out, s.error_code_hex as u64);
    push_char(out, ',');
    push_key(out, "status_code_hex");
    push_u64(out, s.status_code_hex as u64);
    push_member_num(out, "battery_voltage_v", &s.battery_voltage_v);
    push_member_num(out, "sound_speed_m_s", &s.sound_speed_m_s);
    assert(out@ =~= old(out)@ + sensor_json_head(s@));
    let ghost mid = out@;
    push_member_num(out, "heading_deg", &s.heading_deg);
    push_member_num(out, "pitch_deg", &s.pitch_deg);
    push_member_num(out, "roll_deg", &s.roll_deg);
    push_member_num(out, "pressure_dbar", &s.pressure_dbar);
    push_member_num(out, "temperature_c", &s.temperature_c);
    push_member_num(out, "analog_input_1", &s.analog_input_1);
    push_member_num(out, "analog_input_2", &s.analog_input_2);
    push_char(out, '}');
    assert(final(out)@ =~= mid + sensor_json_tail(s@));
    assert(final(out)@ =~= old(out)@ + sensor_json(s@));
}

#[verifier::rlimit(100)]
fn push_current(out: &mut String, c: &CurrentSentence)
    requires
        c.sent_at.wf(),
        opt_number_wf(opt_text_view(c.velocity_1_m_s)),
        opt_number_wf(opt_text_view(c.velocity_2_m_s)),
        opt_number_wf(opt_text_view(c.velocity_3_m_s)),
        opt_number_wf(opt_text_view(c.velocity_4_m_s)),
        opt_number_wf(opt_text_view(c.speed_m_s)),
        opt_number_wf(opt_text_view(c.direction_deg)),
    ensures
        final(out)@ == old(out)@ + current_json(c@),
{
    push_char(out, '{');
    push_key(out, "type");
    push_json_string(out, "current");
    push_char(out, ',');
    push_key(out, "sent_at");
    let ts = rfc3339_str(&c.sent_at);
    push_timestamp(out, &ts);
    push_char(out, ',');
    push_key(out, "cell_number");
    push_u64(out, c.cell_number as u64);
    push_member_num(out, "velocity_1_m_s", &c.velocity_1_m_s);
    push_member_num(out, "velocity_2_m_s", &c.velocity_2_m_s);
    push_member_num(out, "velocity_3_m_s", &c.velocity_3_m_s);
    push_member_num(out, "velocity_4_m_s", &c.velocity_4_m_s);
    push_member_num(out, "speed_m_s", &c.speed_m_s);
    push_member_num(out, "direction_deg", &c.direction_deg);
    assert(out@ =~= old(out)@ + current_json_head(c@));
    let ghost mid = out@;
    push_char(out, ',');
    push_key(out, "amplitude_unit");
    push_amplitude(out, &c.amplitude_unit);
    push_member_u8(out, "amplitude_beam_1", &c.amplitude_beam_1);
    push_member_u8(out, "amplitude_beam_2", &c.amplitude_beam_2);
    push_member_u8(out, "amplitude_beam_3", &c.amplitude_beam_3);
    push_member_u8(out, "amplitude_beam_4", &c.amplitude_beam_4);
    push_member_u8(out, "correlation_beam_1_pct", &c.correlation_beam_1_pct);
    push_member_u8(out, "correlation_beam_2_pct", &c.correlation_beam_2_pct);
    push_member_u8(out, "correlation_beam_3_pct", &c.correlation_beam_3_pct);
    push_member_u8(out, "correlation_beam_4_pct", &c.correlation_beam_4_pct);
    push_char(out, '}');
    assert(final(out)@ =~= mid + current_json_tail(c@));
    assert(final(out)@ =~= old(out)@ + current_json(c@));
}

/// A rendered timestamp as a JSON string member value.
fn push_timestamp(out: &mut String, s: &String)
    ensures
        final(out)@ == old(out)@ + json_string(s@),
{
    push_json_string(out, s.as_str());
}

// ---------------------------------------------------------------------------
// Frames
// ---------------------------------------------------------------------------
pub open spec fn discarded_arr_upto(ds: Seq<Seq<char>>, i: int) -> Seq<char>
    decreases i when 0 <= i <= ds.len()
{
    if i <= 0 {
        Seq::empty()
    } else {
        discarded_arr_upto(ds, i - 1) + (if i - 1 == 0 {
            Seq::empty()
        } else {
            seq![',']
        }) + json_string(ds[i - 1])
    }
}

/// The trailing `discarded` member, present only when fragments were removed.
pub open spec fn discarded_json(ds: Seq<Seq<char>>) -> Seq<char> {
    if ds.len() == 0 {
        Seq::empty()
    } else {
        seq![','] + jkey("discarded"@) + seq!['['] + discarded_arr_upto(ds, ds.len() as int)
            + seq![']']
    }
}

fn push_discarded(out: &mut String, ds: &Vec<String>)
    ensures
        final(out)@ == old(out)@ + discarded_json(ds.deep_view()),
{
    let n = ds.len();
    if n == 0 {
        return ;
    }
    push_char(out, ',');
    push_key(out, "discarded");
    push_char(out, '[');
    let ghost head = old(out)@ + seq![','] + jkey("discarded"@) + seq!['['];
    assert(out@ =~= head);
    let mut i: usize = 0;
    while i < n
        invariant
            i <= n,
            n == ds@.len(),
            ds.deep_view().len() == n,
            out@ == head + discarded_arr_upto(ds.deep_view(), i as int),
        decreases n - i,
    {
        if i > 0 {
            push_char(out, ',');
        }
        assert(ds.deep_view()[i as int] == ds@[i as int]@);
        push_json_string(out, ds[i].as_str());
        i = i + 1;
    }
    push_char(out, ']');
    assert(final(out)@ =~= old(out)@ + discarded_json(ds.deep_view()));
}

/// One structured-log line: the frame as a JSON object.
#[verifier::opaque]
pub open spec fn frame_json(f: FrameV) -> Seq<char> {
    seq!['{'] + jkey("recorded_at"@) + json_string(spec_rfc3339_str(f.recorded_at)) + seq![',']
        + jkey("raw"@) + json_string(f.raw) + seq![','] + jkey("checksum"@) + seq!['{'] + jkey(
        "provided"@,
    ) + dec_str(f.checksum.provided as int) + seq![','] + jkey("computed"@) + dec_str(
        f.checksum.computed as int,
    ) + seq![','] + jkey("valid"@) + json_bool(f.checksum.valid) + seq!['}'] + seq![','] + jkey(
        "payload"@,
    ) + payload_json(f.payload) + discarded_json(f.discarded) + seq!['}']
}

impl Frame {
    /// Serializes the frame for the structured daily log.
    #[verifier::rlimit(100)]
    pub fn to_persistence_line(&self) -> (s: String)
        requires
            frame_wf(self@),
        ensures
            s@ == frame_json(self@),
    {
        let mut out = String::new();
        push_char(&mut out, '{');
        push_key(&mut out, "recorded_at");
        let ts = rfc3339_str(&self.recorded_at);
        push_timestamp(&mut out, &ts);
        push_char(&mut out, ',');
        push_key(&mut out, "raw");
        push_json_string(&mut out, self.raw.as_str());
        push_char(&mut out, ',');
        push_key(&mut out, "checksum");
        push_char(&mut out, '{');
        push_key(&mut out, "provided");
        push_u64(&mut out, self.checksum.provided as u64);
        push_char(&mut out, ',');
        push_key(&mut out, "computed");
        push_u64(&mut out, self.checksum.computed as u64);
        push_char(&mut out, ',');
        push_key(&mut out, "valid");
        push_bool(&mut out, self.checksum.valid);
        push_char(&mut out, '}');
        push_char(&mut out, ',');
        push_key(&mut out, "payload");
        match &self.payload {
            Payload::Config(c) => push_config(&mut out, c),
            Payload::Sensor(s) => push_sensor(&mut out, s),
            Payload::Current(c) => push_current(&mut out, c),
        }
        push_discarded(&mut out, &self.discarded);
        push_char(&mut out, '}');
        proof {
            reveal(frame_json);
        }
        assert(out@ =~= frame_json(self@));
        out
    }
}

} // verus!
