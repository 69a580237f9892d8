//! Replay of captured files through the parser and persistence pipeline.
//! The capture text is normalized (escaped and literal line breaks both count
//! as frame boundaries, and sentences are recovered at each `$`), each
//! recovered line is parsed, and accepted frames are appended to persistence;
//! junk fragments and rejected lines are collected as failures. Reading the
//! capture from disk, and mirroring the append effects onto it, happen in the
//! surrounding process.
use vstd::prelude::*;

use crate::datetime::{Date, DateTime, Time};
use crate::parser::{frame_wf, Frame, FrameV, ParseError};
use crate::persistence::{run_appends, run_effects, AppendEffect, Persistence};
use crate::text::{split_char, split_chars, str_chars, trim_chars, trim_seq};
use vstd::string::StringExecFns;

verus! {

/// Result of a replay: counts and the advisory failures list.
#[derive(Debug)]
pub struct ReplayResult {
    pub frames_processed: usize,
    pub parse_errors: usize,
    pub persistence_errors: usize,
    pub failures: Vec<String>,
}

// ---------------------------------------------------------------------------
// Capture normalization
// ---------------------------------------------------------------------------
/// An escaped line break: the four characters backslash, `r`, backslash, `n`.
pub open spec fn is_escaped_break_at(s: Seq<char>, i: int) -> bool {
    i + 4 <= s.len() && s[i] == '\\' && s[i + 1] == 'r' && s[i + 2] == '\\' && s[i + 3] == 'n'
}

pub open spec fn break_char(c: char) -> char {
    if c == '\r' {
        '\n'
    } else {
        c
    }
}

/// The capture text with escaped line breaks and carriage returns both
/// turned into plain line breaks, scanning left to right.
pub open spec fn normalized_text_from(s: Seq<char>, i: int) -> Seq<char>
    decreases s.len() - i when 0 <= i <= s.len()
{
    if i >= s.len() {
        Seq::empty()
    } else if is_escaped_break_at(s, i) {
        seq!['\n'] + normalized_text_from(s, i + 4)
    } else {
        seq![break_char(s[i])] + normalized_text_from(s, i + 1)
    }
}

/// One recovered sentence per `$`: chunks that trim to nothing are dropped,
/// the rest are re-prefixed with `$`.
pub open spec fn sentences_from(chunks: Seq<Seq<char>>, i: int) -> Seq<Seq<char>>
    decreases chunks.len() - i when 0 <= i <= chunks.len()
{
    if i >= chunks.len() {
        Seq::empty()
    } else {
        (if trim_seq(chunks[i]).len() > 0 {
            seq![seq!['$'] + trim_seq(chunks[i])]
        } else {
            Seq::empty()
        }) + sentences_from(chunks, i + 1)
    }
}

/// The logical lines a capture replays: normalize the text, split on `$`,
/// and keep each non-blank chunk with its `$` restored.
pub open spec fn spec_normalize_capture(s: Seq<char>) -> Seq<Seq<char>> {
    sentences_from(split_char(normalized_text_from(s, 0), '$'), 0)
}

/// Rebuilds clean sentence lines from a capture.
pub fn normalize_capture(raw: &str) -> (lines: Vec<String>)
    ensures
        lines.deep_view() == spec_normalize_capture(raw@),
{
    let v = str_chars(raw);
    let n = v.len();
    let mut t: Vec<char> = Vec::new();
    let mut i: usize = 0;
    while i < n
        invariant
            i <= n,
            n == raw@.len(),
            v@ == raw@,
            normalized_text_from(raw@, 0) == t@ + normalized_text_from(raw@, i as int),
        decreases n - i,
    {
        if i < n && n - i >= 4 && v[i] == '\\' && v[i + 1] == 'r' && v[i + 2] == '\\' && v[i + 3]
            == 'n' {
            assert(is_escaped_break_at(raw@, i as int));
            t.push('\n');
            proof {
                assert((t@ + normalized_text_from(raw@, i + 4)) =~= (t@.drop_last() + (seq!['\n']
                    + normalized_text_from(raw@, i + 4))));
            }
            i = i + 4;
        } else {
            assert(!is_escaped_break_at(raw@, i as int));
            let c = v[i];
            let mapped = if c == '\r' {
                '\n'
            } else {
                c
            };
            t.push(mapped);
            proof {
                assert((t@ + normalized_text_from(raw@, i + 1)) =~= (t@.drop_last() + (seq![
                    break_char(raw@[i as int]),
                ] + normalized_text_from(raw@, i + 1))));
            }
            i = i + 1;
        }
    }
    proof {
        assert(t@ + normalized_text_from(raw@, n as int) =~= t@);
    }
    let tn = t.len();
    let chunks = split_chars(&t, 0, tn, '$');
    proof {
        assert(t@.subrange(0, tn as int) =~= t@);
    }
    let ghost cdv = chunks.deep_view();
    let m = chunks.len();
    let mut lines: Vec<String> = Vec::new();
    proof {
        assert(lines.deep_view() =~~= Seq::<Seq<char>>::empty());
        assert(lines.deep_view() + sentences_from(cdv, 0) =~= sentences_from(cdv, 0));
    }
    let mut k: usize = 0;
    while k < m
        invariant
            k <= m,
            m == chunks@.len(),
            cdv == chunks.deep_view(),
            sentences_from(cdv, 0) == lines.deep_view() + sentences_from(cdv, k as int),
        decreases m - k,
    {
        proof {
            assert(chunks.deep_view()[k as int] =~= chunks@[k as int]@);
        }
        let trimmed = trim_chars(&chunks[k]);
        if trimmed.len() > 0 {
            let mut s = String::new();
            crate::text::push_char(&mut s, '$');
            let body = crate::text::chars_string(&trimmed, 0, trimmed.len());
            s.append(body.as_str());
            proof {
                assert(trimmed@.subrange(0, trimmed@.len() as int) =~= trimmed@);
                assert(s@ =~= seq!['$'] + trim_seq(cdv[k as int]));
            }
            let ghost before = lines.deep_view();
            lines.push(s);
            proof {
                assert(lines.deep_view() =~~= before.push(s@));
                assert(before.push(s@) =~= before + seq![seq!['$'] + trim_seq(cdv[k as int])]);
            }
        }
        k = k + 1;
    }
    proof {
        assert(lines.deep_view() + sentences_from(cdv, m as int) =~= lines.deep_view());
    }
    lines
}

// ---------------------------------------------------------------------------
// Replay
// ---------------------------------------------------------------------------
/// The canonical clock used to state clock-independent facts about a line.
pub open spec fn spec_epoch() -> DateTime {
    DateTime {
        date: Date { year: 1970, month: 1, day: 1 },
        time: Time { hour: 0, minute: 0, second: 0 },
    }
}

/// Whether a line parses; by the clock-independence of rejection this does
/// not depend on the observer's clock.
pub open spec fn line_ok(s: Seq<char>) -> bool {
    crate::parser::spec_parse(s, spec_epoch()) is Ok
}

/// The frame a line parses to against the canonical clock.
pub open spec fn line_frame(s: Seq<char>) -> FrameV
    recommends
        line_ok(s),
{
    crate::parser::spec_parse(s, spec_epoch())->Ok_0
}

/// A frame that some well-formed clock reading produces from the line.
pub open spec fn matches_line(s: Seq<char>, f: FrameV) -> bool {
    exists|now: DateTime|
        now.wf() && #[trigger] crate::parser::spec_parse(s, now) == Ok::<FrameV, ParseError>(f)
}

/// The lines of the capture that parse, in order.
pub open spec fn ok_lines_from(lines: Seq<Seq<char>>, i: int) -> Seq<Seq<char>>
    decreases lines.len() - i when 0 <= i <= lines.len()
{
    if i >= lines.len() {
        Seq::empty()
    } else {
        (if line_ok(lines[i]) {
            seq![lines[i]]
        } else {
            Seq::empty()
        }) + ok_lines_from(lines, i + 1)
    }
}

/// The advisory failures of a replay, in order: for an accepted line its
/// discarded junk fragments, for a rejected line the line itself.
pub open spec fn failures_from(lines: Seq<Seq<char>>, i: int) -> Seq<Seq<char>>
    decreases lines.len() - i when 0 <= i <= lines.len()
{
    if i >= lines.len() {
        Seq::empty()
    } else {
        (if line_ok(lines[i]) {
            line_frame(lines[i]).discarded
        } else {
            seq![lines[i]]
        }) + failures_from(lines, i + 1)
    }
}

/// Replays one capture's text through the parser and the given persistence
/// sink. The returned effects, in order, are the disk writes to mirror.
#[verifier::rlimit(100)]
pub fn replay_capture(content: &str, persistence: &mut Persistence) -> (r: (
    ReplayResult,
    Vec<AppendEffect>,
))
    requires
        old(persistence)@.inv(),
    ensures
        final(persistence)@.inv(),
        ({
            let lines = spec_normalize_capture(content@);
            let oks = ok_lines_from(lines, 0);
            &&& r.0.frames_processed == oks.len()
            &&& r.0.frames_processed + r.0.parse_errors == lines.len()
            &&& r.0.persistence_errors == 0
            &&& r.0.failures.deep_view() == failures_from(lines, 0)
            &&& exists|fs: Seq<FrameV>|
                {
                    &&& fs.len() == oks.len()
                    &&& (forall|k: int|
                        0 <= k < fs.len() ==> frame_wf(#[trigger] fs[k]) && matches_line(
                            oks[k],
                            fs[k],
                        ))
                    &&& final(persistence)@ == run_appends(old(persistence)@, fs)
                    &&& #[trigger] r.1.deep_view() == run_effects(old(persistence)@, fs)
                }
        }),
{
    let lines = normalize_capture(content);
    let ghost slines = lines.deep_view();
    let ghost st0 = persistence@;
    let mut failures: Vec<String> = Vec::new();
    let mut effects: Vec<AppendEffect> = Vec::new();
    let mut frames_processed: usize = 0;
    let mut parse_errors: usize = 0;
    let ghost mut gframes: Seq<FrameV> = Seq::empty();
    let ghost mut oks: Seq<Seq<char>> = Seq::empty();
    let n = lines.len();
    proof {
        assert(run_appends(st0, gframes) == st0);
        assert(effects.deep_view() =~~= run_effects(st0, gframes));
        assert(oks + ok_lines_from(slines, 0) =~= ok_lines_from(slines, 0));
        assert(failures.deep_view() + failures_from(slines, 0) =~= failures_from(slines, 0));
    }
    let mut i: usize = 0;
    while i < n
        invariant
            i <= n,
            n == lines@.len(),
            slines == lines.deep_view(),
            persistence@.inv(),
            persistence@ == run_appends(st0, gframes),
            effects.deep_view() == run_effects(st0, gframes),
            gframes.len() == frames_processed,
            oks.len() == frames_processed,
            frames_processed + parse_errors == i,
            ok_lines_from(slines, 0) == oks + ok_lines_from(slines, i as int),
            failures.deep_view() + failures_from(slines, i as int) == failures_from(slines, 0),
            forall|k: int|
                0 <= k < gframes.len() ==> frame_wf(#[trigger] gframes[k]) && matches_line(
                    oks[k],
                    gframes[k],
                ),
        decreases n - i,
    {
        proof {
            assert(lines.deep_view()[i as int] =~= lines@[i as int]@);
        }
        let line = &lines[i];
        match Frame::from_line(line.as_str()) {
            Ok(frame) => {
                proof {
                    let now = choose|now: DateTime|
                        now.wf() && #[trigger] crate::parser::spec_parse(line@, now) == Ok::<
                            FrameV,
                            ParseError,
                        >(frame@);
                    assert(spec_epoch().wf());
                    crate::parser::lemma_parse_ok_any_clock(line@, now, spec_epoch());
                    assert(line_ok(slines[i as int]));
                    assert(line_frame(slines[i as int]).discarded == frame@.discarded);
                }
                // the frame's junk fragments join the advisory failures
                let ghost f_before = failures.deep_view();
                let mut d: usize = 0;
                let nd = frame.discarded.len();
                while d < nd
                    invariant
                        d <= nd,
                        nd == frame.discarded@.len(),
                        failures.deep_view() == f_before + frame.discarded.deep_view().subrange(
                            0,
                            d as int,
                        ),
                    decreases nd - d,
                {
                    let ghost fb = failures.deep_view();
                    let s = frame.discarded[d].clone();
                    failures.push(s);
                    proof {
                        assert(failures.deep_view() =~~= fb.push(frame.discarded@[d as int]@));
                        assert(frame.discarded.deep_view()[d as int] == frame.discarded@[
                            d as int]@);
                        crate::text::lemma_subrange_push(frame.discarded.deep_view(), 0, d as int);
                    }
                    d = d + 1;
                }
                proof {
                    assert(frame.discarded.deep_view().subrange(0, nd as int) =~= frame@.discarded);
                }
                let eff = persistence.append(&frame);
                let ghost g_before = gframes;
                let ghost e_before = effects.deep_view();
                effects.push(eff);
                proof {
                    gframes = gframes.push(frame@);
                    oks = oks.push(slines[i as int]);
                    crate::persistence::lemma_run_snoc(st0, g_before, frame@);
                    assert(effects.deep_view() =~~= e_before.push(eff@));
                    assert(ok_lines_from(slines, i as int) == seq![slines[i as int]]
                        + ok_lines_from(slines, i + 1));
                    assert(oks + ok_lines_from(slines, i + 1) =~= (oks.drop_last() + (seq![
                        slines[i as int],
                    ] + ok_lines_from(slines, i + 1))));
                    assert(failures.deep_view() + failures_from(slines, i + 1) =~= f_before + (
                    frame@.discarded + failures_from(slines, i + 1)));
                }
                frames_processed = frames_processed + 1;
            },
            Err(e) => {
                proof {
                    assert(spec_epoch().wf());
                    assert(crate::parser::spec_parse(line@, spec_epoch()) == Err::<
                        FrameV,
                        ParseError,
                    >(e));
                    assert(!line_ok(slines[i as int]));
                }
                let ghost fb = failures.deep_view();
                let s = line.clone();
                failures.push(s);
                proof {
                    assert(failures.deep_view() =~~= fb.push(slines[i as int]));
                    assert(failures.deep_view() + failures_from(slines, i + 1) =~= fb + (seq![
                        slines[i as int],
                    ] + failures_from(slines, i + 1)));
                    assert(oks + ok_lines_from(slines, i + 1) =~= oks + (Seq::<
                        Seq<char>,
                    >::empty() + ok_lines_from(slines, i + 1)));
                }
                parse_errors = parse_errors + 1;
            },
        }
        i = i + 1;
    }
    proof {
        assert(oks + ok_lines_from(slines, n as int) =~= oks);
        assert(failures.deep_view() + failures_from(slines, n as int) =~= failures.deep_view());
    }
    let result = ReplayResult { frames_processed, parse_errors, persistence_errors: 0, failures };
    (result, effects)
}

} // verus!
