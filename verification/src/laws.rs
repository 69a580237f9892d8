//! The properties this library stands behind, stated once and proved from
//! the contracts of the parser and the persistence sink.
use vstd::prelude::*;

use crate::datetime::{Date, DateTime};
use crate::parser::{
    frame_wf, nmea_checksum, spec_framing, spec_invalid_field, spec_opt_number, spec_opt_u8,
    spec_parse, spec_parse_payload, spec_sent_at, FrameV, ParseError,
};
use crate::persistence::{
    add_lines, days_unique, ensure_day, find_day, find_day_from, lemma_find_day_bounds,
    lemma_find_day_first, run_appends, spec_append, DayFileV, PersistenceV,
};
use crate::serialize::frame_json;
use crate::text::trim_seq;

verus! {

// ---------------------------------------------------------------------------
// Parser laws
// ---------------------------------------------------------------------------
/// An accepted line always carries a valid checksum: the provided and the
/// computed value agree, and the frame says so.
pub proof fn lemma_accepted_checksum_valid(line: Seq<char>, now: DateTime)
    requires
        spec_parse(line, now) is Ok,
    ensures
        ({
            let f = spec_parse(line, now)->Ok_0;
            f.checksum.valid && f.checksum.provided == f.checksum.computed
        }),
{
}

/// A line that frames, whose provided checksum equals the XOR of its body's
/// bytes, and whose body reads as a sentence, is accepted.
pub proof fn lemma_good_sentence_accepted(line: Seq<char>, now: DateTime)
    requires
        spec_framing(trim_seq(line)) is Some,
        spec_framing(trim_seq(line))->Some_0.provided == nmea_checksum(
            spec_framing(trim_seq(line))->Some_0.body,
        ),
        spec_parse_payload(spec_framing(trim_seq(line))->Some_0.body) is Ok,
    ensures
        spec_parse(line, now) is Ok,
{
}

/// The checksum comparison alone decides rejection at the framing stage: a
/// line that does not frame is rejected as malformed, and a framed line whose
/// provided checksum differs from the computed one is rejected as a mismatch
/// carrying exactly those two values. In particular, altering the checksum
/// digits of an accepted sentence turns it into a mismatch.
pub proof fn lemma_checksum_decides(line: Seq<char>, now: DateTime)
    ensures
        spec_framing(trim_seq(line)) is None ==> spec_parse(line, now) == Err::<
            FrameV,
            ParseError,
        >(ParseError::ChecksumMalformed),
        ({
            match spec_framing(trim_seq(line)) {
                None => true,
                Some(fr) => fr.provided != nmea_checksum(fr.body) ==> spec_parse(line, now)
                    == Err::<FrameV, ParseError>(
                    ParseError::ChecksumMismatch {
                        provided: fr.provided,
                        computed: nmea_checksum(fr.body),
                    },
                ),
            }
        }),
{
}

/// A missing-field sentinel (the trimmed text begins with `-9`) leaves every
/// optional field absent, numeric and count fields alike; so does an empty
/// field.
pub proof fn lemma_sentinel_fields_absent(s: Seq<char>)
    requires
        trim_seq(s).len() == 0 || (trim_seq(s).len() >= 2 && trim_seq(s)[0] == '-' && trim_seq(
            s,
        )[1] == '9'),
    ensures
        spec_opt_number(s) is None,
        spec_opt_u8(s) is None,
{
    assert(spec_invalid_field(s));
}

/// Junk only moves to the `discarded` list: two lines that frame to the same
/// cleaned sentence parse alike — same acceptance, same error, and frames
/// equal in every field but `discarded` — whatever junk surrounds them.
pub proof fn lemma_junk_modulo_discarded(l1: Seq<char>, l2: Seq<char>, now: DateTime)
    requires
        spec_framing(trim_seq(l1)) is Some,
        spec_framing(trim_seq(l2)) is Some,
        spec_framing(trim_seq(l1))->Some_0.provided == spec_framing(trim_seq(l2))->Some_0.provided,
        spec_framing(trim_seq(l1))->Some_0.cleaned == spec_framing(trim_seq(l2))->Some_0.cleaned,
        spec_framing(trim_seq(l1))->Some_0.body == spec_framing(trim_seq(l2))->Some_0.body,
    ensures
        ({
            match (spec_parse(l1, now), spec_parse(l2, now)) {
                (Ok(a), Ok(b)) => a.raw == b.raw && a.payload == b.payload && a.checksum
                    == b.checksum && a.recorded_at == b.recorded_at,
                (Err(e1), Err(e2)) => e1 == e2,
                _ => false,
            }
        }),
{
}

// ---------------------------------------------------------------------------
// Persistence laws
// ---------------------------------------------------------------------------
/// A sink that has seen nothing.
pub open spec fn empty_sink() -> PersistenceV {
    PersistenceV { date: None, pending: Seq::empty(), files: Seq::empty() }
}

/// The rotation key of a frame: the date of the payload's own timestamp.
pub open spec fn frame_date(f: FrameV) -> Option<Date> {
    match spec_sent_at(f.payload) {
        Some(t) => Some(t.date),
        None => None,
    }
}

/// The lines of day `d`'s file, or nothing when no such file exists.
pub open spec fn lines_of(files: Seq<DayFileV>, d: Date) -> Seq<Seq<char>> {
    match find_day(files, d) {
        Some(i) => files[i].lines,
        None => Seq::empty(),
    }
}

/// The serialized lines of a run of frames, in order.
pub open spec fn json_lines(fs: Seq<FrameV>) -> Seq<Seq<char>> {
    Seq::new(fs.len(), |i: int| frame_json(fs[i]))
}

/// Some frame of the run is dated `d`.
pub open spec fn dated_in(fs: Seq<FrameV>, d: Date) -> bool {
    exists|i: int| 0 <= i < fs.len() && #[trigger] frame_date(fs[i]) == Some(d)
}

pub open spec fn all_undated(fs: Seq<FrameV>) -> bool {
    forall|i: int| 0 <= i < fs.len() ==> #[trigger] frame_date(fs[i]) is None
}

pub open spec fn all_wf(fs: Seq<FrameV>) -> bool {
    forall|i: int| 0 <= i < fs.len() ==> frame_wf(#[trigger] fs[i])
}

/// The open date after running `fs` from a state whose open date is `cur`.
pub open spec fn last_date(fs: Seq<FrameV>, cur: Date) -> Date
    decreases fs.len(),
{
    if fs.len() == 0 {
        cur
    } else {
        last_date(
            fs.subrange(1, fs.len() as int),
            match frame_date(fs[0]) {
                Some(fd) => fd,
                None => cur,
            },
        )
    }
}

/// The lines that end up in day `d`'s file from a run of frames while a file
/// is open: a dated frame joins its own day and moves the open date there; an
/// undated frame joins the day that is open when it arrives.
pub open spec fn day_lines_after(fs: Seq<FrameV>, cur: Date, d: Date) -> Seq<Seq<char>>
    decreases fs.len(),
{
    if fs.len() == 0 {
        Seq::empty()
    } else {
        let rest = fs.subrange(1, fs.len() as int);
        match frame_date(fs[0]) {
            Some(fd) => (if fd == d {
                seq![frame_json(fs[0])]
            } else {
                Seq::empty()
            }) + day_lines_after(rest, fd, d),
            None => (if cur == d {
                seq![frame_json(fs[0])]
            } else {
                Seq::empty()
            }) + day_lines_after(rest, cur, d),
        }
    }
}

// ---------------------------------------------------------------------------
// Supporting lemmas
// ---------------------------------------------------------------------------
/// Finding a day depends only on the sequence of dates.
proof fn lemma_find_day_same_dates(a: Seq<DayFileV>, b: Seq<DayFileV>, d: Date, i: int)
    requires
        a.len() == b.len(),
        forall|k: int| 0 <= k < a.len() ==> a[k].date == b[k].date,
        0 <= i <= a.len(),
    ensures
        find_day_from(a, d, i) == find_day_from(b, d, i),
    decreases a.len() - i,
{
    if i < a.len() && a[i].date != d {
        lemma_find_day_same_dates(a, b, d, i + 1);
    }
}

/// What opening day `d` and appending `ls` to it does, file by file.
proof fn lemma_add_lines_effect(files: Seq<DayFileV>, d: Date, ls: Seq<Seq<char>>)
    requires
        days_unique(files),
        forall|i: int| 0 <= i < files.len() ==> (#[trigger] files[i].date).wf(),
        d.wf(),
    ensures
        ({
            let r = add_lines(ensure_day(files, d), d, ls);
            &&& days_unique(r)
            &&& (forall|i: int| 0 <= i < r.len() ==> (#[trigger] r[i].date).wf())
            &&& find_day(r, d) is Some
            &&& (forall|dd: Date| dd != d ==> #[trigger] find_day(r, dd) == find_day(files, dd))
            &&& lines_of(r, d) == lines_of(files, d) + ls
            &&& (forall|dd: Date| dd != d ==> #[trigger] lines_of(r, dd) == lines_of(files, dd))
        }),
{
    let en = ensure_day(files, d);
    lemma_find_day_bounds(files, d, 0);
    if find_day(files, d) is Some {
        let i = find_day(files, d)->Some_0;
        let r = add_lines(en, d, ls);
        assert(r.len() == files.len());
        assert(forall|k: int| 0 <= k < r.len() ==> r[k].date == files[k].date);
        assert forall|dd: Date| true implies #[trigger] find_day(r, dd) == find_day(
            files,
            dd,
        ) by {
            lemma_find_day_same_dates(r, files, dd, 0);
        }
        assert(lines_of(r, d) == files[i].lines + ls);
        assert forall|dd: Date| dd != d implies #[trigger] lines_of(r, dd) == lines_of(
            files,
            dd,
        ) by {
            lemma_find_day_bounds(files, dd, 0);
            match find_day(files, dd) {
                Some(j) => {
                    assert(files[j].date == dd);
                    assert(j != i);
                    assert(r[j] == files[j]);
                },
                None => {},
            }
        }
    } else {
        // a fresh file for day d appears at the end
        assert(forall|k: int| 0 <= k < files.len() ==> files[k].date != d);
        assert(en =~= files.push(DayFileV { date: d, lines: Seq::empty() }));
        lemma_find_day_first(en, d, 0, files.len() as int);
        let i = files.len() as int;
        assert(find_day(en, d) == Some(i));
        let r = add_lines(en, d, ls);
        assert(r =~= files.push(DayFileV { date: d, lines: Seq::empty() + ls }));
        assert(Seq::<Seq<char>>::empty() + ls =~= ls);
        assert forall|a: int, b: int| 0 <= a < b < r.len() implies r[a].date != r[b].date by {
            if b == i {
                assert(files[a].date != d);
            }
        }
        lemma_find_day_first(r, d, 0, i);
        assert(lines_of(r, d) =~= ls);
        assert(lines_of(files, d) + ls =~= ls);
        assert forall|dd: Date| dd != d implies #[trigger] find_day(r, dd) == find_day(
            files,
            dd,
        ) by {
            lemma_find_day_bounds(files, dd, 0);
            match find_day(files, dd) {
                Some(j) => {
                    lemma_find_day_first(r, dd, 0, j);
                },
                None => {
                    lemma_find_day_first(r, dd, 0, r.len() as int);
                },
            }
        }
        assert forall|dd: Date| dd != d implies #[trigger] lines_of(r, dd) == lines_of(
            files,
            dd,
        ) by {
            lemma_find_day_bounds(files, dd, 0);
            match find_day(files, dd) {
                Some(j) => {
                    assert(r[j] == files[j]);
                },
                None => {},
            }
        }
    }
}

/// One append from a state with an open file and an empty backlog.
proof fn lemma_append_step(st: PersistenceV, f: FrameV)
    requires
        st.inv(),
        st.date is Some,
        st.pending.len() == 0,
        frame_wf(f),
    ensures
        ({
            let cur = st.date->Some_0;
            let st1 = spec_append(st, f);
            let target = match frame_date(f) {
                Some(fd) => fd,
                None => cur,
            };
            &&& st1.inv()
            &&& st1.pending.len() == 0
            &&& st1.date == Some(target)
            &&& lines_of(st1.files, target) == lines_of(st.files, target) + seq![frame_json(f)]
            &&& (forall|dd: Date|
                dd != target ==> #[trigger] lines_of(st1.files, dd) == lines_of(st.files, dd))
            &&& (forall|dd: Date|
                #[trigger] find_day(st1.files, dd) is Some <==> (find_day(st.files, dd) is Some
                    || frame_date(f) == Some(dd)))
        }),
{
    let cur = st.date->Some_0;
    let target = match frame_date(f) {
        Some(fd) => fd,
        None => cur,
    };
    assert(target.wf());
    lemma_add_lines_effect(st.files, target, seq![frame_json(f)]);
    let st1 = spec_append(st, f);
    assert(st.pending.push(frame_json(f)) =~= seq![frame_json(f)]);
    assert(st1.files == add_lines(ensure_day(st.files, target), target, seq![frame_json(f)]));
    assert forall|dd: Date| #[trigger] find_day(st1.files, dd) is Some implies (find_day(
        st.files,
        dd,
    ) is Some || frame_date(f) == Some(dd)) by {
        if dd != target {
        } else {
            if frame_date(f) is None {
                assert(find_day(st.files, cur) is Some);
            }
        }
    }
}

/// Running frames from a state with an open file and an empty backlog.
proof fn lemma_run_from_dated(st: PersistenceV, fs: Seq<FrameV>)
    requires
        st.inv(),
        st.date is Some,
        st.pending.len() == 0,
        all_wf(fs),
    ensures
        ({
            let cur = st.date->Some_0;
            let fin = run_appends(st, fs);
            &&& fin.inv()
            &&& fin.pending.len() == 0
            &&& fin.date == Some(last_date(fs, cur))
            &&& (forall|d: Date|
                #[trigger] lines_of(fin.files, d) == lines_of(st.files, d) + day_lines_after(
                    fs,
                    cur,
                    d,
                ))
            &&& (forall|d: Date|
                #[trigger] find_day(fin.files, d) is Some <==> (find_day(st.files, d) is Some
                    || dated_in(fs, d)))
        }),
    decreases fs.len(),
{
    let cur = st.date->Some_0;
    let fin = run_appends(st, fs);
    if fs.len() == 0 {
        assert forall|d: Date| #[trigger] lines_of(fin.files, d) == lines_of(st.files, d)
            + day_lines_after(fs, cur, d) by {
            assert(lines_of(st.files, d) + Seq::<Seq<char>>::empty() =~= lines_of(st.files, d));
        }
    } else {
        let f = fs[0];
        let rest = fs.subrange(1, fs.len() as int);
        let st1 = spec_append(st, f);
        lemma_append_step(st, f);
        let target = match frame_date(f) {
            Some(fd) => fd,
            None => cur,
        };
        assert(all_wf(rest)) by {
            assert(forall|k: int| 0 <= k < rest.len() ==> rest[k] == fs[k + 1]);
        }
        lemma_run_from_dated(st1, rest);
        let cur1 = match frame_date(f) {
            Some(fd) => fd,
            None => cur,
        };
        assert(fin == run_appends(st1, rest));
        assert forall|d: Date| #[trigger] lines_of(fin.files, d) == lines_of(st.files, d)
            + day_lines_after(fs, cur, d) by {
            let piece: Seq<Seq<char>> = if target == d {
                seq![frame_json(f)]
            } else {
                Seq::empty()
            };
            assert(day_lines_after(fs, cur, d) == piece + day_lines_after(rest, cur1, d));
            assert(lines_of(st1.files, d) == lines_of(st.files, d) + piece) by {
                if target == d {
                } else {
                    assert(lines_of(st.files, d) + Seq::<Seq<char>>::empty() =~= lines_of(
                        st.files,
                        d,
                    ));
                }
            }
            assert((lines_of(st.files, d) + piece) + day_lines_after(rest, cur1, d) =~= lines_of(
                st.files,
                d,
            ) + (piece + day_lines_after(rest, cur1, d)));
        }
        assert forall|d: Date| #[trigger] find_day(fin.files, d) is Some <==> (find_day(
            st.files,
            d,
        ) is Some || dated_in(fs, d)) by {
            assert(dated_in(fs, d) <==> (frame_date(f) == Some(d) || dated_in(rest, d))) by {
                if dated_in(rest, d) {
                    let i = choose|i: int|
                        0 <= i < rest.len() && #[trigger] frame_date(rest[i]) == Some(d);
                    assert(frame_date(fs[i + 1]) == Some(d));
                }
                if dated_in(fs, d) {
                    let i = choose|i: int|
                        0 <= i < fs.len() && #[trigger] frame_date(fs[i]) == Some(d);
                    if i > 0 {
                        assert(frame_date(rest[i - 1]) == Some(d));
                    }
                }
            }
        }
    }
}

/// Running undated frames only grows the backlog; no file is touched.
proof fn lemma_run_undated(st: PersistenceV, fs: Seq<FrameV>)
    requires
        st.inv(),
        st.date is None,
        all_undated(fs),
    ensures
        ({
            let fin = run_appends(st, fs);
            &&& fin.inv()
            &&& fin.date is None
            &&& fin.files == st.files
            &&& fin.pending == st.pending + json_lines(fs)
        }),
    decreases fs.len(),
{
    let fin = run_appends(st, fs);
    if fs.len() == 0 {
        assert(st.pending + json_lines(fs) =~= st.pending);
    } else {
        let f = fs[0];
        let rest = fs.subrange(1, fs.len() as int);
        assert(frame_date(fs[0]) is None);
        let st1 = spec_append(st, f);
        assert(st1.pending == st.pending.push(frame_json(f)));
        assert(st1.inv());
        assert(all_undated(rest)) by {
            assert(forall|k: int| 0 <= k < rest.len() ==> rest[k] == fs[k + 1]);
        }
        lemma_run_undated(st1, rest);
        assert(st1.pending + json_lines(rest) =~= st.pending + json_lines(fs)) by {
            assert(forall|k: int| 0 <= k < rest.len() ==> json_lines(rest)[k] == json_lines(fs)[k
                + 1]);
        }
    }
}

/// Runs compose.
proof fn lemma_run_concat(st: PersistenceV, a: Seq<FrameV>, b: Seq<FrameV>)
    ensures
        run_appends(st, a + b) == run_appends(run_appends(st, a), b),
    decreases a.len(),
{
    if a.len() == 0 {
        assert(a + b =~= b);
    } else {
        assert((a + b)[0] == a[0]);
        assert((a + b).subrange(1, (a + b).len() as int) =~= a.subrange(1, a.len() as int) + b);
        lemma_run_concat(spec_append(st, a[0]), a.subrange(1, a.len() as int), b);
    }
}

// ---------------------------------------------------------------------------
// The daily-rotation laws
// ---------------------------------------------------------------------------
/// Frames without a timestamp produce no file at all: they are buffered, in
/// order, until a dated frame arrives.
pub proof fn lemma_undated_frames_make_no_file(fs: Seq<FrameV>)
    requires
        all_undated(fs),
    ensures
        run_appends(empty_sink(), fs).files == Seq::<DayFileV>::empty(),
        run_appends(empty_sink(), fs).pending == json_lines(fs),
{
    lemma_run_undated(empty_sink(), fs);
    assert(Seq::<Seq<char>>::empty() + json_lines(fs) =~= json_lines(fs));
}

/// The daily-rotation law. Feed the sink any run of frames: first an undated
/// preamble, then the first dated frame, then anything. Afterwards:
/// a file exists for exactly the dates that occurred (as many files as
/// distinct days); the first dated day's file begins with the buffered
/// preamble followed by that frame; every file holds exactly its day's
/// serialized frames in arrival order, an undated frame counting toward the
/// day that was open when it arrived; nothing remains buffered; and the open
/// file is the one named by the latest appended date.
pub proof fn lemma_daily_rotation(prefix: Seq<FrameV>, g: FrameV, rest: Seq<FrameV>)
    requires
        all_undated(prefix),
        frame_date(g) is Some,
        frame_wf(g),
        all_wf(rest),
    ensures
        ({
            let fs = prefix + seq![g] + rest;
            let d0 = frame_date(g)->Some_0;
            let fin = run_appends(empty_sink(), fs);
            &&& fin.inv()
            &&& fin.pending.len() == 0
            &&& fin.date == Some(last_date(rest, d0))
            &&& (forall|d: Date|
                #[trigger] find_day(fin.files, d) is Some <==> (d == d0 || dated_in(rest, d)))
            &&& (forall|d: Date|
                #[trigger] lines_of(fin.files, d) == (if d == d0 {
                    json_lines(prefix).push(frame_json(g))
                } else {
                    Seq::<Seq<char>>::empty()
                }) + day_lines_after(rest, d0, d))
        }),
{
    let fs = prefix + seq![g] + rest;
    let d0 = frame_date(g)->Some_0;
    lemma_run_concat(empty_sink(), prefix + seq![g], rest);
    lemma_run_concat(empty_sink(), prefix, seq![g]);
    assert((prefix + seq![g]) + rest =~= fs);
    let st1 = run_appends(empty_sink(), prefix);
    lemma_run_undated(empty_sink(), prefix);
    assert(st1.pending =~= json_lines(prefix));
    // the single dated frame opens day d0 and flushes the backlog
    let st2 = run_appends(st1, seq![g]);
    assert(seq![g].subrange(1, 1) =~= Seq::<FrameV>::empty());
    reveal_with_fuel(run_appends, 3);
    assert(seq![g][0] == g);
    assert(st2 == spec_append(st1, g));
    lemma_add_lines_effect(st1.files, d0, st1.pending.push(frame_json(g)));
    assert(st2.date == Some(d0) && st2.pending.len() == 0);
    assert(st2.inv());
    assert(lines_of(st1.files, d0) =~= Seq::<Seq<char>>::empty());
    assert(lines_of(st2.files, d0) =~= json_lines(prefix).push(frame_json(g)));
    assert forall|dd: Date| dd != d0 implies #[trigger] find_day(st2.files, dd) is None by {
        lemma_find_day_bounds(st1.files, dd, 0);
    }
    // run the remainder from the opened state
    lemma_run_from_dated(st2, rest);
    let fin = run_appends(st2, rest);
    assert(fin == run_appends(empty_sink(), fs));
    assert forall|d: Date| #[trigger] lines_of(fin.files, d) == (if d == d0 {
        json_lines(prefix).push(frame_json(g))
    } else {
        Seq::<Seq<char>>::empty()
    }) + day_lines_after(rest, d0, d) by {
        assert(lines_of(fin.files, d) == lines_of(st2.files, d) + day_lines_after(rest, d0, d));
        if d != d0 {
            assert(lines_of(st2.files, d) =~= Seq::<Seq<char>>::empty());
        }
    }
}

} // verus!
