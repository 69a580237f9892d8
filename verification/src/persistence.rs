//! Daily-rotated structured persistence. The sink maps each frame to the file
//! named by the frame's own timestamp date, buffers frames whose sentence
//! carries no timestamp until the first dated frame opens a file, and keeps an
//! in-memory record of every line written per day. The surrounding process
//! mirrors each returned effect onto disk.
use vstd::prelude::*;

use crate::clock::now_utc;
use crate::datetime::{date_str, spec_date_str, Date};
use crate::parser::{frame_wf, spec_sent_at, Frame, FrameV};
use crate::serialize::frame_json;
use vstd::string::StringExecFns;

verus! {

/// One day's structured log file: its date and its lines, in write order.
pub struct DayFile {
    pub date: Date,
    pub lines: Vec<String>,
}

#[verifier::ext_equal]
pub ghost struct DayFileV {
    pub date: Date,
    pub lines: Seq<Seq<char>>,
}

impl View for DayFile {
    type V = DayFileV;

    open spec fn view(&self) -> DayFileV {
        DayFileV { date: self.date, lines: self.lines.deep_view() }
    }
}

#[verifier::ext_equal]
pub ghost struct PersistenceV {
    pub date: Option<Date>,
    pub pending: Seq<Seq<char>>,
    pub files: Seq<DayFileV>,
}

/// What one append asks the surrounding process to do on disk.
pub enum AppendEffect {
    /// The frame carried no timestamp and no file is open yet: it is buffered.
    Buffered,
    /// Append these lines, in this order, to the named file.
    Write { file_name: String, lines: Vec<String> },
}

#[verifier::ext_equal]
pub ghost enum AppendEffectV {
    Buffered,
    Write { file_name: Seq<char>, lines: Seq<Seq<char>> },
}

impl View for AppendEffect {
    type V = AppendEffectV;

    open spec fn view(&self) -> AppendEffectV {
        match self {
            AppendEffect::Buffered => AppendEffectV::Buffered,
            AppendEffect::Write { file_name, lines } => AppendEffectV::Write {
                file_name: file_name@,
                lines: lines.deep_view(),
            },
        }
    }
}

impl DeepView for AppendEffect {
    type V = AppendEffectV;

    open spec fn deep_view(&self) -> AppendEffectV {
        self.view()
    }
}

/// Serializes frames into structured log lines, rotating by the frame's date.
pub struct Persistence {
    date: Option<Date>,
    pending: Vec<String>,
    files: Vec<DayFile>,
}

pub open spec fn files_view(files: Seq<DayFile>) -> Seq<DayFileV> {
    Seq::new(files.len(), |i: int| files[i]@)
}

impl View for Persistence {
    type V = PersistenceV;

    closed spec fn view(&self) -> PersistenceV {
        PersistenceV {
            date: self.date,
            pending: self.pending.deep_view(),
            files: files_view(self.files@),
        }
    }
}

// ---------------------------------------------------------------------------
// Specification of the rotation transition
// ---------------------------------------------------------------------------
/// `<prefix>-YYYY-MM-DD.log`.
pub open spec fn spec_log_file_name(d: Date) -> Seq<char> {
    "adcp-"@ + spec_date_str(d) + ".log"@
}

pub fn log_file_name(d: &Date) -> (s: String)
    requires
        d.wf(),
    ensures
        s@ == spec_log_file_name(*d),
{
    let mut s = String::from_str("adcp-");
    let ds = date_str(d);
    s.append(ds.as_str());
    s.append(".log");
    s
}

/// The first model file of the given date.
pub open spec fn find_day_from(files: Seq<DayFileV>, d: Date, i: int) -> Option<int>
    decreases files.len() - i when 0 <= i <= files.len()
{
    if i >= files.len() {
        None
    } else if files[i].date == d {
        Some(i)
    } else {
        find_day_from(files, d, i + 1)
    }
}

pub open spec fn find_day(files: Seq<DayFileV>, d: Date) -> Option<int> {
    find_day_from(files, d, 0)
}

/// The files with an (empty) entry for day `d` present.
pub open spec fn ensure_day(files: Seq<DayFileV>, d: Date) -> Seq<DayFileV> {
    if find_day(files, d) is Some {
        files
    } else {
        files.push(DayFileV { date: d, lines: Seq::empty() })
    }
}

/// The files with `ls` appended to day `d`'s lines.
pub open spec fn add_lines(files: Seq<DayFileV>, d: Date, ls: Seq<Seq<char>>) -> Seq<DayFileV>
    recommends
        find_day(files, d) is Some,
{
    let i = find_day(files, d)->Some_0;
    files.update(i, DayFileV { date: d, lines: files[i].lines + ls })
}

/// The lines that one append writes to its target file (meaningful only when
/// a file is written at all): the pending backlog goes first when a file is
/// opened for a date other than the current one.
pub open spec fn appended_lines(st: PersistenceV, f: FrameV) -> Seq<Seq<char>> {
    match spec_sent_at(f.payload) {
        None => seq![frame_json(f)],
        Some(t) => if st.date == Some(t.date) {
            seq![frame_json(f)]
        } else {
            st.pending.push(frame_json(f))
        },
    }
}

/// The date of the file an append writes to, if any: the frame's own date,
/// or the currently open date for an undated frame.
pub open spec fn target_date(st: PersistenceV, f: FrameV) -> Option<Date> {
    match spec_sent_at(f.payload) {
        Some(t) => Some(t.date),
        None => st.date,
    }
}

/// The rotation transition: what one append does to the sink's state.
pub open spec fn spec_append(st: PersistenceV, f: FrameV) -> PersistenceV {
    let line = frame_json(f);
    match spec_sent_at(f.payload) {
        None => match st.date {
            None => PersistenceV { date: None, pending: st.pending.push(line), files: st.files },
            Some(d) => PersistenceV {
                date: st.date,
                pending: st.pending,
                files: add_lines(ensure_day(st.files, d), d, seq![line]),
            },
        },
        Some(t) => {
            let d = t.date;
            if st.date == Some(d) {
                PersistenceV {
                    date: st.date,
                    pending: st.pending,
                    files: add_lines(ensure_day(st.files, d), d, seq![line]),
                }
            } else {
                PersistenceV {
                    date: Some(d),
                    pending: Seq::empty(),
                    files: add_lines(ensure_day(st.files, d), d, st.pending.push(line)),
                }
            }
        },
    }
}

/// The disk effect of one append, as a value.
pub open spec fn spec_effect(st: PersistenceV, f: FrameV) -> AppendEffectV {
    match target_date(st, f) {
        None => AppendEffectV::Buffered,
        Some(d) => AppendEffectV::Write {
            file_name: spec_log_file_name(d),
            lines: appended_lines(st, f),
        },
    }
}

/// The state after appending a sequence of frames, first to last.
pub open spec fn run_appends(st: PersistenceV, fs: Seq<FrameV>) -> PersistenceV
    decreases fs.len(),
{
    if fs.len() == 0 {
        st
    } else {
        run_appends(spec_append(st, fs[0]), fs.subrange(1, fs.len() as int))
    }
}

/// The disk effects of appending a sequence of frames, in order.
pub open spec fn run_effects(st: PersistenceV, fs: Seq<FrameV>) -> Seq<AppendEffectV>
    decreases fs.len(),
{
    if fs.len() == 0 {
        Seq::empty()
    } else {
        seq![spec_effect(st, fs[0])] + run_effects(
            spec_append(st, fs[0]),
            fs.subrange(1, fs.len() as int),
        )
    }
}

/// Appending one more frame extends a run at its end.
#[verifier::rlimit(100)]
pub proof fn lemma_run_snoc(st: PersistenceV, fs: Seq<FrameV>, f: FrameV)
    ensures
        run_appends(st, fs.push(f)) == spec_append(run_appends(st, fs), f),
        run_effects(st, fs.push(f)) =~= run_effects(st, fs).push(
            spec_effect(run_appends(st, fs), f),
        ),
    decreases fs.len(),
{
    reveal_with_fuel(run_appends, 3);
    reveal_with_fuel(run_effects, 3);
    if fs.len() == 0 {
        assert(fs.push(f).subrange(1, fs.push(f).len() as int) =~= Seq::<FrameV>::empty());
        assert(fs.push(f)[0] == f);
        assert(run_appends(st, fs.push(f)) == spec_append(st, f));
        assert(run_appends(st, fs) == st);
        assert(run_effects(st, fs) =~= Seq::<AppendEffectV>::empty());
        assert(run_effects(st, fs.push(f)) =~= seq![spec_effect(st, f)]);
        assert(run_effects(st, fs).push(spec_effect(run_appends(st, fs), f)) =~= seq![
            spec_effect(st, f),
        ]);
    } else {
        let rest = fs.subrange(1, fs.len() as int);
        assert(fs.push(f)[0] == fs[0]);
        assert(fs.push(f).subrange(1, fs.push(f).len() as int) =~= rest.push(f));
        lemma_run_snoc(spec_append(st, fs[0]), rest, f);
        assert(run_appends(st, fs.push(f)) == run_appends(spec_append(st, fs[0]), rest.push(f)));
        assert(run_appends(st, fs) == run_appends(spec_append(st, fs[0]), rest));
        assert(run_effects(st, fs.push(f)) =~= seq![spec_effect(st, fs[0])] + run_effects(
            spec_append(st, fs[0]),
            rest.push(f),
        ));
        assert(run_effects(st, fs) =~= seq![spec_effect(st, fs[0])] + run_effects(
            spec_append(st, fs[0]),
            rest,
        ));
    }
}

pub open spec fn days_unique(files: Seq<DayFileV>) -> bool {
    forall|i: int, j: int| 0 <= i < j < files.len() ==> files[i].date != files[j].date
}

impl PersistenceV {
    /// Every day appears at most once, dates are well-formed, buffering only
    /// happens before the first file opens, and the open date has its file.
    pub open spec fn inv(self) -> bool {
        &&& days_unique(self.files)
        &&& (forall|i: int| 0 <= i < self.files.len() ==> (#[trigger] self.files[i].date).wf())
        &&& (self.pending.len() > 0 ==> self.date is None)
        &&& (self.date matches Some(d) ==> d.wf() && find_day(self.files, d) is Some)
    }
}

// ---------------------------------------------------------------------------
// Implementation
// ---------------------------------------------------------------------------
pub proof fn lemma_find_day_first(files: Seq<DayFileV>, d: Date, i: int, p: int)
    requires
        0 <= i <= p <= files.len(),
        forall|k: int| i <= k < p ==> files[k].date != d,
        p == files.len() || files[p].date == d,
    ensures
        find_day_from(files, d, i) == if p == files.len() {
            None::<int>
        } else {
            Some(p)
        },
    decreases p - i,
{
    if i < p {
        lemma_find_day_first(files, d, i + 1, p);
    }
}

pub proof fn lemma_find_day_bounds(files: Seq<DayFileV>, d: Date, i: int)
    requires
        0 <= i <= files.len(),
    ensures
        match find_day_from(files, d, i) {
            Some(p) => i <= p < files.len() && files[p].date == d && (forall|k: int|
                i <= k < p ==> files[k].date != d),
            None => forall|k: int| i <= k < files.len() ==> files[k].date != d,
        },
    decreases files.len() - i,
{
    if i < files.len() && files[i].date != d {
        lemma_find_day_bounds(files, d, i + 1);
    }
}

fn clone_lines(v: &Vec<String>) -> (r: Vec<String>)
    ensures
        r@ == v@,
{
    let mut r: Vec<String> = Vec::new();
    let mut i: usize = 0;
    while i < v.len()
        invariant
            i <= v@.len(),
            r@ == v@.subrange(0, i as int),
        decreases v@.len() - i,
    {
        let s = v[i].clone();
        r.push(s);
        proof {
            crate::text::lemma_subrange_push(v@, 0, i as int);
        }
        i = i + 1;
    }
    proof {
        assert(v@.subrange(0, v@.len() as int) =~= v@);
    }
    r
}

impl Persistence {
    /// A fresh sink: no open file, nothing buffered, nothing written.
    pub fn new() -> (s: Self)
        ensures
            s@.date is None,
            s@.pending == Seq::<Seq<char>>::empty(),
            s@.files == Seq::<DayFileV>::empty(),
            s@.inv(),
    {
        let s = Persistence { date: None, pending: Vec::new(), files: Vec::new() };
        proof {
            assert(s@.pending =~= Seq::<Seq<char>>::empty());
            assert(s@.files =~= Seq::<DayFileV>::empty());
        }
        s
    }

    fn day_index(&self, d: &Date) -> (r: Option<usize>)
        ensures
            match r {
                Some(i) => find_day(self@.files, *d) == Some(i as int),
                None => find_day(self@.files, *d) is None,
            },
    {
        let n = self.files.len();
        let mut i: usize = 0;
        while i < n
            invariant
                i <= n,
                n == self.files@.len(),
                forall|k: int| 0 <= k < i ==> files_view(self.files@)[k].date != *d,
            decreases n - i,
        {
            if self.files[i].date == *d {
                proof {
                    lemma_find_day_first(files_view(self.files@), *d, 0, i as int);
                }
                return Some(i);
            }
            i = i + 1;
        }
        proof {
            lemma_find_day_first(files_view(self.files@), *d, 0, n as int);
        }
        None
    }

    /// Appends `lines` to day `d`'s model file, creating it when absent, and
    /// hands the same lines back for the disk write.
    fn write_day(&mut self, d: Date, lines: Vec<String>) -> (out: Vec<String>)
        requires
            d.wf(),
            days_unique(old(self)@.files),
            forall|i: int| 0 <= i < old(self)@.files.len() ==> (
            #[trigger] old(self)@.files[i].date).wf(),
        ensures
            final(self)@.files == add_lines(ensure_day(old(self)@.files, d), d, lines.deep_view()),
            final(self)@.date == old(self)@.date,
            final(self)@.pending == old(self)@.pending,
            days_unique(final(self)@.files),
            forall|i: int| 0 <= i < final(self)@.files.len() ==> (
            #[trigger] final(self)@.files[i].date).wf(),
            find_day(final(self)@.files, d) is Some,
            forall|dd: Date| find_day(old(self)@.files, dd) is Some ==> find_day(
                final(self)@.files,
                dd,
            ) is Some,
            out@ == lines@,
    {
        let ghost files0 = self@.files;
        let ghost ensured = ensure_day(files0, d);
        let i: usize = match self.day_index(&d) {
            Some(i) => i,
            None => {
                let n = self.files.len();
                self.files.push(DayFile { date: d, lines: Vec::new() });
                proof {
                    assert(files_view(self.files@) =~~= files0.push(
                        DayFileV { date: d, lines: Seq::empty() },
                    ));
                    lemma_find_day_bounds(files0, d, 0);
                    lemma_find_day_first(files_view(self.files@), d, 0, n as int);
                }
                n
            },
        };
        assert(find_day(ensured, d) == Some(i as int));
        assert(files_view(self.files@) == ensured);
        proof {
            lemma_find_day_bounds(ensured, d, 0);
        }
        let out = clone_lines(&lines);
        let mut df = self.files.remove(i);
        let mut ls = lines;
        df.lines.append(&mut ls);
        self.files.insert(i, df);
        proof {
            let target = DayFileV { date: d, lines: ensured[i as int].lines + out.deep_view() };
            assert(df@.lines =~~= target.lines);
            assert(files_view(self.files@) =~~= ensured.update(i as int, target));
            lemma_find_day_bounds(ensured, d, 0);
            assert forall|dd: Date| find_day(ensured, dd) is Some implies find_day(
                final(self)@.files,
                dd,
            ) is Some by {
                lemma_find_day_bounds(ensured, dd, 0);
                let p = find_day(ensured, dd)->Some_0;
                assert(final(self)@.files[p].date == dd);
                lemma_find_day_bounds(final(self)@.files, dd, 0);
            }
            lemma_find_day_bounds(files0, d, 0);
            assert forall|dd: Date| find_day(files0, dd) is Some implies find_day(
                ensured,
                dd,
            ) is Some by {
                lemma_find_day_bounds(files0, dd, 0);
                let p = find_day(files0, dd)->Some_0;
                assert(ensured[p].date == dd);
                lemma_find_day_bounds(ensured, dd, 0);
            }
        }
        out
    }

    /// Appends one frame: an undated frame is buffered until the first dated
    /// frame opens its day's file (the backlog is flushed there first, in
    /// order), a dated frame opens or reuses the file of its own date, and an
    /// undated frame with a file already open joins the current file.
    pub fn append(&mut self, frame: &Frame) -> (eff: AppendEffect)
        requires
            frame_wf(frame@),
            old(self)@.inv(),
        ensures
            final(self)@.inv(),
            final(self)@ == spec_append(old(self)@, frame@),
            eff@ == spec_effect(old(self)@, frame@),
            match eff {
                AppendEffect::Buffered => spec_sent_at(frame@.payload) is None && old(
                    self,
                )@.date is None,
                AppendEffect::Write { file_name, lines } => ({
                    &&& target_date(old(self)@, frame@) matches Some(d)
                    &&& file_name@ == spec_log_file_name(d)
                    &&& lines.deep_view() == appended_lines(old(self)@, frame@)
                }),
            },
    {
        let line = frame.to_persistence_line();
        match frame.payload.sent_at() {
            None => {
                let cur = self.date;
                match cur {
                    None => {
                        let ghost pend0 = self@.pending;
                        self.pending.push(line);
                        proof {
                            assert(self@.pending =~= pend0.push(frame_json(frame@)));
                        }
                        AppendEffect::Buffered
                    },
                    Some(d) => {
                        let mut lines: Vec<String> = Vec::new();
                        lines.push(line);
                        proof {
                            assert(lines.deep_view() =~= seq![frame_json(frame@)]);
                        }
                        let written = self.write_day(d, lines);
                        let name = log_file_name(&d);
                        proof {
                            assert(written.deep_view() =~= seq![frame_json(frame@)]);
                        }
                        AppendEffect::Write { file_name: name, lines: written }
                    },
                }
            },
            Some(t) => {
                let d = t.date;
                let same = match self.date {
                    Some(cur) => cur == d,
                    None => false,
                };
                if same {
                    let mut lines: Vec<String> = Vec::new();
                    lines.push(line);
                    proof {
                        assert(lines.deep_view() =~= seq![frame_json(frame@)]);
                    }
                    let written = self.write_day(d, lines);
                    let name = log_file_name(&d);
                    proof {
                        assert(written.deep_view() =~= seq![frame_json(frame@)]);
                    }
                    AppendEffect::Write { file_name: name, lines: written }
                } else {
                    let ghost pend0 = self@.pending;
                    self.date = Some(d);
                    let mut lines: Vec<String> = Vec::new();
                    core::mem::swap(&mut lines, &mut self.pending);
                    lines.push(line);
                    proof {
                        assert(lines.deep_view() =~= pend0.push(frame_json(frame@)));
                        assert(self@.pending =~= Seq::<Seq<char>>::empty());
                    }
                    let written = self.write_day(d, lines);
                    let name = log_file_name(&d);
                    proof {
                        assert(written.deep_view() =~= pend0.push(frame_json(frame@)));
                    }
                    AppendEffect::Write { file_name: name, lines: written }
                }
            },
        }
    }

    /// How many day files the sink has written so far.
    pub fn day_count(&self) -> (n: usize)
        ensures
            n == self@.files.len(),
    {
        self.files.len()
    }

    /// How many undated lines are buffered, waiting for the first dated frame.
    pub fn pending_count(&self) -> (n: usize)
        ensures
            n == self@.pending.len(),
    {
        self.pending.len()
    }

    /// The path of the file the sink is writing, under the base directory:
    /// the open date's file, or today's when no frame has opened one yet.
    pub fn current_path(&self) -> (r: String)
        requires
            self@.inv(),
        ensures
            self@.date matches Some(d) ==> r@ == spec_log_file_name(d),
            self@.date is None ==> exists|d: Date| d.wf() && r@ == spec_log_file_name(d),
    {
        match self.date {
            Some(d) => log_file_name(&d),
            None => {
                let now = now_utc();
                let r = log_file_name(&now.date);
                proof {
                    assert(now.date.wf() && r@ == spec_log_file_name(now.date));
                }
                r
            },
        }
    }
}

} // verus!
