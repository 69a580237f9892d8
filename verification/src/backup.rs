//! Raw capture sinks. Both variants append raw lines to a file named by the
//! calendar date; the long-lived variant tracks the date it has open and
//! rolls on date change, while the per-append variant opens-writes-closes on
//! every call and refreshes a writer-liveness marker beside the file. The
//! sink records what each file holds; the surrounding process mirrors each
//! returned effect onto disk.
use vstd::prelude::*;

use crate::datetime::{date_str, spec_date_str, Date, DateTime};
use crate::text::{ends_with, pad2, pad4, push_char, str_ends_with};
use vstd::string::StringExecFns;

verus! {

/// One raw capture file: its name and its lines, in write order.
pub struct RawFile {
    pub name: String,
    pub lines: Vec<String>,
}

#[verifier::ext_equal]
pub ghost struct RawFileV {
    pub name: Seq<char>,
    pub lines: Seq<Seq<char>>,
}

impl View for RawFile {
    type V = RawFileV;

    open spec fn view(&self) -> RawFileV {
        RawFileV { name: self.name@, lines: self.lines.deep_view() }
    }
}

#[verifier::ext_equal]
pub ghost struct BackupV {
    pub per_append: bool,
    pub current_date: Option<Date>,
    pub files: Seq<RawFileV>,
    pub markers: Seq<Seq<char>>,
}

/// What one raw append asks the surrounding process to do on disk.
pub struct RawAppendEffect {
    /// Append the line to this file (opening it create-or-append).
    pub file_name: String,
    /// For the per-append sink: rewrite this marker file with the current
    /// Unix timestamp, advertising a live writer.
    pub marker_name: Option<String>,
}

/// A rolling raw-capture sink.
pub struct Backup {
    per_append: bool,
    current_date: Option<Date>,
    files: Vec<RawFile>,
    markers: Vec<String>,
}

pub open spec fn raw_files_view(files: Seq<RawFile>) -> Seq<RawFileV> {
    Seq::new(files.len(), |i: int| files[i]@)
}

impl View for Backup {
    type V = BackupV;

    closed spec fn view(&self) -> BackupV {
        BackupV {
            per_append: self.per_append,
            current_date: self.current_date,
            files: raw_files_view(self.files@),
            markers: self.markers.deep_view(),
        }
    }
}

// ---------------------------------------------------------------------------
// Specification
// ---------------------------------------------------------------------------
/// `YYYY-MM-DD.raw`.
pub open spec fn spec_raw_file_name(d: Date) -> Seq<char> {
    spec_date_str(d) + ".raw"@
}

pub fn raw_file_name(d: &Date) -> (s: String)
    requires
        d.wf(),
    ensures
        s@ == spec_raw_file_name(*d),
{
    let mut s = date_str(d);
    s.append(".raw");
    s
}

/// `<file>.writing` — the companion writer-liveness marker.
pub open spec fn spec_marker_name(file_name: Seq<char>) -> Seq<char> {
    file_name + ".writing"@
}

pub fn marker_name_for(file_name: &String) -> (s: String)
    ensures
        s@ == spec_marker_name(file_name@),
{
    let mut s = file_name.clone();
    s.append(".writing");
    s
}

pub open spec fn find_raw_from(files: Seq<RawFileV>, name: Seq<char>, i: int) -> Option<int>
    decreases files.len() - i when 0 <= i <= files.len()
{
    if i >= files.len() {
        None
    } else if files[i].name == name {
        Some(i)
    } else {
        find_raw_from(files, name, i + 1)
    }
}

pub open spec fn find_raw(files: Seq<RawFileV>, name: Seq<char>) -> Option<int> {
    find_raw_from(files, name, 0)
}

pub open spec fn ensure_raw(files: Seq<RawFileV>, name: Seq<char>) -> Seq<RawFileV> {
    if find_raw(files, name) is Some {
        files
    } else {
        files.push(RawFileV { name, lines: Seq::empty() })
    }
}

pub open spec fn add_raw_line(files: Seq<RawFileV>, name: Seq<char>, line: Seq<char>) -> Seq<
    RawFileV,
>
    recommends
        find_raw(files, name) is Some,
{
    let i = find_raw(files, name)->Some_0;
    files.update(i, RawFileV { name, lines: files[i].lines.push(line) })
}

/// What one append does to the sink: the line joins the file of the append's
/// date; the long-lived sink rolls its open date, the per-append sink leaves
/// no open state behind but keeps its marker advertised.
pub open spec fn spec_backup_append(st: BackupV, d: Date, line: Seq<char>) -> BackupV {
    let name = spec_raw_file_name(d);
    let files = add_raw_line(ensure_raw(st.files, name), name, line);
    if st.per_append {
        BackupV {
            per_append: st.per_append,
            current_date: st.current_date,
            files,
            markers: if st.markers.contains(spec_marker_name(name)) {
                st.markers
            } else {
                st.markers.push(spec_marker_name(name))
            },
        }
    } else {
        BackupV { per_append: st.per_append, current_date: Some(d), files, markers: st.markers }
    }
}

pub open spec fn raw_names_unique(files: Seq<RawFileV>) -> bool {
    forall|i: int, j: int| 0 <= i < j < files.len() ==> files[i].name != files[j].name
}

impl BackupV {
    pub open spec fn inv(self) -> bool {
        &&& raw_names_unique(self.files)
        &&& (forall|i: int, j: int|
            0 <= i < j < self.markers.len() ==> self.markers[i] != self.markers[j])
    }
}

// ---------------------------------------------------------------------------
// Implementation
// ---------------------------------------------------------------------------
pub proof fn lemma_find_raw_first(files: Seq<RawFileV>, name: Seq<char>, i: int, p: int)
    requires
        0 <= i <= p <= files.len(),
        forall|k: int| i <= k < p ==> files[k].name != name,
        p == files.len() || files[p].name == name,
    ensures
        find_raw_from(files, name, i) == if p == files.len() {
            None::<int>
        } else {
            Some(p)
        },
    decreases p - i,
{
    if i < p {
        lemma_find_raw_first(files, name, i + 1, p);
    }
}

pub proof fn lemma_find_raw_bounds(files: Seq<RawFileV>, name: Seq<char>, i: int)
    requires
        0 <= i <= files.len(),
    ensures
        match find_raw_from(files, name, i) {
            Some(p) => i <= p < files.len() && files[p].name == name,
            None => forall|k: int| i <= k < files.len() ==> files[k].name != name,
        },
    decreases files.len() - i,
{
    if i < files.len() && files[i].name != name {
        lemma_find_raw_bounds(files, name, i + 1);
    }
}

impl Backup {
    /// A fresh long-lived archival sink. The caller archives any `.raw`
    /// files left in the base directory before feeding it.
    pub fn new() -> (s: Self)
        ensures
            s@.per_append == false,
            s@.current_date is None,
            s@.files == Seq::<RawFileV>::empty(),
            s@.markers == Seq::<Seq<char>>::empty(),
            s@.inv(),
    {
        let s = Backup {
            per_append: false,
            current_date: None,
            files: Vec::new(),
            markers: Vec::new(),
        };
        proof {
            assert(s@.files =~= Seq::<RawFileV>::empty());
            assert(s@.markers =~~= Seq::<Seq<char>>::empty());
        }
        s
    }

    /// A fresh per-append hand-off sink, which never holds a file open.
    pub fn new_per_append() -> (s: Self)
        ensures
            s@.per_append == true,
            s@.current_date is None,
            s@.files == Seq::<RawFileV>::empty(),
            s@.markers == Seq::<Seq<char>>::empty(),
            s@.inv(),
    {
        let s = Backup {
            per_append: true,
            current_date: None,
            files: Vec::new(),
            markers: Vec::new(),
        };
        proof {
            assert(s@.files =~= Seq::<RawFileV>::empty());
            assert(s@.markers =~~= Seq::<Seq<char>>::empty());
        }
        s
    }

    fn file_index(&self, name: &String) -> (r: Option<usize>)
        ensures
            match r {
                Some(i) => find_raw(self@.files, name@) == Some(i as int),
                None => find_raw(self@.files, name@) is None,
            },
    {
        let n = self.files.len();
        let mut i: usize = 0;
        while i < n
            invariant
                i <= n,
                n == self.files@.len(),
                forall|k: int| 0 <= k < i ==> raw_files_view(self.files@)[k].name != name@,
            decreases n - i,
        {
            if self.files[i].name == *name {
                proof {
                    lemma_find_raw_first(raw_files_view(self.files@), name@, 0, i as int);
                }
                return Some(i);
            }
            i = i + 1;
        }
        proof {
            lemma_find_raw_first(raw_files_view(self.files@), name@, 0, n as int);
        }
        None
    }

    fn has_marker(&self, name: &String) -> (r: bool)
        ensures
            r == self@.markers.contains(name@),
    {
        let n = self.markers.len();
        let mut i: usize = 0;
        while i < n
            invariant
                i <= n,
                n == self.markers@.len(),
                forall|k: int| 0 <= k < i ==> self.markers.deep_view()[k] != name@,
            decreases n - i,
        {
            if self.markers[i] == *name {
                assert(self@.markers[i as int] == name@);
                return true;
            }
            i = i + 1;
        }
        assert(forall|k: int| 0 <= k < self@.markers.len() ==> self@.markers[k] != name@);
        false
    }

    /// Appends one raw line under the given timestamp's date. The returned
    /// effect names the file to append to on disk and, for the per-append
    /// sink, the marker file to rewrite.
    pub fn append(&mut self, line: &str, ts: &DateTime) -> (eff: RawAppendEffect)
        requires
            ts.date.wf(),
            old(self)@.inv(),
        ensures
            final(self)@.inv(),
            final(self)@ == spec_backup_append(old(self)@, ts.date, line@),
            eff.file_name@ == spec_raw_file_name(ts.date),
            old(self)@.per_append ==> (eff.marker_name matches Some(m) && m@ == spec_marker_name(
                spec_raw_file_name(ts.date),
            )),
            !old(self)@.per_append ==> eff.marker_name is None,
    {
        let name = raw_file_name(&ts.date);
        let ghost files0 = self@.files;
        let ghost ensured = ensure_raw(files0, name@);
        let i: usize = match self.file_index(&name) {
            Some(i) => i,
            None => {
                let n = self.files.len();
                self.files.push(RawFile { name: name.clone(), lines: Vec::new() });
                proof {
                    assert(raw_files_view(self.files@) =~~= files0.push(
                        RawFileV { name: name@, lines: Seq::empty() },
                    ));
                    lemma_find_raw_bounds(files0, name@, 0);
                    lemma_find_raw_first(raw_files_view(self.files@), name@, 0, n as int);
                }
                n
            },
        };
        assert(find_raw(ensured, name@) == Some(i as int));
        assert(raw_files_view(self.files@) == ensured);
        proof {
            lemma_find_raw_bounds(ensured, name@, 0);
        }
        let mut df = self.files.remove(i);
        let line_string = String::from_str(line);
        df.lines.push(line_string);
        self.files.insert(i, df);
        proof {
            let target = RawFileV { name: name@, lines: ensured[i as int].lines.push(line@) };
            assert(df@.lines =~~= target.lines);
            assert(raw_files_view(self.files@) =~~= ensured.update(i as int, target));
        }
        if self.per_append {
            let marker = marker_name_for(&name);
            if !self.has_marker(&marker) {
                let ghost markers0 = self@.markers;
                self.markers.push(marker.clone());
                proof {
                    assert(self@.markers =~~= markers0.push(marker@));
                    assert forall|a: int, b: int|
                        0 <= a < b < self@.markers.len() implies self@.markers[a]
                        != self@.markers[b] by {
                        if b == self@.markers.len() - 1 {
                            assert(!markers0.contains(marker@));
                            assert(markers0[a] != marker@);
                        }
                    }
                }
            }
            RawAppendEffect { file_name: name, marker_name: Some(marker) }
        } else {
            self.current_date = Some(ts.date);
            RawAppendEffect { file_name: name, marker_name: None }
        }
    }
}

/// The archive directory the long-lived sink moves pre-existing captures
/// into on startup: `archive_YYYYMMDD_HHMMSS` of the startup instant.
pub fn archive_dir_name(now: &DateTime) -> (s: String)
    requires
        now.wf(),
    ensures
        s@ == "archive_"@ + pad4(now.date.year as int) + pad2(now.date.month as int) + pad2(
            now.date.day as int,
        ) + "_"@ + pad2(now.time.hour as int) + pad2(now.time.minute as int) + pad2(
            now.time.second as int,
        ),
{
    let mut s = String::from_str("archive_");
    let y = crate::text::pad4_str(now.date.year);
    s.append(y.as_str());
    let m = crate::text::pad2_str(now.date.month);
    s.append(m.as_str());
    let d = crate::text::pad2_str(now.date.day);
    s.append(d.as_str());
    push_char(&mut s, '_');
    let h = crate::text::pad2_str(now.time.hour);
    s.append(h.as_str());
    let mi = crate::text::pad2_str(now.time.minute);
    s.append(mi.as_str());
    let sec = crate::text::pad2_str(now.time.second);
    s.append(sec.as_str());
    proof {
        reveal_strlit("_");
        assert("_"@ =~= seq!['_']);
    }
    assert(s@ =~= "archive_"@ + pad4(now.date.year as int) + pad2(now.date.month as int) + pad2(
        now.date.day as int,
    ) + "_"@ + pad2(now.time.hour as int) + pad2(now.time.minute as int) + pad2(
        now.time.second as int,
    ));
    s
}

/// Whether a directory entry is a raw capture file.
pub fn is_raw_name(name: &str) -> (r: bool)
    ensures
        r == ends_with(name@, ".raw"@),
{
    str_ends_with(name, ".raw")
}

/// Whether a directory entry is a writer-liveness marker.
pub fn is_marker_name(name: &str) -> (r: bool)
    ensures
        r == ends_with(name@, ".writing"@),
{
    str_ends_with(name, ".writing")
}

} // verus!
