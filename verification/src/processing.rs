//! The hand-off processor's decisions: which directory entries a scan cycle
//! may touch, when a file counts as stable, in what order stable files are
//! processed, and the names used to reserve a file and to move it out. The
//! polling loop itself performs the directory I/O and follows this plan.
use vstd::prelude::*;

use crate::text::{ends_with, str_ends_with};
use vstd::string::StringExecFns;

verus! {

/// What the scanner observed about one regular file in the hand-off
/// directory: its name, the age of its last modification, and the age of its
/// writer marker when one exists.
#[derive(Debug, Clone)]
pub struct FileInfo {
    pub name: String,
    pub age_secs: u64,
    pub marker_age_secs: Option<u64>,
}

/// The two-clock stability rule: the file itself has not been touched for a
/// full stability window, and any writer marker beside it is equally old.
pub open spec fn spec_stable(age_secs: u64, marker_age_secs: Option<u64>, stable_secs: u64) -> bool {
    age_secs >= stable_secs && match marker_age_secs {
        None => true,
        Some(m) => m >= stable_secs,
    }
}

/// Names a scan cycle never touches: markers, failed captures, and files
/// another cycle has already reserved.
pub open spec fn spec_skipped_name(name: Seq<char>) -> bool {
    ends_with(name, ".writing"@) || ends_with(name, ".failed"@) || ends_with(name, ".processing"@)
}

/// An entry a cycle will process: a non-skipped name of a stable file.
pub open spec fn spec_eligible(e: FileInfo, stable_secs: u64) -> bool {
    !spec_skipped_name(e.name@) && spec_stable(e.age_secs, e.marker_age_secs, stable_secs)
}

impl FileInfo {
    /// The stability decision for this entry.
    pub fn is_stable(&self, stable_secs: u64) -> (r: bool)
        ensures
            r == spec_stable(self.age_secs, self.marker_age_secs, stable_secs),
    {
        self.age_secs >= stable_secs && match self.marker_age_secs {
            None => true,
            Some(m) => m >= stable_secs,
        }
    }
}

pub fn is_skipped_name(name: &str) -> (r: bool)
    ensures
        r == spec_skipped_name(name@),
{
    str_ends_with(name, ".writing") || str_ends_with(name, ".failed") || str_ends_with(
        name,
        ".processing",
    )
}

// ---------------------------------------------------------------------------
// Lexicographic name order
// ---------------------------------------------------------------------------
/// Lexicographic order on names by character code; date-shaped names sort
/// chronologically under it.
pub open spec fn lex_le(a: Seq<char>, b: Seq<char>) -> bool
    decreases a.len(),
{
    if a.len() == 0 {
        true
    } else if b.len() == 0 {
        false
    } else if (a[0] as u32) != (b[0] as u32) {
        (a[0] as u32) < (b[0] as u32)
    } else {
        lex_le(a.subrange(1, a.len() as int), b.subrange(1, b.len() as int))
    }
}

pub proof fn lemma_lex_total(a: Seq<char>, b: Seq<char>)
    ensures
        lex_le(a, b) || lex_le(b, a),
    decreases a.len(),
{
    if a.len() > 0 && b.len() > 0 && (a[0] as u32) == (b[0] as u32) {
        lemma_lex_total(a.subrange(1, a.len() as int), b.subrange(1, b.len() as int));
    }
}

pub proof fn lemma_lex_trans(a: Seq<char>, b: Seq<char>, c: Seq<char>)
    requires
        lex_le(a, b),
        lex_le(b, c),
    ensures
        lex_le(a, c),
    decreases a.len(),
{
    if a.len() > 0 && b.len() > 0 && c.len() > 0 && (a[0] as u32) == (b[0] as u32) && (b[0] as u32)
        == (c[0] as u32) {
        lemma_lex_trans(
            a.subrange(1, a.len() as int),
            b.subrange(1, b.len() as int),
            c.subrange(1, c.len() as int),
        );
    }
}

pub fn str_lex_le(a: &str, b: &str) -> (r: bool)
    ensures
        r == lex_le(a@, b@),
{
    let na = a.unicode_len();
    let nb = b.unicode_len();
    proof {
        assert(a@.subrange(0, na as int) =~= a@);
        assert(b@.subrange(0, nb as int) =~= b@);
    }
    let mut i: usize = 0;
    loop
        invariant
            i <= na,
            i <= nb,
            na == a@.len(),
            nb == b@.len(),
            lex_le(a@, b@) == lex_le(
                a@.subrange(i as int, na as int),
                b@.subrange(i as int, nb as int),
            ),
        decreases na - i,
    {
        let ghost ra = a@.subrange(i as int, na as int);
        let ghost rb = b@.subrange(i as int, nb as int);
        if i == na {
            assert(ra.len() == 0);
            return true;
        }
        if i == nb {
            assert(rb.len() == 0 && ra.len() > 0);
            return false;
        }
        let ca = a.get_char(i);
        let cb = b.get_char(i);
        if (ca as u32) != (cb as u32) {
            assert(ra[0] == ca && rb[0] == cb);
            return (ca as u32) < (cb as u32);
        }
        proof {
            assert(ra.subrange(1, ra.len() as int) =~= a@.subrange(i + 1, na as int));
            assert(rb.subrange(1, rb.len() as int) =~= b@.subrange(i + 1, nb as int));
        }
        i = i + 1;
    }
}

use vstd::string::StrSliceExecFns;

// ---------------------------------------------------------------------------
// The scan plan
// ---------------------------------------------------------------------------
pub open spec fn names_sorted(s: Seq<String>) -> bool {
    forall|i: int, j: int| 0 <= i < j < s.len() ==> lex_le(s[i]@, s[j]@)
}

pub open spec fn names_distinct(s: Seq<FileInfo>) -> bool {
    forall|i: int, j: int| 0 <= i < j < s.len() ==> s[i].name@ != s[j].name@
}

/// `nm` occurs among the eligible entries.
pub open spec fn among_eligible(entries: Seq<FileInfo>, stable_secs: u64, nm: Seq<char>) -> bool {
    exists|j: int|
        0 <= j < entries.len() && #[trigger] entries[j].name@ == nm && spec_eligible(
            entries[j],
            stable_secs,
        )
}

/// One scan cycle's plan over a directory listing: the names of exactly the
/// eligible entries (not skipped, stable under the two-clock rule), in
/// ascending name order, each at most once.
pub fn plan_cycle(entries: &Vec<FileInfo>, stable_secs: u64) -> (r: Vec<String>)
    requires
        names_distinct(entries@),
    ensures
        names_sorted(r@),
        forall|i: int, j: int| 0 <= i < j < r@.len() ==> r@[i]@ != r@[j]@,
        forall|nm: Seq<char>|
            (exists|k: int| 0 <= k < r@.len() && #[trigger] r@[k]@ == nm) <==> among_eligible(
                entries@,
                stable_secs,
                nm,
            ),
{
    let mut r: Vec<String> = Vec::new();
    let n = entries.len();
    let mut e: usize = 0;
    while e < n
        invariant
            e <= n,
            n == entries@.len(),
            names_distinct(entries@),
            names_sorted(r@),
            forall|i: int, j: int| 0 <= i < j < r@.len() ==> r@[i]@ != r@[j]@,
            forall|nm: Seq<char>|
                (exists|k: int| 0 <= k < r@.len() && #[trigger] r@[k]@ == nm) <==> among_eligible(
                    entries@.subrange(0, e as int),
                    stable_secs,
                    nm,
                ),
        decreases n - e,
    {
        let ghost pre = entries@.subrange(0, e as int);
        let ghost pre1 = entries@.subrange(0, e + 1 as int);
        proof {
            crate::text::lemma_subrange_push(entries@, 0, e as int);
        }
        let ent = &entries[e];
        let eligible = !is_skipped_name(ent.name.as_str()) && ent.is_stable(stable_secs);
        if eligible {
            // find the insertion point that keeps the plan sorted
            let m = r.len();
            let mut k: usize = 0;
            while k < m && str_lex_le(&r[k].as_str(), ent.name.as_str())
                invariant
                    k <= m,
                    m == r@.len(),
                    forall|t: int| 0 <= t < k ==> lex_le(r@[t]@, ent.name@),
                decreases m - k,
            {
                k = k + 1;
            }
            let ghost rold = r@;
            let nm = ent.name.clone();
            r.insert(k, nm);
            proof {
                assert(r@ == rold.insert(k as int, ent.name));
                // sortedness across the insertion point
                assert forall|i: int, j: int| 0 <= i < j < r@.len() implies lex_le(
                    r@[i]@,
                    r@[j]@,
                ) by {
                    if j < k {
                    } else if i < k && j == k {
                    } else if i == k && j > k {
                        lemma_lex_total(ent.name@, rold[j - 1]@);
                        if k < rold.len() {
                        }
                    } else if i < k && j > k {
                    } else if i > k || (i == k && j > k) {
                    }
                    if i == k && k < j {
                        // the element at k was not below the new name
                        if k < rold.len() {
                            lemma_lex_total(rold[k as int]@, ent.name@);
                            if j - 1 > k {
                                lemma_lex_trans(ent.name@, rold[k as int]@, rold[j - 1]@);
                            }
                        }
                    }
                }
                // distinctness: the new name is not an old name
                assert forall|i: int, j: int| 0 <= i < j < r@.len() implies r@[i]@ != r@[j]@ by {
                    if i == k || j == k {
                        assert(!among_eligible(pre, stable_secs, ent.name@));
                    }
                }
                // set equality with the eligible entries of the longer prefix
                assert forall|nm2: Seq<char>|
                    (exists|t: int| 0 <= t < r@.len() && #[trigger] r@[t]@ == nm2)
                        <==> among_eligible(pre1, stable_secs, nm2) by {
                    if exists|t: int| 0 <= t < r@.len() && #[trigger] r@[t]@ == nm2 {
                        let t = choose|t: int| 0 <= t < r@.len() && #[trigger] r@[t]@ == nm2;
                        if t == k {
                            assert(pre1[e as int].name@ == nm2 && spec_eligible(
                                pre1[e as int],
                                stable_secs,
                            ));
                        } else {
                            let t0 = if t < k {
                                t
                            } else {
                                t - 1
                            };
                            assert(rold[t0]@ == nm2);
                            assert(among_eligible(pre, stable_secs, nm2));
                            let j = choose|j: int|
                                0 <= j < pre.len() && #[trigger] pre[j].name@ == nm2
                                    && spec_eligible(pre[j], stable_secs);
                            assert(pre1[j].name@ == nm2 && spec_eligible(pre1[j], stable_secs));
                        }
                    }
                    if among_eligible(pre1, stable_secs, nm2) {
                        let j = choose|j: int|
                            0 <= j < pre1.len() && #[trigger] pre1[j].name@ == nm2 && spec_eligible(
                                pre1[j],
                                stable_secs,
                            );
                        if j == e {
                            assert(r@[k as int]@ == nm2);
                        } else {
                            assert(pre[j].name@ == nm2 && spec_eligible(pre[j], stable_secs));
                            assert(among_eligible(pre, stable_secs, nm2));
                            let t = choose|t: int|
                                0 <= t < rold.len() && #[trigger] rold[t]@ == nm2;
                            let t1 = if t < k {
                                t
                            } else {
                                t + 1
                            };
                            assert(r@[t1]@ == nm2);
                        }
                    }
                }
            }
        } else {
            proof {
                assert forall|nm2: Seq<char>|
                    among_eligible(pre1, stable_secs, nm2) implies among_eligible(
                    pre,
                    stable_secs,
                    nm2,
                ) by {
                    let j = choose|j: int|
                        0 <= j < pre1.len() && #[trigger] pre1[j].name@ == nm2 && spec_eligible(
                            pre1[j],
                            stable_secs,
                        );
                    assert(j != e);
                    assert(pre[j].name@ == nm2 && spec_eligible(pre[j], stable_secs));
                }
                assert forall|nm2: Seq<char>|
                    among_eligible(pre, stable_secs, nm2) implies among_eligible(
                    pre1,
                    stable_secs,
                    nm2,
                ) by {
                    let j = choose|j: int|
                        0 <= j < pre.len() && #[trigger] pre[j].name@ == nm2 && spec_eligible(
                            pre[j],
                            stable_secs,
                        );
                    assert(pre1[j].name@ == nm2 && spec_eligible(pre1[j], stable_secs));
                }
            }
        }
        e = e + 1;
    }
    proof {
        assert(entries@.subrange(0, n as int) =~= entries@);
    }
    r
}

// ---------------------------------------------------------------------------
// The names used while moving a file through the pipeline
// ---------------------------------------------------------------------------
/// The in-place reservation name a cycle renames a stable file to.
pub fn processing_name(name: &String) -> (r: String)
    ensures
        r@ == name@ + ".processing"@,
{
    let mut s = name.clone();
    s.append(".processing");
    s
}

/// The name a file whose replay failed gets in the processed directory.
pub fn failed_name(name: &String) -> (r: String)
    ensures
        r@ == name@ + ".failed"@,
{
    let mut s = name.clone();
    s.append(".failed");
    s
}

} // verus!
