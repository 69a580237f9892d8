//! Character-level utilities shared by the sentence parser and the file-name
//! logic: character classes, trimming, decimal/hex readers and decimal
//! rendering, all specified over `Seq<char>`.
use vstd::prelude::*;
use vstd::string::StrSliceExecFns;

verus! {

// ---------------------------------------------------------------------------
// Character classes
// ---------------------------------------------------------------------------
pub open spec fn is_space_char(c: char) -> bool {
    c == ' ' || c == '\t' || c == '\n' || c == '\r' || (c as u32) == 0x0b || (c as u32) == 0x0c
}

pub fn space_char(c: char) -> (r: bool)
    ensures
        r == is_space_char(c),
{
    c == ' ' || c == '\t' || c == '\n' || c == '\r' || (c as u32) == 0x0b || (c as u32) == 0x0c
}

pub open spec fn is_digit_char(c: char) -> bool {
    0x30 <= (c as u32) <= 0x39
}

pub open spec fn digit_val(c: char) -> int
    recommends
        is_digit_char(c),
{
    (c as u32) - 0x30
}

pub fn digit_char_q(c: char) -> (r: bool)
    ensures
        r == is_digit_char(c),
{
    let v = c as u32;
    0x30 <= v && v <= 0x39
}

pub open spec fn is_hex_digit_char(c: char) -> bool {
    is_digit_char(c) || 0x41 <= (c as u32) <= 0x46 || 0x61 <= (c as u32) <= 0x66
}

pub open spec fn hex_digit_val(c: char) -> int
    recommends
        is_hex_digit_char(c),
{
    if is_digit_char(c) {
        (c as u32) - 0x30
    } else if 0x41 <= (c as u32) <= 0x46 {
        (c as u32) - 0x41 + 10
    } else {
        (c as u32) - 0x61 + 10
    }
}

pub fn hex_digit_char_q(c: char) -> (r: bool)
    ensures
        r == is_hex_digit_char(c),
{
    let v = c as u32;
    (0x30 <= v && v <= 0x39) || (0x41 <= v && v <= 0x46) || (0x61 <= v && v <= 0x66)
}

// ---------------------------------------------------------------------------
// Building strings
// ---------------------------------------------------------------------------
/// Relies on `String::push`: appends the given character to the end of the string.
#[verifier::external_body]
pub fn push_char(s: &mut String, c: char)
    ensures
        final(s)@ == old(s)@.push(c),
{
    s.push(c);
}

pub proof fn lemma_subrange_push<T>(s: Seq<T>, from: int, i: int)
    requires
        0 <= from <= i < s.len(),
    ensures
        s.subrange(from, i + 1) == s.subrange(from, i).push(s[i]),
{
    assert(s.subrange(from, i + 1) =~= s.subrange(from, i).push(s[i]));
}

/// The characters of `s`, in order, as a vector.
pub fn str_chars(s: &str) -> (v: Vec<char>)
    ensures
        v@ == s@,
{
    let n: usize = s.unicode_len();
    let mut v: Vec<char> = Vec::new();
    let mut i: usize = 0;
    while i < n
        invariant
            n == s@.len(),
            i <= n,
            v@ == s@.subrange(0, i as int),
        decreases n - i,
    {
        let c = s.get_char(i);
        v.push(c);
        proof {
            lemma_subrange_push(s@, 0, i as int);
        }
        i = i + 1;
    }
    proof {
        assert(s@.subrange(0, n as int) =~= s@);
    }
    v
}

/// The characters `v[from..to]` as a fresh vector.
pub fn chars_vec(v: &Vec<char>, from: usize, to: usize) -> (w: Vec<char>)
    requires
        from <= to <= v@.len(),
    ensures
        w@ == v@.subrange(from as int, to as int),
{
    let mut w: Vec<char> = Vec::new();
    let mut i: usize = from;
    while i < to
        invariant
            from <= i <= to <= v@.len(),
            w@ == v@.subrange(from as int, i as int),
        decreases to - i,
    {
        let c = v[i];
        w.push(c);
        proof {
            lemma_subrange_push(v@, from as int, i as int);
        }
        i = i + 1;
    }
    w
}

/// The value of one hexadecimal digit character.
pub fn hex_digit_val_of(c: char) -> (d: u8)
    requires
        is_hex_digit_char(c),
    ensures
        d as int == hex_digit_val(c),
        d < 16,
{
    let v = c as u32;
    if 0x30 <= v && v <= 0x39 {
        (v - 0x30) as u8
    } else if 0x41 <= v && v <= 0x46 {
        (v - 0x41 + 10) as u8
    } else {
        (v - 0x61 + 10) as u8
    }
}

/// The substring `v[from..to]` as an owned string.
pub fn chars_string(v: &Vec<char>, from: usize, to: usize) -> (s: String)
    requires
        from <= to <= v@.len(),
    ensures
        s@ == v@.subrange(from as int, to as int),
{
    let mut s = String::new();
    let mut i: usize = from;
    while i < to
        invariant
            from <= i <= to <= v@.len(),
            s@ == v@.subrange(from as int, i as int),
        decreases to - i,
    {
        let c = v[i];
        push_char(&mut s, c);
        proof {
            lemma_subrange_push(v@, from as int, i as int);
        }
        i = i + 1;
    }
    s
}

// ---------------------------------------------------------------------------
// Trimming surrounding whitespace
// ---------------------------------------------------------------------------
/// Index of the first non-space character at or after `i` (or the length).
pub open spec fn scan_space_from(s: Seq<char>, i: int) -> int
    decreases s.len() - i when 0 <= i <= s.len()
{
    if i < s.len() && is_space_char(s[i]) {
        scan_space_from(s, i + 1)
    } else {
        i
    }
}

/// Index just after the last non-space character before `j` (or zero).
pub open spec fn scan_space_end(s: Seq<char>, j: int) -> int
    decreases j when 0 <= j <= s.len()
{
    if j > 0 && is_space_char(s[j - 1]) {
        scan_space_end(s, j - 1)
    } else {
        j
    }
}

/// `s` with leading and trailing whitespace removed.
pub open spec fn trim_seq(s: Seq<char>) -> Seq<char> {
    let lo = scan_space_from(s, 0);
    let hi = scan_space_end(s, s.len() as int);
    if lo <= hi {
        s.subrange(lo, hi)
    } else {
        Seq::empty()
    }
}

pub fn trim_chars(v: &Vec<char>) -> (t: Vec<char>)
    ensures
        t@ == trim_seq(v@),
{
    let n: usize = v.len();
    let mut lo: usize = 0;
    while lo < n && space_char(v[lo])
        invariant
            n == v@.len(),
            lo <= n,
            scan_space_from(v@, 0) == scan_space_from(v@, lo as int),
        decreases n - lo,
    {
        lo = lo + 1;
    }
    let mut hi: usize = n;
    while hi > 0 && space_char(v[hi - 1])
        invariant
            n == v@.len(),
            hi <= n,
            scan_space_end(v@, n as int) == scan_space_end(v@, hi as int),
        decreases hi,
    {
        hi = hi - 1;
    }
    assert(lo as int == scan_space_from(v@, 0));
    assert(hi as int == scan_space_end(v@, n as int));
    if lo <= hi {
        let mut t: Vec<char> = Vec::new();
        let mut i: usize = lo;
        while i < hi
            invariant
                lo <= i <= hi <= v@.len(),
                t@ == v@.subrange(lo as int, i as int),
            decreases hi - i,
        {
            let c = v[i];
            t.push(c);
            proof {
                lemma_subrange_push(v@, lo as int, i as int);
            }
            i = i + 1;
        }
        t
    } else {
        let t: Vec<char> = Vec::new();
        t
    }
}

// ---------------------------------------------------------------------------
// Searching
// ---------------------------------------------------------------------------
/// Position of the first occurrence of `c` at or after `i`.
pub open spec fn find_char_from(s: Seq<char>, c: char, i: int) -> Option<int>
    decreases s.len() - i when 0 <= i <= s.len()
{
    if i >= s.len() {
        None
    } else if s[i] == c {
        Some(i)
    } else {
        find_char_from(s, c, i + 1)
    }
}

/// Position of the last occurrence of `c` strictly before `j`.
pub open spec fn rfind_char_upto(s: Seq<char>, c: char, j: int) -> Option<int>
    decreases j when 0 <= j <= s.len()
{
    if j <= 0 {
        None
    } else if s[j - 1] == c {
        Some(j - 1)
    } else {
        rfind_char_upto(s, c, j - 1)
    }
}

pub proof fn lemma_find_char_from_bounds(s: Seq<char>, c: char, i: int)
    requires
        0 <= i <= s.len(),
    ensures
        match find_char_from(s, c, i) {
            Some(p) => i <= p < s.len() && s[p] == c,
            None => true,
        },
    decreases s.len() - i,
{
    if i < s.len() && s[i] != c {
        lemma_find_char_from_bounds(s, c, i + 1);
    }
}

// ---------------------------------------------------------------------------
// Decimal and hexadecimal readers
// ---------------------------------------------------------------------------
pub open spec fn all_digits(s: Seq<char>) -> bool {
    forall|k: int| 0 <= k < s.len() ==> is_digit_char(s[k])
}

pub open spec fn all_hex_digits(s: Seq<char>) -> bool {
    forall|k: int| 0 <= k < s.len() ==> is_hex_digit_char(s[k])
}

/// Value of the first `i` characters of `s` read as a decimal number.
pub open spec fn dec_val_upto(s: Seq<char>, i: int) -> int
    decreases i when 0 <= i <= s.len()
{
    if i <= 0 {
        0
    } else {
        dec_val_upto(s, i - 1) * 10 + digit_val(s[i - 1])
    }
}

pub open spec fn dec_val(s: Seq<char>) -> int {
    dec_val_upto(s, s.len() as int)
}

/// Value of the first `i` characters of `s` read as a hexadecimal number.
pub open spec fn hex_val_upto(s: Seq<char>, i: int) -> int
    decreases i when 0 <= i <= s.len()
{
    if i <= 0 {
        0
    } else {
        hex_val_upto(s, i - 1) * 16 + hex_digit_val(s[i - 1])
    }
}

pub open spec fn hex_val(s: Seq<char>) -> int {
    hex_val_upto(s, s.len() as int)
}

pub proof fn lemma_dec_val_upto_nonneg(s: Seq<char>, i: int)
    requires
        0 <= i <= s.len(),
        all_digits(s),
    ensures
        0 <= dec_val_upto(s, i),
    decreases i,
{
    if i > 0 {
        lemma_dec_val_upto_nonneg(s, i - 1);
    }
}

/// Reading more digits never decreases the value.
pub proof fn lemma_dec_val_upto_monotone(s: Seq<char>, i: int, j: int)
    requires
        0 <= i <= j <= s.len(),
        all_digits(s),
    ensures
        dec_val_upto(s, i) <= dec_val_upto(s, j),
    decreases j - i,
{
    if i < j {
        lemma_dec_val_upto_monotone(s, i, j - 1);
        lemma_dec_val_upto_nonneg(s, j - 1);
    }
}

pub proof fn lemma_hex_val_upto_nonneg(s: Seq<char>, i: int)
    requires
        0 <= i <= s.len(),
        all_hex_digits(s),
    ensures
        0 <= hex_val_upto(s, i),
    decreases i,
{
    if i > 0 {
        lemma_hex_val_upto_nonneg(s, i - 1);
    }
}

pub proof fn lemma_hex_val_upto_monotone(s: Seq<char>, i: int, j: int)
    requires
        0 <= i <= j <= s.len(),
        all_hex_digits(s),
    ensures
        hex_val_upto(s, i) <= hex_val_upto(s, j),
    decreases j - i,
{
    if i < j {
        lemma_hex_val_upto_monotone(s, i, j - 1);
        lemma_hex_val_upto_nonneg(s, j - 1);
    }
}

/// `s` with one leading `+` sign removed, as the standard integer readers allow.
pub open spec fn strip_plus(s: Seq<char>) -> Seq<char> {
    if s.len() > 0 && s[0] == '+' {
        s.subrange(1, s.len() as int)
    } else {
        s
    }
}

/// An unsigned decimal number no greater than `max`, or nothing.
pub open spec fn spec_parse_udec(s: Seq<char>, max: int) -> Option<int> {
    let t = strip_plus(s);
    if t.len() > 0 && all_digits(t) && dec_val(t) <= max {
        Some(dec_val(t))
    } else {
        None
    }
}

/// An unsigned hexadecimal number no greater than `max`, or nothing.
pub open spec fn spec_parse_uhex(s: Seq<char>, max: int) -> Option<int> {
    let t = strip_plus(s);
    if t.len() > 0 && all_hex_digits(t) && hex_val(t) <= max {
        Some(hex_val(t))
    } else {
        None
    }
}

pub fn parse_udec(f: &Vec<char>, max: u64) -> (r: Option<u64>)
    requires
        max <= 0xFFFF_FFFF,
    ensures
        match r {
            Some(x) => spec_parse_udec(f@, max as int) == Some(x as int),
            None => spec_parse_udec(f@, max as int) is None,
        },
{
    let ghost t = strip_plus(f@);
    let start: usize = if f.len() > 0 && f[0] == '+' {
        1
    } else {
        0
    };
    assert(t =~= f@.subrange(start as int, f@.len() as int));
    if start == f.len() {
        return None;
    }
    let mut acc: u64 = 0;
    let mut i: usize = start;
    while i < f.len()
        invariant
            start <= i <= f@.len(),
            max <= 0xFFFF_FFFF,
            t == f@.subrange(start as int, f@.len() as int),
            t == strip_plus(f@),
            acc <= max,
            all_digits(t.subrange(0, i - start)),
            acc as int == dec_val_upto(t, i - start),
        decreases f@.len() - i,
    {
        let c = f[i];
        if !digit_char_q(c) {
            assert(!is_digit_char(t[i - start]));
            return None;
        }
        let d: u64 = ((c as u32) - 0x30) as u64;
        let next: u64 = acc * 10 + d;
        proof {
            lemma_subrange_push(t, 0, i - start);
            assert(t[i - start] == f@[i as int]);
        }
        if next > max {
            proof {
                if all_digits(t) {
                    lemma_dec_val_upto_monotone(t, i - start + 1, t.len() as int);
                }
            }
            return None;
        }
        acc = next;
        i = i + 1;
    }
    assert(t.subrange(0, t.len() as int) =~= t);
    Some(acc)
}

pub fn parse_uhex(f: &Vec<char>, max: u64) -> (r: Option<u64>)
    requires
        max <= 0xFFFF_FFFF,
    ensures
        match r {
            Some(x) => spec_parse_uhex(f@, max as int) == Some(x as int),
            None => spec_parse_uhex(f@, max as int) is None,
        },
{
    let ghost t = strip_plus(f@);
    let start: usize = if f.len() > 0 && f[0] == '+' {
        1
    } else {
        0
    };
    assert(t =~= f@.subrange(start as int, f@.len() as int));
    if start == f.len() {
        return None;
    }
    let mut acc: u64 = 0;
    let mut i: usize = start;
    while i < f.len()
        invariant
            start <= i <= f@.len(),
            max <= 0xFFFF_FFFF,
            t == f@.subrange(start as int, f@.len() as int),
            t == strip_plus(f@),
            acc <= max,
            all_hex_digits(t.subrange(0, i - start)),
            acc as int == hex_val_upto(t, i - start),
        decreases f@.len() - i,
    {
        let c = f[i];
        if !hex_digit_char_q(c) {
            assert(!is_hex_digit_char(t[i - start]));
            return None;
        }
        let v = c as u32;
        let d: u64 = if 0x30 <= v && v <= 0x39 {
            (v - 0x30) as u64
        } else if 0x41 <= v && v <= 0x46 {
            (v - 0x41 + 10) as u64
        } else {
            (v - 0x61 + 10) as u64
        };
        let next: u64 = acc * 16 + d;
        proof {
            lemma_subrange_push(t, 0, i - start);
            assert(t[i - start] == f@[i as int]);
        }
        if next > max {
            proof {
                if all_hex_digits(t) {
                    lemma_hex_val_upto_monotone(t, i - start + 1, t.len() as int);
                }
            }
            return None;
        }
        acc = next;
        i = i + 1;
    }
    assert(t.subrange(0, t.len() as int) =~= t);
    Some(acc)
}

// ---------------------------------------------------------------------------
// Plain decimal number texts (used verbatim for measurement fields)
// ---------------------------------------------------------------------------
/// `s` with one leading sign character removed.
pub open spec fn strip_sign(s: Seq<char>) -> Seq<char> {
    if s.len() > 0 && (s[0] == '+' || s[0] == '-') {
        s.subrange(1, s.len() as int)
    } else {
        s
    }
}

/// An optionally signed decimal numeral with an optional fraction part:
/// digits, a dot between digit runs, and at least one digit overall. This is
/// the library's accepted measurement grammar, chosen deliberately: exponent
/// and infinity forms are excluded, since the instrument writes plain
/// decimals; anything else counts as a failed parse (absent for optional
/// fields, an error for mandatory ones).
pub open spec fn is_number_text(s: Seq<char>) -> bool {
    let t = strip_sign(s);
    t.len() > 0 && match find_char_from(t, '.', 0) {
        None => all_digits(t),
        Some(p) => all_digits(t.subrange(0, p)) && all_digits(
            t.subrange(p + 1, t.len() as int),
        ) && t.len() > 1,
    }
}

pub proof fn lemma_find_char_first(s: Seq<char>, c: char, i: int, p: int)
    requires
        0 <= i <= p <= s.len(),
        forall|k: int| i <= k < p ==> s[k] != c,
        p == s.len() || s[p] == c,
    ensures
        find_char_from(s, c, i) == if p == s.len() {
            None::<int>
        } else {
            Some(p)
        },
    decreases p - i,
{
    if i < p {
        lemma_find_char_first(s, c, i + 1, p);
    }
}

pub fn number_text_q(f: &Vec<char>) -> (r: bool)
    ensures
        r == is_number_text(f@),
{
    let ghost t = strip_sign(f@);
    let start: usize = if f.len() > 0 && (f[0] == '+' || f[0] == '-') {
        1
    } else {
        0
    };
    assert(t =~= f@.subrange(start as int, f@.len() as int));
    if start == f.len() {
        return false;
    }
    // scan the integer part
    let mut i: usize = start;
    while i < f.len() && digit_char_q(f[i])
        invariant
            start <= i <= f@.len(),
            t == f@.subrange(start as int, f@.len() as int),
            forall|k: int| 0 <= k < i - start ==> is_digit_char(t[k]),
        decreases f@.len() - i,
    {
        i = i + 1;
    }
    if i == f.len() {
        // digits only
        proof {
            lemma_find_char_first(t, '.', 0, t.len() as int);
        }
        return true;
    }
    if f[i] != '.' {
        // a character that is neither a digit nor a dot
        proof {
            if find_char_from(t, '.', 0) is Some {
                let p = find_char_from(t, '.', 0)->Some_0;
                lemma_find_char_from_bounds(t, '.', 0);
                assert(!is_digit_char(t.subrange(0, p)[i - start]));
            } else {
                assert(!is_digit_char(t[i - start]));
            }
        }
        return false;
    }
    // dot found at i; the remainder must be digits
    proof {
        lemma_find_char_first(t, '.', 0, i - start);
    }
    let dot: usize = i;
    let mut j: usize = dot + 1;
    while j < f.len() && digit_char_q(f[j])
        invariant
            dot < j <= f@.len(),
            start <= dot,
            t == f@.subrange(start as int, f@.len() as int),
            forall|k: int| dot - start < k < j - start ==> is_digit_char(t[k]),
        decreases f@.len() - j,
    {
        j = j + 1;
    }
    if j < f.len() {
        assert(!is_digit_char(t.subrange(dot - start + 1, t.len() as int)[j - start - (dot - start
            + 1)]));
        return false;
    }
    // every character after the dot is a digit; require one digit somewhere
    if f.len() - start > 1 {
        assert(forall|k: int|
            0 <= k < t.subrange(0, dot - start).len() ==> is_digit_char(
                #[trigger] t.subrange(0, dot - start)[k],
            ));
        assert(forall|k: int|
            0 <= k < t.subrange(dot - start + 1, t.len() as int).len() ==> is_digit_char(
                #[trigger] t.subrange(dot - start + 1, t.len() as int)[k],
            ));
        true
    } else {
        false
    }
}

// ---------------------------------------------------------------------------
// Decimal rendering
// ---------------------------------------------------------------------------
pub open spec fn digit_char(d: int) -> char {
    if d == 0 {
        '0'
    } else if d == 1 {
        '1'
    } else if d == 2 {
        '2'
    } else if d == 3 {
        '3'
    } else if d == 4 {
        '4'
    } else if d == 5 {
        '5'
    } else if d == 6 {
        '6'
    } else if d == 7 {
        '7'
    } else if d == 8 {
        '8'
    } else {
        '9'
    }
}

pub fn digit_char_of(d: u8) -> (c: char)
    requires
        d < 10,
    ensures
        c == digit_char(d as int),
{
    match d {
        0 => '0',
        1 => '1',
        2 => '2',
        3 => '3',
        4 => '4',
        5 => '5',
        6 => '6',
        7 => '7',
        8 => '8',
        _ => '9',
    }
}

/// Decimal rendering of a non-negative number, no leading zeros.
pub open spec fn dec_str(n: int) -> Seq<char>
    decreases n when n >= 0
{
    if n < 10 {
        seq![digit_char(n)]
    } else {
        dec_str(n / 10).push(digit_char(n % 10))
    }
}

pub fn u64_str(n: u64) -> (s: String)
    ensures
        s@ == dec_str(n as int),
    decreases n,
{
    if n < 10 {
        let mut s = String::new();
        push_char(&mut s, digit_char_of(n as u8));
        assert(s@ =~= seq![digit_char(n as int)]);
        s
    } else {
        let mut s = u64_str(n / 10);
        push_char(&mut s, digit_char_of((n % 10) as u8));
        s
    }
}

/// Two-digit, zero-padded decimal rendering.
pub open spec fn pad2(n: int) -> Seq<char>
    recommends
        0 <= n < 100,
{
    seq![digit_char(n / 10), digit_char(n % 10)]
}

pub fn pad2_str(n: u8) -> (s: String)
    requires
        n < 100,
    ensures
        s@ == pad2(n as int),
{
    let mut s = String::new();
    push_char(&mut s, digit_char_of(n / 10));
    push_char(&mut s, digit_char_of(n % 10));
    assert(s@ =~= pad2(n as int));
    s
}

/// Four-digit, zero-padded decimal rendering.
pub open spec fn pad4(n: int) -> Seq<char>
    recommends
        0 <= n < 10000,
{
    seq![
        digit_char(n / 1000),
        digit_char((n / 100) % 10),
        digit_char((n / 10) % 10),
        digit_char(n % 10),
    ]
}

pub fn pad4_str(n: u16) -> (s: String)
    requires
        n < 10000,
    ensures
        s@ == pad4(n as int),
{
    let mut s = String::new();
    push_char(&mut s, digit_char_of((n / 1000) as u8));
    push_char(&mut s, digit_char_of(((n / 100) % 10) as u8));
    push_char(&mut s, digit_char_of(((n / 10) % 10) as u8));
    push_char(&mut s, digit_char_of((n % 10) as u8));
    assert(s@ =~= pad4(n as int));
    s
}

// ---------------------------------------------------------------------------
// Suffix test
// ---------------------------------------------------------------------------
pub open spec fn ends_with(s: Seq<char>, suffix: Seq<char>) -> bool {
    s.len() >= suffix.len() && s.subrange(s.len() - suffix.len(), s.len() as int) == suffix
}

pub fn str_ends_with(s: &str, suffix: &str) -> (r: bool)
    ensures
        r == ends_with(s@, suffix@),
{
    let n: usize = s.unicode_len();
    let m: usize = suffix.unicode_len();
    if n < m {
        assert(!ends_with(s@, suffix@));
        return false;
    }
    let mut i: usize = 0;
    while i < m
        invariant
            m <= n,
            n == s@.len(),
            m == suffix@.len(),
            i <= m,
            forall|k: int| 0 <= k < i ==> s@[n - m + k] == suffix@[k],
        decreases m - i,
    {
        let a = s.get_char(n - m + i);
        let b = suffix.get_char(i);
        if a != b {
            assert(s@.subrange(s@.len() - suffix@.len(), s@.len() as int)[i as int] != suffix@[
                i as int]);
            return false;
        }
        i = i + 1;
    }
    assert(s@.subrange(s@.len() - suffix@.len(), s@.len() as int) =~= suffix@);
    true
}

// ---------------------------------------------------------------------------
// Splitting on a separator character
// ---------------------------------------------------------------------------
/// The pieces of `s` between occurrences of `c`; always at least one piece.
pub open spec fn split_char(s: Seq<char>, c: char) -> Seq<Seq<char>>
    decreases s.len() via split_char_decreases
{
    match find_char_from(s, c, 0) {
        None => seq![s],
        Some(p) => seq![s.subrange(0, p)] + split_char(s.subrange(p + 1, s.len() as int), c),
    }
}

#[via_fn]
proof fn split_char_decreases(s: Seq<char>, c: char) {
    lemma_find_char_from_bounds(s, c, 0);
}

pub proof fn lemma_split_char_len(s: Seq<char>, c: char)
    ensures
        split_char(s, c).len() >= 1,
    decreases s.len(),
{
    lemma_find_char_from_bounds(s, c, 0);
    match find_char_from(s, c, 0) {
        None => {},
        Some(p) => {
            lemma_split_char_len(s.subrange(p + 1, s.len() as int), c);
        },
    }
}

/// The pieces of `v[lo..hi]` between occurrences of `c`.
pub fn split_chars(v: &Vec<char>, lo: usize, hi: usize, c: char) -> (pieces: Vec<Vec<char>>)
    requires
        lo <= hi <= v@.len(),
    ensures
        pieces.deep_view() == split_char(v@.subrange(lo as int, hi as int), c),
        pieces@.len() >= 1,
{
    let ghost s = v@.subrange(lo as int, hi as int);
    let mut pieces: Vec<Vec<char>> = Vec::new();
    proof {
        assert(pieces.deep_view() =~~= Seq::<Seq<char>>::empty());
        assert(s.subrange(0, s.len() as int) =~= s);
        assert(pieces.deep_view() + split_char(s, c) =~= split_char(s, c));
    }
    let mut start: usize = lo;
    let mut i: usize = lo;
    while i < hi
        invariant
            lo <= start <= i <= hi <= v@.len(),
            s == v@.subrange(lo as int, hi as int),
            forall|k: int| start <= k < i ==> v@[k] != c,
            split_char(s, c) == pieces.deep_view() + split_char(
                s.subrange(start - lo, s.len() as int),
                c,
            ),
        decreases hi - i,
    {
        if v[i] == c {
            let f = chars_vec(v, start, i);
            proof {
                let rem = s.subrange(start - lo, s.len() as int);
                assert(forall|k: int| 0 <= k < i - start ==> rem[k] != c);
                assert(rem[i - start] == c);
                lemma_find_char_first(rem, c, 0, i - start);
                assert(rem.subrange(0, i - start) =~= f@);
                assert(rem.subrange(i - start + 1, rem.len() as int) =~= s.subrange(
                    i + 1 - lo,
                    s.len() as int,
                ));
            }
            let ghost before = pieces.deep_view();
            pieces.push(f);
            proof {
                assert(pieces.deep_view() =~~= before.push(f@));
                assert(pieces.deep_view() + split_char(s.subrange(i + 1 - lo, s.len() as int), c)
                    =~= before + (seq![f@] + split_char(s.subrange(i + 1 - lo, s.len() as int), c)));
            }
            start = i + 1;
        }
        i = i + 1;
    }
    let f = chars_vec(v, start, hi);
    proof {
        let rem = s.subrange(start - lo, s.len() as int);
        assert(forall|k: int| 0 <= k < rem.len() ==> rem[k] != c);
        lemma_find_char_first(rem, c, 0, rem.len() as int);
        assert(split_char(rem, c) == seq![rem]);
        assert(rem =~= f@);
    }
    let ghost before = pieces.deep_view();
    pieces.push(f);
    proof {
        let rem = s.subrange(start - lo, s.len() as int);
        assert(pieces.deep_view() =~~= before.push(f@));
        assert(before.push(f@) =~= before + seq![rem]);
    }
    pieces
}

} // verus!
