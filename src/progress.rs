//! Install progress: the phase model and the classification of one line of
//! backend output into a progress event.

use vstd::prelude::*;
use crate::text::{
    all_digits, chars_of, push_decimal, string_of, contains, contains_in, dec_value, is_digit, parse_digits, pieces, split,
    split_ranges, trim, trim_range, word_ranges, words,
};

verus! {

/// The phase of one install attempt; `Complete` and `Failed` are terminal.
#[derive(Debug, Clone, Copy, PartialEq, Eq, Structural)]
pub enum InstallPhase {
    Starting,
    Downloading,
    Extracting,
    Installing,
    Complete,
    Failed,
}

impl InstallPhase {
    /// Whether no event may follow one in this phase.
    pub fn is_terminal(&self) -> (r: bool)
        ensures
            r == (*self == InstallPhase::Complete || *self == InstallPhase::Failed),
    {
        match self {
            InstallPhase::Complete | InstallPhase::Failed => true,
            _ => false,
        }
    }
}

/// One progress event of an install.
#[derive(Debug, Clone)]
pub struct InstallProgress {
    pub phase: InstallPhase,
    /// Whole percent, when the line gave one.
    pub percent: Option<u32>,
    pub bytes_downloaded: Option<u64>,
    pub total_bytes: Option<u64>,
    pub error: Option<String>,
}

impl InstallProgress {
    /// An event of the given phase with nothing else known.
    pub fn of_phase(phase: InstallPhase) -> (r: InstallProgress)
        ensures
            r.phase == phase,
            r.percent is None,
            r.bytes_downloaded is None,
            r.total_bytes is None,
            r.error is None,
    {
        InstallProgress { phase, percent: None, bytes_downloaded: None, total_bytes: None, error: None }
    }
}

impl Default for InstallProgress {
    fn default() -> (r: InstallProgress)
        ensures
            r.phase == InstallPhase::Starting,
            r.percent is None,
            r.bytes_downloaded is None,
            r.total_bytes is None,
            r.error is None,
    {
        InstallProgress::of_phase(InstallPhase::Starting)
    }
}


/// `frac` read as the digits after a decimal point, in units of `unit`
/// tenths: the fraction times ten `unit`, rounded down.
pub open spec fn frac_scaled(frac: Seq<char>, unit: nat) -> nat
    decreases frac.len(),
{
    if frac.len() == 0 || unit == 0 {
        0
    } else {
        (frac[0] as u32 - '0' as u32) as nat * unit + frac_scaled(frac.drop_first(), unit / 10)
    }
}

/// A decimal number `I` or `I.F` (one of them non-empty), times `mult`,
/// rounded down; `None` when it is not such a number or exceeds 64 bits.
pub open spec fn decimal_value(s: Seq<char>, mult: nat) -> Option<u64> {
    let ps = split(trim(s), '.');
    if ps.len() <= 2 && all_digits(ps[0]) && (ps.len() == 1 || all_digits(ps[1])) && (ps[0].len()
        > 0 || (ps.len() == 2 && ps[1].len() > 0)) {
        let v = dec_value(ps[0]) * mult + (if ps.len() == 2 {
            frac_scaled(ps[1], mult / 10)
        } else {
            0
        });
        if v <= u64::MAX {
            Some(v as u64)
        } else {
            None
        }
    } else {
        None
    }
}

/// The number text and the multiplier of a size such as `10MB` or `3.5G`
/// (decimal units: B, K/KB, M/MB, G/GB).
pub open spec fn size_parts(s: Seq<char>) -> (Seq<char>, nat) {
    let n = s.len();
    if n >= 2 && s[n - 2] == 'G' && s[n - 1] == 'B' {
        (s.take(n - 2), 1_000_000_000)
    } else if n >= 1 && s[n - 1] == 'G' {
        (s.take(n - 1), 1_000_000_000)
    } else if n >= 2 && s[n - 2] == 'M' && s[n - 1] == 'B' {
        (s.take(n - 2), 1_000_000)
    } else if n >= 1 && s[n - 1] == 'M' {
        (s.take(n - 1), 1_000_000)
    } else if n >= 2 && s[n - 2] == 'K' && s[n - 1] == 'B' {
        (s.take(n - 2), 1_000)
    } else if n >= 1 && s[n - 1] == 'K' {
        (s.take(n - 1), 1_000)
    } else if n >= 1 && s[n - 1] == 'B' {
        (s.take(n - 1), 1)
    } else {
        (s, 1)
    }
}

/// The number of bytes that a size text denotes.
pub open spec fn byte_size(s: Seq<char>) -> Option<u64> {
    let t = trim(s);
    decimal_value(size_parts(t).0, size_parts(t).1)
}

proof fn lemma_frac_scaled_bound(frac: Seq<char>, unit: nat)
    requires
        all_digits(frac),
    ensures
        frac_scaled(frac, unit) <= 10 * unit,
    decreases frac.len(),
{
    if frac.len() > 0 && unit > 0 {
        assert(is_digit(frac[0]));
        assert(all_digits(frac.drop_first())) by {
            assert forall|i: int| 0 <= i < frac.drop_first().len() implies is_digit(#[trigger] frac.drop_first()[i]) by {
                assert(frac.drop_first()[i] == frac[i + 1]);
            }
        }
        lemma_frac_scaled_bound(frac.drop_first(), unit / 10);
        assert(10 * (unit / 10) <= unit);
        assert((frac[0] as u32 - '0' as u32) as nat <= 9);
        assert((frac[0] as u32 - '0' as u32) as nat * unit <= 9 * unit) by (nonlinear_arith)
            requires (frac[0] as u32 - '0' as u32) as nat <= 9;
    }
}

/// `frac_scaled` of `s[lo..hi]`.
fn frac_of(s: &Vec<char>, lo: usize, hi: usize, unit: u64) -> (r: u64)
    requires
        lo <= hi <= s@.len(),
        all_digits(s@.subrange(lo as int, hi as int)),
        unit <= 100_000_000,
    ensures
        r == frac_scaled(s@.subrange(lo as int, hi as int), unit as nat),
    decreases hi - lo,
{
    let ghost f = s@.subrange(lo as int, hi as int);
    if lo == hi || unit == 0 {
        return 0;
    }
    assert(f[0] == s@[lo as int]);
    assert(is_digit(f[0]));
    assert(f.drop_first() =~= s@.subrange(lo + 1, hi as int));
    proof {
        lemma_frac_scaled_bound(f.drop_first(), (unit / 10) as nat);
    }
    let rest = frac_of(s, lo + 1, hi, unit / 10);
    let d = (s[lo] as u32 - '0' as u32) as u64;
    assert(d * unit <= 9 * 100_000_000) by (nonlinear_arith)
        requires d <= 9, unit <= 100_000_000;
    d * unit + rest
}

/// `decimal_value` of `s[lo..hi]`.
pub fn parse_decimal(s: &Vec<char>, lo: usize, hi: usize, mult: u64) -> (r: Option<u64>)
    requires
        lo <= hi <= s@.len(),
        1 <= mult <= 1_000_000_000,
    ensures
        r == decimal_value(s@.subrange(lo as int, hi as int), mult as nat),
{
    let (a, b) = trim_range(s, lo, hi);
    let ps = split_ranges(s, a, b, '.');
    let ghost pv = split(trim(s@.subrange(lo as int, hi as int)), '.');
    assert(pieces(s@, ps@) == pv);
    proof {
        crate::text::lemma_split_nonempty(trim(s@.subrange(lo as int, hi as int)), '.');
    }
    if ps.len() > 2 {
        return None;
    }
    let (i0, i1) = ps[0];
    assert(pv[0] == s@.subrange(i0 as int, i1 as int));
    let whole = match parse_digits(s, i0, i1) {
        Some(w) => w,
        None => {
            proof {
                if all_digits(pv[0]) {
                    assert(dec_value(pv[0]) > u64::MAX);
                    assert(dec_value(pv[0]) * mult >= dec_value(pv[0])) by (nonlinear_arith)
                        requires mult >= 1;
                }
            }
            return None;
        },
    };
    let mut frac: u64 = 0;
    if ps.len() == 2 {
        let (f0, f1) = ps[1];
        assert(pv[1] == s@.subrange(f0 as int, f1 as int));
        if i0 == i1 && f0 == f1 {
            return None;
        }
        if !all_digits_in(s, f0, f1) {
            return None;
        }
        proof {
            lemma_frac_scaled_bound(pv[1], (mult / 10) as nat);
        }
        frac = frac_of(s, f0, f1, mult / 10);
    } else {
        if i0 == i1 {
            return None;
        }
    }
    assert(frac <= mult);
    assert(whole as u128 * mult as u128 <= 18_446_744_073_709_551_615u128 * 1_000_000_000u128) by (nonlinear_arith)
        requires whole <= u64::MAX, mult <= 1_000_000_000;
    let v: u128 = whole as u128 * mult as u128 + frac as u128;
    if v > u64::MAX as u128 {
        return None;
    }
    Some(v as u64)
}

/// Whether every character of `s[lo..hi]` is a digit.
fn all_digits_in(s: &Vec<char>, lo: usize, hi: usize) -> (r: bool)
    requires
        lo <= hi <= s@.len(),
    ensures
        r == all_digits(s@.subrange(lo as int, hi as int)),
{
    let mut i = lo;
    while i < hi
        invariant
            lo <= i <= hi <= s@.len(),
            forall|j: int| lo <= j < i ==> is_digit(#[trigger] s@[j]),
        decreases hi - i,
    {
        if !('0' <= s[i] && s[i] <= '9') {
            assert(s@.subrange(lo as int, hi as int)[i - lo] == s@[i as int]);
            return false;
        }
        i = i + 1;
    }
    assert forall|j: int| 0 <= j < hi - lo implies is_digit(#[trigger] s@.subrange(lo as int, hi as int)[j]) by {
        assert(s@.subrange(lo as int, hi as int)[j] == s@[lo + j]);
    }
    true
}


/// A word without one enclosing bracket on each side, as in `(45%` or `22MB)`.
pub open spec fn bare(w: Seq<char>) -> Seq<char> {
    let u = if w.len() > 0 && (w[0] == '(' || w[0] == '[') {
        w.drop_first()
    } else {
        w
    };
    if u.len() > 0 && (u.last() == ')' || u.last() == ']' || u.last() == ',') {
        u.drop_last()
    } else {
        u
    }
}

/// The bounds of `bare(s[lo..hi])`.
fn bare_range(s: &Vec<char>, lo: usize, hi: usize) -> (r: (usize, usize))
    requires
        lo <= hi <= s@.len(),
    ensures
        lo <= r.0 <= r.1 <= hi,
        s@.subrange(r.0 as int, r.1 as int) == bare(s@.subrange(lo as int, hi as int)),
{
    let ghost w = s@.subrange(lo as int, hi as int);
    let a = if lo < hi && (s[lo] == '(' || s[lo] == '[') { lo + 1 } else { lo };
    assert(s@.subrange(a as int, hi as int) =~= (if w.len() > 0 && (w[0] == '(' || w[0] == '[') {
        w.drop_first()
    } else {
        w
    }));
    let b = if a < hi && (s[hi - 1] == ')' || s[hi - 1] == ']' || s[hi - 1] == ',') { hi - 1 } else { hi };
    assert(s@.subrange(a as int, b as int) =~= bare(w));
    (a, b)
}

/// `byte_size` of `s[lo..hi]`.
fn byte_size_range(s: &Vec<char>, lo: usize, hi: usize) -> (r: Option<u64>)
    requires
        lo <= hi <= s@.len(),
    ensures
        r == byte_size(s@.subrange(lo as int, hi as int)),
{
    let (a, b) = trim_range(s, lo, hi);
    let ghost t = s@.subrange(a as int, b as int);
    let n = b - a;
    let (end, mult): (usize, u64) = if n >= 2 && s[b - 2] == 'G' && s[b - 1] == 'B' {
        (b - 2, 1_000_000_000)
    } else if n >= 1 && s[b - 1] == 'G' {
        (b - 1, 1_000_000_000)
    } else if n >= 2 && s[b - 2] == 'M' && s[b - 1] == 'B' {
        (b - 2, 1_000_000)
    } else if n >= 1 && s[b - 1] == 'M' {
        (b - 1, 1_000_000)
    } else if n >= 2 && s[b - 2] == 'K' && s[b - 1] == 'B' {
        (b - 2, 1_000)
    } else if n >= 1 && s[b - 1] == 'K' {
        (b - 1, 1_000)
    } else if n >= 1 && s[b - 1] == 'B' {
        (b - 1, 1)
    } else {
        (b, 1)
    };
    assert(size_parts(t).0 =~= s@.subrange(a as int, end as int));
    assert(size_parts(t).1 == mult as nat);
    parse_decimal(s, a, end, mult)
}

/// Parses a size such as `10MB`, `1.5G` or `512` (decimal units).
pub fn parse_byte_size(s: &str) -> (r: Option<u64>)
    ensures
        r == byte_size(s@),
{
    let cs = chars_of(s);
    assert(cs@.subrange(0, cs@.len() as int) =~= s@);
    byte_size_range(&cs, 0, cs.len())
}

/// The first word that reads as a percentage, such as `45%` or `(12.5%`;
/// its whole part.
pub open spec fn percent_in(ws: Seq<Seq<char>>) -> Option<u32>
    decreases ws.len(),
{
    if ws.len() == 0 {
        None
    } else {
        let u = bare(ws[0]);
        if u.len() > 0 && u.last() == '%' && decimal_value(u.drop_last(), 1) is Some
            && decimal_value(u.drop_last(), 1)->0 <= u32::MAX {
            Some(decimal_value(u.drop_last(), 1)->0 as u32)
        } else {
            percent_in(ws.drop_first())
        }
    }
}

/// The percentage given in `line`.
pub open spec fn percent_of(line: Seq<char>) -> Option<u32> {
    percent_in(words(line))
}

/// The pair `downloaded/total` given in `line`: the sizes on either side of
/// its first `/`.
pub open spec fn bytes_of(line: Seq<char>) -> Option<(u64, u64)> {
    let parts = split(line, '/');
    if parts.len() >= 2 && words(parts[0]).len() > 0 && words(parts[1]).len() > 0 {
        match (byte_size(bare(words(parts[0]).last())), byte_size(bare(words(parts[1])[0]))) {
            (Some(d), Some(t)) => Some((d, t)),
            _ => None,
        }
    } else {
        None
    }
}

/// `percent_of(s[lo..hi])`.
fn extract_percentage(s: &Vec<char>, lo: usize, hi: usize) -> (r: Option<u32>)
    requires
        lo <= hi <= s@.len(),
    ensures
        r == percent_of(s@.subrange(lo as int, hi as int)),
{
    let ws = word_ranges(s, lo, hi);
    let ghost wv = words(s@.subrange(lo as int, hi as int));
    let mut j: usize = 0;
    assert(wv.skip(0) =~= wv);
    while j < ws.len()
        invariant
            j <= ws@.len(),
            pieces(s@, ws@) == wv,
            wv == words(s@.subrange(lo as int, hi as int)),
            forall|k: int| 0 <= k < ws@.len() ==> lo <= (#[trigger] ws@[k]).0 <= ws@[k].1 <= hi,
            hi <= s@.len(),
            percent_in(wv) == percent_in(wv.skip(j as int)),
        decreases ws@.len() - j,
    {
        let (p, q) = ws[j];
        assert(wv[j as int] == s@.subrange(p as int, q as int));
        assert(wv.skip(j as int)[0] == wv[j as int]);
        let (a, b) = bare_range(s, p, q);
        if a < b && s[b - 1] == '%' {
            assert(bare(wv[j as int]).drop_last() =~= s@.subrange(a as int, b - 1));
            match parse_decimal(s, a, b - 1, 1) {
                Some(v) => {
                    if v <= u32::MAX as u64 {
                        return Some(v as u32);
                    }
                },
                None => {},
            }
        }
        assert(wv.skip(j as int).drop_first() =~= wv.skip(j + 1));
        j = j + 1;
    }
    None
}

/// `bytes_of(s[lo..hi])`.
fn extract_bytes(s: &Vec<char>, lo: usize, hi: usize) -> (r: Option<(u64, u64)>)
    requires
        lo <= hi <= s@.len(),
    ensures
        r == bytes_of(s@.subrange(lo as int, hi as int)),
{
    let parts = split_ranges(s, lo, hi, '/');
    let ghost pv = split(s@.subrange(lo as int, hi as int), '/');
    if parts.len() < 2 {
        return None;
    }
    let (a0, b0) = parts[0];
    let (a1, b1) = parts[1];
    assert(pv[0] == s@.subrange(a0 as int, b0 as int));
    assert(pv[1] == s@.subrange(a1 as int, b1 as int));
    let w0 = word_ranges(s, a0, b0);
    let w1 = word_ranges(s, a1, b1);
    if w0.len() == 0 || w1.len() == 0 {
        return None;
    }
    let (p0, q0) = w0[w0.len() - 1];
    let (p1, q1) = w1[0];
    assert(words(pv[0]).last() == s@.subrange(p0 as int, q0 as int));
    assert(words(pv[1])[0] == s@.subrange(p1 as int, q1 as int));
    let (c0, d0) = bare_range(s, p0, q0);
    let (c1, d1) = bare_range(s, p1, q1);
    match (byte_size_range(s, c0, d0), byte_size_range(s, c1, d1)) {
        (Some(d), Some(t)) => Some((d, t)),
        _ => None,
    }
}


/// What a line of backend output says about an install: phase, percent
/// and byte counts. The first rule that matches wins.
pub open spec fn classify(line: Seq<char>) -> Option<(InstallPhase, Option<u32>, Option<(u64, u64)>)> {
    let t = trim(line);
    if t.len() == 0 {
        None
    } else if contains(t, "Installing Node"@) {
        Some((InstallPhase::Downloading, None, None))
    } else if contains(t, "Downloading"@) {
        Some((InstallPhase::Downloading, percent_of(t), bytes_of(t)))
    } else if contains(t, "Extracting"@) || contains(t, "extract"@) {
        Some((InstallPhase::Extracting, None, None))
    } else if contains(t, "Installing"@) {
        Some((InstallPhase::Installing, None, None))
    } else if contains(t, "installed"@) || contains(t, "complete"@) || contains(t, "success"@) {
        Some((InstallPhase::Complete, Some(100u32), None))
    } else {
        None
    }
}

/// `p` is the event that `c` describes.
pub open spec fn progress_is(p: InstallProgress, c: (InstallPhase, Option<u32>, Option<(u64, u64)>)) -> bool {
    &&& p.phase == c.0
    &&& p.percent == c.1
    &&& match c.2 {
        Some((d, t)) => p.bytes_downloaded == Some(d) && p.total_bytes == Some(t),
        None => p.bytes_downloaded is None && p.total_bytes is None,
    }
    &&& p.error is None
}

/// Classifies one line of install output; `None` for lines that say
/// nothing about progress.
pub fn parse_progress_line(line: &str) -> (r: Option<InstallProgress>)
    ensures
        match r {
            Some(p) => classify(line@) is Some && progress_is(p, classify(line@)->0),
            None => classify(line@) is None,
        },
{
    let cs = chars_of(line);
    assert(cs@.subrange(0, cs@.len() as int) =~= line@);
    let (a, b) = trim_range(&cs, 0, cs.len());
    if a == b {
        return None;
    }
    if contains_in(&cs, a, b, &chars_of("Installing Node")) {
        return Some(InstallProgress::of_phase(InstallPhase::Downloading));
    }
    if contains_in(&cs, a, b, &chars_of("Downloading")) {
        let mut progress = InstallProgress::of_phase(InstallPhase::Downloading);
        progress.percent = extract_percentage(&cs, a, b);
        match extract_bytes(&cs, a, b) {
            Some((downloaded, total)) => {
                progress.bytes_downloaded = Some(downloaded);
                progress.total_bytes = Some(total);
            },
            None => {},
        }
        return Some(progress);
    }
    if contains_in(&cs, a, b, &chars_of("Extracting")) || contains_in(&cs, a, b, &chars_of("extract")) {
        return Some(InstallProgress::of_phase(InstallPhase::Extracting));
    }
    if contains_in(&cs, a, b, &chars_of("Installing")) {
        return Some(InstallProgress::of_phase(InstallPhase::Installing));
    }
    if contains_in(&cs, a, b, &chars_of("installed")) || contains_in(&cs, a, b, &chars_of("complete"))
        || contains_in(&cs, a, b, &chars_of("success")) {
        let mut progress = InstallProgress::of_phase(InstallPhase::Complete);
        progress.percent = Some(100);
        return Some(progress);
    }
    None
}

/// The progress events of output lines, in order.
pub open spec fn line_events(lines: Seq<Seq<char>>) -> Seq<(InstallPhase, Option<u32>, Option<(u64, u64)>)>
    decreases lines.len(),
{
    if lines.len() == 0 {
        Seq::empty()
    } else {
        let p = line_events(lines.drop_last());
        match classify(lines.last()) {
            Some(c) => p.push(c),
            None => p,
        }
    }
}

pub open spec fn texts_of(lines: Seq<String>) -> Seq<Seq<char>> {
    lines.map_values(|l: String| l@)
}

/// Classifies each line and keeps the events, in order.
pub fn progress_events(lines: &Vec<String>) -> (r: Vec<InstallProgress>)
    ensures
        r@.len() == line_events(texts_of(lines@)).len(),
        forall|i: int| 0 <= i < r@.len() ==> progress_is(#[trigger] r@[i], line_events(texts_of(lines@))[i]),
{
    let mut out: Vec<InstallProgress> = Vec::new();
    let mut k: usize = 0;
    while k < lines.len()
        invariant
            k <= lines@.len(),
            out@.len() == line_events(texts_of(lines@).take(k as int)).len(),
            forall|i: int| 0 <= i < out@.len() ==> progress_is(#[trigger] out@[i], line_events(texts_of(lines@).take(k as int))[i]),
        decreases lines@.len() - k,
    {
        let ghost tv = texts_of(lines@);
        assert(tv.take(k + 1).drop_last() =~= tv.take(k as int));
        assert(tv.take(k + 1).last() == lines@[k as int]@);
        let ghost before = out@;
        match parse_progress_line(lines[k].as_str()) {
            Some(p) => {
                out.push(p);
                assert forall|i: int| 0 <= i < out@.len() implies progress_is(#[trigger] out@[i], line_events(tv.take(k + 1))[i]) by {
                    if i < before.len() {
                        assert(out@[i] == before[i]);
                    }
                }
            },
            None => {},
        }
        k = k + 1;
    }
    assert(texts_of(lines@).take(lines@.len() as int) =~= texts_of(lines@));
    out
}

/// The message of a failed install: the last line the process wrote to
/// its error stream, or else its exit code.
pub open spec fn failure_text(stderr_lines: Seq<Seq<char>>, code: Option<i32>) -> Seq<char> {
    if stderr_lines.len() > 0 {
        stderr_lines.last()
    } else {
        match code {
            Some(c) => "Process exited with code "@ + (if c < 0 {
                seq!['-'] + crate::text::dec_digits((-c) as nat)
            } else {
                crate::text::dec_digits(c as nat)
            }),
            None => "Process exited without an exit code"@,
        }
    }
}

/// The terminal event that the exit of the install process gives.
pub fn exit_event(success: bool, code: Option<i32>, stderr_lines: &Vec<String>) -> (r: InstallProgress)
    ensures
        success ==> r.phase == InstallPhase::Complete && r.percent == Some(100u32) && r.error is None,
        !success ==> r.phase == InstallPhase::Failed && r.percent is None && r.error is Some
            && r.error->0@ == failure_text(texts_of(stderr_lines@), code),
        r.bytes_downloaded is None,
        r.total_bytes is None,
{
    if success {
        let mut p = InstallProgress::of_phase(InstallPhase::Complete);
        p.percent = Some(100);
        return p;
    }
    let msg = if stderr_lines.len() > 0 {
        let last = stderr_lines[stderr_lines.len() - 1].clone();
        assert(texts_of(stderr_lines@).last() == last@);
        last
    } else {
        match code {
            Some(c) => {
                let mut m = chars_of("Process exited with code ");
                if c < 0 {
                    m.push('-');
                    push_decimal(&mut m, (-(c as i64)) as u64);
                    assert(m@ =~= "Process exited with code "@ + (seq!['-'] + crate::text::dec_digits((-c) as nat)));
                } else {
                    push_decimal(&mut m, c as u64);
                }
                string_of(&m)
            },
            None => string_of(&chars_of("Process exited without an exit code")),
        }
    };
    let mut p = InstallProgress::of_phase(InstallPhase::Failed);
    p.error = Some(msg);
    p
}

pub open spec fn is_terminal(p: InstallPhase) -> bool {
    p == InstallPhase::Complete || p == InstallPhase::Failed
}

/// The events that reach the consumer of a stream: everything up to and
/// including the first terminal event, nothing after it.
pub open spec fn delivered(evs: Seq<InstallPhase>) -> Seq<InstallPhase>
    decreases evs.len(),
{
    if evs.len() == 0 {
        evs
    } else if is_terminal(evs[0]) {
        seq![evs[0]]
    } else {
        seq![evs[0]] + delivered(evs.drop_first())
    }
}

pub open spec fn phases(evs: Seq<InstallProgress>) -> Seq<InstallPhase> {
    evs.map_values(|p: InstallProgress| p.phase)
}

/// Number of events delivered from `evs`.
pub open spec fn delivered_len(evs: Seq<InstallPhase>) -> nat {
    delivered(evs).len()
}

proof fn lemma_delivered_prefix(evs: Seq<InstallPhase>)
    ensures
        delivered(evs).len() <= evs.len(),
        delivered(evs) == evs.take(delivered(evs).len() as int),
        evs.len() > 0 ==> delivered(evs).len() > 0,
        forall|i: int| 0 <= i < delivered(evs).len() - 1 ==> !is_terminal(#[trigger] delivered(evs)[i]),
        delivered(evs).len() < evs.len() ==> is_terminal(delivered(evs).last()),
    decreases evs.len(),
{
    if evs.len() > 0 && !is_terminal(evs[0]) {
        let r = evs.drop_first();
        lemma_delivered_prefix(r);
        assert(seq![evs[0]] + delivered(r) =~= evs.take(delivered(r).len() + 1 as int));
        assert forall|i: int| 0 <= i < delivered(evs).len() - 1 implies !is_terminal(#[trigger] delivered(evs)[i]) by {
            if i > 0 {
                assert(delivered(evs)[i] == delivered(r)[i - 1]);
            }
        }
    } else if evs.len() > 0 {
        assert(seq![evs[0]] =~= evs.take(1));
    }
}

/// Follows an install's event stream for its consumer: passes events on
/// until the first terminal one and drops everything after it.
#[derive(Debug)]
pub struct InstallStream {
    pub finished: bool,
}

impl InstallStream {
    pub fn new() -> (r: InstallStream)
        ensures
            !r.finished,
    {
        InstallStream { finished: false }
    }

    /// The event to hand on, if any.
    pub fn accept(&mut self, ev: InstallProgress) -> (r: Option<InstallProgress>)
        ensures
            old(self).finished ==> r is None && final(self).finished,
            !old(self).finished ==> r == Some(ev) && final(self).finished == is_terminal(ev.phase),
    {
        if self.finished {
            return None;
        }
        if ev.phase.is_terminal() {
            self.finished = true;
        }
        Some(ev)
    }
}

/// What the consumer of an install receives: the events of the output
/// lines, then the exit event, cut after the first terminal one.
pub fn install_events(events: Vec<InstallProgress>, exit: InstallProgress) -> (r: Vec<InstallProgress>)
    ensures
        r@ == events@.push(exit).take(r@.len() as int),
        phases(r@) == delivered(phases(events@.push(exit))),
{
    let ghost all = events@.push(exit);
    let mut stream = InstallStream::new();
    let mut out: Vec<InstallProgress> = Vec::new();
    let mut src = events;
    src.push(exit);
    assert(src@ == all);
    let mut i: usize = 0;
    let n = src.len();
    proof {
        lemma_delivered_prefix(phases(all));
    }
    assert(phases(all).skip(0) =~= phases(all));
    while i < n
        invariant
            n == all.len(),
            i <= n,
            src@ == all.skip(i as int),
            out@ == all.take(out@.len() as int),
            !stream.finished ==> out@.len() == i && delivered(phases(all)) == phases(out@) + delivered(phases(all).skip(i as int)),
            stream.finished ==> phases(out@) == delivered(phases(all)),
        decreases n - i,
    {
        let ghost before = out@;
        let ev = src.remove(0);
        assert(src@ =~= all.skip(i + 1));
        assert(ev == all[i as int]);
        let terminal = ev.phase.is_terminal();
        match stream.accept(ev) {
            Some(e) => {
                out.push(e);
                assert(out@ =~= all.take(out@.len() as int));
                let ghost ps = phases(all).skip(i as int);
                assert(ps[0] == ev.phase);
                assert(ps.drop_first() =~= phases(all).skip(i + 1));
                assert(phases(out@) =~= phases(before).push(ev.phase));
                if terminal {
                    assert(delivered(ps) == seq![ev.phase]);
                    assert(phases(before) + seq![ev.phase] =~= phases(before).push(ev.phase));
                } else {
                    assert(delivered(ps) == seq![ev.phase] + delivered(ps.drop_first()));
                    assert(phases(before) + (seq![ev.phase] + delivered(ps.drop_first())) =~= phases(before).push(ev.phase) + delivered(ps.drop_first()));
                }
            },
            None => {},
        }
        i = i + 1;
    }
    proof {
        if !stream.finished {
            assert(phases(all).skip(n as int) =~= Seq::<InstallPhase>::empty());
            assert(phases(out@) + Seq::<InstallPhase>::empty() =~= phases(out@));
        }
    }
    out
}

/// An install whose process fails after its output gave progress but no
/// terminal event ends its stream with exactly one `Failed` event, and
/// nothing follows it.
pub proof fn lemma_failed_install_ends_once(evs: Seq<InstallPhase>)
    requires
        forall|i: int| 0 <= i < evs.len() ==> !is_terminal(#[trigger] evs[i]),
    ensures
        delivered(evs.push(InstallPhase::Failed)) == evs.push(InstallPhase::Failed),
        delivered(evs.push(InstallPhase::Failed)).last() == InstallPhase::Failed,
        forall|i: int| 0 <= i < evs.len() ==> #[trigger] delivered(evs.push(InstallPhase::Failed))[i] != InstallPhase::Failed,
    decreases evs.len(),
{
    if evs.len() == 0 {
        assert(evs.push(InstallPhase::Failed) =~= seq![InstallPhase::Failed]);
    } else {
        let r = evs.drop_first();
        lemma_failed_install_ends_once(r);
        assert(evs.push(InstallPhase::Failed).drop_first() =~= r.push(InstallPhase::Failed));
        assert(seq![evs[0]] + r.push(InstallPhase::Failed) =~= evs.push(InstallPhase::Failed));
    }
}

/// Whatever the stream holds, the consumer receives at most one terminal
/// event, and only as the last one.
pub proof fn lemma_single_terminal(evs: Seq<InstallPhase>)
    ensures
        forall|i: int| 0 <= i < delivered(evs).len() - 1 ==> !is_terminal(#[trigger] delivered(evs)[i]),
        delivered(evs) == evs.take(delivered(evs).len() as int),
{
    lemma_delivered_prefix(evs);
}


/// The first terminal event of `evs`.
pub open spec fn first_terminal(evs: Seq<InstallProgress>) -> Option<InstallProgress>
    decreases evs.len(),
{
    if evs.len() == 0 {
        None
    } else if is_terminal(evs[0].phase) {
        Some(evs[0])
    } else {
        first_terminal(evs.drop_first())
    }
}

/// How an install ended, seen from its events: a success exactly when the
/// first terminal event is `Complete`; otherwise the error that the
/// `Failed` event carries, or a general message.
pub open spec fn outcome_of(evs: Seq<InstallProgress>) -> (bool, Option<Seq<char>>) {
    match first_terminal(evs) {
        Some(t) => if t.phase == InstallPhase::Complete {
            (true, None)
        } else {
            (false, Some(match t.error {
                Some(e) => e@,
                None => "Installation failed"@,
            }))
        },
        None => (false, Some("Installation failed"@)),
    }
}

/// The result of an install from the events it delivered: whether it
/// succeeded, and the error to show when it did not.
pub fn install_outcome(events: &Vec<InstallProgress>) -> (r: (bool, Option<String>))
    ensures
        r.0 == outcome_of(events@).0,
        match r.1 {
            Some(e) => outcome_of(events@).1 == Some(e@),
            None => outcome_of(events@).1 is None,
        },
{
    let mut i: usize = 0;
    assert(events@.skip(0) =~= events@);
    while i < events.len()
        invariant
            i <= events@.len(),
            first_terminal(events@) == first_terminal(events@.skip(i as int)),
        decreases events@.len() - i,
    {
        assert(events@.skip(i as int)[0] == events@[i as int]);
        let phase = events[i].phase;
        if phase == InstallPhase::Complete {
            return (true, None);
        }
        if phase == InstallPhase::Failed {
            return match &events[i].error {
                Some(e) => (false, Some(e.clone())),
                None => (false, Some(string_of(&chars_of("Installation failed")))),
            };
        }
        assert(events@.skip(i as int).drop_first() =~= events@.skip(i + 1));
        i = i + 1;
    }
    (false, Some(string_of(&chars_of("Installation failed"))))
}

} // verus!
