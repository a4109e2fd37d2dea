//! Character-level helpers over the text produced by backend tools.

use vstd::prelude::*;

verus! {

broadcast use vstd::string::group_string_axioms;

/// The characters that `char::is_whitespace` accepts (Unicode White_Space).
pub open spec fn is_ws(c: char) -> bool {
    ||| c == ' '
    ||| '\t' <= c <= '\r'
    ||| c == '\u{85}'
    ||| c == '\u{a0}'
    ||| c == '\u{1680}'
    ||| '\u{2000}' <= c <= '\u{200a}'
    ||| c == '\u{2028}'
    ||| c == '\u{2029}'
    ||| c == '\u{202f}'
    ||| c == '\u{205f}'
    ||| c == '\u{3000}'
}

/// The characters of `s`, in order.
pub fn chars_of(s: &str) -> (r: Vec<char>)
    ensures
        r@ == s@,
{
    let mut out: Vec<char> = Vec::new();
    for c in it: s.chars()
        invariant
            out@ == it.seq().take(it.index() as int),
            it.seq() == s@,
    {
        out.push(c);
    }
    out
}

/// Relies on `String::from_iter`: the string holds exactly the given characters.
#[verifier::external_body]
pub(crate) fn string_of(v: &[char]) -> (r: String)
    ensures
        r@ == v@,
{
    String::from_iter(v.iter())
}


/// A decimal digit.
pub open spec fn is_digit(c: char) -> bool {
    '0' <= c <= '9'
}

pub open spec fn digit_val(c: char) -> nat {
    (c as u32 - '0' as u32) as nat
}

pub open spec fn digit_char(d: nat) -> char {
    if d == 0 { '0' } else if d == 1 { '1' } else if d == 2 { '2' } else if d == 3 { '3' }
    else if d == 4 { '4' } else if d == 5 { '5' } else if d == 6 { '6' } else if d == 7 { '7' }
    else if d == 8 { '8' } else { '9' }
}

pub open spec fn all_digits(s: Seq<char>) -> bool {
    forall|i: int| 0 <= i < s.len() ==> is_digit(#[trigger] s[i])
}

/// The number that a run of decimal digits denotes.
pub open spec fn dec_value(s: Seq<char>) -> nat
    decreases s.len(),
{
    if s.len() == 0 {
        0
    } else {
        dec_value(s.drop_last()) * 10 + digit_val(s.last())
    }
}

/// The shortest decimal form of `n`.
pub open spec fn dec_digits(n: nat) -> Seq<char>
    decreases n,
{
    if n < 10 {
        seq![digit_char(n)]
    } else {
        dec_digits(n / 10).push(digit_char(n % 10))
    }
}

/// What `u32::from_str` accepts: an optional `+`, then one or more digits
/// whose value fits in 32 bits.
pub open spec fn u32_of(s: Seq<char>) -> Option<u32> {
    let d = if s.len() > 0 && s[0] == '+' {
        s.drop_first()
    } else {
        s
    };
    if d.len() > 0 && all_digits(d) && dec_value(d) <= u32::MAX {
        Some(dec_value(d) as u32)
    } else {
        None
    }
}

pub proof fn lemma_digit_round_trip(d: nat)
    requires
        d < 10,
    ensures
        is_digit(digit_char(d)),
        digit_val(digit_char(d)) == d,
        digit_char(d) != '.',
        digit_char(d) != '+',
        digit_char(d) != 'v',
        !is_ws(digit_char(d)),
{
}

pub proof fn lemma_dec_digits(n: nat)
    ensures
        dec_digits(n).len() > 0,
        all_digits(dec_digits(n)),
        dec_value(dec_digits(n)) == n,
        forall|i: int|
            0 <= i < dec_digits(n).len() ==> #[trigger] dec_digits(n)[i] != '.' && dec_digits(
                n,
            )[i] != '+' && !is_ws(dec_digits(n)[i]) && dec_digits(n)[i] != 'v',
    decreases n,
{
    if n < 10 {
        lemma_digit_round_trip(n);
        assert(dec_digits(n).drop_last() =~= Seq::<char>::empty());
        assert(dec_value(Seq::<char>::empty()) == 0);
    } else {
        lemma_dec_digits(n / 10);
        lemma_digit_round_trip(n % 10);
        let p = dec_digits(n / 10);
        let c = digit_char(n % 10);
        assert(dec_digits(n) == p.push(c));
        assert(dec_digits(n).drop_last() =~= p);
        assert(dec_digits(n).last() == c);
        assert(dec_value(dec_digits(n)) == dec_value(p) * 10 + digit_val(c));
        assert((n / 10) * 10 + n % 10 == n);
    }
}

proof fn lemma_dec_value_mono(d: Seq<char>, j: int, k: int)
    requires
        0 <= j <= k <= d.len(),
    ensures
        dec_value(d.take(j)) <= dec_value(d.take(k)),
    decreases k - j,
{
    if j < k {
        lemma_dec_value_mono(d, j, k - 1);
        assert(d.take(k).drop_last() =~= d.take(k - 1));
    }
}

/// Appends the decimal form of `n`.
pub fn push_decimal(out: &mut Vec<char>, n: u64)
    ensures
        final(out)@ == old(out)@ + dec_digits(n as nat),
    decreases n,
{
    if n >= 10 {
        push_decimal(out, n / 10);
    }
    let d = (n % 10) as u32;
    let c = if d == 0 { '0' } else if d == 1 { '1' } else if d == 2 { '2' } else if d == 3 {
        '3'
    } else if d == 4 { '4' } else if d == 5 { '5' } else if d == 6 { '6' } else if d == 7 {
        '7'
    } else if d == 8 { '8' } else { '9' };
    out.push(c);
    proof {
        if n < 10 {
            assert(old(out)@ + dec_digits(n as nat) =~= old(out)@.push(c));
        } else {
            assert(dec_digits(n as nat) == dec_digits((n / 10) as nat).push(c));
            assert(old(out)@ + dec_digits((n / 10) as nat).push(c) =~= (old(out)@ + dec_digits(
                (n / 10) as nat,
            )).push(c));
        }
    }
}

/// Parses `s[lo..hi]` as `u32::from_str` does.
pub fn parse_u32(s: &Vec<char>, lo: usize, hi: usize) -> (r: Option<u32>)
    requires
        lo <= hi <= s@.len(),
    ensures
        r == u32_of(s@.subrange(lo as int, hi as int)),
{
    let ghost t = s@.subrange(lo as int, hi as int);
    let mut i = lo;
    if i < hi && s[i] == '+' {
        i = i + 1;
    }
    let ghost d = s@.subrange(i as int, hi as int);
    assert(d =~= (if t.len() > 0 && t[0] == '+' { t.drop_first() } else { t }));
    if i == hi {
        return None;
    }
    let start = i;
    let mut acc: u64 = 0;
    while i < hi
        invariant
            start <= i <= hi <= s@.len(),
            d == s@.subrange(start as int, hi as int),
            t == s@.subrange(lo as int, hi as int),
            d == (if t.len() > 0 && t[0] == '+' { t.drop_first() } else { t }),
            all_digits(s@.subrange(start as int, i as int)),
            acc == dec_value(d.take(i - start)),
            acc <= u32::MAX,
        decreases hi - i,
    {
        let c = s[i];
        if !('0' <= c && c <= '9') {
            assert(d[i - start] == c);
            assert(!is_digit(d[i - start]));
            return None;
        }
        proof {
            assert(d.take(i + 1 - start).drop_last() =~= d.take(i - start));
        }
        acc = acc * 10 + (c as u32 - '0' as u32) as u64;
        assert(d.take(i + 1 - start).last() == c);
        assert(acc == dec_value(d.take(i + 1 - start)));
        i = i + 1;
        assert(s@.subrange(start as int, i as int) =~= s@.subrange(start as int, i - 1).push(c));
        if acc > u32::MAX as u64 {
            proof {
                lemma_dec_value_mono(d, i - start, d.len() as int);
                assert(d.take(d.len() as int) =~= d);
            }
            return None;
        }
    }
    assert(d.take(d.len() as int) =~= d);
    Some(acc as u32)
}


/// Number of leading whitespace characters.
pub open spec fn lead_ws(s: Seq<char>) -> nat
    decreases s.len(),
{
    if s.len() > 0 && is_ws(s[0]) {
        1 + lead_ws(s.drop_first())
    } else {
        0
    }
}

/// Number of trailing whitespace characters.
pub open spec fn trail_ws(s: Seq<char>) -> nat
    decreases s.len(),
{
    if s.len() > 0 && is_ws(s.last()) {
        1 + trail_ws(s.drop_last())
    } else {
        0
    }
}

/// `s` without leading and trailing whitespace, as `str::trim` gives it.
pub open spec fn trim(s: Seq<char>) -> Seq<char> {
    let t = s.skip(lead_ws(s) as int);
    t.take(t.len() - trail_ws(t))
}

proof fn lemma_lead_ws(s: Seq<char>, i: int)
    requires
        0 <= i <= s.len(),
        forall|j: int| 0 <= j < i ==> is_ws(#[trigger] s[j]),
        i == s.len() || !is_ws(s[i]),
    ensures
        lead_ws(s) == i,
    decreases i,
{
    if i > 0 {
        lemma_lead_ws(s.drop_first(), i - 1);
    }
}

proof fn lemma_trail_ws(s: Seq<char>, i: int)
    requires
        0 <= i <= s.len(),
        forall|j: int| s.len() - i <= j < s.len() ==> is_ws(#[trigger] s[j]),
        i == s.len() || !is_ws(s[s.len() - 1 - i]),
    ensures
        trail_ws(s) == i,
    decreases i,
{
    if i > 0 {
        lemma_trail_ws(s.drop_last(), i - 1);
    }
}

/// The bounds of `trim(s[lo..hi])` within `s`.
pub fn trim_range(s: &Vec<char>, lo: usize, hi: usize) -> (r: (usize, usize))
    requires
        lo <= hi <= s@.len(),
    ensures
        lo <= r.0 <= r.1 <= hi,
        s@.subrange(r.0 as int, r.1 as int) == trim(s@.subrange(lo as int, hi as int)),
        r.0 == r.1 || (!is_ws(s@[r.0 as int]) && !is_ws(s@[r.1 - 1])),
{
    let ghost u = s@.subrange(lo as int, hi as int);
    let mut a = lo;
    while a < hi && is_ws_char(s[a])
        invariant
            lo <= a <= hi <= s@.len(),
            forall|j: int| lo <= j < a ==> is_ws(#[trigger] s@[j]),
        decreases hi - a,
    {
        a = a + 1;
    }
    proof {
        lemma_lead_ws(u, a - lo);
    }
    let ghost t = u.skip(a - lo);
    assert(t =~= s@.subrange(a as int, hi as int));
    let mut b = hi;
    while b > a && is_ws_char(s[b - 1])
        invariant
            lo <= a <= b <= hi <= s@.len(),
            forall|j: int| b <= j < hi ==> is_ws(#[trigger] s@[j]),
        decreases b - a,
    {
        b = b - 1;
    }
    proof {
        lemma_trail_ws(t, (hi - b) as int);
        assert(t.take(t.len() - trail_ws(t)) =~= s@.subrange(a as int, b as int));
    }
    (a, b)
}

/// Whitespace test, as `char::is_whitespace`.
pub fn is_ws_char(c: char) -> (r: bool)
    ensures
        r == is_ws(c),
{
    c == ' ' || ('\t' <= c && c <= '\r') || c == '\u{85}' || c == '\u{a0}' || c == '\u{1680}'
        || ('\u{2000}' <= c && c <= '\u{200a}') || c == '\u{2028}' || c == '\u{2029}'
        || c == '\u{202f}' || c == '\u{205f}' || c == '\u{3000}'
}

/// The pieces of `s` between occurrences of `sep`, as `str::split` gives them.
pub open spec fn split(s: Seq<char>, sep: char) -> Seq<Seq<char>>
    decreases s.len(),
{
    if s.len() == 0 {
        seq![Seq::<char>::empty()]
    } else {
        let p = split(s.drop_last(), sep);
        if s.last() == sep {
            p.push(Seq::<char>::empty())
        } else {
            p.update(p.len() - 1, p.last().push(s.last()))
        }
    }
}

pub proof fn lemma_split_nonempty(s: Seq<char>, sep: char)
    ensures
        split(s, sep).len() >= 1,
    decreases s.len(),
{
    if s.len() > 0 {
        lemma_split_nonempty(s.drop_last(), sep);
    }
}

/// The text that a list of bounds picks out of `s`.
pub open spec fn pieces(s: Seq<char>, r: Seq<(usize, usize)>) -> Seq<Seq<char>> {
    r.map_values(|p: (usize, usize)| s.subrange(p.0 as int, p.1 as int))
}

/// Bounds of the pieces of `s[lo..hi]` separated by `sep`.
pub fn split_ranges(s: &Vec<char>, lo: usize, hi: usize, sep: char) -> (r: Vec<(usize, usize)>)
    requires
        lo <= hi <= s@.len(),
    ensures
        pieces(s@, r@) == split(s@.subrange(lo as int, hi as int), sep),
        forall|k: int| 0 <= k < r@.len() ==> lo <= (#[trigger] r@[k]).0 <= r@[k].1 <= hi,
{
    let mut out: Vec<(usize, usize)> = Vec::new();
    let mut start = lo;
    let mut i = lo;
    proof {
        assert(s@.subrange(lo as int, lo as int) =~= Seq::<char>::empty());
        assert(pieces(s@, out@) =~= Seq::<Seq<char>>::empty());
        assert(pieces(s@, out@).push(s@.subrange(start as int, i as int)) =~= split(
            s@.subrange(lo as int, i as int),
            sep,
        ));
    }
    while i < hi
        invariant
            lo <= start <= i <= hi <= s@.len(),
            pieces(s@, out@).push(s@.subrange(start as int, i as int)) == split(
                s@.subrange(lo as int, i as int),
                sep,
            ),
            forall|k: int| 0 <= k < out@.len() ==> lo <= (#[trigger] out@[k]).0 <= out@[k].1 <= hi,
        decreases hi - i,
    {
        let ghost old_out = out@;
        let ghost old_start = start;
        let ghost prev = s@.subrange(lo as int, i as int);
        let ghost cur = s@.subrange(lo as int, i + 1);
        assert(cur.drop_last() =~= prev);
        proof {
            lemma_split_nonempty(prev, sep);
        }
        if s[i] == sep {
            out.push((start, i));
            start = i + 1;
            assert(pieces(s@, out@) =~= pieces(s@, old_out).push(s@.subrange(old_start as int, i as int)));
            assert(s@.subrange(start as int, i + 1) =~= Seq::<char>::empty());
        } else {
            assert(s@.subrange(start as int, i + 1) =~= s@.subrange(start as int, i as int).push(s@[i as int]));
        }
        i = i + 1;
        proof {
            assert(pieces(s@, out@).push(s@.subrange(start as int, i as int)) =~= split(cur, sep));
        }
    }
    out.push((start, hi));
    proof {
        assert(s@.subrange(lo as int, hi as int) =~= s@.subrange(lo as int, i as int));
        assert(pieces(s@, out@) =~= pieces(s@, out@.drop_last()).push(s@.subrange(start as int, hi as int)));
    }
    out
}


/// The whitespace-separated words of `s`, as `str::split_whitespace` gives them.
pub open spec fn words(s: Seq<char>) -> Seq<Seq<char>>
    decreases s.len(),
{
    if s.len() == 0 {
        Seq::<Seq<char>>::empty()
    } else {
        let p = words(s.drop_last());
        if is_ws(s.last()) {
            p
        } else if s.len() >= 2 && !is_ws(s[s.len() - 2]) {
            p.update(p.len() - 1, p.last().push(s.last()))
        } else {
            p.push(seq![s.last()])
        }
    }
}

proof fn lemma_words_nonempty(s: Seq<char>)
    requires
        s.len() > 0,
        !is_ws(s.last()),
    ensures
        words(s).len() >= 1,
    decreases s.len(),
{
    if s.len() >= 2 && !is_ws(s[s.len() - 2]) {
        lemma_words_nonempty(s.drop_last());
    }
}

/// Bounds of the whitespace-separated words of `s[lo..hi]`.
pub fn word_ranges(s: &Vec<char>, lo: usize, hi: usize) -> (r: Vec<(usize, usize)>)
    requires
        lo <= hi <= s@.len(),
    ensures
        pieces(s@, r@) == words(s@.subrange(lo as int, hi as int)),
        forall|k: int| 0 <= k < r@.len() ==> lo <= (#[trigger] r@[k]).0 <= r@[k].1 <= hi,
{
    let mut out: Vec<(usize, usize)> = Vec::new();
    let mut start = lo;
    let mut in_word = false;
    let mut i = lo;
    assert(s@.subrange(lo as int, lo as int) =~= Seq::<char>::empty());
    assert(pieces(s@, out@) =~= Seq::<Seq<char>>::empty());
    while i < hi
        invariant
            lo <= start <= i <= hi <= s@.len(),
            in_word == (i > lo && !is_ws(s@[i - 1])),
            in_word ==> start < i,
            in_word ==> pieces(s@, out@).push(s@.subrange(start as int, i as int)) == words(
                s@.subrange(lo as int, i as int),
            ),
            !in_word ==> pieces(s@, out@) == words(s@.subrange(lo as int, i as int)),
            forall|k: int| 0 <= k < out@.len() ==> lo <= (#[trigger] out@[k]).0 <= out@[k].1 <= hi,
        decreases hi - i,
    {
        let ghost old_out = out@;
        let ghost prev = s@.subrange(lo as int, i as int);
        let ghost cur = s@.subrange(lo as int, i + 1);
        assert(cur.drop_last() =~= prev);
        let c = s[i];
        if is_ws_char(c) {
            if in_word {
                out.push((start, i));
                assert(pieces(s@, out@) =~= pieces(s@, old_out).push(s@.subrange(start as int, i as int)));
            }
            in_word = false;
        } else {
            if in_word {
                assert(cur[cur.len() - 2] == s@[i - 1]);
                assert(s@.subrange(start as int, i + 1) =~= s@.subrange(start as int, i as int).push(c));
                assert(pieces(s@, out@).push(s@.subrange(start as int, i + 1)) =~= words(cur));
            } else {
                start = i;
                assert(s@.subrange(start as int, i + 1) =~= seq![c]);
                assert(pieces(s@, out@).push(s@.subrange(start as int, i + 1)) =~= words(cur));
            }
            in_word = true;
        }
        i = i + 1;
    }
    assert(s@.subrange(lo as int, hi as int) =~= s@.subrange(lo as int, i as int));
    if in_word {
        let ghost old_out = out@;
        out.push((start, hi));
        assert(pieces(s@, out@) =~= pieces(s@, old_out).push(s@.subrange(start as int, hi as int)));
    }
    out
}

/// `p` occurs in `s`.
pub open spec fn contains(s: Seq<char>, p: Seq<char>) -> bool {
    exists|i: int| 0 <= i && i + p.len() <= s.len() && #[trigger] s.subrange(i, i + p.len()) == p
}

/// Whether `p` occurs in `s` at position `i`.
pub fn occurs_at(s: &Vec<char>, i: usize, hi: usize, p: &Vec<char>) -> (r: bool)
    requires
        i <= hi <= s@.len(),
    ensures
        r == (i + p@.len() <= hi && s@.subrange(i as int, i + p@.len()) == p@),
{
    if p.len() > hi - i {
        return false;
    }
    let mut k: usize = 0;
    while k < p.len()
        invariant
            i + p@.len() <= hi <= s@.len(),
            k <= p@.len(),
            forall|j: int| 0 <= j < k ==> s@[i + j] == p@[j],
        decreases p@.len() - k,
    {
        if s[i + k] != p[k] {
            assert(s@.subrange(i as int, i + p@.len())[k as int] != p@[k as int]);
            return false;
        }
        k = k + 1;
    }
    assert(s@.subrange(i as int, i + p@.len()) =~= p@);
    true
}

/// Whether `p` occurs in `s[lo..hi]`.
pub fn contains_in(s: &Vec<char>, lo: usize, hi: usize, p: &Vec<char>) -> (r: bool)
    requires
        lo <= hi <= s@.len(),
    ensures
        r == contains(s@.subrange(lo as int, hi as int), p@),
{
    let ghost t = s@.subrange(lo as int, hi as int);
    if p.len() == 0 {
        assert(t.subrange(0, 0 + p@.len() as int) =~= p@);
        return true;
    }
    if p.len() > hi - lo {
        return false;
    }
    let last = hi - p.len();
    let mut i = lo;
    while i <= last
        invariant
            lo <= i <= last + 1,
            last + p@.len() == hi,
            p@.len() > 0,
            hi <= s@.len(),
            t == s@.subrange(lo as int, hi as int),
            forall|j: int|
                0 <= j < i - lo && j + p@.len() <= t.len() ==> #[trigger] t.subrange(j, j + p@.len())
                    != p@,
        decreases last + 1 - i,
    {
        assert(t.subrange(i - lo, i - lo + p@.len()) =~= s@.subrange(i as int, i + p@.len()));
        if occurs_at(s, i, hi, p) {
            return true;
        }
        i = i + 1;
    }
    false
}

/// Appends `s[a..b]`.
pub fn push_range(out: &mut Vec<char>, s: &Vec<char>, a: usize, b: usize)
    requires
        a <= b <= s@.len(),
    ensures
        final(out)@ == old(out)@ + s@.subrange(a as int, b as int),
{
    let mut i = a;
    while i < b
        invariant
            a <= i <= b <= s@.len(),
            out@ == old(out)@ + s@.subrange(a as int, i as int),
        decreases b - i,
    {
        out.push(s[i]);
        i = i + 1;
        assert(old(out)@ + s@.subrange(a as int, i as int) =~= (old(out)@ + s@.subrange(a as int, i - 1)).push(s@[i - 1]));
    }
}


/// Splitting text that ends in a separator adds one empty piece.
pub proof fn lemma_split_push_sep(p: Seq<char>, sep: char)
    ensures
        split(p.push(sep), sep) == split(p, sep).push(Seq::<char>::empty()),
{
    assert(p.push(sep).drop_last() =~= p);
}

/// Appending text free of the separator extends the last piece.
pub proof fn lemma_split_append_plain(p: Seq<char>, t: Seq<char>, sep: char)
    requires
        forall|i: int| 0 <= i < t.len() ==> #[trigger] t[i] != sep,
    ensures
        split(p + t, sep) == split(p, sep).update(
            split(p, sep).len() - 1,
            split(p, sep).last() + t,
        ),
    decreases t.len(),
{
    lemma_split_nonempty(p, sep);
    if t.len() == 0 {
        assert(p + t =~= p);
        assert(split(p, sep).last() + t =~= split(p, sep).last());
        assert(split(p, sep).update(split(p, sep).len() - 1, split(p, sep).last() + t) =~= split(
            p,
            sep,
        ));
    } else {
        let t0 = t.drop_last();
        lemma_split_append_plain(p, t0, sep);
        assert((p + t).drop_last() =~= p + t0);
        assert((p + t).last() == t.last());
        let q = split(p, sep);
        let n = q.len();
        assert((q.last() + t0).push(t.last()) =~= q.last() + t);
        assert(t.last() != sep);
        lemma_split_nonempty(p + t0, sep);
        let pp = split(p + t0, sep);
        assert(pp.len() == n);
        assert(pp.last() == q.last() + t0);
        assert(split(p + t, sep) == pp.update(n - 1, pp.last().push(t.last())));
        assert(split(p + t, sep) =~= split(p, sep).update(
            split(p, sep).len() - 1,
            split(p, sep).last() + t,
        ));
    }
}

/// Text free of the separator is one piece.
pub proof fn lemma_split_single(t: Seq<char>, sep: char)
    requires
        forall|i: int| 0 <= i < t.len() ==> #[trigger] t[i] != sep,
    ensures
        split(t, sep) == seq![t],
{
    lemma_split_append_plain(Seq::<char>::empty(), t, sep);
    assert(Seq::<char>::empty() + t =~= t);
    assert(seq![Seq::<char>::empty()].update(0, Seq::<char>::empty() + t) =~= seq![t]);
}

/// Text that starts and ends with a non-whitespace character is its own trim.
pub proof fn lemma_trim_plain(s: Seq<char>)
    requires
        s.len() > 0,
        !is_ws(s[0]),
        !is_ws(s.last()),
    ensures
        trim(s) == s,
{
    assert(lead_ws(s) == 0);
    assert(s.skip(0) =~= s);
    assert(trail_ws(s) == 0);
    assert(s.take(s.len() as int) =~= s);
}

/// The shortest decimal form of a 32-bit number reads back as that number.
pub proof fn lemma_u32_of_dec(x: u32)
    ensures
        u32_of(dec_digits(x as nat)) == Some(x),
{
    lemma_dec_digits(x as nat);
}


/// Index of the first `c` in `s`, or the length of `s` when there is none.
pub open spec fn first_of(s: Seq<char>, c: char) -> nat
    decreases s.len(),
{
    if s.len() == 0 || s[0] == c {
        0
    } else {
        1 + first_of(s.drop_first(), c)
    }
}

proof fn lemma_first_of(s: Seq<char>, c: char, i: int)
    requires
        0 <= i <= s.len(),
        forall|j: int| 0 <= j < i ==> #[trigger] s[j] != c,
        i == s.len() || s[i] == c,
    ensures
        first_of(s, c) == i,
    decreases i,
{
    if i > 0 {
        lemma_first_of(s.drop_first(), c, i - 1);
    }
}

/// Position of the first `c` in `s[lo..hi]`, or `hi`.
pub fn find_char(s: &Vec<char>, lo: usize, hi: usize, c: char) -> (r: usize)
    requires
        lo <= hi <= s@.len(),
    ensures
        lo <= r <= hi,
        r - lo == first_of(s@.subrange(lo as int, hi as int), c),
{
    let mut i = lo;
    while i < hi && s[i] != c
        invariant
            lo <= i <= hi <= s@.len(),
            forall|j: int| lo <= j < i ==> #[trigger] s@[j] != c,
        decreases hi - i,
    {
        i = i + 1;
    }
    proof {
        lemma_first_of(s@.subrange(lo as int, hi as int), c, i - lo);
    }
    i
}

/// Whether `s[a..b]` is exactly `lit`.
pub fn equals_range(s: &Vec<char>, a: usize, b: usize, lit: &Vec<char>) -> (r: bool)
    requires
        a <= b <= s@.len(),
    ensures
        r == (s@.subrange(a as int, b as int) == lit@),
{
    if b - a != lit.len() {
        return false;
    }
    occurs_at(s, a, b, lit)
}


/// Whether two texts are equal.
pub fn same_text(a: &str, b: &str) -> (r: bool)
    ensures
        r == (a@ == b@),
{
    let x = chars_of(a);
    let y = chars_of(b);
    let r = equals_range(&x, 0, x.len(), &y);
    assert(x@.subrange(0, x@.len() as int) =~= x@);
    r
}


/// Parses `s[lo..hi]` as a run of decimal digits; `None` when a character is
/// not a digit or the value does not fit in 64 bits.
pub fn parse_digits(s: &Vec<char>, lo: usize, hi: usize) -> (r: Option<u64>)
    requires
        lo <= hi <= s@.len(),
    ensures
        r == (if all_digits(s@.subrange(lo as int, hi as int)) && dec_value(s@.subrange(lo as int, hi as int)) <= u64::MAX {
            Some(dec_value(s@.subrange(lo as int, hi as int)) as u64)
        } else {
            None::<u64>
        }),
{
    let ghost d = s@.subrange(lo as int, hi as int);
    let mut i = lo;
    let mut acc: u128 = 0;
    assert(d.take(0) =~= Seq::<char>::empty());
    while i < hi
        invariant
            lo <= i <= hi <= s@.len(),
            d == s@.subrange(lo as int, hi as int),
            all_digits(s@.subrange(lo as int, i as int)),
            acc == dec_value(d.take(i - lo)),
            acc <= u64::MAX,
        decreases hi - i,
    {
        let c = s[i];
        if !('0' <= c && c <= '9') {
            assert(d[i - lo] == c);
            assert(!is_digit(d[i - lo]));
            return None;
        }
        proof {
            assert(d.take(i + 1 - lo).drop_last() =~= d.take(i - lo));
        }
        acc = acc * 10 + (c as u32 - '0' as u32) as u128;
        assert(d.take(i + 1 - lo).last() == c);
        assert(acc == dec_value(d.take(i + 1 - lo)));
        i = i + 1;
        assert(s@.subrange(lo as int, i as int) =~= s@.subrange(lo as int, i - 1).push(c));
        if acc > u64::MAX as u128 {
            proof {
                lemma_dec_value_mono(d, i - lo, d.len() as int);
                assert(d.take(d.len() as int) =~= d);
                if all_digits(d) {
                }
            }
            return None;
        }
    }
    assert(d.take(d.len() as int) =~= d);
    assert(s@.subrange(lo as int, i as int) =~= d);
    Some(acc as u64)
}


/// Appends the characters of `s`.
pub fn push_str(out: &mut Vec<char>, s: &str)
    ensures
        final(out)@ == old(out)@ + s@,
{
    let cs = chars_of(s);
    push_range(out, &cs, 0, cs.len());
    assert(cs@.subrange(0, cs@.len() as int) =~= s@);
}

/// Words joined by single spaces.
pub open spec fn join_spaced(ws: Seq<Seq<char>>) -> Seq<char>
    decreases ws.len(),
{
    if ws.len() == 0 {
        Seq::empty()
    } else if ws.len() == 1 {
        ws[0]
    } else {
        join_spaced(ws.drop_last()) + seq![' '] + ws.last()
    }
}

/// Appends `ws` joined by single spaces.
pub fn push_joined(out: &mut Vec<char>, ws: &Vec<&str>)
    ensures
        final(out)@ == old(out)@ + join_spaced(ws@.map_values(|w: &str| w@)),
{
    let ghost wv = ws@.map_values(|w: &str| w@);
    let mut i: usize = 0;
    assert(wv.take(0) =~= Seq::<Seq<char>>::empty());
    assert(old(out)@ + Seq::<char>::empty() =~= old(out)@);
    while i < ws.len()
        invariant
            i <= ws@.len(),
            wv == ws@.map_values(|w: &str| w@),
            out@ == old(out)@ + join_spaced(wv.take(i as int)),
        decreases ws@.len() - i,
    {
        let ghost before = out@;
        if i > 0 {
            out.push(' ');
        }
        push_str(out, ws[i]);
        i = i + 1;
        assert(wv.take(i as int).drop_last() =~= wv.take(i - 1));
        if i == 1 {
            assert(before + wv[0] =~= old(out)@ + join_spaced(wv.take(1)));
        } else {
            assert(before.push(' ') + wv[i - 1] =~= old(out)@ + join_spaced(wv.take(i as int)));
        }
    }
    assert(wv.take(ws@.len() as int) =~= wv);
}

} // verus!
