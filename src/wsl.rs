//! Reading what WSL reports: its UTF-16 output, the running distributions,
//! and where fnm lives inside one.

use vstd::prelude::*;
use crate::backend::{env_texts, texts, CommandSpec};
use crate::environment::not_nul;
use crate::shell_config::{line_ranges, lines_of};
use crate::text::{chars_of, pieces, push_range, string_of, trim, trim_range};

verus! {

broadcast use vstd::string::group_string_axioms;

/// The characters that `char::decode_utf16` gives for `units`, `None` for
/// each unpaired surrogate.
pub uninterp spec fn utf16_decoded(units: Seq<u16>) -> Seq<Option<char>>;

/// Relies on `char::decode_utf16`: one entry per decoded character or
/// decoding error, in order; the result depends on the units alone.
#[verifier::external_body]
fn decode_utf16_units(units: &Vec<u16>) -> (r: Vec<Option<char>>)
    ensures
        r@ == utf16_decoded(units@),
{
    char::decode_utf16(units.iter().copied()).map(|c| c.ok()).collect()
}

/// Whether `char::is_alphabetic` holds of `c`.
pub uninterp spec fn alphabetic(c: char) -> bool;

/// Relies on `char::is_alphabetic`.
#[verifier::external_body]
fn is_alphabetic(c: char) -> (r: bool)
    ensures
        r == alphabetic(c),
{
    c.is_alphabetic()
}

/// The text that `String::from_utf8_lossy` makes of `bytes`.
pub uninterp spec fn utf8_lossy(bytes: Seq<u8>) -> Seq<char>;

/// Relies on `String::from_utf8_lossy`: invalid sequences become U+FFFD;
/// the result depends on the bytes alone.
#[verifier::external_body]
fn lossy_text(bytes: &Vec<u8>) -> (r: String)
    ensures
        r@ == utf8_lossy(bytes@),
{
    String::from_utf8_lossy(bytes).to_string()
}

/// Little-endian 16-bit units of `bytes`; a last odd byte is dropped.
pub open spec fn le_units(bytes: Seq<u8>) -> Seq<u16> {
    Seq::new(bytes.len() / 2, |i: int| (bytes[2 * i] as int + 256 * bytes[2 * i + 1] as int) as u16)
}

/// The characters among `s`, errors left out.
pub open spec fn decoded_chars(s: Seq<Option<char>>) -> Seq<char>
    decreases s.len(),
{
    if s.len() == 0 {
        Seq::empty()
    } else {
        let p = decoded_chars(s.drop_last());
        match s.last() {
            Some(c) => p.push(c),
            None => p,
        }
    }
}

/// WSL's output as text: read as UTF-16LE when that gives a non-empty text
/// with a letter in it, else as UTF-8.
pub open spec fn wsl_text(bytes: Seq<u8>) -> Seq<char> {
    let d = decoded_chars(utf16_decoded(le_units(bytes)));
    if bytes.len() >= 2 && d.len() > 0 && exists|i: int| 0 <= i < d.len() && alphabetic(#[trigger] d[i]) {
        d
    } else {
        utf8_lossy(bytes)
    }
}

/// Decodes the output of `wsl.exe`.
pub fn decode_wsl_output(bytes: &Vec<u8>) -> (r: String)
    ensures
        r@ == wsl_text(bytes@),
{
    if bytes.len() >= 2 {
        let mut units: Vec<u16> = Vec::new();
        let mut i: usize = 0;
        let n = bytes.len();
        let half = n / 2;
        while i < half
            invariant
                n == bytes@.len(),
                half == bytes@.len() / 2,
                i <= half,
                units@ == le_units(bytes@).take(i as int),
            decreases half - i,
        {
            let u = (bytes[2 * i] as u16) + 256 * (bytes[2 * i + 1] as u16);
            units.push(u);
            i = i + 1;
            assert(units@ =~= le_units(bytes@).take(i as int));
        }
        assert(units@ =~= le_units(bytes@));
        let decoded = decode_utf16_units(&units);
        let mut out: Vec<char> = Vec::new();
        let mut letter = false;
        let mut k: usize = 0;
        assert(decoded@.take(0) =~= Seq::<Option<char>>::empty());
        while k < decoded.len()
            invariant
                k <= decoded@.len(),
                out@ == decoded_chars(decoded@.take(k as int)),
                letter == exists|i: int| 0 <= i < out@.len() && alphabetic(#[trigger] out@[i]),
            decreases decoded@.len() - k,
        {
            assert(decoded@.take(k + 1).drop_last() =~= decoded@.take(k as int));
            let ghost before = out@;
            match decoded[k] {
                Some(c) => {
                    let a = is_alphabetic(c);
                    out.push(c);
                    assert(out@ == before.push(c));
                    assert(letter || a <==> exists|i: int| 0 <= i < out@.len() && alphabetic(#[trigger] out@[i])) by {
                        if exists|i: int| 0 <= i < out@.len() && alphabetic(#[trigger] out@[i]) {
                            let i = choose|i: int| 0 <= i < out@.len() && alphabetic(#[trigger] out@[i]);
                            if i < before.len() {
                                assert(before[i] == out@[i]);
                            }
                        }
                        if letter {
                            let i = choose|i: int| 0 <= i < before.len() && alphabetic(#[trigger] before[i]);
                            assert(out@[i] == before[i]);
                        }
                        if a {
                            assert(out@[before.len() as int] == c);
                        }
                    }
                    letter = letter || a;
                },
                None => {},
            }
            k = k + 1;
        }
        assert(decoded@.take(decoded@.len() as int) =~= decoded@);
        if out.len() > 0 && letter {
            return string_of(&out);
        }
    }
    lossy_text(bytes)
}

/// The running distributions that `wsl --list --running --quiet` lists:
/// each line trimmed and without NULs, empty ones left out.
pub open spec fn running_names(lines: Seq<Seq<char>>) -> Seq<Seq<char>>
    decreases lines.len(),
{
    if lines.len() == 0 {
        Seq::empty()
    } else {
        let p = running_names(lines.drop_last());
        let t = trim(lines.last()).filter(not_nul());
        if t.len() > 0 {
            p.push(t)
        } else {
            p
        }
    }
}

/// Reads the list of running distributions.
pub fn parse_running_distros(text: &str) -> (r: Vec<String>)
    ensures
        texts(r@) == running_names(lines_of(text@)),
{
    let cs = chars_of(text);
    let lines = line_ranges(&cs);
    let ghost lv = lines_of(cs@);
    let mut out: Vec<String> = Vec::new();
    let mut k: usize = 0;
    assert(lv.take(0) =~= Seq::<Seq<char>>::empty());
    while k < lines.len()
        invariant
            k <= lines@.len(),
            pieces(cs@, lines@) == lv,
            lv == lines_of(cs@),
            forall|i: int| 0 <= i < lines@.len() ==> (#[trigger] lines@[i]).0 <= lines@[i].1 <= cs@.len(),
            texts(out@) == running_names(lv.take(k as int)),
        decreases lines@.len() - k,
    {
        let (lo, hi) = lines[k];
        assert(lv[k as int] == cs@.subrange(lo as int, hi as int));
        assert(lv.take(k + 1).drop_last() =~= lv.take(k as int));
        let (a, b) = trim_range(&cs, lo, hi);
        let ghost tr = cs@.subrange(a as int, b as int);
        let mut t: Vec<char> = Vec::new();
        let mut i = a;
        assert(tr.take(0).filter(not_nul()) =~= Seq::<char>::empty());
        while i < b
            invariant
                a <= i <= b <= cs@.len(),
                tr == cs@.subrange(a as int, b as int),
                t@ == tr.take(i - a).filter(not_nul()),
            decreases b - i,
        {
            assert(tr.take(i + 1 - a) =~= tr.take(i - a).push(cs@[i as int]));
            proof {
                tr.take(i - a).lemma_filter_push(cs@[i as int], not_nul());
            }
            if cs[i] != '\0' {
                t.push(cs[i]);
            }
            i = i + 1;
        }
        assert(tr.take(b - a) =~= tr);
        let ghost before = out@;
        if t.len() > 0 {
            let name = string_of(&t);
            out.push(name);
            assert(texts(out@) =~= texts(before).push(t@));
        }
        k = k + 1;
    }
    assert(lv.take(lines@.len() as int) =~= lv);
    assert(cs@ == text@);
    out
}

/// The shell test that prints the first place where fnm is installed.
pub open spec fn fnm_probe_text() -> Seq<char> {
    "[ -x $HOME/.local/share/fnm/fnm ] && { echo $HOME/.local/share/fnm/fnm; exit 0; }; [ -x $HOME/.cargo/bin/fnm ] && { echo $HOME/.cargo/bin/fnm; exit 0; }; [ -x /usr/local/bin/fnm ] && { echo /usr/local/bin/fnm; exit 0; }; [ -x /usr/bin/fnm ] && { echo /usr/bin/fnm; exit 0; }; [ -x $HOME/.fnm/fnm ] && { echo $HOME/.fnm/fnm; exit 0; }"@
}

/// The process that looks for fnm inside distribution `distro`.
pub fn fnm_probe_command(distro: &str) -> (r: CommandSpec)
    ensures
        r.program@ == "wsl.exe"@,
        texts(r.args@) == seq!["-d"@, distro@, "--"@, "sh"@, "-c"@, fnm_probe_text()],
        r.env@.len() == 0,
{
    let args = vec![
        "-d".to_string(),
        distro.to_string(),
        "--".to_string(),
        "sh".to_string(),
        "-c".to_string(),
        "[ -x $HOME/.local/share/fnm/fnm ] && { echo $HOME/.local/share/fnm/fnm; exit 0; }; [ -x $HOME/.cargo/bin/fnm ] && { echo $HOME/.cargo/bin/fnm; exit 0; }; [ -x /usr/local/bin/fnm ] && { echo /usr/local/bin/fnm; exit 0; }; [ -x /usr/bin/fnm ] && { echo /usr/bin/fnm; exit 0; }; [ -x $HOME/.fnm/fnm ] && { echo $HOME/.fnm/fnm; exit 0; }".to_string(),
    ];
    assert(texts(args@) =~= seq!["-d"@, distro@, "--"@, "sh"@, "-c"@, fnm_probe_text()]);
    CommandSpec { program: "wsl.exe".to_string(), args, env: Vec::new() }
}

/// The fnm path that the probe reported: its first output line, trimmed,
/// when the probe succeeded and the line is not empty.
pub open spec fn probe_path(success: bool, stdout: Seq<char>) -> Option<Seq<char>> {
    let ls = lines_of(stdout);
    if success && ls.len() > 0 && trim(ls[0]).len() > 0 {
        Some(trim(ls[0]))
    } else {
        None
    }
}

/// Reads the result of the fnm probe.
pub fn fnm_probe_result(success: bool, stdout: &str) -> (r: Option<String>)
    ensures
        match r {
            Some(p) => probe_path(success, stdout@) == Some(p@),
            None => probe_path(success, stdout@) is None,
        },
{
    if !success {
        return None;
    }
    let cs = chars_of(stdout);
    let lines = line_ranges(&cs);
    if lines.len() == 0 {
        return None;
    }
    let (lo, hi) = lines[0];
    assert(lines_of(cs@)[0] == cs@.subrange(lo as int, hi as int));
    let (a, b) = trim_range(&cs, lo, hi);
    if a == b {
        return None;
    }
    let mut out: Vec<char> = Vec::new();
    push_range(&mut out, &cs, a, b);
    Some(string_of(&out))
}

} // verus!
