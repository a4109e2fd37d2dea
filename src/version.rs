//! Runtime versions, the records that backend listings produce, and their
//! grouping by major number.

use std::cmp::Ordering;
use vstd::prelude::*;
use crate::text::{
    chars_of, dec_digits, lemma_dec_digits, lemma_split_append_plain, lemma_split_push_sep,
    lemma_split_single, lemma_trim_plain, lemma_u32_of_dec, parse_u32, push_decimal, push_range,
    split, split_ranges, string_of, trim, trim_range, u32_of, words, contains, word_ranges,
    contains_in, first_of, find_char, equals_range, pieces,
};

verus! {

/// A semantic runtime version `major.minor.patch`.
#[derive(Debug, Clone, Copy, PartialEq, Eq, Hash, Structural, Ord)]
pub struct NodeVersion {
    pub major: u32,
    pub minor: u32,
    pub patch: u32,
}

/// Lexicographic order on (major, minor, patch).
pub open spec fn version_cmp(a: NodeVersion, b: NodeVersion) -> Ordering {
    if a.major != b.major {
        if a.major < b.major { Ordering::Less } else { Ordering::Greater }
    } else if a.minor != b.minor {
        if a.minor < b.minor { Ordering::Less } else { Ordering::Greater }
    } else if a.patch != b.patch {
        if a.patch < b.patch { Ordering::Less } else { Ordering::Greater }
    } else {
        Ordering::Equal
    }
}

/// `a` comes strictly before `b`.
pub open spec fn version_lt(a: NodeVersion, b: NodeVersion) -> bool {
    version_cmp(a, b) == Ordering::Less
}

impl PartialOrd for NodeVersion {
    fn partial_cmp(&self, other: &NodeVersion) -> (r: Option<Ordering>)
        ensures
            r == Some(version_cmp(*self, *other)),
    {
        Some(self.compare(other))
    }
}

impl vstd::std_specs::cmp::PartialOrdSpecImpl for NodeVersion {
    open spec fn obeys_partial_cmp_spec() -> bool {
        true
    }

    open spec fn partial_cmp_spec(&self, other: &NodeVersion) -> Option<Ordering> {
        Some(version_cmp(*self, *other))
    }
}

/// A version text that could not be parsed; the message names the offending part.
#[derive(Debug, Clone)]
pub struct VersionParseError(pub String);

/// The text that remains after trimming and dropping one leading `v`.
pub open spec fn version_body(s: Seq<char>) -> Seq<char> {
    let t = trim(s);
    if t.len() > 0 && t[0] == 'v' {
        t.drop_first()
    } else {
        t
    }
}

/// The outcome of parsing `s` as a version: the version, or the error message.
pub open spec fn parse_version_spec(s: Seq<char>) -> Result<NodeVersion, Seq<char>> {
    let u = version_body(s);
    let parts = split(u, '.');
    if parts.len() < 3 {
        Err("Expected X.Y.Z format, got: "@ + u)
    } else if u32_of(parts[0]) is None {
        Err("Invalid major version: "@ + parts[0])
    } else if u32_of(parts[1]) is None {
        Err("Invalid minor version: "@ + parts[1])
    } else if u32_of(parts[2]) is None {
        Err("Invalid patch version: "@ + parts[2])
    } else {
        Ok(
            NodeVersion {
                major: u32_of(parts[0])->0,
                minor: u32_of(parts[1])->0,
                patch: u32_of(parts[2])->0,
            },
        )
    }
}

/// The canonical text `v{major}.{minor}.{patch}`.
pub open spec fn version_string(v: NodeVersion) -> Seq<char> {
    seq!['v'] + dotted(v.major as nat, v.minor as nat, v.patch as nat)
}

/// `x.y.z` in shortest decimal form.
pub open spec fn dotted(x: nat, y: nat, z: nat) -> Seq<char> {
    dec_digits(x) + seq!['.'] + dec_digits(y) + seq!['.'] + dec_digits(z)
}

impl NodeVersion {
    pub fn new(major: u32, minor: u32, patch: u32) -> (r: NodeVersion)
        ensures
            r == (NodeVersion { major, minor, patch }),
    {
        NodeVersion { major, minor, patch }
    }

    /// The major number, by which versions are grouped.
    pub fn major_group(&self) -> (r: u32)
        ensures
            r == self.major,
    {
        self.major
    }

    /// Three-way comparison by (major, minor, patch).
    pub fn compare(&self, other: &NodeVersion) -> (r: Ordering)
        ensures
            r == version_cmp(*self, *other),
    {
        if self.major != other.major {
            if self.major < other.major { Ordering::Less } else { Ordering::Greater }
        } else if self.minor != other.minor {
            if self.minor < other.minor { Ordering::Less } else { Ordering::Greater }
        } else if self.patch != other.patch {
            if self.patch < other.patch { Ordering::Less } else { Ordering::Greater }
        } else {
            Ordering::Equal
        }
    }

    /// Whether `self` comes strictly before `other`.
    pub fn is_older_than(&self, other: &NodeVersion) -> (r: bool)
        ensures
            r == version_lt(*self, *other),
    {
        self.major < other.major || (self.major == other.major && (self.minor < other.minor
            || (self.minor == other.minor && self.patch < other.patch)))
    }

    /// Parses a version: surrounding whitespace and one leading `v` are
    /// dropped, and the first three dot-separated parts must be numbers.
    pub fn parse(s: &str) -> (r: Result<NodeVersion, VersionParseError>)
        ensures
            match r {
                Ok(v) => parse_version_spec(s@) == Ok::<NodeVersion, Seq<char>>(v),
                Err(e) => parse_version_spec(s@) == Err::<NodeVersion, Seq<char>>(e.0@),
            },
    {
        let cs = chars_of(s);
        assert(cs@.subrange(0, cs@.len() as int) =~= s@);
        NodeVersion::parse_range(&cs, 0, cs.len())
    }

    /// Parses the version written in `s[lo..hi]`.
    pub fn parse_range(cs: &Vec<char>, lo: usize, hi: usize) -> (r: Result<NodeVersion, VersionParseError>)
        requires
            lo <= hi <= cs@.len(),
        ensures
            match r {
                Ok(v) => parse_version_spec(cs@.subrange(lo as int, hi as int)) == Ok::<NodeVersion, Seq<char>>(v),
                Err(e) => parse_version_spec(cs@.subrange(lo as int, hi as int)) == Err::<NodeVersion, Seq<char>>(e.0@),
            },
    {
        let ghost src = cs@.subrange(lo as int, hi as int);
        let (a0, b) = trim_range(cs, lo, hi);
        let a = if a0 < b && cs[a0] == 'v' { a0 + 1 } else { a0 };
        assert(cs@.subrange(a as int, b as int) =~= version_body(src));
        let parts = split_ranges(cs, a, b, '.');
        let ghost ps = split(version_body(src), '.');
        assert(ps.len() == parts@.len());
        if parts.len() < 3 {
            let mut m = chars_of("Expected X.Y.Z format, got: ");
            push_range(&mut m, cs, a, b);
            return Err(VersionParseError(string_of(&m)));
        }
        assert(ps[0] == cs@.subrange(parts@[0].0 as int, parts@[0].1 as int));
        assert(ps[1] == cs@.subrange(parts@[1].0 as int, parts@[1].1 as int));
        assert(ps[2] == cs@.subrange(parts@[2].0 as int, parts@[2].1 as int));
        let major = match parse_u32(cs, parts[0].0, parts[0].1) {
            Some(n) => n,
            None => {
                let mut m = chars_of("Invalid major version: ");
                push_range(&mut m, cs, parts[0].0, parts[0].1);
                return Err(VersionParseError(string_of(&m)));
            },
        };
        let minor = match parse_u32(cs, parts[1].0, parts[1].1) {
            Some(n) => n,
            None => {
                let mut m = chars_of("Invalid minor version: ");
                push_range(&mut m, cs, parts[1].0, parts[1].1);
                return Err(VersionParseError(string_of(&m)));
            },
        };
        let patch = match parse_u32(cs, parts[2].0, parts[2].1) {
            Some(n) => n,
            None => {
                let mut m = chars_of("Invalid patch version: ");
                push_range(&mut m, cs, parts[2].0, parts[2].1);
                return Err(VersionParseError(string_of(&m)));
            },
        };
        Ok(NodeVersion::new(major, minor, patch))
    }

    /// The canonical text `v{major}.{minor}.{patch}`.
    pub fn to_string(&self) -> (r: String)
        ensures
            r@ == version_string(*self),
    {
        let mut out: Vec<char> = Vec::new();
        out.push('v');
        push_decimal(&mut out, self.major as u64);
        out.push('.');
        push_decimal(&mut out, self.minor as u64);
        out.push('.');
        push_decimal(&mut out, self.patch as u64);
        assert(out@ =~= version_string(*self));
        string_of(&out)
    }
}

impl std::str::FromStr for NodeVersion {
    type Err = VersionParseError;

    fn from_str(s: &str) -> (r: Result<NodeVersion, VersionParseError>)
        ensures
            match r {
                Ok(v) => parse_version_spec(s@) == Ok::<NodeVersion, Seq<char>>(v),
                Err(e) => parse_version_spec(s@) == Err::<NodeVersion, Seq<char>>(e.0@),
            },
    {
        NodeVersion::parse(s)
    }
}


/// Versions are ordered as the triples (major, minor, patch) are ordered
/// lexicographically; the order is total, and equal exactly for equal
/// versions.
pub proof fn lemma_order_is_lexicographic(a: NodeVersion, b: NodeVersion, c: NodeVersion)
    ensures
        version_lt(a, b) <==> (a.major < b.major || (a.major == b.major && (a.minor < b.minor || (
        a.minor == b.minor && a.patch < b.patch)))),
        version_cmp(a, b) == Ordering::Equal <==> a == b,
        version_cmp(a, b) == Ordering::Less <==> version_cmp(b, a) == Ordering::Greater,
        version_lt(a, b) && version_lt(b, c) ==> version_lt(a, c),
        version_lt(a, b) || version_lt(b, a) || a == b,
{
}

/// Round trip: the text `X.Y.Z`, with or without a leading `v`, parses to the
/// version (X, Y, Z), whose canonical text is `vX.Y.Z`.
pub proof fn lemma_parse_round_trip(x: u32, y: u32, z: u32)
    ensures
        parse_version_spec(dotted(x as nat, y as nat, z as nat)) == Ok::<NodeVersion, Seq<char>>(
            NodeVersion { major: x, minor: y, patch: z },
        ),
        parse_version_spec(seq!['v'] + dotted(x as nat, y as nat, z as nat)) == Ok::<
            NodeVersion,
            Seq<char>,
        >(NodeVersion { major: x, minor: y, patch: z }),
        version_string(NodeVersion { major: x, minor: y, patch: z }) == seq!['v'] + dotted(
            x as nat,
            y as nat,
            z as nat,
        ),
{
    let a = dec_digits(x as nat);
    let b = dec_digits(y as nat);
    let c = dec_digits(z as nat);
    lemma_dec_digits(x as nat);
    lemma_dec_digits(y as nat);
    lemma_dec_digits(z as nat);
    lemma_u32_of_dec(x);
    lemma_u32_of_dec(y);
    lemma_u32_of_dec(z);
    let d = dotted(x as nat, y as nat, z as nat);
    lemma_split_single(a, '.');
    lemma_split_push_sep(a, '.');
    assert(a + seq!['.'] =~= a.push('.'));
    lemma_split_append_plain(a.push('.'), b, '.');
    assert(seq![a].push(Seq::<char>::empty()).update(1, Seq::<char>::empty() + b) =~= seq![a, b]);
    let ab = a.push('.') + b;
    lemma_split_push_sep(ab, '.');
    lemma_split_append_plain(ab.push('.'), c, '.');
    assert(seq![a, b].push(Seq::<char>::empty()).update(2, Seq::<char>::empty() + c) =~= seq![a, b, c]);
    assert(ab.push('.') + c =~= d);
    assert(split(d, '.') == seq![a, b, c]);
    assert(d[0] == a[0]);
    assert(d.last() == c.last());
    lemma_trim_plain(d);
    assert(version_body(d) == d);
    let vd = seq!['v'] + d;
    assert(vd.last() == d.last());
    lemma_trim_plain(vd);
    assert(vd.drop_first() =~= d);
    assert(version_body(vd) == d);
}


/// An installed runtime, as the backend lists it.
#[derive(Debug, Clone)]
pub struct InstalledVersion {
    pub version: NodeVersion,
    pub is_default: bool,
    pub lts_codename: Option<String>,
    /// Seconds since the Unix epoch, UTC.
    pub install_date: Option<i64>,
    pub disk_size: Option<u64>,
}

/// A runtime that the backend can install.
#[derive(Debug, Clone)]
pub struct RemoteVersion {
    pub version: NodeVersion,
    pub lts_codename: Option<String>,
    pub is_latest: bool,
}

pub open spec fn opt_view(o: Option<String>) -> Option<Seq<char>> {
    match o {
        Some(s) => Some(s@),
        None => None,
    }
}

/// The first word that starts with `v`.
pub open spec fn first_v_word(ws: Seq<Seq<char>>) -> Option<Seq<char>>
    decreases ws.len(),
{
    if ws.len() == 0 {
        None
    } else if ws[0].len() > 0 && ws[0][0] == 'v' {
        Some(ws[0])
    } else {
        first_v_word(ws.drop_first())
    }
}

/// What one line of the installed listing contributes: its version and
/// whether it carries the default marker.
pub open spec fn installed_entry(line: Seq<char>) -> Option<(NodeVersion, bool)> {
    let t = trim(line);
    if t.len() == 0 || t == "system"@ || t == "* system"@ {
        None
    } else {
        match first_v_word(words(t)) {
            None => None,
            Some(w) => match parse_version_spec(w) {
                Ok(v) => Some((v, contains(t, "default"@))),
                Err(_) => None,
            },
        }
    }
}

/// The entries of the lines that hold one, in order.
pub open spec fn installed_entries(lines: Seq<Seq<char>>) -> Seq<(NodeVersion, bool)>
    decreases lines.len(),
{
    if lines.len() == 0 {
        Seq::<(NodeVersion, bool)>::empty()
    } else {
        let p = installed_entries(lines.drop_last());
        match installed_entry(lines.last()) {
            Some(e) => p.push(e),
            None => p,
        }
    }
}

pub open spec fn installed_key(v: InstalledVersion) -> (NodeVersion, bool) {
    (v.version, v.is_default)
}

/// The codename that a parenthesised remainder names.
pub open spec fn codename_of(rest: Seq<char>) -> Option<Seq<char>> {
    if rest.len() >= 2 && rest[0] == '(' && rest.last() == ')' {
        Some(rest.subrange(1, rest.len() - 1))
    } else {
        None
    }
}

/// What one line of the remote listing contributes: the version before the
/// first space, and the codename in parentheses after it.
pub open spec fn remote_entry(line: Seq<char>) -> Option<(NodeVersion, Option<Seq<char>>)> {
    let t = trim(line);
    let f = first_of(t, ' ');
    if t.len() == 0 {
        None
    } else {
        match parse_version_spec(trim(t.take(f as int))) {
            Err(_) => None,
            Ok(v) => Some(
                (
                    v,
                    if f < t.len() {
                        codename_of(trim(t.skip(f + 1 as int)))
                    } else {
                        None
                    },
                ),
            ),
        }
    }
}

pub open spec fn remote_entries(lines: Seq<Seq<char>>) -> Seq<(NodeVersion, Option<Seq<char>>)>
    decreases lines.len(),
{
    if lines.len() == 0 {
        Seq::<(NodeVersion, Option<Seq<char>>)>::empty()
    } else {
        let p = remote_entries(lines.drop_last());
        match remote_entry(lines.last()) {
            Some(e) => p.push(e),
            None => p,
        }
    }
}

pub open spec fn remote_key(v: RemoteVersion) -> (NodeVersion, Option<Seq<char>>) {
    (v.version, opt_view(v.lts_codename))
}

/// Reads the installed entry of `cs[lo..hi]`.
fn installed_line(cs: &Vec<char>, lo: usize, hi: usize, system: &Vec<char>, star_system: &Vec<char>, default_mark: &Vec<char>) -> (r: Option<InstalledVersion>)
    requires
        lo <= hi <= cs@.len(),
        system@ == "system"@,
        star_system@ == "* system"@,
        default_mark@ == "default"@,
    ensures
        match r {
            Some(v) => installed_entry(cs@.subrange(lo as int, hi as int)) == Some(installed_key(v))
                && v.lts_codename is None && v.install_date is None && v.disk_size is None,
            None => installed_entry(cs@.subrange(lo as int, hi as int)) is None,
        },
{
    let ghost line = cs@.subrange(lo as int, hi as int);
    let (a, b) = trim_range(cs, lo, hi);
    if a == b || equals_range(cs, a, b, system) || equals_range(cs, a, b, star_system) {
        return None;
    }
    let ghost t = trim(line);
    let ws = word_ranges(cs, a, b);
    let ghost wsv = words(t);
    let mut j: usize = 0;
    assert(wsv.skip(0) =~= wsv);
    assert(t == cs@.subrange(a as int, b as int));
    while j < ws.len()
        invariant
            j <= ws@.len(),
            pieces(cs@, ws@) == wsv,
            forall|k: int| 0 <= k < ws@.len() ==> a <= (#[trigger] ws@[k]).0 <= ws@[k].1 <= b,
            b <= cs@.len(),
            first_v_word(wsv) == first_v_word(wsv.skip(j as int)),
            t == cs@.subrange(a as int, b as int),
            t == trim(line),
            wsv == words(t),
            line == cs@.subrange(lo as int, hi as int),
            lo <= hi <= cs@.len(),
            t.len() > 0 && t != "system"@ && t != "* system"@,
            default_mark@ == "default"@,
            a <= b,
        decreases ws@.len() - j,
    {
        let (p, q) = ws[j];
        assert(wsv[j as int] == cs@.subrange(p as int, q as int));
        assert(wsv.skip(j as int)[0] == wsv[j as int]);
        if p < q && cs[p] == 'v' {
            assert(wsv[j as int].len() > 0);
            assert(wsv[j as int][0] == cs@[p as int]);
            assert(wsv.skip(j as int).len() > 0);
            assert(first_v_word(wsv.skip(j as int)) == Some(wsv[j as int]));
            assert(first_v_word(words(t)) == Some(wsv[j as int]));
            let is_default = contains_in(cs, a, b, default_mark);
            assert(is_default == contains(t, "default"@));
            match NodeVersion::parse_range(cs, p, q) {
                Ok(version) => {
                    assert(installed_entry(line) == Some((version, is_default)));
                    return Some(
                        InstalledVersion {
                            version,
                            is_default,
                            lts_codename: None,
                            install_date: None,
                            disk_size: None,
                        },
                    );
                },
                Err(_) => {
                    return None;
                },
            }
        }
        assert(wsv.skip(j as int).drop_first() =~= wsv.skip(j + 1));
        j = j + 1;
    }
    None
}

/// Parses the backend's listing of installed versions: one record per line
/// that names a version, with the default marker noted; blank lines, the
/// `system` entry and lines without a version are dropped.
pub fn parse_installed_versions(output: &str) -> (r: Vec<InstalledVersion>)
    ensures
        r@.map_values(|v: InstalledVersion| installed_key(v)) == installed_entries(split(output@, '\n')),
        forall|k: int| 0 <= k < r@.len() ==> (#[trigger] r@[k]).lts_codename is None
            && r@[k].install_date is None && r@[k].disk_size is None,
{
    let cs = chars_of(output);
    assert(cs@.subrange(0, cs@.len() as int) =~= output@);
    let lines = split_ranges(&cs, 0, cs.len(), '\n');
    let ghost lv = split(output@, '\n');
    let system = chars_of("system");
    let star_system = chars_of("* system");
    let default_mark = chars_of("default");
    let mut out: Vec<InstalledVersion> = Vec::new();
    let mut k: usize = 0;
    while k < lines.len()
        invariant
            k <= lines@.len(),
            pieces(cs@, lines@) == lv,
            forall|i: int| 0 <= i < lines@.len() ==> (#[trigger] lines@[i]).0 <= lines@[i].1 <= cs@.len(),
            system@ == "system"@,
            star_system@ == "* system"@,
            default_mark@ == "default"@,
            out@.map_values(|v: InstalledVersion| installed_key(v)) == installed_entries(lv.take(k as int)),
            forall|i: int| 0 <= i < out@.len() ==> (#[trigger] out@[i]).lts_codename is None
                && out@[i].install_date is None && out@[i].disk_size is None,
        decreases lines@.len() - k,
    {
        let (lo, hi) = lines[k];
        assert(lv[k as int] == cs@.subrange(lo as int, hi as int));
        assert(lv.take(k + 1).drop_last() =~= lv.take(k as int));
        let ghost before = out@;
        match installed_line(&cs, lo, hi, &system, &star_system, &default_mark) {
            Some(v) => {
                out.push(v);
                assert(out@.map_values(|v: InstalledVersion| installed_key(v)) =~= before.map_values(
                    |v: InstalledVersion| installed_key(v),
                ).push(installed_key(v)));
            },
            None => {},
        }
        k = k + 1;
    }
    assert(lv.take(lines@.len() as int) =~= lv);
    out
}

/// Reads the remote entry of `cs[lo..hi]`.
fn remote_line(cs: &Vec<char>, lo: usize, hi: usize) -> (r: Option<RemoteVersion>)
    requires
        lo <= hi <= cs@.len(),
    ensures
        match r {
            Some(v) => remote_entry(cs@.subrange(lo as int, hi as int)) == Some(remote_key(v)) && !v.is_latest,
            None => remote_entry(cs@.subrange(lo as int, hi as int)) is None,
        },
{
    let ghost line = cs@.subrange(lo as int, hi as int);
    let (a, b) = trim_range(cs, lo, hi);
    let ghost t = trim(line);
    if a == b {
        return None;
    }
    let f = find_char(cs, a, b, ' ');
    assert(t.take(f - a) =~= cs@.subrange(a as int, f as int));
    let (va, vb) = trim_range(cs, a, f);
    let version = match NodeVersion::parse_range(cs, va, vb) {
        Ok(v) => v,
        Err(_) => return None,
    };
    let mut lts_codename: Option<String> = None;
    if f < b {
        assert(t.skip(f - a + 1) =~= cs@.subrange(f + 1, b as int));
        let (ra, rb) = trim_range(cs, f + 1, b);
        if rb - ra >= 2 && cs[ra] == '(' && cs[rb - 1] == ')' {
            let mut name: Vec<char> = Vec::new();
            push_range(&mut name, cs, ra + 1, rb - 1);
            assert(cs@.subrange(ra as int, rb as int).subrange(1, rb - ra - 1) =~= cs@.subrange(ra + 1, rb - 1));
            lts_codename = Some(string_of(&name));
        }
    }
    Some(RemoteVersion { version, lts_codename, is_latest: false })
}

/// Parses the backend's listing of remote versions: the version before the
/// first space of each line, and an LTS codename when the rest of the line
/// is wrapped in parentheses; lines without a version are dropped.
pub fn parse_remote_versions(output: &str) -> (r: Vec<RemoteVersion>)
    ensures
        r@.map_values(|v: RemoteVersion| remote_key(v)) == remote_entries(split(output@, '\n')),
        forall|k: int| 0 <= k < r@.len() ==> !(#[trigger] r@[k]).is_latest,
{
    let cs = chars_of(output);
    assert(cs@.subrange(0, cs@.len() as int) =~= output@);
    let lines = split_ranges(&cs, 0, cs.len(), '\n');
    let ghost lv = split(output@, '\n');
    let mut out: Vec<RemoteVersion> = Vec::new();
    let mut k: usize = 0;
    while k < lines.len()
        invariant
            k <= lines@.len(),
            pieces(cs@, lines@) == lv,
            forall|i: int| 0 <= i < lines@.len() ==> (#[trigger] lines@[i]).0 <= lines@[i].1 <= cs@.len(),
            out@.map_values(|v: RemoteVersion| remote_key(v)) == remote_entries(lv.take(k as int)),
            forall|i: int| 0 <= i < out@.len() ==> !(#[trigger] out@[i]).is_latest,
        decreases lines@.len() - k,
    {
        let (lo, hi) = lines[k];
        assert(lv[k as int] == cs@.subrange(lo as int, hi as int));
        assert(lv.take(k + 1).drop_last() =~= lv.take(k as int));
        let ghost before = out@;
        match remote_line(&cs, lo, hi) {
            Some(v) => {
                out.push(v);
                assert(out@.map_values(|v: RemoteVersion| remote_key(v)) =~= before.map_values(
                    |v: RemoteVersion| remote_key(v),
                ).push(remote_key(v)));
            },
            None => {},
        }
        k = k + 1;
    }
    assert(lv.take(lines@.len() as int) =~= lv);
    out
}



impl InstalledVersion {
    /// A copy of this record.
    pub fn duplicate(&self) -> (r: InstalledVersion)
        ensures
            r == *self,
    {
        let lts_codename = match &self.lts_codename {
            Some(c) => Some(c.clone()),
            None => None,
        };
        InstalledVersion {
            version: self.version,
            is_default: self.is_default,
            lts_codename,
            install_date: self.install_date,
            disk_size: self.disk_size,
        }
    }
}

impl RemoteVersion {
    /// A copy of this record.
    pub fn duplicate(&self) -> (r: RemoteVersion)
        ensures
            r == *self,
    {
        let lts_codename = match &self.lts_codename {
            Some(c) => Some(c.clone()),
            None => None,
        };
        RemoteVersion { version: self.version, lts_codename, is_latest: self.is_latest }
    }
}

/// The installed versions of one major line.
#[derive(Debug, Clone)]
pub struct VersionGroup {
    pub major: u32,
    pub versions: Vec<InstalledVersion>,
    pub is_expanded: bool,
}

/// Holds of a record of major line `m`.
pub open spec fn of_major(m: u32) -> spec_fn(InstalledVersion) -> bool {
    |v: InstalledVersion| v.version.major == m
}

/// Newest first: no record is newer than the one before it.
pub open spec fn newest_first(vs: Seq<InstalledVersion>) -> bool {
    forall|i: int, j: int| 0 <= i < j < vs.len() ==> !version_lt(#[trigger] vs[i].version, #[trigger] vs[j].version)
}

/// The major numbers that occur in `vs`.
pub open spec fn majors_of(vs: Seq<InstalledVersion>) -> Set<u32> {
    vs.map_values(|v: InstalledVersion| v.version.major).to_set()
}

/// Inserts `major` into a strictly decreasing list, keeping it so.
fn insert_major(ms: &mut Vec<u32>, major: u32)
    requires
        forall|i: int, j: int| 0 <= i < j < old(ms)@.len() ==> old(ms)@[i] > old(ms)@[j],
    ensures
        forall|i: int, j: int| 0 <= i < j < final(ms)@.len() ==> final(ms)@[i] > final(ms)@[j],
        final(ms)@.to_set() == old(ms)@.to_set().insert(major),
{
    let mut i: usize = 0;
    while i < ms.len() && ms[i] > major
        invariant
            i <= ms@.len(),
            ms@ == old(ms)@,
            forall|k: int| 0 <= k < i ==> ms@[k] > major,
        decreases ms@.len() - i,
    {
        i = i + 1;
    }
    if i < ms.len() && ms[i] == major {
        assert(ms@.to_set() =~= ms@.to_set().insert(major)) by {
            assert(ms@.to_set().contains(major)) by {
                assert(ms@[i as int] == major);
            }
        }
        return;
    }
    let ghost before = ms@;
    ms.insert(i, major);
    proof {
        before.insert_ensures(i as int, major);
    }
    assert forall|a: int, b: int| 0 <= a < b < ms@.len() implies ms@[a] > ms@[b] by {
        if b < i {
        } else if a < i && b == i {
        } else if a < i {
            assert(ms@[b] == before[b - 1]);
            assert(before[a] > before[b - 1] || a == b - 1);
            if a == b - 1 {
            }
        } else if a == i {
            assert(ms@[b] == before[b - 1]);
            if i < before.len() {
                assert(before[i as int] < major);
                assert(before[i as int] >= before[b - 1]) by {
                    if i < b - 1 {
                    }
                }
            }
        } else {
            assert(ms@[a] == before[a - 1]);
            assert(ms@[b] == before[b - 1]);
        }
    }
    assert(ms@.to_set() =~= before.to_set().insert(major)) by {
        assert forall|x: u32| ms@.to_set().contains(x) <==> before.to_set().contains(x) || x == major by {
            if ms@.to_set().contains(x) {
                let k = choose|k: int| 0 <= k < ms@.len() && #[trigger] ms@[k] == x;
                if k < i {
                    assert(before[k] == x);
                } else if k > i {
                    assert(before[k - 1] == x);
                }
            }
            if before.to_set().contains(x) {
                let k = choose|k: int| 0 <= k < before.len() && #[trigger] before[k] == x;
                if k < i {
                    assert(ms@[k] == x);
                } else {
                    assert(ms@[k + 1] == x);
                }
            }
            if x == major {
                assert(ms@[i as int] == x);
            }
        }
    }
}

/// Inserts `v` after every record that is not older than it.
fn insert_newest_first(vs: &mut Vec<InstalledVersion>, v: InstalledVersion)
    requires
        newest_first(old(vs)@),
    ensures
        newest_first(final(vs)@),
        final(vs)@.to_multiset() == old(vs)@.to_multiset().insert(v),
{
    let mut i: usize = 0;
    while i < vs.len() && !vs[i].version.is_older_than(&v.version)
        invariant
            i <= vs@.len(),
            vs@ == old(vs)@,
            forall|k: int| 0 <= k < i ==> !version_lt(vs@[k].version, v.version),
        decreases vs@.len() - i,
    {
        i = i + 1;
    }
    let ghost before = vs@;
    vs.insert(i, v);
    proof {
        before.insert_ensures(i as int, v);
        vstd::seq_lib::to_multiset_insert(before, i as int, v);
        assert forall|a: int, b: int| 0 <= a < b < vs@.len() implies !version_lt(#[trigger] vs@[a].version, #[trigger] vs@[b].version) by {
            if b < i {
            } else if b == i {
            } else if a < i {
                assert(vs@[b] == before[b - 1]);
                if a < b - 1 {
                } else {
                }
            } else if a == i {
                assert(vs@[b] == before[b - 1]);
                assert(version_lt(before[i as int].version, v.version));
                if b - 1 > i {
                    assert(!version_lt(before[i as int].version, before[b - 1].version));
                }
            } else {
                assert(vs@[a] == before[a - 1]);
                assert(vs@[b] == before[b - 1]);
            }
        }
    }
}

impl VersionGroup {
    /// Groups installed versions by major line: majors newest first, each
    /// group's versions newest first, every group expanded.
    pub fn from_versions(versions: Vec<InstalledVersion>) -> (r: Vec<VersionGroup>)
        ensures
            forall|i: int, j: int| 0 <= i < j < r@.len() ==> (#[trigger] r@[i]).major > (#[trigger] r@[j]).major,
            r@.map_values(|g: VersionGroup| g.major).to_set() == majors_of(versions@),
            forall|i: int| 0 <= i < r@.len() ==> {
                &&& newest_first((#[trigger] r@[i]).versions@)
                &&& r@[i].versions@.to_multiset() == versions@.filter(of_major(r@[i].major)).to_multiset()
                &&& r@[i].is_expanded
            },
    {
        let mut majors: Vec<u32> = Vec::new();
        let mut k: usize = 0;
        while k < versions.len()
            invariant
                k <= versions@.len(),
                forall|i: int, j: int| 0 <= i < j < majors@.len() ==> majors@[i] > majors@[j],
                majors@.to_set() == majors_of(versions@.take(k as int)),
            decreases versions@.len() - k,
        {
            insert_major(&mut majors, versions[k].version.major);
            proof {
                let f = |v: InstalledVersion| v.version.major;
                assert(versions@.take(k + 1) =~= versions@.take(k as int).push(versions@[k as int]));
                assert(versions@.take(k + 1).map_values(f) =~= versions@.take(k as int).map_values(f).push(versions@[k as int].version.major));
                assert(versions@.take(k as int).map_values(f).push(versions@[k as int].version.major) =~= versions@.take(k as int).map_values(f) + seq![versions@[k as int].version.major]);
                Seq::lemma_to_set_insert_commutes(versions@.take(k as int).map_values(f), versions@[k as int].version.major);
            }
            k = k + 1;
        }
        assert(versions@.take(versions@.len() as int) =~= versions@);
        let mut groups: Vec<VersionGroup> = Vec::new();
        let mut g: usize = 0;
        while g < majors.len()
            invariant
                g <= majors@.len(),
                forall|i: int, j: int| 0 <= i < j < majors@.len() ==> majors@[i] > majors@[j],
                majors@.to_set() == majors_of(versions@),
                groups@.len() == g,
                forall|i: int| 0 <= i < g ==> (#[trigger] groups@[i]).major == majors@[i],
                forall|i: int| 0 <= i < g ==> {
                    &&& newest_first((#[trigger] groups@[i]).versions@)
                    &&& groups@[i].versions@.to_multiset() == versions@.filter(of_major(groups@[i].major)).to_multiset()
                    &&& groups@[i].is_expanded
                },
            decreases majors@.len() - g,
        {
            let m = majors[g];
            let mut members: Vec<InstalledVersion> = Vec::new();
            let mut k: usize = 0;
            assert(versions@.take(0).filter(of_major(m)) =~= Seq::<InstalledVersion>::empty());
            proof {
                broadcast use vstd::seq_lib::group_to_multiset_ensures;
                assert(members@.to_multiset().len() == 0);
                assert(members@.to_multiset() =~= versions@.take(0).filter(of_major(m)).to_multiset());
            }
            while k < versions.len()
                invariant
                    k <= versions@.len(),
                    newest_first(members@),
                    members@.to_multiset() == versions@.take(k as int).filter(of_major(m)).to_multiset(),
                decreases versions@.len() - k,
            {
                proof {
                    assert(versions@.take(k + 1) =~= versions@.take(k as int).push(versions@[k as int]));
                    versions@.take(k as int).lemma_filter_push(versions@[k as int], of_major(m));
                }
                if versions[k].version.major == m {
                    insert_newest_first(&mut members, versions[k].duplicate());
                    proof {
                        vstd::seq_lib::to_multiset_build(versions@.take(k as int).filter(of_major(m)), versions@[k as int]);
                    }
                }
                k = k + 1;
            }
            assert(versions@.take(versions@.len() as int) =~= versions@);
            let ghost before = groups@;
            groups.push(VersionGroup { major: m, versions: members, is_expanded: true });
            assert forall|i: int| 0 <= i < g + 1 implies (#[trigger] groups@[i]).major == majors@[i] by {
                if i < g {
                    assert(groups@[i] == before[i]);
                }
            }
            assert forall|i: int| 0 <= i < g + 1 implies {
                &&& newest_first((#[trigger] groups@[i]).versions@)
                &&& groups@[i].versions@.to_multiset() == versions@.filter(of_major(groups@[i].major)).to_multiset()
                &&& groups@[i].is_expanded
            } by {
                if i < g {
                    assert(groups@[i] == before[i]);
                }
            }
            g = g + 1;
        }
        assert(groups@.map_values(|g: VersionGroup| g.major) =~= majors@);
        groups
    }
}

} // verus!
