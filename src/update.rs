//! Deciding whether a published release of the application is newer than
//! the running one.

use vstd::prelude::*;
use crate::text::{chars_of, parse_u32, pieces, same_text, split, split_ranges, string_of, u32_of};

verus! {

/// A newer release of the application.
#[derive(Debug, Clone)]
pub struct AppUpdate {
    pub current_version: String,
    pub latest_version: String,
    pub release_url: String,
    pub release_notes: Option<String>,
}

/// A release number `X.Y.Z`, `X.Y` or `X`, missing parts read as zero.
pub open spec fn loose_version(v: Seq<char>) -> Option<(u32, u32, u32)> {
    let p = split(v, '.');
    if p.len() >= 3 {
        if u32_of(p[0]) is Some && u32_of(p[1]) is Some && u32_of(p[2]) is Some {
            Some((u32_of(p[0])->0, u32_of(p[1])->0, u32_of(p[2])->0))
        } else {
            None
        }
    } else if p.len() == 2 {
        if u32_of(p[0]) is Some && u32_of(p[1]) is Some {
            Some((u32_of(p[0])->0, u32_of(p[1])->0, 0))
        } else {
            None
        }
    } else if p.len() == 1 {
        if u32_of(p[0]) is Some {
            Some((u32_of(p[0])->0, 0, 0))
        } else {
            None
        }
    } else {
        None
    }
}

pub open spec fn triple_gt(a: (u32, u32, u32), b: (u32, u32, u32)) -> bool {
    a.0 > b.0 || (a.0 == b.0 && (a.1 > b.1 || (a.1 == b.1 && a.2 > b.2)))
}

/// `latest` is newer than `current`: compared as numbers when both read as
/// release numbers, else any difference counts as newer.
pub open spec fn newer(latest: Seq<char>, current: Seq<char>) -> bool {
    match (loose_version(latest), loose_version(current)) {
        (Some(l), Some(c)) => triple_gt(l, c),
        _ => latest != current,
    }
}

fn parse_loose(v: &str) -> (r: Option<(u32, u32, u32)>)
    ensures
        r == loose_version(v@),
{
    let cs = chars_of(v);
    assert(cs@.subrange(0, cs@.len() as int) =~= v@);
    let p = split_ranges(&cs, 0, cs.len(), '.');
    let ghost pv = split(v@, '.');
    assert(pieces(cs@, p@) == pv);
    let n = p.len();
    if n == 0 {
        return None;
    }
    assert(pv[0] == cs@.subrange(p@[0].0 as int, p@[0].1 as int));
    let a = match parse_u32(&cs, p[0].0, p[0].1) {
        Some(x) => x,
        None => return None,
    };
    if n == 1 {
        return Some((a, 0, 0));
    }
    assert(pv[1] == cs@.subrange(p@[1].0 as int, p@[1].1 as int));
    let b = match parse_u32(&cs, p[1].0, p[1].1) {
        Some(x) => x,
        None => return None,
    };
    if n == 2 {
        return Some((a, b, 0));
    }
    assert(pv[2] == cs@.subrange(p@[2].0 as int, p@[2].1 as int));
    let c = match parse_u32(&cs, p[2].0, p[2].1) {
        Some(x) => x,
        None => return None,
    };
    Some((a, b, c))
}

/// Whether release `latest` is newer than `current`.
pub fn is_newer_version(latest: &str, current: &str) -> (r: bool)
    ensures
        r == newer(latest@, current@),
{
    match (parse_loose(latest), parse_loose(current)) {
        (Some(l), Some(c)) => l.0 > c.0 || (l.0 == c.0 && (l.1 > c.1 || (l.1 == c.1 && l.2 > c.2))),
        _ => !same_text(latest, current),
    }
}

/// `s` without one leading `v`.
pub open spec fn without_v(s: Seq<char>) -> Seq<char> {
    if s.len() > 0 && s[0] == 'v' {
        s.drop_first()
    } else {
        s
    }
}

fn strip_v(s: &str) -> (r: String)
    ensures
        r@ == without_v(s@),
{
    let cs = chars_of(s);
    let mut out: Vec<char> = Vec::new();
    let start: usize = if cs.len() > 0 && cs[0] == 'v' { 1 } else { 0 };
    crate::text::push_range(&mut out, &cs, start, cs.len());
    assert(out@ =~= without_v(s@));
    string_of(&out)
}

/// The update that a published release offers, if it is newer than the
/// running version; both tags may carry a leading `v`.
pub fn update_from_release(current_version: &str, tag_name: &str, release_url: String, release_notes: Option<String>) -> (r: Option<AppUpdate>)
    ensures
        newer(without_v(tag_name@), without_v(current_version@)) <==> r is Some,
        r is Some ==> r->0.latest_version@ == without_v(tag_name@) && r->0.current_version@
            == without_v(current_version@) && r->0.release_url@ == release_url@ && r->0.release_notes
            == release_notes,
{
    let latest = strip_v(tag_name);
    let current = strip_v(current_version);
    if is_newer_version(latest.as_str(), current.as_str()) {
        Some(AppUpdate { current_version: current, latest_version: latest, release_url, release_notes })
    } else {
        None
    }
}

} // verus!
