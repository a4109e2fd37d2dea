//! The release schedule of the runtime: which majors are LTS lines and
//! which are still supported.

use std::collections::HashMap;
use chrono::Datelike;
use vstd::prelude::*;
use vstd::std_specs::iter::IteratorSpec;

verus! {

broadcast use vstd::std_specs::hash::group_hash_axioms;

/// A major version that the schedule does not know is taken as supported
/// from this number on: new majors are usually newer than the schedule.
pub const UNKNOWN_MAJOR_ACTIVE_FLOOR: u32 = 18;

/// The dates of one major line, as `YYYY-MM-DD` text.
#[derive(Debug, Clone)]
pub struct VersionSchedule {
    pub start: String,
    pub lts: Option<String>,
    pub maintenance: Option<String>,
    pub end: String,
    pub codename: Option<String>,
}

/// The schedule of every known major line.
#[derive(Debug, Clone)]
pub struct ReleaseSchedule {
    pub versions: HashMap<u32, VersionSchedule>,
}

/// The calendar date that chrono reads from `s` in the form `%Y-%m-%d`.
pub uninterp spec fn ymd_of(s: Seq<char>) -> Option<(i32, u32, u32)>;

/// Relies on `chrono::NaiveDate::parse_from_str` with `%Y-%m-%d`: the
/// year, month and day of the date, or `None` when the text is no date.
#[verifier::external_body]
fn parse_ymd(s: &str) -> (r: Option<(i32, u32, u32)>)
    ensures
        r == ymd_of(s@),
{
    match chrono::NaiveDate::parse_from_str(s, "%Y-%m-%d") {
        Ok(d) => Some((d.year(), d.month(), d.day())),
        Err(_) => None,
    }
}

/// Relies on `std::time::SystemTime::now` and `chrono::DateTime::from_timestamp`:
/// today's date in UTC as year, month, day; `None` when the clock reads
/// before 1970 or beyond the dates chrono can hold.
#[verifier::external_body]
fn today_utc() -> (r: Option<(i32, u32, u32)>) {
    match std::time::SystemTime::now().duration_since(std::time::UNIX_EPOCH) {
        Ok(d) => match i64::try_from(d.as_secs()) {
            Ok(secs) => match chrono::DateTime::from_timestamp(secs, 0) {
                Some(t) => Some((t.year(), t.month(), t.day())),
                None => None,
            },
            Err(_) => None,
        },
        Err(_) => None,
    }
}

/// Today's date in UTC, or the first day of 1970 when the clock cannot
/// give one.
pub fn today_or_epoch() -> (r: (i32, u32, u32)) {
    match today_utc() {
        Some(t) => t,
        None => (1970, 1, 1),
    }
}

/// Date `a` comes before date `b`.
pub open spec fn date_before(a: (i32, u32, u32), b: (i32, u32, u32)) -> bool {
    a.0 < b.0 || (a.0 == b.0 && (a.1 < b.1 || (a.1 == b.1 && a.2 < b.2)))
}

/// A major line is active on `today`: its end date lies ahead, or cannot be
/// read; an unknown major is taken as active from the floor on.
pub open spec fn active_on(m: Map<u32, VersionSchedule>, major: u32, today: (i32, u32, u32)) -> bool {
    if !m.contains_key(major) {
        major >= UNKNOWN_MAJOR_ACTIVE_FLOOR
    } else {
        match ymd_of(m[major].end@) {
            None => true,
            Some(end) => date_before(today, end),
        }
    }
}

/// A major line is LTS: it has an LTS date or a codename.
pub open spec fn lts_line(m: Map<u32, VersionSchedule>, major: u32) -> bool {
    m.contains_key(major) && (m[major].lts is Some || m[major].codename is Some)
}

/// The known majors active on `today`.
pub open spec fn active_set(m: Map<u32, VersionSchedule>, today: (i32, u32, u32)) -> Set<u32> {
    m.dom().filter(|k: u32| active_on(m, k, today))
}

/// The known LTS majors active on `today`.
pub open spec fn active_lts_set(m: Map<u32, VersionSchedule>, today: (i32, u32, u32)) -> Set<u32> {
    m.dom().filter(|k: u32| active_on(m, k, today) && lts_line(m, k))
}

/// Whether a line whose end date reads as `end` is supported on `today`:
/// an unreadable end date counts as supported.
pub fn end_date_active(end: Option<(i32, u32, u32)>, today: (i32, u32, u32)) -> (r: bool)
    ensures
        r == match end {
            None => true,
            Some(e) => date_before(today, e),
        },
{
    match end {
        None => true,
        Some(e) => today.0 < e.0 || (today.0 == e.0 && (today.1 < e.1 || (today.1 == e.1 && today.2 < e.2))),
    }
}

impl ReleaseSchedule {
    /// Whether `major` is still supported on `today`.
    pub fn is_active_on(&self, major: u32, today: (i32, u32, u32)) -> (r: bool)
        ensures
            r == active_on(self.versions@, major, today),
    {
        match self.versions.get(&major) {
            None => major >= UNKNOWN_MAJOR_ACTIVE_FLOOR,
            Some(s) => end_date_active(parse_ymd(s.end.as_str()), today),
        }
    }

    /// Whether `major` is still supported today.
    pub fn is_active(&self, major: u32) -> (r: bool)
        ensures
            exists|today: (i32, u32, u32)| r == #[trigger] active_on(self.versions@, major, today),
    {
        let today = today_or_epoch();
        self.is_active_on(major, today)
    }

    pub fn is_lts(&self, major: u32) -> (r: bool)
        ensures
            r == lts_line(self.versions@, major),
    {
        match self.versions.get(&major) {
            Some(s) => s.lts.is_some() || s.codename.is_some(),
            None => false,
        }
    }

    /// The codename of `major`, if it has one.
    pub fn codename(&self, major: u32) -> (r: Option<&str>)
        ensures
            match r {
                Some(c) => self.versions@.contains_key(major) && self.versions@[major].codename is Some
                    && c@ == self.versions@[major].codename->0@,
                None => !self.versions@.contains_key(major) || self.versions@[major].codename is None,
            },
    {
        match self.versions.get(&major) {
            Some(s) => match &s.codename {
                Some(c) => Some(c.as_str()),
                None => None,
            },
            None => None,
        }
    }

    /// The known majors active on `today`, each once, in no set order.
    pub fn active_versions_on(&self, today: (i32, u32, u32)) -> (r: Vec<u32>)
        ensures
            r@.no_duplicates(),
            r@.to_set() == active_set(self.versions@, today),
    {
        let r = self.select_majors(today, false);
        assert(r@.to_set() =~= active_set(self.versions@, today));
        r
    }

    /// The known majors supported today, each once, in no set order.
    pub fn active_versions(&self) -> (r: Vec<u32>)
        ensures
            r@.no_duplicates(),
            exists|today: (i32, u32, u32)| r@.to_set() == #[trigger] active_set(self.versions@, today),
    {
        let today = today_or_epoch();
        let r = self.active_versions_on(today);
        assert(r@.to_set() == active_set(self.versions@, today));
        r
    }

    /// The known LTS majors active on `today`, each once, in no set order.
    pub fn active_lts_versions_on(&self, today: (i32, u32, u32)) -> (r: Vec<u32>)
        ensures
            r@.no_duplicates(),
            r@.to_set() == active_lts_set(self.versions@, today),
    {
        let r = self.select_majors(today, true);
        assert(r@.to_set() =~= active_lts_set(self.versions@, today));
        r
    }

    /// The known LTS majors supported today, each once, in no set order.
    pub fn active_lts_versions(&self) -> (r: Vec<u32>)
        ensures
            r@.no_duplicates(),
            exists|today: (i32, u32, u32)| r@.to_set() == #[trigger] active_lts_set(self.versions@, today),
    {
        let today = today_or_epoch();
        let r = self.active_lts_versions_on(today);
        assert(r@.to_set() == active_lts_set(self.versions@, today));
        r
    }

    fn select_majors(&self, today: (i32, u32, u32), lts_only: bool) -> (r: Vec<u32>)
        ensures
            r@.no_duplicates(),
            r@.to_set() == self.versions@.dom().filter(|k: u32| wanted(self.versions@, today, lts_only, k)),
    {
        let mut out: Vec<u32> = Vec::new();
        let ghost ks = vstd::std_specs::hash::spec_keys_iter(&self.versions).remaining().unref();
        let ghost mut n: int = 0;
        assert(out@.to_set() =~= ks.take(0).to_set().filter(|k: u32| wanted(self.versions@, today, lts_only, k)));
        for k in it: self.versions.keys()
            invariant
                it.seq().unref() == ks,
                n == it.index(),
                0 <= n <= ks.len(),
                ks.no_duplicates(),
                out@.no_duplicates(),
                out@.to_set() == ks.take(n).to_set().filter(|k: u32| wanted(self.versions@, today, lts_only, k)),
        {
            let major = *k;
            let ghost before = out@;
            assert(ks[n] == major);
            assert(ks.take(n + 1) =~= ks.take(n).push(major));
            assert(!ks.take(n).contains(major)) by {
                if ks.take(n).contains(major) {
                    let j = choose|j: int| 0 <= j < n && #[trigger] ks.take(n)[j] == major;
                    assert(ks[j] == ks[n]);
                }
            }
            if self.is_active_on(major, today) && (!lts_only || self.is_lts(major)) {
                assert(wanted(self.versions@, today, lts_only, major));
                assert(!before.contains(major)) by {
                    if before.contains(major) {
                        assert(before.to_set().contains(major));
                    }
                }
                out.push(major);
                assert(out@.to_set() =~= ks.take(n + 1).to_set().filter(|k: u32| wanted(self.versions@, today, lts_only, k))) by {
                    assert forall|x: u32| out@.to_set().contains(x) <==> before.to_set().contains(x) || x == major by {
                        if out@.to_set().contains(x) && x != major {
                            let i = choose|i: int| 0 <= i < out@.len() && #[trigger] out@[i] == x;
                            assert(before[i] == x);
                        }
                        if before.to_set().contains(x) {
                            let i = choose|i: int| 0 <= i < before.len() && #[trigger] before[i] == x;
                            assert(out@[i] == x);
                        }
                        if x == major {
                            assert(out@[before.len() as int] == x);
                        }
                    }
                    assert forall|x: u32| ks.take(n + 1).to_set().contains(x) <==> ks.take(n).to_set().contains(x) || x == major by {
                        if ks.take(n + 1).to_set().contains(x) && x != major {
                            let i = choose|i: int| 0 <= i < n + 1 && #[trigger] ks.take(n + 1)[i] == x;
                            assert(ks.take(n)[i] == x);
                        }
                        if ks.take(n).to_set().contains(x) {
                            let i = choose|i: int| 0 <= i < n && #[trigger] ks.take(n)[i] == x;
                            assert(ks.take(n + 1)[i] == x);
                        }
                        if x == major {
                            assert(ks.take(n + 1)[n] == x);
                        }
                    }
                    assert(before.to_set() == ks.take(n).to_set().filter(|k: u32| wanted(self.versions@, today, lts_only, k)));
                    assert forall|x: u32| out@.to_set().contains(x) <==> ks.take(n + 1).to_set().filter(|k: u32| wanted(self.versions@, today, lts_only, k)).contains(x) by {
                        let f = |k: u32| wanted(self.versions@, today, lts_only, k);
                        assert(ks.take(n + 1).to_set().filter(f).contains(x) <==> ks.take(n + 1).to_set().contains(x) && f(x));
                        assert(ks.take(n).to_set().filter(f).contains(x) <==> ks.take(n).to_set().contains(x) && f(x));
                        if x == major {
                            assert(f(x));
                            assert(out@.to_set().contains(x));
                            assert(ks.take(n + 1).to_set().contains(x));
                        } else {
                            assert(out@.to_set().contains(x) <==> before.to_set().contains(x));
                            assert(ks.take(n + 1).to_set().contains(x) <==> ks.take(n).to_set().contains(x));
                        }
                    }
                }
            } else {
                assert(!wanted(self.versions@, today, lts_only, major));
                assert(out@.to_set() =~= ks.take(n + 1).to_set().filter(|k: u32| wanted(self.versions@, today, lts_only, k))) by {
                    assert forall|x: u32| ks.take(n + 1).to_set().contains(x) <==> ks.take(n).to_set().contains(x) || x == major by {
                        if ks.take(n + 1).to_set().contains(x) && x != major {
                            let i = choose|i: int| 0 <= i < n + 1 && #[trigger] ks.take(n + 1)[i] == x;
                            assert(ks.take(n)[i] == x);
                        }
                        if ks.take(n).to_set().contains(x) {
                            let i = choose|i: int| 0 <= i < n && #[trigger] ks.take(n)[i] == x;
                            assert(ks.take(n + 1)[i] == x);
                        }
                        if x == major {
                            assert(ks.take(n + 1)[n] == x);
                        }
                    }
                }
            }
            proof {
                n = n + 1;
            }
        }
        proof {
            assert(n == ks.len());
            assert(ks.take(n) =~= ks);
            assert(ks.to_set() == self.versions@.dom());
            assert(out@.to_set() =~= self.versions@.dom().filter(|k: u32| wanted(self.versions@, today, lts_only, k)));
        }
        out
    }
}

/// The majors that `select_majors` keeps.
pub open spec fn wanted(m: Map<u32, VersionSchedule>, today: (i32, u32, u32), lts_only: bool, k: u32) -> bool {
    active_on(m, k, today) && (!lts_only || lts_line(m, k))
}
} // verus!
