//! Narrowing the version lists by a search text.

use vstd::prelude::*;
use crate::text::{chars_of, contains, contains_in, same_text};
use crate::version::{version_string, InstalledVersion, VersionGroup};

verus! {

/// The text that `str::to_lowercase` makes of `s`.
pub uninterp spec fn lower_of(s: Seq<char>) -> Seq<char>;

/// Relies on `str::to_lowercase`: the lowercase text depends on the
/// characters alone, and an empty text stays empty.
#[verifier::external_body]
fn lowercase(s: &str) -> (r: String)
    ensures
        r@ == lower_of(s@),
        s@.len() == 0 ==> r@.len() == 0,
{
    s.to_lowercase()
}

/// A version whose text is `vtext` and whose lowercased codename is
/// `codename_lower` matches query `q` (lowercased `ql`): every version
/// matches an empty query, `lts` matches the LTS releases, and otherwise
/// the version text must contain the query or the codename its lowercase.
pub open spec fn matches_folded(vtext: Seq<char>, codename_lower: Option<Seq<char>>, q: Seq<char>, ql: Seq<char>) -> bool {
    if q.len() == 0 {
        true
    } else if ql == "lts"@ {
        codename_lower is Some
    } else {
        contains(vtext, q) || (codename_lower is Some && contains(codename_lower->0, ql))
    }
}

fn contains_text(hay: &str, needle: &str) -> (r: bool)
    ensures
        r == contains(hay@, needle@),
{
    let h = chars_of(hay);
    assert(h@.subrange(0, h@.len() as int) =~= hay@);
    contains_in(&h, 0, h.len(), &chars_of(needle))
}

/// `matches_folded` for texts already lowercased.
pub fn version_matches_folded(vtext: &str, codename_lower: Option<&str>, query: &str, query_lower: &str) -> (r: bool)
    ensures
        r == matches_folded(vtext@, match codename_lower {
            Some(c) => Some(c@),
            None => None,
        }, query@, query_lower@),
{
    if query.is_empty() {
        return true;
    }
    if same_text(query_lower, "lts") {
        return codename_lower.is_some();
    }
    if contains_text(vtext, query) {
        return true;
    }
    match codename_lower {
        Some(c) => contains_text(c, query_lower),
        None => false,
    }
}

pub open spec fn folded_codename(v: InstalledVersion) -> Option<Seq<char>> {
    match v.lts_codename {
        Some(c) => Some(lower_of(c@)),
        None => None,
    }
}

/// Whether an installed version matches a search text.
pub fn filter_version(version: &InstalledVersion, query: &str) -> (r: bool)
    ensures
        r == matches_folded(version_string(version.version), folded_codename(*version), query@, lower_of(query@)),
{
    let vtext = version.version.to_string();
    let ql = lowercase(query);
    match &version.lts_codename {
        Some(c) => {
            let cl = lowercase(c.as_str());
            version_matches_folded(vtext.as_str(), Some(cl.as_str()), query, ql.as_str())
        },
        None => version_matches_folded(vtext.as_str(), None, query, ql.as_str()),
    }
}

/// Whether a group has a version that matches a search text; every group
/// matches an empty one.
pub fn filter_group(group: &VersionGroup, query: &str) -> (r: bool)
    ensures
        r == (query@.len() == 0 || exists|i: int| 0 <= i < group.versions@.len() && #[trigger] matches_folded(
            version_string(group.versions@[i].version),
            folded_codename(group.versions@[i]),
            query@,
            lower_of(query@),
        )),
{
    if query.is_empty() {
        return true;
    }
    let mut i: usize = 0;
    while i < group.versions.len()
        invariant
            i <= group.versions@.len(),
            forall|k: int| 0 <= k < i ==> !#[trigger] matches_folded(
                version_string(group.versions@[k].version),
                folded_codename(group.versions@[k]),
                query@,
                lower_of(query@),
            ),
        decreases group.versions@.len() - i,
    {
        if filter_version(&group.versions[i], query) {
            return true;
        }
        i = i + 1;
    }
    false
}

} // verus!
