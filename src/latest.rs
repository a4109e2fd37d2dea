//! Picking the newest versions: per major line, per release line, the
//! releases to recommend, and the majors whose installed version has a
//! newer release.

use vstd::prelude::*;
use crate::version::{version_lt, NodeVersion, RemoteVersion};
use crate::schedule::{active_on, ReleaseSchedule};

verus! {

/// The newest version of major `m` among `vs`.
pub open spec fn latest_in(vs: Seq<NodeVersion>, m: u32) -> Option<NodeVersion>
    decreases vs.len(),
{
    if vs.len() == 0 {
        None
    } else {
        let p = latest_in(vs.drop_last(), m);
        let v = vs.last();
        if v.major != m {
            p
        } else {
            match p {
                None => Some(v),
                Some(x) => if version_lt(x, v) { Some(v) } else { Some(x) },
            }
        }
    }
}

/// The majors of `vs`, each once, in order of first appearance.
pub open spec fn majors_in_order(vs: Seq<NodeVersion>) -> Seq<u32>
    decreases vs.len(),
{
    if vs.len() == 0 {
        Seq::empty()
    } else {
        let p = majors_in_order(vs.drop_last());
        if p.contains(vs.last().major) {
            p
        } else {
            p.push(vs.last().major)
        }
    }
}

/// Each major of `vs` with its newest version.
pub open spec fn latest_by_major(vs: Seq<NodeVersion>) -> Seq<(u32, NodeVersion)> {
    majors_in_order(vs).map_values(|m: u32| (m, latest_in(vs, m)->0))
}

proof fn lemma_latest_some(vs: Seq<NodeVersion>, m: u32)
    ensures
        (latest_in(vs, m) is Some) == majors_in_order(vs).contains(m),
        latest_in(vs, m) is Some ==> latest_in(vs, m)->0.major == m,
    decreases vs.len(),
{
    if vs.len() > 0 {
        lemma_latest_some(vs.drop_last(), m);
        let p = majors_in_order(vs.drop_last());
        if !p.contains(vs.last().major) {
            assert(p.push(vs.last().major).contains(m) == (p.contains(m) || vs.last().major == m)) by {
                if p.push(vs.last().major).contains(m) {
                    let k = choose|k: int| 0 <= k < p.len() + 1 && p.push(vs.last().major)[k] == m;
                    if k < p.len() {
                        assert(p[k] == m);
                    }
                }
                if p.contains(m) {
                    let k = choose|k: int| 0 <= k < p.len() && p[k] == m;
                    assert(p.push(vs.last().major)[k] == m);
                }
                if vs.last().major == m {
                    assert(p.push(vs.last().major)[p.len() as int] == m);
                }
            }
        }
    }
}

proof fn lemma_majors_distinct(vs: Seq<NodeVersion>)
    ensures
        majors_in_order(vs).no_duplicates(),
    decreases vs.len(),
{
    if vs.len() > 0 {
        lemma_majors_distinct(vs.drop_last());
        let p = majors_in_order(vs.drop_last());
        if !p.contains(vs.last().major) {
            assert forall|a: int, b: int| 0 <= a < b < p.len() + 1 implies p.push(vs.last().major)[a] != p.push(vs.last().major)[b] by {
                if b == p.len() {
                    assert(p[a] != vs.last().major);
                }
            }
        }
    }
}

/// Each major among `vs`, in order of first appearance, with its newest
/// version.
pub fn compute_latest_by_major(vs: &Vec<NodeVersion>) -> (r: Vec<(u32, NodeVersion)>)
    ensures
        r@ == latest_by_major(vs@),
{
    let mut out: Vec<(u32, NodeVersion)> = Vec::new();
    let mut k: usize = 0;
    assert(vs@.take(0) =~= Seq::<NodeVersion>::empty());
    assert(out@ =~= latest_by_major(vs@.take(0)));
    while k < vs.len()
        invariant
            k <= vs@.len(),
            out@ == latest_by_major(vs@.take(k as int)),
        decreases vs@.len() - k,
    {
        let v = vs[k];
        let ghost prev = vs@.take(k as int);
        let ghost cur = vs@.take(k + 1);
        assert(cur.drop_last() =~= prev);
        assert(cur.last() == v);
        let ghost ms = majors_in_order(prev);
        let mut i: usize = 0;
        while i < out.len() && out[i].0 != v.major
            invariant
                i <= out@.len(),
                out@ == latest_by_major(prev),
                ms == majors_in_order(prev),
                forall|j: int| 0 <= j < i ==> out@[j].0 != v.major,
            decreases out@.len() - i,
        {
            i = i + 1;
        }
        proof {
            assert forall|m: u32| m != v.major implies latest_in(cur, m) == latest_in(prev, m) by {}
        }
        if i < out.len() {
            assert(ms[i as int] == v.major);
            assert(ms.contains(v.major));
            proof {
                lemma_latest_some(prev, v.major);
            }
            proof {
                lemma_majors_distinct(prev);
            }
            let best = out[i].1;
            let ghost old_out = out@;
            assert(best == latest_in(prev, v.major)->0);
            if best.is_older_than(&v) {
                out.set(i, (v.major, v));
            }
            assert(majors_in_order(cur) == ms);
            assert forall|j: int| 0 <= j < out@.len() implies out@[j] == latest_by_major(cur)[j] by {
                if j != i {
                    assert(ms[j] != ms[i as int]);
                    assert(out@[j] == old_out[j]);
                }
            }
            assert(out@ =~= latest_by_major(cur));
        } else {
            assert(!ms.contains(v.major)) by {
                if ms.contains(v.major) {
                    let j = choose|j: int| 0 <= j < ms.len() && ms[j] == v.major;
                    assert(out@[j].0 == ms[j]);
                }
            }
            proof {
                lemma_latest_some(prev, v.major);
            }
            out.push((v.major, v));
            assert(majors_in_order(cur) == ms.push(v.major));
            assert(out@ =~= latest_by_major(cur));
        }
        k = k + 1;
    }
    assert(vs@.take(vs@.len() as int) =~= vs@);
    out
}

/// For each installed major, in order of first appearance, the newest
/// installed version and the newest release, when that release is newer.
pub open spec fn update_pairs(installed: Seq<NodeVersion>, remote: Seq<NodeVersion>) -> Seq<(NodeVersion, NodeVersion)> {
    latest_by_major(installed).filter(|e: (u32, NodeVersion)| latest_in(remote, e.0) is Some && version_lt(e.1, latest_in(remote, e.0)->0))
        .map_values(|e: (u32, NodeVersion)| (e.1, latest_in(remote, e.0)->0))
}

/// The majors worth a bulk update: installed newest and available newest,
/// for each major whose release is newer than what is installed.
pub fn bulk_update_candidates(installed: &Vec<NodeVersion>, remote: &Vec<NodeVersion>) -> (r: Vec<(NodeVersion, NodeVersion)>)
    ensures
        r@ == update_pairs(installed@, remote@),
{
    let inst = compute_latest_by_major(installed);
    let rem = compute_latest_by_major(remote);
    let ghost pred = |e: (u32, NodeVersion)| latest_in(remote@, e.0) is Some && version_lt(e.1, latest_in(remote@, e.0)->0);
    let ghost f = |e: (u32, NodeVersion)| (e.1, latest_in(remote@, e.0)->0);
    let mut out: Vec<(NodeVersion, NodeVersion)> = Vec::new();
    let mut k: usize = 0;
    assert(inst@.take(0).filter(pred) =~= Seq::<(u32, NodeVersion)>::empty());
    while k < inst.len()
        invariant
            k <= inst@.len(),
            inst@ == latest_by_major(installed@),
            rem@ == latest_by_major(remote@),
            pred == (|e: (u32, NodeVersion)| latest_in(remote@, e.0) is Some && version_lt(e.1, latest_in(remote@, e.0)->0)),
            f == (|e: (u32, NodeVersion)| (e.1, latest_in(remote@, e.0)->0)),
            out@ == inst@.take(k as int).filter(pred).map_values(f),
        decreases inst@.len() - k,
    {
        let (m, i) = inst[k];
        proof {
            assert(inst@.take(k + 1) =~= inst@.take(k as int).push(inst@[k as int]));
            inst@.take(k as int).lemma_filter_push(inst@[k as int], pred);
            lemma_latest_some(remote@, m);
        }
        let mut j: usize = 0;
        while j < rem.len() && rem[j].0 != m
            invariant
                j <= rem@.len(),
                rem@ == latest_by_major(remote@),
                forall|x: int| 0 <= x < j ==> rem@[x].0 != m,
            decreases rem@.len() - j,
        {
            j = j + 1;
        }
        let ghost before = out@;
        if j < rem.len() {
            let latest = rem[j].1;
            assert(majors_in_order(remote@)[j as int] == m);
            assert(latest == latest_in(remote@, m)->0);
            assert(majors_in_order(remote@).contains(m));
            if i.is_older_than(&latest) {
                out.push((i, latest));
                assert(out@ =~= inst@.take(k + 1).filter(pred).map_values(f));
            } else {
                assert(out@ =~= inst@.take(k + 1).filter(pred).map_values(f));
            }
        } else {
            assert(!majors_in_order(remote@).contains(m)) by {
                if majors_in_order(remote@).contains(m) {
                    let x = choose|x: int| 0 <= x < majors_in_order(remote@).len() && majors_in_order(remote@)[x] == m;
                    assert(rem@[x].0 == m);
                }
            }
            assert(out@ =~= inst@.take(k + 1).filter(pred).map_values(f));
        }
        k = k + 1;
    }
    assert(inst@.take(inst@.len() as int) =~= inst@);
    out
}


/// The release line `(major, minor)` of a version.
pub open spec fn line_of(v: NodeVersion) -> (u32, u32) {
    (v.major, v.minor)
}

/// Line `a` is newer than line `b`.
pub open spec fn line_gt(a: (u32, u32), b: (u32, u32)) -> bool {
    a.0 > b.0 || (a.0 == b.0 && a.1 > b.1)
}

/// The release of line `k` with the highest patch among `vs`, the first one
/// on a tie.
pub open spec fn best_patch(vs: Seq<RemoteVersion>, k: (u32, u32)) -> Option<RemoteVersion>
    decreases vs.len(),
{
    if vs.len() == 0 {
        None
    } else {
        let p = best_patch(vs.drop_last(), k);
        let v = vs.last();
        if line_of(v.version) != k {
            p
        } else {
            match p {
                None => Some(v),
                Some(x) => if v.version.patch > x.version.patch { Some(v) } else { Some(x) },
            }
        }
    }
}

proof fn lemma_best_patch(vs: Seq<RemoteVersion>, k: (u32, u32))
    ensures
        (best_patch(vs, k) is Some) == (exists|j: int| 0 <= j < vs.len() && line_of((#[trigger] vs[j]).version) == k),
        best_patch(vs, k) is Some ==> line_of(best_patch(vs, k)->0.version) == k,
    decreases vs.len(),
{
    if vs.len() > 0 {
        let p = vs.drop_last();
        lemma_best_patch(p, k);
        if exists|j: int| 0 <= j < p.len() && line_of((#[trigger] p[j]).version) == k {
            let j = choose|j: int| 0 <= j < p.len() && line_of((#[trigger] p[j]).version) == k;
            assert(vs[j] == p[j]);
        }
        if exists|j: int| 0 <= j < vs.len() && line_of((#[trigger] vs[j]).version) == k {
            let j = choose|j: int| 0 <= j < vs.len() && line_of((#[trigger] vs[j]).version) == k;
            if j < p.len() {
                assert(p[j] == vs[j]);
            }
        }
    }
}

/// For every release line among `versions`, its highest patch release;
/// lines newest first.
pub fn filter_latest_patches(versions: &Vec<RemoteVersion>) -> (r: Vec<RemoteVersion>)
    ensures
        forall|i: int, j: int| 0 <= i < j < r@.len() ==> line_gt(line_of((#[trigger] r@[i]).version), line_of((#[trigger] r@[j]).version)),
        forall|i: int| 0 <= i < r@.len() ==> best_patch(versions@, line_of((#[trigger] r@[i]).version)) == Some(r@[i]),
        forall|j: int| 0 <= j < versions@.len() ==> exists|i: int| 0 <= i < r@.len() && line_of((#[trigger] r@[i]).version) == line_of((#[trigger] versions@[j]).version),
{
    let mut out: Vec<RemoteVersion> = Vec::new();
    let mut k: usize = 0;
    while k < versions.len()
        invariant
            k <= versions@.len(),
            forall|i: int, j: int| 0 <= i < j < out@.len() ==> line_gt(line_of((#[trigger] out@[i]).version), line_of((#[trigger] out@[j]).version)),
            forall|i: int| 0 <= i < out@.len() ==> best_patch(versions@.take(k as int), line_of((#[trigger] out@[i]).version)) == Some(out@[i]),
            forall|j: int| 0 <= j < k ==> exists|i: int| 0 <= i < out@.len() && line_of((#[trigger] out@[i]).version) == line_of((#[trigger] versions@[j]).version),
        decreases versions@.len() - k,
    {
        let v = versions[k].duplicate();
        let ghost prev = versions@.take(k as int);
        let ghost cur = versions@.take(k + 1);
        assert(cur.drop_last() =~= prev);
        assert(cur.last() == v);
        let ghost before = out@;
        let mut i: usize = 0;
        while i < out.len() && (out[i].version.major > v.version.major || (out[i].version.major == v.version.major
            && out[i].version.minor > v.version.minor))
            invariant
                i <= out@.len(),
                out@ == before,
                forall|x: int| 0 <= x < i ==> line_gt(line_of(#[trigger] out@[x].version), line_of(v.version)),
            decreases out@.len() - i,
        {
            i = i + 1;
        }
        proof {
            assert forall|m: (u32, u32)| m != line_of(v.version) implies best_patch(cur, m) == best_patch(prev, m) by {}
            lemma_best_patch(prev, line_of(v.version));
        }
        if i < out.len() && out[i].version.major == v.version.major && out[i].version.minor == v.version.minor {
            if v.version.patch > out[i].version.patch {
                out.set(i, v);
            }
            assert forall|x: int| 0 <= x < out@.len() implies best_patch(cur, line_of((#[trigger] out@[x]).version)) == Some(out@[x]) by {
                if x != i {
                    assert(out@[x] == before[x]);
                    if x < i {
                        assert(line_gt(line_of(before[x].version), line_of(before[i as int].version)));
                    } else {
                        assert(line_gt(line_of(before[i as int].version), line_of(before[x].version)));
                    }
                }
            }
            assert forall|a: int, b: int| 0 <= a < b < out@.len() implies line_gt(line_of((#[trigger] out@[a]).version), line_of((#[trigger] out@[b]).version)) by {
                assert(line_of(out@[a].version) == line_of(before[a].version));
                assert(line_of(out@[b].version) == line_of(before[b].version));
            }
            assert forall|j: int| 0 <= j < k + 1 implies exists|x: int| 0 <= x < out@.len() && line_of((#[trigger] out@[x]).version) == line_of((#[trigger] versions@[j]).version) by {
                if j < k {
                    let x = choose|x: int| 0 <= x < before.len() && line_of((#[trigger] before[x]).version) == line_of(versions@[j].version);
                    assert(line_of(out@[x].version) == line_of(before[x].version));
                } else {
                    assert(line_of(out@[i as int].version) == line_of(versions@[j].version));
                }
            }
        } else {
            assert(!(exists|j: int| 0 <= j < prev.len() && line_of((#[trigger] prev[j]).version) == line_of(v.version))) by {
                if exists|j: int| 0 <= j < prev.len() && line_of((#[trigger] prev[j]).version) == line_of(v.version) {
                    let j = choose|j: int| 0 <= j < prev.len() && line_of((#[trigger] prev[j]).version) == line_of(v.version);
                    assert(versions@[j] == prev[j]);
                    let x = choose|x: int| 0 <= x < before.len() && line_of((#[trigger] before[x]).version) == line_of(versions@[j].version);
                    if x < i {
                    } else {
                        if i < before.len() {
                            if x > i {
                                assert(line_gt(line_of(before[i as int].version), line_of(before[x].version)));
                            }
                        }
                    }
                }
            }
            out.insert(i, v);
            proof {
                before.insert_ensures(i as int, v);
            }
            assert forall|x: int| 0 <= x < out@.len() implies best_patch(cur, line_of((#[trigger] out@[x]).version)) == Some(out@[x]) by {
                if x < i {
                    assert(out@[x] == before[x]);
                } else if x > i {
                    assert(out@[x] == before[x - 1]);
                }
            }
            assert forall|a: int, b: int| 0 <= a < b < out@.len() implies line_gt(line_of((#[trigger] out@[a]).version), line_of((#[trigger] out@[b]).version)) by {
                if b < i {
                    assert(out@[a] == before[a]);
                    assert(out@[b] == before[b]);
                } else if b == i {
                    assert(out@[a] == before[a]);
                } else if a < i {
                    assert(out@[a] == before[a]);
                    assert(out@[b] == before[b - 1]);
                    if a < b - 1 {
                    }
                } else if a == i {
                    assert(out@[b] == before[b - 1]);
                    if b - 1 > i {
                        assert(line_gt(line_of(before[i as int].version), line_of(before[b - 1].version)));
                    }
                } else {
                    assert(out@[a] == before[a - 1]);
                    assert(out@[b] == before[b - 1]);
                }
            }
            assert forall|j: int| 0 <= j < k + 1 implies exists|x: int| 0 <= x < out@.len() && line_of((#[trigger] out@[x]).version) == line_of((#[trigger] versions@[j]).version) by {
                if j < k {
                    let x = choose|x: int| 0 <= x < before.len() && line_of((#[trigger] before[x]).version) == line_of(versions@[j].version);
                    if x < i {
                        assert(out@[x] == before[x]);
                    } else {
                        assert(out@[x + 1] == before[x]);
                    }
                } else {
                    assert(out@[i as int] == v);
                }
            }
        }
        k = k + 1;
    }
    assert(versions@.take(versions@.len() as int) =~= versions@);
    out
}


/// The newest release of major `m` among `vs`, the first one on a tie.
pub open spec fn best_of_major(vs: Seq<RemoteVersion>, m: u32) -> Option<RemoteVersion>
    decreases vs.len(),
{
    if vs.len() == 0 {
        None
    } else {
        let p = best_of_major(vs.drop_last(), m);
        let v = vs.last();
        if v.version.major != m {
            p
        } else {
            match p {
                None => Some(v),
                Some(x) => if version_lt(x.version, v.version) { Some(v) } else { Some(x) },
            }
        }
    }
}

proof fn lemma_best_of_major(vs: Seq<RemoteVersion>, m: u32)
    ensures
        (best_of_major(vs, m) is Some) == (exists|j: int| 0 <= j < vs.len() && (#[trigger] vs[j]).version.major == m),
        best_of_major(vs, m) is Some ==> best_of_major(vs, m)->0.version.major == m,
    decreases vs.len(),
{
    if vs.len() > 0 {
        let p = vs.drop_last();
        lemma_best_of_major(p, m);
        if exists|j: int| 0 <= j < p.len() && (#[trigger] p[j]).version.major == m {
            let j = choose|j: int| 0 <= j < p.len() && (#[trigger] p[j]).version.major == m;
            assert(vs[j] == p[j]);
        }
        if exists|j: int| 0 <= j < vs.len() && (#[trigger] vs[j]).version.major == m {
            let j = choose|j: int| 0 <= j < vs.len() && (#[trigger] vs[j]).version.major == m;
            if j < p.len() {
                assert(p[j] == vs[j]);
            }
        }
    }
}

/// The newest release of every major among `versions`, majors newest first.
pub fn latest_release_by_major(versions: &Vec<RemoteVersion>) -> (r: Vec<RemoteVersion>)
    ensures
        forall|i: int, j: int| 0 <= i < j < r@.len() ==> (#[trigger] r@[i]).version.major > (#[trigger] r@[j]).version.major,
        forall|i: int| 0 <= i < r@.len() ==> best_of_major(versions@, (#[trigger] r@[i]).version.major) == Some(r@[i]),
        forall|j: int| 0 <= j < versions@.len() ==> exists|i: int| 0 <= i < r@.len() && (#[trigger] r@[i]).version.major == (#[trigger] versions@[j]).version.major,
{
    let mut out: Vec<RemoteVersion> = Vec::new();
    let mut k: usize = 0;
    while k < versions.len()
        invariant
            k <= versions@.len(),
            forall|i: int, j: int| 0 <= i < j < out@.len() ==> (#[trigger] out@[i]).version.major > (#[trigger] out@[j]).version.major,
            forall|i: int| 0 <= i < out@.len() ==> best_of_major(versions@.take(k as int), (#[trigger] out@[i]).version.major) == Some(out@[i]),
            forall|j: int| 0 <= j < k ==> exists|i: int| 0 <= i < out@.len() && (#[trigger] out@[i]).version.major == (#[trigger] versions@[j]).version.major,
        decreases versions@.len() - k,
    {
        let v = versions[k].duplicate();
        let ghost prev = versions@.take(k as int);
        let ghost cur = versions@.take(k + 1);
        assert(cur.drop_last() =~= prev);
        assert(cur.last() == v);
        let ghost before = out@;
        let mut i: usize = 0;
        while i < out.len() && out[i].version.major > v.version.major
            invariant
                i <= out@.len(),
                out@ == before,
                forall|x: int| 0 <= x < i ==> (#[trigger] out@[x]).version.major > v.version.major,
            decreases out@.len() - i,
        {
            i = i + 1;
        }
        proof {
            assert forall|m: u32| m != v.version.major implies best_of_major(cur, m) == best_of_major(prev, m) by {}
            lemma_best_of_major(prev, v.version.major);
        }
        if i < out.len() && out[i].version.major == v.version.major {
            if out[i].version.is_older_than(&v.version) {
                out.set(i, v);
            }
            assert forall|x: int| 0 <= x < out@.len() implies best_of_major(cur, (#[trigger] out@[x]).version.major) == Some(out@[x]) by {
                if x != i {
                    assert(out@[x] == before[x]);
                    if x < i {
                        assert(before[x].version.major > before[i as int].version.major);
                    } else {
                        assert(before[i as int].version.major > before[x].version.major);
                    }
                }
            }
            assert forall|a: int, b: int| 0 <= a < b < out@.len() implies (#[trigger] out@[a]).version.major > (#[trigger] out@[b]).version.major by {
                assert(out@[a].version.major == before[a].version.major);
                assert(out@[b].version.major == before[b].version.major);
            }
            assert forall|j: int| 0 <= j < k + 1 implies exists|x: int| 0 <= x < out@.len() && (#[trigger] out@[x]).version.major == (#[trigger] versions@[j]).version.major by {
                if j < k {
                    let x = choose|x: int| 0 <= x < before.len() && (#[trigger] before[x]).version.major == versions@[j].version.major;
                    assert(out@[x].version.major == before[x].version.major);
                } else {
                    assert(out@[i as int].version.major == versions@[j].version.major);
                }
            }
        } else {
            assert(!(exists|j: int| 0 <= j < prev.len() && (#[trigger] prev[j]).version.major == v.version.major)) by {
                if exists|j: int| 0 <= j < prev.len() && (#[trigger] prev[j]).version.major == v.version.major {
                    let j = choose|j: int| 0 <= j < prev.len() && (#[trigger] prev[j]).version.major == v.version.major;
                    assert(versions@[j] == prev[j]);
                    let x = choose|x: int| 0 <= x < before.len() && (#[trigger] before[x]).version.major == versions@[j].version.major;
                    if x > i && i < before.len() {
                        assert(before[i as int].version.major > before[x].version.major);
                    }
                }
            }
            out.insert(i, v);
            proof {
                before.insert_ensures(i as int, v);
            }
            assert forall|x: int| 0 <= x < out@.len() implies best_of_major(cur, (#[trigger] out@[x]).version.major) == Some(out@[x]) by {
                if x < i {
                    assert(out@[x] == before[x]);
                } else if x > i {
                    assert(out@[x] == before[x - 1]);
                }
            }
            assert forall|a: int, b: int| 0 <= a < b < out@.len() implies (#[trigger] out@[a]).version.major > (#[trigger] out@[b]).version.major by {
                if b < i {
                    assert(out@[a] == before[a]);
                    assert(out@[b] == before[b]);
                } else if b == i {
                    assert(out@[a] == before[a]);
                } else if a < i {
                    assert(out@[a] == before[a]);
                    assert(out@[b] == before[b - 1]);
                } else if a == i {
                    assert(out@[b] == before[b - 1]);
                    if b - 1 > i {
                        assert(before[i as int].version.major > before[b - 1].version.major);
                    }
                } else {
                    assert(out@[a] == before[a - 1]);
                    assert(out@[b] == before[b - 1]);
                }
            }
            assert forall|j: int| 0 <= j < k + 1 implies exists|x: int| 0 <= x < out@.len() && (#[trigger] out@[x]).version.major == (#[trigger] versions@[j]).version.major by {
                if j < k {
                    let x = choose|x: int| 0 <= x < before.len() && (#[trigger] before[x]).version.major == versions@[j].version.major;
                    if x < i {
                        assert(out@[x] == before[x]);
                    } else {
                        assert(out@[x + 1] == before[x]);
                    }
                } else {
                    assert(out@[i as int] == v);
                }
            }
        }
        k = k + 1;
    }
    assert(versions@.take(versions@.len() as int) =~= versions@);
    out
}

/// How many releases the install dialog recommends.
pub const RECOMMENDED_COUNT: usize = 8;

/// `r` is what is recommended on `today`: at most `RECOMMENDED_COUNT`
/// releases, majors newest first, each the newest release of an active major
/// (every major is active when there is no schedule), and no active major
/// left out unless the list is full of newer ones.
pub open spec fn is_recommended(versions: Seq<RemoteVersion>, schedule: Option<&ReleaseSchedule>, today: (i32, u32, u32), r: Seq<RemoteVersion>) -> bool {
    &&& r.len() <= RECOMMENDED_COUNT
    &&& forall|i: int, j: int| 0 <= i < j < r.len() ==> (#[trigger] r[i]).version.major > (#[trigger] r[j]).version.major
    &&& forall|i: int| 0 <= i < r.len() ==> {
        &&& (schedule matches Some(s) ==> active_on(s.versions@, (#[trigger] r[i]).version.major, today))
        &&& best_of_major(versions, r[i].version.major) == Some(r[i])
    }
    &&& forall|j: int| 0 <= j < versions.len() && (schedule matches Some(s) ==> active_on(s.versions@, (#[trigger] versions[j]).version.major, today))
        ==> (exists|i: int| 0 <= i < r.len() && (#[trigger] r[i]).version.major == versions[j].version.major)
            || (r.len() == RECOMMENDED_COUNT && forall|i: int| 0 <= i < r.len() ==> (#[trigger] r[i]).version.major > versions[j].version.major)
}

/// The recommended releases on `today`.
pub fn recommended_versions_on(versions: &Vec<RemoteVersion>, schedule: Option<&ReleaseSchedule>, today: (i32, u32, u32)) -> (r: Vec<RemoteVersion>)
    ensures
        is_recommended(versions@, schedule, today, r@),
{
    let mut active: Vec<RemoteVersion> = Vec::new();
    let mut k: usize = 0;
    while k < versions.len()
        invariant
            k <= versions@.len(),
            forall|i: int| 0 <= i < active@.len() ==> (schedule matches Some(s) ==> active_on(s.versions@, (#[trigger] active@[i]).version.major, today)),
            forall|m: u32| (schedule matches Some(s) ==> active_on(s.versions@, m, today)) ==> #[trigger] best_of_major(active@, m) == best_of_major(versions@.take(k as int), m),
            forall|m: u32| !(schedule matches Some(s) ==> active_on(s.versions@, m, today)) ==> #[trigger] best_of_major(active@, m) is None,
        decreases versions@.len() - k,
    {
        let keep = match schedule {
            Some(s) => s.is_active_on(versions[k].version.major, today),
            None => true,
        };
        let ghost before = active@;
        let ghost prev = versions@.take(k as int);
        let ghost cur = versions@.take(k + 1);
        assert(cur.drop_last() =~= prev);
        assert(cur.last() == versions@[k as int]);
        if keep {
            active.push(versions[k].duplicate());
            assert(active@.drop_last() =~= before);
            assert(active@.last() == versions@[k as int]);
            assert forall|m: u32| (schedule matches Some(s) ==> active_on(s.versions@, m, today)) implies #[trigger] best_of_major(active@, m) == best_of_major(cur, m) by {
                assert(best_of_major(before, m) == best_of_major(prev, m));
            }
            assert forall|m: u32| !(schedule matches Some(s) ==> active_on(s.versions@, m, today)) implies #[trigger] best_of_major(active@, m) is None by {
                assert(best_of_major(before, m) is None);
                assert(versions@[k as int].version.major != m);
            }
        } else {
            assert forall|m: u32| (schedule matches Some(s) ==> active_on(s.versions@, m, today)) implies #[trigger] best_of_major(active@, m) == best_of_major(cur, m) by {
                assert(versions@[k as int].version.major != m);
                assert(best_of_major(cur, m) == best_of_major(prev, m));
            }
        }
        k = k + 1;
    }
    assert(versions@.take(versions@.len() as int) =~= versions@);
    let mut r = latest_release_by_major(&active);
    proof {
        assert forall|i: int| 0 <= i < r@.len() implies (schedule matches Some(s) ==> active_on(s.versions@, (#[trigger] r@[i]).version.major, today)) by {
            lemma_best_of_major(active@, r@[i].version.major);
        }
    }
    let ghost full = r@;
    r.truncate(RECOMMENDED_COUNT);
    proof {
        assert forall|j: int| 0 <= j < versions@.len() && (schedule matches Some(s) ==> active_on(s.versions@, (#[trigger] versions@[j]).version.major, today))
            implies (exists|i: int| 0 <= i < r@.len() && (#[trigger] r@[i]).version.major == versions@[j].version.major)
                || (r@.len() == RECOMMENDED_COUNT && forall|i: int| 0 <= i < r@.len() ==> (#[trigger] r@[i]).version.major > versions@[j].version.major) by {
            let m = versions@[j].version.major;
            lemma_best_of_major(versions@, m);
            assert(best_of_major(versions@, m) is Some);
            assert(best_of_major(active@, m) is Some);
            lemma_best_of_major(active@, m);
            let a = choose|a: int| 0 <= a < active@.len() && (#[trigger] active@[a]).version.major == m;
            let x = choose|x: int| 0 <= x < full.len() && (#[trigger] full[x]).version.major == active@[a].version.major;
            if x < r@.len() {
                assert(r@[x] == full[x]);
            } else {
                assert forall|i: int| 0 <= i < r@.len() implies (#[trigger] r@[i]).version.major > m by {
                    assert(r@[i] == full[i]);
                }
            }
        }
    }
    r
}

/// The recommended releases today; with no schedule the day plays no
/// part.
pub fn get_recommended_versions(versions: &Vec<RemoteVersion>, schedule: Option<&ReleaseSchedule>) -> (r: Vec<RemoteVersion>)
    ensures
        exists|today: (i32, u32, u32)| #[trigger] is_recommended(versions@, schedule, today, r@),
{
    let today = crate::schedule::today_or_epoch();
    let r = recommended_versions_on(versions, schedule, today);
    assert(is_recommended(versions@, schedule, today, r@));
    r
}
} // verus!
