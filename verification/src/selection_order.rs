//! Selection does not depend on the order of the packages, nor on the order
//! in which a package lists its members.
use vstd::prelude::*;

use crate::archive::CandidateModel;
use crate::selection_spec::{
    PackageModel, PackageScan, find_candidate, has_duplicate_id, initial_package_scan, lemma_scan_packages_snoc,
    package_insert_pos, scan_package, scan_packages, select_result, sort_u64, sorted_package,
    u64_insert_pos,
};

verus! {

broadcast use vstd::seq_lib::group_to_multiset_ensures;

proof fn lemma_u64_insert_pos(s: Seq<u64>, x: u64)
    ensures
        u64_insert_pos(s, x) <= s.len(),
        forall|t: int| 0 <= t < u64_insert_pos(s, x) ==> s[t] <= x,
        (forall|a: int, b: int| 0 <= a < b < s.len() ==> s[a] <= s[b]) && u64_insert_pos(s, x) < s.len() ==> s[u64_insert_pos(
            s,
            x,
        ) as int] > x,
    decreases s.len(),
{
    if s.len() > 0 && s[0] <= x {
        let d = s.drop_first();
        lemma_u64_insert_pos(d, x);
        assert forall|t: int| 0 <= t < u64_insert_pos(s, x) implies s[t] <= x by {
            if t > 0 {
                assert(s[t] == d[t - 1]);
            }
        }
        if (forall|a: int, b: int| 0 <= a < b < s.len() ==> s[a] <= s[b]) && u64_insert_pos(s, x) < s.len() {
            assert forall|a: int, b: int| 0 <= a < b < d.len() implies d[a] <= d[b] by {
                assert(d[a] == s[a + 1] && d[b] == s[b + 1]);
            }
            assert(s[u64_insert_pos(s, x) as int] == d[u64_insert_pos(d, x) as int]);
        }
    }
}

/// Sorting identifiers keeps them and orders them.
proof fn lemma_sort_u64(s: Seq<u64>)
    ensures
        sort_u64(s).to_multiset() == s.to_multiset(),
        sort_u64(s).len() == s.len(),
        forall|a: int, b: int| 0 <= a < b < sort_u64(s).len() ==> sort_u64(s)[a] <= sort_u64(s)[b],
    decreases s.len(),
{
    if s.len() > 0 {
        let d = s.drop_last();
        let x = s.last();
        lemma_sort_u64(d);
        let r = sort_u64(d);
        lemma_u64_insert_pos(r, x);
        let p = u64_insert_pos(r, x) as int;
        vstd::seq_lib::to_multiset_insert(r, p, x);
        assert(d.push(x) =~= s);
        let t = r.insert(p, x);
        assert forall|a: int, b: int| 0 <= a < b < t.len() implies t[a] <= t[b] by {
            if b < p {
            } else if b == p {
                assert(r[a] <= x);
            } else if a < p {
                assert(r[a] <= x);
                assert(r[p] > x);
                assert(r[p] <= r[b - 1]);
            } else if a == p {
                assert(r[p] > x);
                assert(r[p] <= r[b - 1]);
            } else {
            }
        }
    }
}

/// Whether identifiers occur twice is a matter of their multiset.
proof fn lemma_duplicate_multiset(s: Seq<u64>, t: Seq<u64>)
    requires
        s.to_multiset() == t.to_multiset(),
    ensures
        has_duplicate_id(s) == has_duplicate_id(t),
        forall|x: u64| s.contains(x) <==> t.contains(x),
        s.len() == t.len(),
{
    s.to_multiset_ensures();
    t.to_multiset_ensures();
    assert forall|x: u64| s.contains(x) <==> t.contains(x) by {
        vstd::seq_lib::to_multiset_contains(s, x);
        vstd::seq_lib::to_multiset_contains(t, x);
    }
    assert(s.no_duplicates() <==> !has_duplicate_id(s)) by {
        if has_duplicate_id(s) {
            let (i, j) = choose|i: int, j: int| 0 <= i < j < s.len() && s[i] == s[j];
            assert(!s.no_duplicates());
        }
        if !s.no_duplicates() {
            let (i, j) = choose|i: int, j: int| 0 <= i < s.len() && 0 <= j < s.len() && i != j && s[i] == s[j];
            if i < j {
                assert(has_duplicate_id(s));
            } else {
                assert(has_duplicate_id(s));
            }
        }
    }
    assert(t.no_duplicates() <==> !has_duplicate_id(t)) by {
        if has_duplicate_id(t) {
            let (i, j) = choose|i: int, j: int| 0 <= i < j < t.len() && t[i] == t[j];
            assert(!t.no_duplicates());
        }
        if !t.no_duplicates() {
            let (i, j) = choose|i: int, j: int| 0 <= i < t.len() && 0 <= j < t.len() && i != j && t[i] == t[j];
            if i < j {
                assert(has_duplicate_id(t));
            } else {
                assert(has_duplicate_id(t));
            }
        }
    }
    if s.no_duplicates() {
        s.lemma_multiset_has_no_duplicates();
        t.lemma_multiset_has_no_duplicates_conv();
    }
    if t.no_duplicates() {
        t.lemma_multiset_has_no_duplicates();
        s.lemma_multiset_has_no_duplicates_conv();
    }
}

/// A package passes the checks that concern it alone.
pub open spec fn package_ok(cands: Seq<CandidateModel>, p: PackageModel) -> bool {
    &&& p.members.len() > 0
    &&& !has_duplicate_id(p.members)
    &&& forall|a: int| 0 <= a < p.members.len() ==> find_candidate(cands, #[trigger] p.members[a]) is Some
}

/// Some package of `ps` has member `x`.
pub open spec fn packaged_in(ps: Seq<PackageModel>, x: u64) -> bool {
    exists|i: int| 0 <= i < ps.len() && (#[trigger] ps[i]).members.contains(x)
}

/// Some package of `ps` has identifier `id`.
pub open spec fn id_in(ps: Seq<PackageModel>, id: u64) -> bool {
    exists|i: int| 0 <= i < ps.len() && (#[trigger] ps[i]).id == id
}

/// Packages that validate: each passes its own checks, and no two share an
/// identifier or a member.
pub open spec fn packages_valid(cands: Seq<CandidateModel>, ps: Seq<PackageModel>) -> bool {
    &&& forall|i: int| 0 <= i < ps.len() ==> package_ok(cands, #[trigger] ps[i])
    &&& forall|i: int, j: int| 0 <= i < j < ps.len() ==> (#[trigger] ps[i]).id != (#[trigger] ps[j]).id
    &&& forall|i: int, j: int, x: u64|
        0 <= i < j < ps.len() ==> !(#[trigger] ps[i].members.contains(x) && #[trigger] ps[j].members.contains(x))
}

/// Package identifiers strictly increase along the sequence.
pub open spec fn package_ids_increasing(s: Seq<PackageModel>) -> bool {
    forall|a: int, b: int| 0 <= a < b < s.len() ==> s[a].id < s[b].id
}

/// The sorted form of an eligible package of `ps`.
pub open spec fn eligible_entry(ps: Seq<PackageModel>, es: Seq<bool>, q: PackageModel) -> bool {
    exists|i: int| 0 <= i < ps.len() && es[i] && q == sorted_package(#[trigger] ps[i])
}

/// A validation state reached after the packages `pre` with eligibilities `es`.
pub open spec fn scan_represents(st: PackageScan, pre: Seq<PackageModel>, es: Seq<bool>) -> bool {
    &&& forall|x: u64| #[trigger] st.packaged.contains(x) <==> packaged_in(pre, x)
    &&& forall|id: u64| #[trigger] st.seen_ids.contains(id) <==> id_in(pre, id)
    &&& package_ids_increasing(st.eligible)
    &&& forall|q: PackageModel| #[trigger] st.eligible.contains(q) <==> eligible_entry(pre, es, q)
}

proof fn lemma_package_insert_pos(s: Seq<PackageModel>, x: PackageModel)
    requires
        package_ids_increasing(s),
    ensures
        package_insert_pos(s, x) <= s.len(),
        forall|t: int| 0 <= t < package_insert_pos(s, x) ==> s[t].id <= x.id,
        package_insert_pos(s, x) < s.len() ==> s[package_insert_pos(s, x) as int].id > x.id,
    decreases s.len(),
{
    if s.len() > 0 && s[0].id <= x.id {
        let d = s.drop_first();
        lemma_package_insert_pos(d, x);
        assert forall|t: int| 0 <= t < package_insert_pos(s, x) implies s[t].id <= x.id by {
            if t > 0 {
                assert(s[t] == d[t - 1]);
            }
        }
        if package_insert_pos(s, x) < s.len() {
            assert(s[package_insert_pos(s, x) as int] == d[package_insert_pos(d, x) as int]);
        }
    }
}

/// One validation step: it succeeds exactly when the package passes its own
/// checks and shares no identifier or member with the earlier ones, and then
/// represents the longer prefix.
proof fn lemma_scan_step(
    cands: Seq<CandidateModel>,
    st: PackageScan,
    pre: Seq<PackageModel>,
    es: Seq<bool>,
    p: PackageModel,
    e: bool,
)
    requires
        scan_represents(st, pre, es),
        pre.len() == es.len(),
    ensures
        scan_package(cands, st, p, e) is Ok <==> package_ok(cands, p) && !id_in(pre, p.id) && forall|x: u64|
            p.members.contains(x) ==> !packaged_in(pre, x),
        scan_package(cands, st, p, e) is Ok ==> scan_represents(
            scan_package(cands, st, p, e)->Ok_0,
            pre.push(p),
            es.push(e),
        ),
{
    let m = sort_u64(p.members);
    lemma_sort_u64(p.members);
    lemma_duplicate_multiset(m, p.members);
    let known = !(exists|i: int| 0 <= i < m.len() && find_candidate(cands, m[i]) is None);
    assert(known <==> forall|a: int| 0 <= a < p.members.len() ==> find_candidate(cands, #[trigger] p.members[a]) is Some) by {
        if known {
            assert forall|a: int| 0 <= a < p.members.len() implies find_candidate(cands, #[trigger] p.members[a]) is Some by {
                assert(p.members.contains(p.members[a]));
                assert(m.contains(p.members[a]));
                let i = choose|i: int| 0 <= i < m.len() && m[i] == p.members[a];
            }
        } else {
            let i = choose|i: int| 0 <= i < m.len() && find_candidate(cands, m[i]) is None;
            assert(m.contains(m[i]));
            assert(p.members.contains(m[i]));
            let a = choose|a: int| 0 <= a < p.members.len() && p.members[a] == m[i];
        }
    }
    let fresh = !(exists|i: int| 0 <= i < m.len() && st.packaged.contains(m[i]));
    assert(fresh <==> forall|x: u64| p.members.contains(x) ==> !packaged_in(pre, x)) by {
        if fresh {
            assert forall|x: u64| p.members.contains(x) implies !packaged_in(pre, x) by {
                assert(m.contains(x));
                let i = choose|i: int| 0 <= i < m.len() && m[i] == x;
                assert(!st.packaged.contains(m[i]));
            }
        } else {
            let i = choose|i: int| 0 <= i < m.len() && st.packaged.contains(m[i]);
            assert(m.contains(m[i]));
            assert(p.members.contains(m[i]));
        }
    }
    if scan_package(cands, st, p, e) is Ok {
        let n = scan_package(cands, st, p, e)->Ok_0;
        let pre2 = pre.push(p);
        let es2 = es.push(e);
        let q = sorted_package(p);
        assert forall|x: u64| #[trigger] n.packaged.contains(x) <==> packaged_in(pre2, x) by {
            assert(n.packaged == st.packaged + m);
            if n.packaged.contains(x) {
                let k = choose|k: int| 0 <= k < n.packaged.len() && n.packaged[k] == x;
                if k < st.packaged.len() {
                    assert(st.packaged[k] == x);
                    assert(st.packaged.contains(x));
                    let i = choose|i: int| 0 <= i < pre.len() && (#[trigger] pre[i]).members.contains(x);
                    assert(pre2[i] == pre[i]);
                } else {
                    assert(m[k - st.packaged.len()] == x);
                    assert(m.contains(x));
                    assert(pre2[pre.len() as int] == p);
                }
            }
            if packaged_in(pre2, x) {
                let i = choose|i: int| 0 <= i < pre2.len() && (#[trigger] pre2[i]).members.contains(x);
                if i < pre.len() {
                    assert(pre[i] == pre2[i]);
                    assert(packaged_in(pre, x));
                    assert(st.packaged.contains(x));
                    let k = choose|k: int| 0 <= k < st.packaged.len() && st.packaged[k] == x;
                    assert(n.packaged[k] == x);
                } else {
                    assert(pre2[i] == p);
                    assert(m.contains(x));
                    let k = choose|k: int| 0 <= k < m.len() && m[k] == x;
                    assert(n.packaged[st.packaged.len() + k] == x);
                }
            }
        }
        assert forall|id: u64| #[trigger] n.seen_ids.contains(id) <==> id_in(pre2, id) by {
            if n.seen_ids.contains(id) {
                let k = choose|k: int| 0 <= k < n.seen_ids.len() && n.seen_ids[k] == id;
                if k < st.seen_ids.len() {
                    assert(st.seen_ids[k] == id);
                    assert(st.seen_ids.contains(id));
                    let i = choose|i: int| 0 <= i < pre.len() && (#[trigger] pre[i]).id == id;
                    assert(pre2[i] == pre[i]);
                } else {
                    assert(pre2[pre.len() as int] == p);
                }
            }
            if id_in(pre2, id) {
                let i = choose|i: int| 0 <= i < pre2.len() && (#[trigger] pre2[i]).id == id;
                if i < pre.len() {
                    assert(pre[i] == pre2[i]);
                    assert(id_in(pre, id));
                    assert(st.seen_ids.contains(id));
                    let k = choose|k: int| 0 <= k < st.seen_ids.len() && st.seen_ids[k] == id;
                    assert(n.seen_ids[k] == id);
                } else {
                    assert(n.seen_ids[st.seen_ids.len() as int] == id);
                }
            }
        }
        assert(!id_in(pre, p.id)) by {
            assert(!st.seen_ids.contains(p.id));
        }
        if e {
            lemma_package_insert_pos(st.eligible, q);
            let pos = package_insert_pos(st.eligible, q) as int;
            let r = st.eligible;
            let t = r.insert(pos, q);
            assert forall|t1: int| 0 <= t1 < r.len() implies r[t1].id != q.id by {
                assert(r.contains(r[t1]));
                let i = choose|i: int| 0 <= i < pre.len() && es[i] && r[t1] == sorted_package(#[trigger] pre[i]);
                assert(id_in(pre, pre[i].id));
            }
            assert forall|a: int, b: int| 0 <= a < b < t.len() implies t[a].id < t[b].id by {
                if b < pos {
                } else if b == pos {
                    assert(r[a].id <= q.id);
                } else if a < pos {
                    assert(r[a].id <= q.id);
                    assert(r[pos].id > q.id);
                    if b - 1 > pos {
                        assert(r[pos].id < r[b - 1].id);
                    }
                } else if a == pos {
                    assert(r[pos].id > q.id);
                    if b - 1 > pos {
                        assert(r[pos].id < r[b - 1].id);
                    }
                } else {
                }
            }
        }
        assert forall|x: PackageModel| #[trigger] n.eligible.contains(x) <==> eligible_entry(pre2, es2, x) by {
            if n.eligible.contains(x) {
                if e {
                    lemma_package_insert_pos(st.eligible, q);
                    let pos = package_insert_pos(st.eligible, q) as int;
                    let k = choose|k: int| 0 <= k < n.eligible.len() && n.eligible[k] == x;
                    if k == pos {
                        assert(pre2[pre.len() as int] == p && es2[pre.len() as int]);
                    } else {
                        let k2 = if k < pos { k } else { k - 1 };
                        assert(st.eligible[k2] == x);
                        assert(st.eligible.contains(x));
                        let i = choose|i: int| 0 <= i < pre.len() && es[i] && x == sorted_package(#[trigger] pre[i]);
                        assert(pre2[i] == pre[i] && es2[i] == es[i]);
                    }
                } else {
                    assert(st.eligible.contains(x));
                    let i = choose|i: int| 0 <= i < pre.len() && es[i] && x == sorted_package(#[trigger] pre[i]);
                    assert(pre2[i] == pre[i] && es2[i] == es[i]);
                }
            }
            if eligible_entry(pre2, es2, x) {
                let i = choose|i: int| 0 <= i < pre2.len() && es2[i] && x == sorted_package(#[trigger] pre2[i]);
                if i < pre.len() {
                    assert(pre2[i] == pre[i] && es2[i] == es[i]);
                    assert(eligible_entry(pre, es, x));
                    assert(st.eligible.contains(x));
                    let k = choose|k: int| 0 <= k < st.eligible.len() && st.eligible[k] == x;
                    if e {
                        lemma_package_insert_pos(st.eligible, q);
                        let pos = package_insert_pos(st.eligible, q) as int;
                        if k < pos {
                            assert(n.eligible[k] == x);
                        } else {
                            assert(n.eligible[k + 1] == x);
                        }
                    } else {
                        assert(n.eligible[k] == x);
                    }
                } else {
                    assert(pre2[i] == p && es2[i] == e);
                    lemma_package_insert_pos(st.eligible, q);
                    let pos = package_insert_pos(st.eligible, q) as int;
                    assert(n.eligible[pos] == x);
                }
            }
        }
    }
}

/// Validating all packages succeeds exactly on valid packages, and then
/// represents them.
proof fn lemma_scan_valid(cands: Seq<CandidateModel>, ps: Seq<PackageModel>, es: Seq<bool>)
    requires
        ps.len() == es.len(),
    ensures
        scan_packages(cands, initial_package_scan(), ps, es) is Ok <==> packages_valid(cands, ps),
        scan_packages(cands, initial_package_scan(), ps, es) is Ok ==> scan_represents(
            scan_packages(cands, initial_package_scan(), ps, es)->Ok_0,
            ps,
            es,
        ),
    decreases ps.len(),
{
    let init = initial_package_scan();
    if ps.len() == 0 {
        assert(scan_represents(init, ps, es));
    } else {
        let pre = ps.drop_last();
        let ep = es.drop_last();
        let p = ps.last();
        let e = es.last();
        lemma_scan_valid(cands, pre, ep);
        assert(pre.push(p) =~= ps);
        assert(ep.push(e) =~= es);
        lemma_scan_packages_snoc(cands, init, pre, ep, p, e);
        let n = ps.len() - 1;
        assert(packages_valid(cands, ps) ==> packages_valid(cands, pre)) by {
            if packages_valid(cands, ps) {
                assert forall|i: int| 0 <= i < pre.len() implies package_ok(cands, #[trigger] pre[i]) by {
                    assert(pre[i] == ps[i]);
                }
                assert forall|i: int, j: int| 0 <= i < j < pre.len() implies (#[trigger] pre[i]).id != (
                #[trigger] pre[j]).id by {
                    assert(pre[i] == ps[i] && pre[j] == ps[j]);
                }
                assert forall|i: int, j: int, x: u64| 0 <= i < j < pre.len() implies !(
                #[trigger] pre[i].members.contains(x) && #[trigger] pre[j].members.contains(x)) by {
                    assert(pre[i] == ps[i] && pre[j] == ps[j]);
                }
            }
        }
        match scan_packages(cands, init, pre, ep) {
            Err(_) => {},
            Ok(st) => {
                lemma_scan_step(cands, st, pre, ep, p, e);
                assert(ps[n] == p);
                if packages_valid(cands, ps) {
                    assert(package_ok(cands, ps[n]));
                    assert(!id_in(pre, p.id)) by {
                        if id_in(pre, p.id) {
                            let i = choose|i: int| 0 <= i < pre.len() && (#[trigger] pre[i]).id == p.id;
                            assert(ps[i] == pre[i]);
                        }
                    }
                    assert forall|x: u64| p.members.contains(x) implies !packaged_in(pre, x) by {
                        if packaged_in(pre, x) {
                            let i = choose|i: int| 0 <= i < pre.len() && (#[trigger] pre[i]).members.contains(x);
                            assert(ps[i] == pre[i]);
                            assert(ps[i].members.contains(x) && ps[n].members.contains(x));
                        }
                    }
                }
                if scan_package(cands, st, p, e) is Ok {
                    assert(packages_valid(cands, ps)) by {
                        assert forall|i: int| 0 <= i < ps.len() implies package_ok(cands, #[trigger] ps[i]) by {
                            if i < n {
                                assert(ps[i] == pre[i]);
                            }
                        }
                        assert forall|i: int, j: int| 0 <= i < j < ps.len() implies (#[trigger] ps[i]).id != (
                        #[trigger] ps[j]).id by {
                            assert(ps[i] == pre[i]);
                            if j < n {
                                assert(ps[j] == pre[j]);
                            } else {
                                assert(id_in(pre, pre[i].id));
                            }
                        }
                        assert forall|i: int, j: int, x: u64| 0 <= i < j < ps.len() implies !(
                        #[trigger] ps[i].members.contains(x) && #[trigger] ps[j].members.contains(x)) by {
                            assert(ps[i] == pre[i]);
                            if j < n {
                                assert(ps[j] == pre[j]);
                            } else if ps[i].members.contains(x) && ps[j].members.contains(x) {
                                assert(packaged_in(pre, x));
                            }
                        }
                    }
                }
            },
        }
    }
}

/// Two sequences of packages strictly ascending by identifier with the same
/// packages are equal.
proof fn lemma_packages_sorted_unique(s: Seq<PackageModel>, t: Seq<PackageModel>)
    requires
        package_ids_increasing(s),
        package_ids_increasing(t),
        forall|q: PackageModel| s.contains(q) <==> t.contains(q),
    ensures
        s == t,
    decreases s.len() + t.len(),
{
    if s.len() == 0 {
        if t.len() > 0 {
            assert(t.contains(t[0]));
        }
        assert(s =~= t);
    } else {
        assert(s.contains(s[0]));
        assert(t.len() > 0);
        assert(t.contains(t[0]));
        let j = choose|j: int| 0 <= j < t.len() && t[j] == s[0];
        let k = choose|k: int| 0 <= k < s.len() && s[k] == t[0];
        if j > 0 {
            assert(t[0].id < t[j].id);
            if k > 0 {
                assert(s[0].id < s[k].id);
            }
            assert(false);
        }
        let s1 = s.drop_first();
        let t1 = t.drop_first();
        assert forall|q: PackageModel| s1.contains(q) <==> t1.contains(q) by {
            if s1.contains(q) {
                let a = choose|a: int| 0 <= a < s1.len() && s1[a] == q;
                assert(s[a + 1] == q);
                assert(s.contains(q));
                let b = choose|b: int| 0 <= b < t.len() && t[b] == q;
                if b == 0 {
                    assert(s[0].id < s[a + 1].id);
                }
                assert(t1[b - 1] == q);
            }
            if t1.contains(q) {
                let a = choose|a: int| 0 <= a < t1.len() && t1[a] == q;
                assert(t[a + 1] == q);
                assert(t.contains(q));
                let b = choose|b: int| 0 <= b < s.len() && s[b] == q;
                if b == 0 {
                    assert(t[0].id < t[a + 1].id);
                }
                assert(s1[b - 1] == q);
            }
        }
        assert(package_ids_increasing(s1)) by {
            assert forall|a: int, b: int| 0 <= a < b < s1.len() implies s1[a].id < s1[b].id by {
                assert(s1[a] == s[a + 1] && s1[b] == s[b + 1]);
            }
        }
        assert(package_ids_increasing(t1)) by {
            assert forall|a: int, b: int| 0 <= a < b < t1.len() implies t1[a].id < t1[b].id by {
                assert(t1[a] == t[a + 1] && t1[b] == t[b + 1]);
            }
        }
        lemma_packages_sorted_unique(s1, t1);
        assert forall|i: int| 0 <= i < s.len() implies s[i] == t[i] by {
            if i > 0 {
                assert(s[i] == s1[i - 1] && t[i] == t1[i - 1]);
            }
        }
        assert(s =~= t);
    }
}

/// Each package in sorted form, with its eligibility.
pub open spec fn entries(ps: Seq<PackageModel>, es: Seq<bool>) -> Seq<(PackageModel, bool)> {
    Seq::new(ps.len(), |i: int| (sorted_package(ps[i]), es[i]))
}

/// `ps2` with eligibilities `es2` lists the packages of `ps` with
/// eligibilities `es`, in any order, each with its members in any order.
pub open spec fn packages_reordered(
    ps: Seq<PackageModel>,
    es: Seq<bool>,
    ps2: Seq<PackageModel>,
    es2: Seq<bool>,
) -> bool {
    &&& ps.len() == es.len()
    &&& ps2.len() == es2.len()
    &&& entries(ps2, es2).to_multiset() == entries(ps, es).to_multiset()
}

proof fn lemma_same_sorted_package(cands: Seq<CandidateModel>, p: PackageModel, p2: PackageModel)
    requires
        sorted_package(p2) == sorted_package(p),
    ensures
        p2.id == p.id,
        package_ok(cands, p2) == package_ok(cands, p),
        forall|x: u64| p2.members.contains(x) <==> p.members.contains(x),
{
    lemma_sort_u64(p.members);
    lemma_sort_u64(p2.members);
    lemma_duplicate_multiset(p.members, p2.members);
    if package_ok(cands, p) {
        assert forall|a: int| 0 <= a < p2.members.len() implies find_candidate(cands, #[trigger] p2.members[a]) is Some by {
            assert(p2.members.contains(p2.members[a]));
            let b = choose|b: int| 0 <= b < p.members.len() && p.members[b] == p2.members[a];
        }
    }
    if package_ok(cands, p2) {
        assert forall|a: int| 0 <= a < p.members.len() implies find_candidate(cands, #[trigger] p.members[a]) is Some by {
            assert(p.members.contains(p.members[a]));
            let b = choose|b: int| 0 <= b < p2.members.len() && p2.members[b] == p.members[a];
        }
    }
}

/// Selection does not depend on the order of the packages, nor on the order
/// in which a package lists its members: reordering either in the input of a
/// successful selection, each package keeping its eligibility, selects the
/// same packages and candidates, with the same coverage and steps.
pub proof fn lemma_selection_order_independent(
    cands: Seq<CandidateModel>,
    ps: Seq<PackageModel>,
    es: Seq<bool>,
    ps2: Seq<PackageModel>,
    es2: Seq<bool>,
    minimum: nat,
    maximum: nat,
)
    requires
        packages_reordered(ps, es, ps2, es2),
        select_result(cands, ps, es, minimum, maximum) is Ok,
    ensures
        select_result(cands, ps2, es2, minimum, maximum) == select_result(cands, ps, es, minimum, maximum),
{
    let init = initial_package_scan();
    let ea = entries(ps, es);
    let eb = entries(ps2, es2);
    lemma_scan_valid(cands, ps, es);
    lemma_scan_valid(cands, ps2, es2);
    assert(ea.len() == ps.len());
    assert(eb.len() == ps2.len());
    assert forall|x: (PackageModel, bool)| eb.contains(x) <==> ea.contains(x) by {
        vstd::seq_lib::to_multiset_contains(ea, x);
        vstd::seq_lib::to_multiset_contains(eb, x);
    }
    assert(ea.no_duplicates()) by {
        assert forall|i: int, j: int| 0 <= i < ea.len() && 0 <= j < ea.len() && i != j implies ea[i] != ea[j] by {
            if i < j {
                assert(ps[i].id != ps[j].id);
            } else {
                assert(ps[j].id != ps[i].id);
            }
        }
    }
    ea.lemma_multiset_has_no_duplicates();
    eb.lemma_multiset_has_no_duplicates_conv();
    assert(packages_valid(cands, ps2)) by {
        assert forall|j: int| 0 <= j < ps2.len() implies package_ok(cands, #[trigger] ps2[j]) by {
            assert(eb.contains(eb[j]));
            let i = choose|i: int| 0 <= i < ea.len() && ea[i] == eb[j];
            lemma_same_sorted_package(cands, ps[i], ps2[j]);
        }
        assert forall|j: int, l: int| 0 <= j < l < ps2.len() implies (#[trigger] ps2[j]).id != (#[trigger] ps2[l]).id by {
            assert(eb.contains(eb[j]) && eb.contains(eb[l]));
            let i = choose|i: int| 0 <= i < ea.len() && ea[i] == eb[j];
            let k = choose|k: int| 0 <= k < ea.len() && ea[k] == eb[l];
            lemma_same_sorted_package(cands, ps[i], ps2[j]);
            lemma_same_sorted_package(cands, ps[k], ps2[l]);
            assert(eb[j] != eb[l]);
            assert(i != k);
            if i < k {
                assert(ps[i].id != ps[k].id);
            } else {
                assert(ps[k].id != ps[i].id);
            }
        }
        assert forall|j: int, l: int, x: u64| 0 <= j < l < ps2.len() implies !(#[trigger] ps2[j].members.contains(x)
            && #[trigger] ps2[l].members.contains(x)) by {
            assert(eb.contains(eb[j]) && eb.contains(eb[l]));
            let i = choose|i: int| 0 <= i < ea.len() && ea[i] == eb[j];
            let k = choose|k: int| 0 <= k < ea.len() && ea[k] == eb[l];
            lemma_same_sorted_package(cands, ps[i], ps2[j]);
            lemma_same_sorted_package(cands, ps[k], ps2[l]);
            assert(eb[j] != eb[l]);
            assert(i != k);
            if i < k {
                assert(!(ps[i].members.contains(x) && ps[k].members.contains(x)));
            } else {
                assert(!(ps[k].members.contains(x) && ps[i].members.contains(x)));
            }
        }
    }
    let sa = scan_packages(cands, init, ps, es)->Ok_0;
    let sb = scan_packages(cands, init, ps2, es2)->Ok_0;
    assert forall|q: PackageModel| sb.eligible.contains(q) <==> sa.eligible.contains(q) by {
        if eligible_entry(ps2, es2, q) {
            let j = choose|j: int| 0 <= j < ps2.len() && es2[j] && q == sorted_package(#[trigger] ps2[j]);
            assert(eb[j] == (q, true));
            assert(eb.contains(eb[j]));
            let i = choose|i: int| 0 <= i < ea.len() && ea[i] == eb[j];
            assert(eligible_entry(ps, es, q));
        }
        if eligible_entry(ps, es, q) {
            let i = choose|i: int| 0 <= i < ps.len() && es[i] && q == sorted_package(#[trigger] ps[i]);
            assert(ea[i] == (q, true));
            assert(ea.contains(ea[i]));
            let j = choose|j: int| 0 <= j < eb.len() && eb[j] == ea[i];
            assert(eligible_entry(ps2, es2, q));
        }
    }
    lemma_packages_sorted_unique(sb.eligible, sa.eligible);
}

} // verus!
