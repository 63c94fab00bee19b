//! Which inputs an archive accepts, stated without reference to their order.
use vstd::prelude::*;

use crate::archive::{ArchiveError, CandidateModel, ObjectiveDirection, build_result};
use crate::archive_spec::{
    BuildScan, dims_lookup, has_duplicate_projection, ids_distinct, initial_scan,
    lemma_projection_insert_pos, normalized, projection_insert_pos, scan_all, scan_candidate,
    scan_projections, sort_by_projection,
};
use crate::archive_laws::lemma_accepted_builds_agree;
use crate::cell_order::CellModel;

verus! {

broadcast use vstd::seq_lib::group_to_multiset_ensures;

/// The checks that concern one candidate alone pass.
pub open spec fn candidate_ok(quality_len: nat, c: CandidateModel) -> bool {
    c.quality.len() == quality_len && c.projections.len() > 0 && c.diversity.len() > 0
        && !has_duplicate_projection(c.projections)
}

/// Two candidates agree on the diversity dimension and on the coordinate
/// count of every projection they share.
pub open spec fn compatible(x: CandidateModel, y: CandidateModel) -> bool {
    &&& x.diversity.len() == y.diversity.len()
    &&& forall|a: int, b: int|
        0 <= a < x.projections.len() && 0 <= b < y.projections.len() && (#[trigger] x.projections[a]).0
            == (#[trigger] y.projections[b]).0 ==> x.projections[a].1.len() == y.projections[b].1.len()
}

/// Inputs that validate: every candidate passes its own checks, every two
/// candidates are compatible, and identifiers are distinct.
pub open spec fn inputs_valid(quality_len: nat, cs: Seq<CandidateModel>) -> bool {
    &&& forall|i: int| 0 <= i < cs.len() ==> candidate_ok(quality_len, #[trigger] cs[i])
    &&& forall|i: int, j: int| 0 <= i < cs.len() && 0 <= j < cs.len() ==> compatible(#[trigger] cs[i], #[trigger] cs[j])
    &&& ids_distinct(cs)
}

/// Some candidate of `cs` has a projection with identifier `p`.
pub open spec fn has_projection(cs: Seq<CandidateModel>, p: u64) -> bool {
    exists|i: int, a: int| 0 <= i < cs.len() && 0 <= a < cs[i].projections.len() && (#[trigger] cs[i].projections[a]).0 == p
}

/// A validation state reached after the candidates `pre`.
pub open spec fn represents(st: BuildScan, pre: Seq<CandidateModel>) -> bool {
    &&& st.accepted == pre.map_values(|c: CandidateModel| normalized(c))
    &&& st.diversity == if pre.len() == 0 {
        None::<nat>
    } else {
        Some(pre[0].diversity.len())
    }
    &&& forall|p: u64| (#[trigger] dims_lookup(st.dims, p)) is None <==> !has_projection(pre, p)
    &&& forall|i: int, a: int|
        0 <= i < pre.len() && 0 <= a < pre[i].projections.len() ==> dims_lookup(
            st.dims,
            (#[trigger] pre[i].projections[a]).0,
        ) == Some(pre[i].projections[a].1.len())
}

pub(crate) proof fn lemma_sort_by_projection_multiset(s: Seq<CellModel>)
    ensures
        sort_by_projection(s).to_multiset() == s.to_multiset(),
    decreases s.len(),
{
    if s.len() > 0 {
        let d = s.drop_last();
        lemma_sort_by_projection_multiset(d);
        let r = sort_by_projection(d);
        lemma_projection_insert_pos(r, s.last());
        let p = projection_insert_pos(r, s.last()) as int;
        crate::archive_spec::lemma_sort_by_projection_len(d);
        vstd::seq_lib::to_multiset_insert(r, p, s.last());
        assert(d.push(s.last()) =~= s);
    }
}

proof fn lemma_sorted_projections(s: Seq<CellModel>)
    requires
        !has_duplicate_projection(s),
    ensures
        forall|x: CellModel| sort_by_projection(s).contains(x) <==> s.contains(x),
        !has_duplicate_projection(sort_by_projection(s)),
{
    let t = sort_by_projection(s);
    lemma_sort_by_projection_multiset(s);
    assert forall|x: CellModel| t.contains(x) <==> s.contains(x) by {
        assert(t.to_multiset().count(x) == s.to_multiset().count(x));
    }
    assert(s.no_duplicates()) by {
        assert forall|i: int, j: int| 0 <= i < s.len() && 0 <= j < s.len() && i != j implies s[i] != s[j] by {
            if s[i] == s[j] {
                if i < j {
                    assert(s[i].0 == s[j].0);
                } else {
                    assert(s[j].0 == s[i].0);
                }
            }
        }
    }
    s.lemma_multiset_has_no_duplicates();
    t.lemma_multiset_has_no_duplicates_conv();
    if has_duplicate_projection(t) {
        let (i, j) = choose|i: int, j: int| 0 <= i < j < t.len() && t[i].0 == t[j].0;
        assert(t.contains(t[i]));
        assert(t.contains(t[j]));
        let a = choose|a: int| 0 <= a < s.len() && s[a] == t[i];
        let b = choose|b: int| 0 <= b < s.len() && s[b] == t[j];
        assert(t[i] != t[j]);
        if a < b {
            assert(s[a].0 == s[b].0);
        } else {
            assert(s[b].0 == s[a].0);
        }
    }
}

proof fn lemma_dims_push(dims: Seq<(u64, nat)>, x: (u64, nat), p: u64)
    ensures
        dims_lookup(dims.push(x), p) == match dims_lookup(dims, p) {
            Some(n) => Some(n),
            None => if x.0 == p {
                Some(x.1)
            } else {
                None
            },
        },
    decreases dims.len(),
{
    if dims.len() == 0 {
        assert(dims.push(x)[0] == x);
        assert(dims.push(x).drop_first() =~= Seq::<(u64, nat)>::empty());
        assert(dims_lookup(Seq::<(u64, nat)>::empty(), p) is None);
    } else {
        assert(dims.push(x)[0] == dims[0]);
        assert(dims.push(x).drop_first() =~= dims.drop_first().push(x));
        lemma_dims_push(dims.drop_first(), x, p);
    }
}

/// Checking projections against recorded counts succeeds exactly when no
/// projection conflicts with a recorded count, and records first-seen counts.
proof fn lemma_scan_projections(dims: Seq<(u64, nat)>, ps: Seq<CellModel>)
    requires
        !has_duplicate_projection(ps),
    ensures
        scan_projections(dims, ps) is Ok <==> forall|k: int|
            0 <= k < ps.len() ==> (dims_lookup(dims, (#[trigger] ps[k]).0) matches Some(n) ==> n
                == ps[k].1.len()),
        scan_projections(dims, ps) matches Ok(d2) ==> {
            &&& forall|p: u64| #[trigger]
                dims_lookup(dims, p) is Some ==> dims_lookup(d2, p) == dims_lookup(dims, p)
            &&& forall|k: int|
                0 <= k < ps.len() && dims_lookup(dims, (#[trigger] ps[k]).0) is None ==> dims_lookup(
                    d2,
                    ps[k].0,
                ) == Some(ps[k].1.len())
            &&& forall|p: u64|
                (#[trigger] dims_lookup(dims, p)) is None && (forall|k: int| 0 <= k < ps.len() ==> ps[k].0 != p)
                    ==> dims_lookup(d2, p) is None
        },
    decreases ps.len(),
{
    if ps.len() > 0 {
        let p0 = ps[0];
        let rest = ps.drop_first();
        assert(!has_duplicate_projection(rest)) by {
            if has_duplicate_projection(rest) {
                let (i, j) = choose|i: int, j: int| 0 <= i < j < rest.len() && rest[i].0 == rest[j].0;
                assert(ps[i + 1].0 == ps[j + 1].0);
            }
        }
        assert forall|k: int| 0 <= k < rest.len() implies rest[k].0 != p0.0 by {
            assert(rest[k] == ps[k + 1]);
        }
        match dims_lookup(dims, p0.0) {
            Some(e) => {
                lemma_scan_projections(dims, rest);
                if e == p0.1.len() {
                    assert((forall|k: int|
                        0 <= k < ps.len() ==> (dims_lookup(dims, (#[trigger] ps[k]).0) matches Some(n) ==> n
                            == ps[k].1.len())) <==> (forall|k: int|
                        0 <= k < rest.len() ==> (dims_lookup(dims, (#[trigger] rest[k]).0) matches Some(n)
                            ==> n == rest[k].1.len()))) by {
                        if forall|k: int|
                            0 <= k < rest.len() ==> (dims_lookup(dims, (#[trigger] rest[k]).0) matches Some(n)
                                ==> n == rest[k].1.len()) {
                            assert forall|k: int|
                                0 <= k < ps.len() implies (dims_lookup(dims, (#[trigger] ps[k]).0) matches Some(
                                    n,
                                ) ==> n == ps[k].1.len()) by {
                                if k > 0 {
                                    assert(ps[k] == rest[k - 1]);
                                }
                            }
                        }
                        if forall|k: int|
                            0 <= k < ps.len() ==> (dims_lookup(dims, (#[trigger] ps[k]).0) matches Some(n) ==> n
                                == ps[k].1.len()) {
                            assert forall|k: int|
                                0 <= k < rest.len() implies (dims_lookup(dims, (#[trigger] rest[k]).0) matches Some(
                                    n,
                                ) ==> n == rest[k].1.len()) by {
                                assert(rest[k] == ps[k + 1]);
                            }
                        }
                    }
                    if scan_projections(dims, ps) is Ok {
                        let d2 = scan_projections(dims, ps)->Ok_0;
                        assert forall|k: int|
                            0 <= k < ps.len() && dims_lookup(dims, (#[trigger] ps[k]).0) is None implies dims_lookup(
                                d2,
                                ps[k].0,
                            ) == Some(ps[k].1.len()) by {
                            assert(k != 0);
                            assert(ps[k] == rest[k - 1]);
                        }
                        assert forall|p: u64|
                            (#[trigger] dims_lookup(dims, p)) is None && (forall|k: int|
                                0 <= k < ps.len() ==> ps[k].0 != p) implies dims_lookup(d2, p) is None by {
                            assert forall|k: int| 0 <= k < rest.len() implies rest[k].0 != p by {
                                assert(rest[k] == ps[k + 1]);
                            }
                        }
                    }
                } else {
                    assert(!(dims_lookup(dims, ps[0].0) matches Some(n) ==> n == ps[0].1.len()));
                }
            },
            None => {
                let dims2 = dims.push((p0.0, p0.1.len()));
                lemma_scan_projections(dims2, rest);
                assert forall|p: u64| #[trigger] dims_lookup(dims2, p) == match dims_lookup(dims, p) {
                    Some(n) => Some(n),
                    None => if p0.0 == p {
                        Some(p0.1.len())
                    } else {
                        None
                    },
                } by {
                    lemma_dims_push(dims, (p0.0, p0.1.len()), p);
                }
                assert forall|k: int| 0 <= k < rest.len() implies dims_lookup(dims2, (#[trigger] rest[k]).0)
                    == dims_lookup(dims, rest[k].0) by {
                    assert(rest[k] == ps[k + 1]);
                    assert(dims_lookup(dims2, rest[k].0) == dims_lookup(dims2, rest[k].0));
                }
                assert((forall|k: int|
                    0 <= k < ps.len() ==> (dims_lookup(dims, (#[trigger] ps[k]).0) matches Some(n) ==> n
                        == ps[k].1.len())) <==> (forall|k: int|
                    0 <= k < rest.len() ==> (dims_lookup(dims2, (#[trigger] rest[k]).0) matches Some(n) ==> n
                        == rest[k].1.len()))) by {
                    if forall|k: int|
                        0 <= k < rest.len() ==> (dims_lookup(dims2, (#[trigger] rest[k]).0) matches Some(n)
                            ==> n == rest[k].1.len()) {
                        assert forall|k: int|
                            0 <= k < ps.len() implies (dims_lookup(dims, (#[trigger] ps[k]).0) matches Some(n)
                            ==> n == ps[k].1.len()) by {
                            if k > 0 {
                                assert(ps[k] == rest[k - 1]);
                            }
                        }
                    }
                    if forall|k: int|
                        0 <= k < ps.len() ==> (dims_lookup(dims, (#[trigger] ps[k]).0) matches Some(n) ==> n
                            == ps[k].1.len()) {
                        assert forall|k: int|
                            0 <= k < rest.len() implies (dims_lookup(dims2, (#[trigger] rest[k]).0) matches Some(
                                n,
                            ) ==> n == rest[k].1.len()) by {
                            assert(rest[k] == ps[k + 1]);
                        }
                    }
                }
                if scan_projections(dims, ps) is Ok {
                    let d2 = scan_projections(dims, ps)->Ok_0;
                    assert(d2 == scan_projections(dims2, rest)->Ok_0);
                    assert forall|p: u64| #[trigger]
                        dims_lookup(dims, p) is Some implies dims_lookup(d2, p) == dims_lookup(dims, p) by {
                        assert(dims_lookup(dims2, p) == dims_lookup(dims, p));
                    }
                    assert forall|k: int|
                        0 <= k < ps.len() && dims_lookup(dims, (#[trigger] ps[k]).0) is None implies dims_lookup(
                            d2,
                            ps[k].0,
                        ) == Some(ps[k].1.len()) by {
                        if k == 0 {
                            assert(dims_lookup(dims2, p0.0) == Some(p0.1.len()));
                        } else {
                            assert(ps[k] == rest[k - 1]);
                        }
                    }
                    assert forall|p: u64|
                        (#[trigger] dims_lookup(dims, p)) is None && (forall|k: int|
                            0 <= k < ps.len() ==> ps[k].0 != p) implies dims_lookup(d2, p) is None by {
                        assert(ps[0].0 != p);
                        assert(dims_lookup(dims2, p) is None);
                        assert forall|k: int| 0 <= k < rest.len() implies rest[k].0 != p by {
                            assert(rest[k] == ps[k + 1]);
                        }
                    }
                }
            },
        }
    }
}

proof fn lemma_compatible_symmetric(x: CandidateModel, y: CandidateModel)
    requires
        compatible(x, y),
    ensures
        compatible(y, x),
{
    assert forall|a: int, b: int|
        0 <= a < y.projections.len() && 0 <= b < x.projections.len() && (#[trigger] y.projections[a]).0
            == (#[trigger] x.projections[b]).0 implies y.projections[a].1.len() == x.projections[b].1.len() by {
        assert(x.projections[b].0 == y.projections[a].0);
    }
}

proof fn lemma_self_compatible(c: CandidateModel)
    requires
        !has_duplicate_projection(c.projections),
    ensures
        compatible(c, c),
{
    assert forall|a: int, b: int|
        0 <= a < c.projections.len() && 0 <= b < c.projections.len() && (#[trigger] c.projections[a]).0
            == (#[trigger] c.projections[b]).0 implies c.projections[a].1.len() == c.projections[b].1.len() by {
        if a < b {
            assert(has_duplicate_projection(c.projections));
        } else if b < a {
            assert(c.projections[b].0 == c.projections[a].0);
            assert(has_duplicate_projection(c.projections));
        }
    }
}

/// Adding one candidate to valid inputs keeps them valid exactly when the
/// candidate passes its own checks, is compatible with every earlier one and
/// has a new identifier.
proof fn lemma_valid_push(q: nat, pre: Seq<CandidateModel>, c: CandidateModel)
    requires
        inputs_valid(q, pre),
    ensures
        inputs_valid(q, pre.push(c)) <==> (candidate_ok(q, c) && (forall|i: int|
            0 <= i < pre.len() ==> compatible(#[trigger] pre[i], c)) && (forall|i: int|
            0 <= i < pre.len() ==> (#[trigger] pre[i]).id != c.id)),
{
    let s = pre.push(c);
    let n = pre.len() as int;
    assert(s[n] == c);
    assert forall|i: int| 0 <= i < n implies s[i] == pre[i] by {}
    if inputs_valid(q, s) {
        assert(candidate_ok(q, s[n]));
        assert forall|i: int| 0 <= i < n implies compatible(#[trigger] pre[i], c) by {
            assert(compatible(s[i], s[n]));
        }
        assert forall|i: int| 0 <= i < n implies (#[trigger] pre[i]).id != c.id by {
            assert(s[i].id != s[n].id);
        }
    }
    if candidate_ok(q, c) && (forall|i: int| 0 <= i < n ==> compatible(#[trigger] pre[i], c)) && (forall|i: int|
        0 <= i < n ==> (#[trigger] pre[i]).id != c.id) {
        lemma_self_compatible(c);
        assert forall|i: int| 0 <= i < s.len() implies candidate_ok(q, #[trigger] s[i]) by {
            if i < n {
                assert(candidate_ok(q, pre[i]));
            }
        }
        assert forall|i: int, j: int| 0 <= i < s.len() && 0 <= j < s.len() implies compatible(
            #[trigger] s[i],
            #[trigger] s[j],
        ) by {
            if i < n && j < n {
                assert(compatible(pre[i], pre[j]));
            } else if i < n {
                assert(compatible(pre[i], c));
            } else if j < n {
                assert(compatible(pre[j], c));
                lemma_compatible_symmetric(pre[j], c);
            }
        }
        assert forall|i: int, j: int| 0 <= i < j < s.len() implies s[i].id != s[j].id by {
            if j < n {
                assert(pre[i].id != pre[j].id);
            } else {
                assert(pre[i].id != c.id);
            }
        }
    }
}

/// Validating one more candidate succeeds exactly when the inputs so far
/// stay valid, and the new state represents them.
proof fn lemma_scan_candidate_step(q: nat, st: BuildScan, pre: Seq<CandidateModel>, c: CandidateModel)
    requires
        inputs_valid(q, pre),
        represents(st, pre),
    ensures
        scan_candidate(q, st, c) is Ok <==> inputs_valid(q, pre.push(c)),
        scan_candidate(q, st, c) matches Ok(next) ==> represents(next, pre.push(c)),
{
    let n = pre.len() as int;
    let s = pre.push(c);
    lemma_valid_push(q, pre, c);
    assert(s[n] == c);
    assert forall|i: int| 0 <= i < n implies s[i] == pre[i] by {}
    if c.quality.len() != q || c.projections.len() == 0 || c.diversity.len() == 0 {
        return;
    }
    if st.diversity is Some && c.diversity.len() != st.diversity->0 {
        assert(!compatible(pre[0], c));
        return;
    }
    if has_duplicate_projection(c.projections) {
        return;
    }
    let ps = sort_by_projection(c.projections);
    lemma_sorted_projections(c.projections);
    lemma_scan_projections(st.dims, ps);
    // Compatibility of `c` with the earlier candidates, as the recorded counts see it.
    let proj_ok = forall|i: int| 0 <= i < n ==> compatible(#[trigger] pre[i], c);
    let conflict_free = forall|k: int|
        0 <= k < ps.len() ==> (dims_lookup(st.dims, (#[trigger] ps[k]).0) matches Some(m) ==> m == ps[k].1.len());
    if n > 0 {
        assert forall|i: int| 0 <= i < n implies pre[i].diversity.len() == c.diversity.len() by {
            assert(compatible(pre[i], pre[0]));
        }
    }
    assert(conflict_free <==> proj_ok) by {
        if conflict_free {
            assert forall|i: int| 0 <= i < n implies compatible(#[trigger] pre[i], c) by {
                assert forall|b: int, a: int|
                    0 <= b < pre[i].projections.len() && 0 <= a < c.projections.len() && (
                    #[trigger] pre[i].projections[b]).0 == (#[trigger] c.projections[a]).0 implies pre[i].projections[b].1.len()
                    == c.projections[a].1.len() by {
                    assert(c.projections.contains(c.projections[a]));
                    assert(ps.contains(c.projections[a]));
                    let k = choose|k: int| 0 <= k < ps.len() && ps[k] == c.projections[a];
                    assert(dims_lookup(st.dims, pre[i].projections[b].0) == Some(pre[i].projections[b].1.len()));
                }
            }
        }
        if proj_ok {
            assert forall|k: int| 0 <= k < ps.len() implies (dims_lookup(st.dims, (#[trigger] ps[k]).0) matches Some(
                m,
            ) ==> m == ps[k].1.len()) by {
                assert(ps.contains(ps[k]));
                assert(c.projections.contains(ps[k]));
                let a = choose|a: int| 0 <= a < c.projections.len() && c.projections[a] == ps[k];
                if dims_lookup(st.dims, ps[k].0) is Some {
                    assert(has_projection(pre, ps[k].0));
                    let (i, b) = choose|i: int, b: int|
                        0 <= i < pre.len() && 0 <= b < pre[i].projections.len() && (#[trigger] pre[i].projections[b]).0
                            == ps[k].0;
                    assert(dims_lookup(st.dims, pre[i].projections[b].0) == Some(pre[i].projections[b].1.len()));
                    assert(compatible(pre[i], c));
                    assert(pre[i].projections[b].0 == c.projections[a].0);
                }
            }
        }
    }
    if !conflict_free {
        return;
    }
    let dims2 = scan_projections(st.dims, ps)->Ok_0;
    let dup = exists|k: int| 0 <= k < st.accepted.len() && st.accepted[k].id == c.id;
    assert(dup <==> exists|i: int| 0 <= i < n && (#[trigger] pre[i]).id == c.id) by {
        if dup {
            let k = choose|k: int| 0 <= k < st.accepted.len() && st.accepted[k].id == c.id;
            assert(st.accepted[k] == normalized(pre[k]));
            assert(pre[k].id == c.id);
        }
        if exists|i: int| 0 <= i < n && (#[trigger] pre[i]).id == c.id {
            let i = choose|i: int| 0 <= i < n && (#[trigger] pre[i]).id == c.id;
            assert(st.accepted[i] == normalized(pre[i]));
        }
    }
    if dup {
        return;
    }
    let next = BuildScan {
        diversity: Some(c.diversity.len()),
        dims: dims2,
        accepted: st.accepted.push(normalized(c)),
    };
    assert(scan_candidate(q, st, c) == Ok::<BuildScan, ArchiveError>(next));
    // The new state represents the longer prefix.
    assert(next.accepted =~= s.map_values(|x: CandidateModel| normalized(x)));
    if n > 0 {
        assert(s[0] == pre[0]);
    }
    assert forall|p: u64| (#[trigger] dims_lookup(next.dims, p)) is None <==> !has_projection(s, p) by {
        if dims_lookup(st.dims, p) is Some {
            assert(has_projection(pre, p));
            let (i, a) = choose|i: int, a: int|
                0 <= i < pre.len() && 0 <= a < pre[i].projections.len() && (#[trigger] pre[i].projections[a]).0 == p;
            assert(s[i].projections[a].0 == p);
        } else if exists|k: int| 0 <= k < ps.len() && ps[k].0 == p {
            let k = choose|k: int| 0 <= k < ps.len() && ps[k].0 == p;
            assert(ps.contains(ps[k]));
            assert(c.projections.contains(ps[k]));
            let a = choose|a: int| 0 <= a < c.projections.len() && c.projections[a] == ps[k];
            assert(s[n] == c);
            assert(s[n].projections[a] == ps[k]);
            assert(s[n].projections[a].0 == p);
        } else {
            assert(!has_projection(pre, p));
            if has_projection(s, p) {
                let (i, a) = choose|i: int, a: int|
                    0 <= i < s.len() && 0 <= a < s[i].projections.len() && (#[trigger] s[i].projections[a]).0 == p;
                if i < n {
                    assert(pre[i].projections[a].0 == p);
                } else {
                    assert(c.projections.contains(c.projections[a]));
                    assert(ps.contains(c.projections[a]));
                }
            }
        }
    }
    assert forall|i: int, a: int|
        0 <= i < s.len() && 0 <= a < s[i].projections.len() implies dims_lookup(
        next.dims,
        (#[trigger] s[i].projections[a]).0,
    ) == Some(s[i].projections[a].1.len()) by {
        if i < n {
            assert(s[i] == pre[i]);
            assert(dims_lookup(st.dims, pre[i].projections[a].0) == Some(pre[i].projections[a].1.len()));
        } else {
            let x = c.projections[a];
            assert(c.projections.contains(x));
            assert(ps.contains(x));
            let k = choose|k: int| 0 <= k < ps.len() && ps[k] == x;
            if dims_lookup(st.dims, x.0) is None {
                assert(dims_lookup(next.dims, ps[k].0) == Some(ps[k].1.len()));
            }
        }
    }
}

proof fn lemma_valid_prefix(q: nat, s: Seq<CandidateModel>, m: int)
    requires
        inputs_valid(q, s),
        0 <= m <= s.len(),
    ensures
        inputs_valid(q, s.take(m)),
{
    let t = s.take(m);
    assert forall|i: int| 0 <= i < t.len() implies candidate_ok(q, #[trigger] t[i]) by {
        assert(t[i] == s[i]);
    }
    assert forall|i: int, j: int| 0 <= i < t.len() && 0 <= j < t.len() implies compatible(
        #[trigger] t[i],
        #[trigger] t[j],
    ) by {
        assert(t[i] == s[i]);
        assert(t[j] == s[j]);
    }
    assert forall|i: int, j: int| 0 <= i < j < t.len() implies t[i].id != t[j].id by {
        assert(t[i] == s[i]);
        assert(t[j] == s[j]);
    }
}

proof fn lemma_scan_all_valid(q: nat, st: BuildScan, pre: Seq<CandidateModel>, rest: Seq<CandidateModel>)
    requires
        inputs_valid(q, pre),
        represents(st, pre),
    ensures
        scan_all(q, st, rest) is Ok <==> inputs_valid(q, pre + rest),
    decreases rest.len(),
{
    if rest.len() == 0 {
        assert(pre + rest =~= pre);
    } else {
        let c = rest[0];
        lemma_scan_candidate_step(q, st, pre, c);
        assert((pre + rest).take(pre.len() as int + 1) =~= pre.push(c));
        if scan_candidate(q, st, c) is Ok {
            let next = scan_candidate(q, st, c)->Ok_0;
            lemma_scan_all_valid(q, next, pre.push(c), rest.drop_first());
            assert(pre.push(c) + rest.drop_first() =~= pre + rest);
        } else if inputs_valid(q, pre + rest) {
            lemma_valid_prefix(q, pre + rest, pre.len() as int + 1);
        }
    }
}

/// Validation succeeds exactly on valid inputs.
proof fn lemma_scan_valid(q: nat, cs: Seq<CandidateModel>)
    ensures
        scan_all(q, initial_scan(), cs) is Ok <==> inputs_valid(q, cs),
{
    let empty = Seq::<CandidateModel>::empty();
    assert(empty.map_values(|c: CandidateModel| normalized(c)) =~= initial_scan().accepted);
    assert forall|p: u64| (#[trigger] dims_lookup(initial_scan().dims, p)) is None <==> !has_projection(empty, p) by {}
    lemma_scan_all_valid(q, initial_scan(), empty, cs);
    assert(empty + cs =~= cs);
}

/// Validity does not depend on the order of the inputs.
proof fn lemma_valid_permutation(q: nat, a: Seq<CandidateModel>, b: Seq<CandidateModel>)
    requires
        a.to_multiset() == b.to_multiset(),
        inputs_valid(q, a),
    ensures
        inputs_valid(q, b),
{
    assert forall|x: CandidateModel| b.contains(x) implies a.contains(x) by {
        assert(b.to_multiset().count(x) > 0);
        assert(a.to_multiset().count(x) > 0);
    }
    assert forall|i: int| 0 <= i < b.len() implies candidate_ok(q, #[trigger] b[i]) by {
        assert(b.contains(b[i]));
        let k = choose|k: int| 0 <= k < a.len() && a[k] == b[i];
        assert(candidate_ok(q, a[k]));
    }
    assert forall|i: int, j: int| 0 <= i < b.len() && 0 <= j < b.len() implies compatible(
        #[trigger] b[i],
        #[trigger] b[j],
    ) by {
        assert(b.contains(b[i]));
        assert(b.contains(b[j]));
        let k = choose|k: int| 0 <= k < a.len() && a[k] == b[i];
        let l = choose|l: int| 0 <= l < a.len() && a[l] == b[j];
        assert(compatible(a[k], a[l]));
    }
    assert(a.no_duplicates()) by {
        assert forall|i: int, j: int| 0 <= i < a.len() && 0 <= j < a.len() && i != j implies a[i] != a[j] by {
            if i < j {
                assert(a[i].id != a[j].id);
            } else {
                assert(a[j].id != a[i].id);
            }
        }
    }
    a.lemma_multiset_has_no_duplicates();
    b.lemma_multiset_has_no_duplicates_conv();
    assert forall|i: int, j: int| 0 <= i < j < b.len() implies b[i].id != b[j].id by {
        assert(b[i] != b[j]);
        assert(b.contains(b[i]));
        assert(b.contains(b[j]));
        let k = choose|k: int| 0 <= k < a.len() && a[k] == b[i];
        let l = choose|l: int| 0 <= l < a.len() && a[l] == b[j];
        if k < l {
            assert(a[k].id != a[l].id);
        } else {
            assert(a[l].id != a[k].id);
        }
    }
}

/// An archive is built exactly when the configuration has a quality vector
/// and a nonzero cell capacity and the inputs are valid, whatever their order.
pub proof fn lemma_build_accepts_valid_inputs(
    directions: Seq<ObjectiveDirection>,
    capacity: nat,
    inputs: Seq<CandidateModel>,
)
    ensures
        build_result(directions, capacity, inputs) is Ok <==> directions.len() > 0 && capacity > 0
            && inputs_valid(directions.len(), inputs),
{
    lemma_scan_valid(directions.len(), inputs);
}

/// Building is independent of candidate arrival order: any reordering of the
/// inputs of a successful build builds the same archive.
pub proof fn lemma_build_order_independent(
    directions: Seq<ObjectiveDirection>,
    capacity: nat,
    a: Seq<CandidateModel>,
    b: Seq<CandidateModel>,
)
    requires
        a.to_multiset() == b.to_multiset(),
        build_result(directions, capacity, a) is Ok,
    ensures
        build_result(directions, capacity, b) == build_result(directions, capacity, a),
{
    lemma_build_accepts_valid_inputs(directions, capacity, a);
    lemma_valid_permutation(directions.len(), a, b);
    lemma_build_accepts_valid_inputs(directions, capacity, b);
    lemma_accepted_builds_agree(directions, capacity, a, b);
}

} // verus!
