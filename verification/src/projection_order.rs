//! Building does not depend on the order in which a candidate lists its
//! projections.
use vstd::prelude::*;

use crate::archive::{CandidateModel, ObjectiveDirection, build_result};
use crate::archive_order::{
    candidate_ok, compatible, inputs_valid, lemma_build_accepts_valid_inputs, lemma_sort_by_projection_multiset,
};
use crate::archive_spec::{
    has_duplicate_projection, initial_scan, lemma_sort_by_projection_len,
    normalized, projection_insert_pos, scan_all, sort_by_projection,
};
use crate::cell_order::CellModel;

verus! {

broadcast use vstd::seq_lib::group_to_multiset_ensures;

/// Projection identifiers strictly increase along the sequence.
pub open spec fn projections_increasing(s: Seq<CellModel>) -> bool {
    forall|i: int, j: int| 0 <= i < j < s.len() ==> s[i].0 < s[j].0
}

proof fn lemma_projection_insert_pos_split(r: Seq<CellModel>, x: CellModel)
    requires
        projections_increasing(r),
    ensures
        forall|t: int| 0 <= t < projection_insert_pos(r, x) ==> r[t].0 <= x.0,
        projection_insert_pos(r, x) < r.len() ==> r[projection_insert_pos(r, x) as int].0 > x.0,
        projection_insert_pos(r, x) <= r.len(),
    decreases r.len(),
{
    if r.len() > 0 && r[0].0 <= x.0 {
        let d = r.drop_first();
        lemma_projection_insert_pos_split(d, x);
        assert forall|t: int| 0 <= t < projection_insert_pos(r, x) implies r[t].0 <= x.0 by {
            if t > 0 {
                assert(r[t] == d[t - 1]);
            }
        }
        if projection_insert_pos(r, x) < r.len() {
            assert(r[projection_insert_pos(r, x) as int] == d[projection_insert_pos(d, x) as int]);
        }
    }
}

/// Sorting projections with distinct identifiers orders them strictly.
proof fn lemma_sort_by_projection_sorted(s: Seq<CellModel>)
    requires
        !has_duplicate_projection(s),
    ensures
        projections_increasing(sort_by_projection(s)),
    decreases s.len(),
{
    if s.len() > 0 {
        let d = s.drop_last();
        assert(!has_duplicate_projection(d)) by {
            if has_duplicate_projection(d) {
                let (i, j) = choose|i: int, j: int| 0 <= i < j < d.len() && d[i].0 == d[j].0;
                assert(s[i] == d[i] && s[j] == d[j]);
            }
        }
        lemma_sort_by_projection_sorted(d);
        lemma_sort_by_projection_multiset(d);
        lemma_sort_by_projection_len(d);
        let r = sort_by_projection(d);
        let x = s.last();
        lemma_projection_insert_pos_split(r, x);
        let p = projection_insert_pos(r, x) as int;
        let t = r.insert(p, x);
        assert forall|t1: int| 0 <= t1 < r.len() implies r[t1].0 != x.0 by {
            assert(r.to_multiset().count(r[t1]) > 0);
            assert(d.to_multiset().count(r[t1]) > 0);
            assert(d.contains(r[t1]));
            let j = choose|j: int| 0 <= j < d.len() && d[j] == r[t1];
            assert(s[j] == d[j]);
            assert(s[s.len() - 1] == x);
        }
        assert forall|a: int, b: int| 0 <= a < b < t.len() implies t[a].0 < t[b].0 by {
            if b < p {
            } else if b == p {
                assert(r[a].0 <= x.0);
            } else if a < p {
                assert(r[a].0 <= x.0);
                assert(r[p].0 > x.0);
                if b - 1 > p {
                    assert(r[p].0 < r[b - 1].0);
                }
            } else if a == p {
                assert(r[p].0 > x.0);
                if b - 1 > p {
                    assert(r[p].0 < r[b - 1].0);
                }
            } else {
            }
        }
    }
}

/// Two strictly sorted sequences with the same elements are equal.
proof fn lemma_sorted_unique(s: Seq<CellModel>, t: Seq<CellModel>)
    requires
        projections_increasing(s),
        projections_increasing(t),
        s.to_multiset() == t.to_multiset(),
    ensures
        s == t,
    decreases s.len(),
{
    s.to_multiset_ensures();
    t.to_multiset_ensures();
    if s.len() == 0 {
        assert(t.len() == 0);
        assert(s =~= t);
    } else {
        assert(t.len() == s.len());
        assert(s.to_multiset().count(s[0]) > 0);
        assert(t.contains(s[0]));
        assert(t.to_multiset().count(t[0]) > 0);
        assert(s.contains(t[0]));
        let j = choose|j: int| 0 <= j < t.len() && t[j] == s[0];
        let k = choose|k: int| 0 <= k < s.len() && s[k] == t[0];
        if j > 0 {
            assert(t[0].0 < t[j].0);
            if k > 0 {
                assert(s[0].0 < s[k].0);
            }
            assert(false);
        }
        assert(s[0] == t[0]);
        let s1 = s.drop_first();
        let t1 = t.drop_first();
        vstd::seq_lib::to_multiset_remove(s, 0);
        vstd::seq_lib::to_multiset_remove(t, 0);
        assert(s.remove(0) =~= s1);
        assert(t.remove(0) =~= t1);
        assert(s1.to_multiset() == t1.to_multiset());
        lemma_sorted_unique(s1, t1);
        assert forall|i: int| 0 <= i < s.len() implies s[i] == t[i] by {
            if i > 0 {
                assert(s[i] == s1[i - 1] && t[i] == t1[i - 1]);
            }
        }
        assert(s =~= t);
    }
}

/// Reordering projections keeps a candidate's checks and its normalized form.
proof fn lemma_reordered_projections(p: Seq<CellModel>, q: Seq<CellModel>)
    requires
        p.to_multiset() == q.to_multiset(),
        !has_duplicate_projection(p),
    ensures
        !has_duplicate_projection(q),
        sort_by_projection(p) == sort_by_projection(q),
        p.len() == q.len(),
        forall|c: CellModel| p.contains(c) <==> q.contains(c),
{
    p.to_multiset_ensures();
    q.to_multiset_ensures();
    assert forall|c: CellModel| p.contains(c) <==> q.contains(c) by {
        vstd::seq_lib::to_multiset_contains(p, c);
        vstd::seq_lib::to_multiset_contains(q, c);
    }
    assert(p.no_duplicates()) by {
        assert forall|i: int, j: int| 0 <= i < p.len() && 0 <= j < p.len() && i != j implies p[i] != p[j] by {
            if p[i] == p[j] {
                if i < j {
                    assert(p[i].0 == p[j].0);
                } else {
                    assert(p[j].0 == p[i].0);
                }
            }
        }
    }
    p.lemma_multiset_has_no_duplicates();
    q.lemma_multiset_has_no_duplicates_conv();
    if has_duplicate_projection(q) {
        let (i, j) = choose|i: int, j: int| 0 <= i < j < q.len() && q[i].0 == q[j].0;
        assert(q.contains(q[i]) && q.contains(q[j]));
        let a = choose|a: int| 0 <= a < p.len() && p[a] == q[i];
        let b = choose|b: int| 0 <= b < p.len() && p[b] == q[j];
        assert(q[i] != q[j]);
        if a < b {
            assert(p[a].0 == p[b].0);
        } else {
            assert(p[b].0 == p[a].0);
        }
    }
    lemma_sort_by_projection_sorted(p);
    lemma_sort_by_projection_sorted(q);
    lemma_sort_by_projection_multiset(p);
    lemma_sort_by_projection_multiset(q);
    lemma_sorted_unique(sort_by_projection(p), sort_by_projection(q));
}

/// `b` is `a` with the projections of each candidate listed in another order.
pub open spec fn projections_reordered(a: Seq<CandidateModel>, b: Seq<CandidateModel>) -> bool {
    &&& a.len() == b.len()
    &&& forall|i: int| 0 <= i < a.len() ==> (#[trigger] b[i]) == (CandidateModel { projections: b[i].projections, ..a[i] })
        && b[i].projections.to_multiset() == a[i].projections.to_multiset()
}

/// Building is independent of the order in which each candidate lists its
/// projections: reordering them in the inputs of a successful build builds
/// the same archive.
pub proof fn lemma_build_projection_order_independent(
    directions: Seq<ObjectiveDirection>,
    capacity: nat,
    a: Seq<CandidateModel>,
    b: Seq<CandidateModel>,
)
    requires
        projections_reordered(a, b),
        build_result(directions, capacity, a) is Ok,
    ensures
        build_result(directions, capacity, b) == build_result(directions, capacity, a),
{
    let q = directions.len();
    lemma_build_accepts_valid_inputs(directions, capacity, a);
    assert forall|i: int| 0 <= i < a.len() implies normalized(#[trigger] b[i]) == normalized(a[i])
        && candidate_ok(q, b[i]) && forall|c: CellModel| a[i].projections.contains(c) <==> b[i].projections.contains(c) by {
        assert(candidate_ok(q, a[i]));
        lemma_reordered_projections(a[i].projections, b[i].projections);
    }
    assert(inputs_valid(q, b)) by {
        assert forall|i: int| 0 <= i < b.len() implies candidate_ok(q, #[trigger] b[i]) by {
            assert(normalized(b[i]) == normalized(a[i]));
        }
        assert forall|i: int, j: int| 0 <= i < b.len() && 0 <= j < b.len() implies compatible(
            #[trigger] b[i],
            #[trigger] b[j],
        ) by {
            assert(compatible(a[i], a[j]));
            assert(normalized(b[i]) == normalized(a[i]));
            assert(normalized(b[j]) == normalized(a[j]));
            assert forall|x: int, y: int|
                0 <= x < b[i].projections.len() && 0 <= y < b[j].projections.len() && (#[trigger] b[i].projections[x]).0
                    == (#[trigger] b[j].projections[y]).0 implies b[i].projections[x].1.len()
                == b[j].projections[y].1.len() by {
                assert(b[i].projections.contains(b[i].projections[x]));
                assert(b[j].projections.contains(b[j].projections[y]));
                assert(a[i].projections.contains(b[i].projections[x]));
                assert(a[j].projections.contains(b[j].projections[y]));
                let u = choose|u: int| 0 <= u < a[i].projections.len() && a[i].projections[u] == b[i].projections[x];
                let v = choose|v: int| 0 <= v < a[j].projections.len() && a[j].projections[v] == b[j].projections[y];
                assert(a[i].projections[u].0 == a[j].projections[v].0);
            }
        }
        assert forall|i: int, j: int| 0 <= i < j < b.len() implies b[i].id != b[j].id by {
            assert(b[i].id == a[i].id && b[j].id == a[j].id);
        }
    }
    lemma_build_accepts_valid_inputs(directions, capacity, b);
    let sa = scan_all(q, initial_scan(), a)->Ok_0;
    let sb = scan_all(q, initial_scan(), b)->Ok_0;
    crate::archive_spec::lemma_scan_all_accepts(q, initial_scan(), a);
    crate::archive_spec::lemma_scan_all_accepts(q, initial_scan(), b);
    assert(sa.accepted =~= sb.accepted);
    crate::archive_spec::lemma_scan_all_invariant(q, initial_scan(), a);
    crate::archive_spec::lemma_scan_all_invariant(q, initial_scan(), b);
    assert(sa.diversity == sb.diversity) by {
        if a.len() > 0 {
            assert(sa.accepted[0] == sb.accepted[0]);
        } else {
            assert(b.len() == 0);
        }
    }
    assert(build_result(directions, capacity, b) == build_result(directions, capacity, a));
}

} // verus!
