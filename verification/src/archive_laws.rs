//! Properties every cell of an archive has, stated over the cell model.
use vstd::prelude::*;

use crate::archive::{CandidateModel, ObjectiveDirection, build_result};
use crate::archive_spec::{
    ids_distinct, ids_increasing, initial_scan, lemma_scan_all_accepts, lemma_scan_all_invariant,
    lemma_sort_by_id_contents, lemma_sort_by_id_sorted, normalized, scan_all, scan_invariant,
    sort_by_id,
};
use crate::front::{
    CrowdingScore, bounded, bounded_pareto, crowding, dominated_in, evict_among, evicts_before,
    is_boundary, lemma_evict_among_range, pareto_front, score_lt, undominated, extreme, lemma_col_bounds, col_min,
    col_max, qv, front_dims,
};

verus! {

pub(crate) proof fn lemma_bounded_len(f: Seq<CandidateModel>, capacity: nat)
    requires
        capacity > 0,
    ensures
        bounded(f, capacity).len() == if f.len() <= capacity {
            f.len()
        } else {
            capacity
        },
    decreases f.len(),
{
    if f.len() > capacity && f.len() > 0 {
        lemma_evict_among_range(f, f.len() as int);
        lemma_bounded_len(f.remove(evict_among(f, f.len() as int)), capacity);
    }
}

proof fn lemma_bounded_members(f: Seq<CandidateModel>, capacity: nat)
    ensures
        forall|x: CandidateModel| bounded(f, capacity).contains(x) ==> f.contains(x),
    decreases f.len(),
{
    if f.len() > capacity && f.len() > 0 {
        lemma_evict_among_range(f, f.len() as int);
        let e = evict_among(f, f.len() as int);
        let g = f.remove(e);
        lemma_bounded_members(g, capacity);
        assert forall|x: CandidateModel| g.contains(x) implies f.contains(x) by {
            let j = choose|j: int| 0 <= j < g.len() && g[j] == x;
            if j < e {
                assert(f[j] == x);
            } else {
                assert(f[j + 1] == x);
            }
        }
    }
}

/// Each cell keeps a bounded Pareto front: at most `capacity` elites, none
/// of them dominated by another member of the cell, and the whole front when
/// it fits.
pub proof fn lemma_cell_elites_bounded_front(
    members: Seq<CandidateModel>,
    directions: Seq<ObjectiveDirection>,
    capacity: nat,
)
    requires
        capacity > 0,
    ensures
        bounded_pareto(members, directions, capacity).len() <= capacity,
        forall|x: CandidateModel|
            #[trigger] bounded_pareto(members, directions, capacity).contains(x) ==> members.contains(x)
                && !dominated_in(x, members, directions),
        pareto_front(members, directions).len() <= capacity ==> bounded_pareto(members, directions, capacity)
            == pareto_front(members, directions),
{
    let front = pareto_front(members, directions);
    let pred = undominated(members, directions);
    lemma_bounded_len(front, capacity);
    lemma_bounded_members(front, capacity);
    assert forall|x: CandidateModel|
        #[trigger] bounded_pareto(members, directions, capacity).contains(x) implies members.contains(x)
        && !dominated_in(x, members, directions) by {
        assert(front.contains(x));
        let k = choose|k: int| 0 <= k < front.len() && front[k] == x;
        members.lemma_filter_pred(pred, k);
        lemma_filter_member(members, pred, x);
    }
}

proof fn lemma_filter_member(s: Seq<CandidateModel>, pred: spec_fn(CandidateModel) -> bool, x: CandidateModel)
    requires
        s.filter(pred).contains(x),
    ensures
        s.contains(x),
    decreases s.len(),
{
    reveal(Seq::filter);
    if s.len() > 0 {
        if pred(s.last()) && x == s.last() {
            assert(s[s.len() - 1] == x);
        } else {
            if pred(s.last()) {
                let f = s.drop_last().filter(pred);
                let k = choose|k: int| 0 <= k < s.filter(pred).len() && s.filter(pred)[k] == x;
                assert(s.filter(pred) == f.push(s.last()));
                if k < f.len() {
                    assert(f[k] == x);
                    assert(f.contains(x));
                } else {
                    assert(x == s.last());
                }
            }
            lemma_filter_member(s.drop_last(), pred, x);
            let j = choose|j: int| 0 <= j < s.drop_last().len() && s.drop_last()[j] == x;
            assert(s[j] == x);
        }
    }
}

proof fn lemma_evict_among_minimal(f: Seq<CandidateModel>, n: int)
    requires
        1 <= n <= f.len(),
    ensures
        forall|j: int| 0 <= j < n ==> !evicts_before(f, j, #[trigger] evict_among(f, n)) || j == evict_among(f, n),
    decreases n,
{
    if n > 1 {
        lemma_evict_among_minimal(f, n - 1);
        lemma_evict_among_range(f, n - 1);
        let b = evict_among(f, n - 1);
        let e = evict_among(f, n);
        if e == n - 1 {
            assert forall|j: int| 0 <= j < n implies !evicts_before(f, j, e) || j == e by {
                if j < n - 1 && evicts_before(f, j, e) {
                    lemma_evicts_before_transitive(f, j, n - 1, b);
                }
            }
        }
    }
}

proof fn lemma_evicts_before_transitive(f: Seq<CandidateModel>, a: int, b: int, c: int)
    requires
        evicts_before(f, a, b),
        evicts_before(f, b, c),
    ensures
        evicts_before(f, a, c),
{
}

/// One eviction step removes the least crowded member, breaking equal
/// crowding by evicting the larger identifier; a member holding an extreme
/// quality coordinate is evicted only when every member does.
pub proof fn lemma_eviction_choice(f: Seq<CandidateModel>)
    requires
        f.len() >= 1,
    ensures
        0 <= evict_among(f, f.len() as int) < f.len(),
        forall|j: int|
            0 <= j < f.len() && j != evict_among(f, f.len() as int) ==> !#[trigger] evicts_before(
                f,
                j,
                evict_among(f, f.len() as int),
            ),
        is_boundary(f, evict_among(f, f.len() as int)) ==> forall|j: int|
            0 <= j < f.len() ==> #[trigger] is_boundary(f, j),
{
    let n = f.len() as int;
    lemma_evict_among_range(f, n);
    lemma_evict_among_minimal(f, n);
    let e = evict_among(f, n);
    if is_boundary(f, e) {
        assert forall|j: int| 0 <= j < n implies #[trigger] is_boundary(f, j) by {
            if !is_boundary(f, j) {
                assert(crowding(f, e) == CrowdingScore::Boundary);
                assert(score_lt(crowding(f, j), crowding(f, e)));
                assert(evicts_before(f, j, e));
            }
        }
    }
}

/// Two identifier-increasing sequences with the same members are equal.
proof fn lemma_increasing_unique(s: Seq<CandidateModel>, t: Seq<CandidateModel>)
    requires
        ids_increasing(s),
        ids_increasing(t),
        forall|x: CandidateModel| s.contains(x) <==> t.contains(x),
    ensures
        s == t,
    decreases s.len() + t.len(),
{
    if s.len() == 0 {
        if t.len() > 0 {
            assert(t.contains(t[0]));
        }
        assert(s =~= t);
    } else if t.len() == 0 {
        assert(s.contains(s[0]));
    } else {
        assert(s.contains(s[0]));
        assert(t.contains(t[0]));
        let i = choose|i: int| 0 <= i < s.len() && s[i] == t[0];
        let k = choose|k: int| 0 <= k < t.len() && t[k] == s[0];
        if i > 0 {
            assert(s[0].id < s[i].id);
            if k > 0 {
                assert(t[0].id < t[k].id);
            }
        }
        if k > 0 {
            assert(t[0].id < t[k].id);
        }
        assert(s[0] == t[0]);
        let s1 = s.drop_first();
        let t1 = t.drop_first();
        assert forall|x: CandidateModel| s1.contains(x) <==> t1.contains(x) by {
            if s1.contains(x) {
                let a = choose|a: int| 0 <= a < s1.len() && s1[a] == x;
                assert(s[a + 1] == x);
                assert(t.contains(x));
                let b = choose|b: int| 0 <= b < t.len() && t[b] == x;
                if b == 0 {
                    assert(s[0].id < s[a + 1].id);
                }
                assert(t1[b - 1] == x);
            }
            if t1.contains(x) {
                let a = choose|a: int| 0 <= a < t1.len() && t1[a] == x;
                assert(t[a + 1] == x);
                assert(s.contains(x));
                let b = choose|b: int| 0 <= b < s.len() && s[b] == x;
                if b == 0 {
                    assert(t[0].id < t[a + 1].id);
                }
                assert(s1[b - 1] == x);
            }
        }
        lemma_increasing_unique(s1, t1);
        assert(s =~= t) by {
            assert forall|j: int| 0 <= j < s.len() implies s[j] == t[j] by {
                if j > 0 {
                    assert(s[j] == s1[j - 1]);
                    assert(t[j] == t1[j - 1]);
                }
            }
        }
    }
}

/// Two successful builds from reorderings of the same candidates are equal.
pub(crate) proof fn lemma_accepted_builds_agree(
    directions: Seq<ObjectiveDirection>,
    capacity: nat,
    a: Seq<CandidateModel>,
    b: Seq<CandidateModel>,
)
    requires
        a.to_multiset() == b.to_multiset(),
        build_result(directions, capacity, a) is Ok,
        build_result(directions, capacity, b) is Ok,
    ensures
        build_result(directions, capacity, a) == build_result(directions, capacity, b),
{
    broadcast use vstd::seq_lib::group_to_multiset_ensures;

    a.to_multiset_ensures();
    b.to_multiset_ensures();
    let q = directions.len();
    let sa = scan_all(q, initial_scan(), a)->Ok_0;
    let sb = scan_all(q, initial_scan(), b)->Ok_0;
    lemma_scan_all_accepts(q, initial_scan(), a);
    lemma_scan_all_accepts(q, initial_scan(), b);
    assert(scan_invariant(q, initial_scan()));
    lemma_scan_all_invariant(q, initial_scan(), a);
    lemma_scan_all_invariant(q, initial_scan(), b);
    let na = |c: CandidateModel| normalized(c);
    assert(sa.accepted =~= a.map_values(na));
    assert(sb.accepted =~= b.map_values(na));
    assert(a.len() == b.len()) by {
        assert(a.len() == a.to_multiset().len());
        assert(b.len() == b.to_multiset().len());
    }
    assert forall|x: CandidateModel| sa.accepted.contains(x) <==> sb.accepted.contains(x) by {
        if sa.accepted.contains(x) {
            let i = choose|i: int| 0 <= i < sa.accepted.len() && sa.accepted[i] == x;
            assert(a.contains(a[i]));
            assert(a.to_multiset().count(a[i]) > 0);
            assert(b.to_multiset().count(a[i]) > 0);
            assert(b.contains(a[i]));
            let j = choose|j: int| 0 <= j < b.len() && b[j] == a[i];
            assert(sb.accepted[j] == x);
        }
        if sb.accepted.contains(x) {
            let i = choose|i: int| 0 <= i < sb.accepted.len() && sb.accepted[i] == x;
            assert(b.contains(b[i]));
            assert(b.to_multiset().count(b[i]) > 0);
            assert(a.to_multiset().count(b[i]) > 0);
            assert(a.contains(b[i]));
            let j = choose|j: int| 0 <= j < a.len() && a[j] == b[i];
            assert(sa.accepted[j] == x);
        }
    }
    lemma_sort_by_id_contents(sa.accepted);
    lemma_sort_by_id_contents(sb.accepted);
    lemma_sort_by_id_sorted(sa.accepted);
    lemma_sort_by_id_sorted(sb.accepted);
    assert forall|x: CandidateModel| sort_by_id(sa.accepted).contains(x) <==> sort_by_id(sb.accepted).contains(x) by {
        assert(sort_by_id(sa.accepted).contains(x) == sa.accepted.contains(x));
        assert(sort_by_id(sb.accepted).contains(x) == sb.accepted.contains(x));
    }
    lemma_increasing_unique(sort_by_id(sa.accepted), sort_by_id(sb.accepted));
    if a.len() > 0 {
        assert(sa.accepted.contains(sa.accepted[0]));
        let j = choose|j: int| 0 <= j < sb.accepted.len() && sb.accepted[j] == sa.accepted[0];
        assert(sa.diversity == sb.diversity);
    } else {
        assert(sa == initial_scan());
        assert(sb == initial_scan());
    }
}

/// A front one member over capacity keeps all but one member `e`, and `e`
/// is the least crowded: no member has a smaller finite crowding score (the
/// saturated sum of its range-normalized neighbour gaps), a member with a
/// finite score is never kept in preference to a boundary member, and among
/// equally crowded members `e` has the largest identifier.
pub proof fn lemma_least_crowded_evicted(f: Seq<CandidateModel>)
    requires
        f.len() >= 1,
    ensures
        ({
            let e = evict_among(f, f.len() as int);
            &&& 0 <= e < f.len()
            &&& bounded(f, (f.len() - 1) as nat) == f.remove(e)
            &&& forall|j: int| 0 <= j < f.len() ==> match (crowding(f, e), #[trigger] crowding(f, j)) {
                (CrowdingScore::Finite(y), CrowdingScore::Finite(x)) => y <= x && (y == x ==> f[e].id >= f[j].id),
                (CrowdingScore::Finite(_), CrowdingScore::Boundary) => true,
                (CrowdingScore::Boundary, CrowdingScore::Finite(_)) => false,
                (CrowdingScore::Boundary, CrowdingScore::Boundary) => f[e].id >= f[j].id,
            }
        }),
{
    let e = evict_among(f, f.len() as int);
    lemma_eviction_choice(f);
    lemma_evict_among_range(f, f.len() as int);
    assert(f.remove(e).len() == f.len() - 1);
    assert(bounded(f.remove(e), (f.len() - 1) as nat) == f.remove(e));
    assert(bounded(f, (f.len() - 1) as nat) == bounded(f.remove(e), (f.len() - 1) as nat));
    assert forall|j: int| 0 <= j < f.len() implies match (crowding(f, e), #[trigger] crowding(f, j)) {
        (CrowdingScore::Finite(y), CrowdingScore::Finite(x)) => y <= x && (y == x ==> f[e].id >= f[j].id),
        (CrowdingScore::Finite(_), CrowdingScore::Boundary) => true,
        (CrowdingScore::Boundary, CrowdingScore::Finite(_)) => false,
        (CrowdingScore::Boundary, CrowdingScore::Boundary) => f[e].id >= f[j].id,
    } by {
        if j != e {
            assert(!evicts_before(f, j, e));
        }
    }
}

/// Member `i` holds the least or the greatest value of quality coordinate
/// `d` over the front, and that coordinate is not constant.
pub open spec fn holds_column_extreme(f: Seq<CandidateModel>, i: int, d: int) -> bool {
    &&& exists|j: int, k: int| 0 <= j < f.len() && 0 <= k < f.len() && #[trigger] f[j].quality[d] != #[trigger] f[k].quality[d]
    &&& (forall|j: int| 0 <= j < f.len() ==> f[i].quality[d] <= #[trigger] f[j].quality[d])
        || (forall|j: int| 0 <= j < f.len() ==> f[i].quality[d] >= #[trigger] f[j].quality[d])
}

/// The members protected from eviction are exactly those holding the least
/// or greatest value of some non-constant quality coordinate.
pub proof fn lemma_boundary_is_column_extreme(f: Seq<CandidateModel>, i: int)
    requires
        0 <= i < f.len(),
    ensures
        is_boundary(f, i) <==> exists|d: int| 0 <= d < f[0].quality.len() && #[trigger] holds_column_extreme(f, i, d),
{
    let n = f.len() as int;
    assert forall|d: int| extreme(f, i, d) <==> #[trigger] holds_column_extreme(f, i, d) by {
        lemma_col_bounds(f, d, n);
        let lo = col_min(f, d, n);
        let hi = col_max(f, d, n);
        let a = choose|k: int| 0 <= k < n && qv(f, k, d) == lo;
        let b = choose|k: int| 0 <= k < n && qv(f, k, d) == hi;
        assert(qv(f, i, d) == f[i].quality[d]);
        if extreme(f, i, d) {
            assert(f[a].quality[d] != f[b].quality[d]);
            if qv(f, i, d) == lo {
                assert forall|j: int| 0 <= j < f.len() implies f[i].quality[d] <= #[trigger] f[j].quality[d] by {
                    assert(lo <= qv(f, j, d));
                }
            } else {
                assert forall|j: int| 0 <= j < f.len() implies f[i].quality[d] >= #[trigger] f[j].quality[d] by {
                    assert(qv(f, j, d) <= hi);
                }
            }
        }
        if holds_column_extreme(f, i, d) {
            let (j, k) = choose|j: int, k: int| 0 <= j < f.len() && 0 <= k < f.len() && #[trigger] f[j].quality[d] != #[trigger] f[k].quality[d];
            assert(lo <= qv(f, j, d) <= hi && lo <= qv(f, k, d) <= hi);
            if forall|j: int| 0 <= j < f.len() ==> f[i].quality[d] <= #[trigger] f[j].quality[d] {
                assert(f[i].quality[d] <= f[a].quality[d]);
            } else {
                assert(f[i].quality[d] >= f[b].quality[d]);
            }
        }
    }
    if is_boundary(f, i) {
        let d = choose|d: int| 0 <= d < front_dims(f) && extreme(f, i, d);
        assert(holds_column_extreme(f, i, d));
    }
    if exists|d: int| 0 <= d < f[0].quality.len() && #[trigger] holds_column_extreme(f, i, d) {
        let d = choose|d: int| 0 <= d < f[0].quality.len() && #[trigger] holds_column_extreme(f, i, d);
        assert(extreme(f, i, d));
    }
}

} // verus!
