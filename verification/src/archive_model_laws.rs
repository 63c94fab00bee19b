//! What every successfully built archive holds, stated over its model: the
//! accessors' values agree with one another and with the cells.
use vstd::prelude::*;

use crate::archive::{CandidateModel, ObjectiveDirection, build_result};
use crate::archive_laws::{lemma_bounded_len, lemma_cell_elites_bounded_front};
use crate::archive::lemma_filter_preserves_increasing;
use crate::archive_spec::{
    cell_elites, cell_members, collect_cells, elite_in, elite_keys, has_cell, ids_increasing, initial_scan,
    lemma_scan_all_accepts, lemma_scan_all_invariant, lemma_sort_by_id_contents, lemma_sort_by_id_sorted,
    retained, scan_all, sort_by_id, survives,
};
use crate::front::{
    bounded, bounded_pareto, directed_sign, dominated_in, dominates, evict_among, ids_of, lemma_evict_among_range,
    pareto_front, undominated,
};

verus! {

proof fn lemma_bounded_increasing(f: Seq<CandidateModel>, capacity: nat)
    requires
        ids_increasing(f),
    ensures
        ids_increasing(bounded(f, capacity)),
        forall|x: CandidateModel| bounded(f, capacity).contains(x) ==> f.contains(x),
    decreases f.len(),
{
    if f.len() > capacity && f.len() > 0 {
        lemma_evict_among_range(f, f.len() as int);
        let e = evict_among(f, f.len() as int);
        let g = f.remove(e);
        assert(ids_increasing(g)) by {
            assert forall|i: int, j: int| 0 <= i < j < g.len() implies g[i].id < g[j].id by {
                let fi = if i < e { i } else { i + 1 };
                let fj = if j < e { j } else { j + 1 };
                assert(g[i] == f[fi] && g[j] == f[fj]);
            }
        }
        lemma_bounded_increasing(g, capacity);
        assert forall|x: CandidateModel| g.contains(x) implies f.contains(x) by {
            let j = choose|j: int| 0 <= j < g.len() && g[j] == x;
            if j < e {
                assert(f[j] == x);
            } else {
                assert(f[j + 1] == x);
            }
        }
    }
}

proof fn lemma_filter_increasing(s: Seq<CandidateModel>, pred: spec_fn(CandidateModel) -> bool)
    requires
        ids_increasing(s),
    ensures
        ids_increasing(s.filter(pred)),
{
    assert forall|a: int, b: int| 0 <= a < b < s.filter(pred).len() implies s.filter(pred)[a].id < s.filter(
        pred,
    )[b].id by {
        lemma_filter_preserves_increasing(s, pred, a, b);
    }
}

/// A successfully built archive:
/// - retains its candidates in strictly ascending identifier order, counts
///   every submitted candidate, and its summary counts what it holds;
/// - has one cell per distinct projected cell of the candidates, each cell
///   holding at most `capacity` elites in strictly ascending identifier
///   order, every one of them a retained candidate;
/// - retains a candidate exactly when some cell holds it among its elites,
///   and lists for each retained candidate, in its order, the cells that do.
pub proof fn lemma_built_archive(directions: Seq<ObjectiveDirection>, capacity: nat, inputs: Seq<CandidateModel>)
    requires
        build_result(directions, capacity, inputs) is Ok,
    ensures
        ({
            let m = build_result(directions, capacity, inputs)->Ok_0;
            &&& ids_increasing(m.candidates)
            &&& m.submitted_candidates == inputs.len()
            &&& m.retained_candidates == m.candidates.len()
            &&& m.cell_count == m.cells.len()
            &&& forall|i: int| 0 <= i < m.cells.len() ==> (#[trigger] m.cells[i]).1.len() <= capacity
            &&& forall|i: int, a: int, b: int|
                0 <= i < m.cells.len() && 0 <= a < b < m.cells[i].1.len() ==> #[trigger] m.cells[i].1[a]
                    < #[trigger] m.cells[i].1[b]
            &&& forall|i: int, a: int|
                0 <= i < m.cells.len() && 0 <= a < m.cells[i].1.len() ==> exists|c: int|
                    0 <= c < m.candidates.len() && (#[trigger] m.candidates[c]).id == #[trigger] m.cells[i].1[a]
            &&& forall|c: int|
                0 <= c < m.candidates.len() ==> exists|i: int|
                    0 <= i < m.cells.len() && (#[trigger] m.cells[i]).1.contains(#[trigger] m.candidates[c].id)
            &&& m.elite_cells.len() == m.candidates.len()
            &&& forall|c: int| 0 <= c < m.candidates.len() ==> (#[trigger] m.elite_cells[c]).0 == m.candidates[c].id
            &&& forall|c: int, i: int|
                0 <= c < m.candidates.len() && 0 <= i < m.cells.len() ==> (#[trigger] m.elite_cells[c].1.contains(
                    m.cells[i].0,
                ) <==> #[trigger] m.cells[i].1.contains(m.candidates[c].id))
        }),
{
    let st = scan_all(directions.len(), initial_scan(), inputs)->Ok_0;
    lemma_scan_all_invariant(directions.len(), initial_scan(), inputs);
    lemma_scan_all_accepts(directions.len(), initial_scan(), inputs);
    assert(st.accepted =~= Seq::<CandidateModel>::empty() + inputs.map_values(
        |c: CandidateModel| crate::archive_spec::normalized(c),
    ));
    let stored = sort_by_id(st.accepted);
    lemma_sort_by_id_contents(st.accepted);
    lemma_sort_by_id_sorted(st.accepted);
    let keys = collect_cells(stored);
    let surv = survives(stored, keys, directions, capacity);
    let kept = retained(stored, keys, directions, capacity);
    let m = build_result(directions, capacity, inputs)->Ok_0;
    assert(m.candidates == kept);
    lemma_filter_increasing(stored, surv);
    assert forall|i: int| 0 <= i < m.cells.len() implies (#[trigger] m.cells[i]).1.len() <= capacity && ids_increasing(
        bounded_pareto(cell_members(stored, keys[i]), directions, capacity),
    ) && m.cells[i].1 == ids_of(bounded_pareto(cell_members(stored, keys[i]), directions, capacity)) by {
        let members = cell_members(stored, keys[i]);
        lemma_cell_elites_bounded_front(members, directions, capacity);
        lemma_filter_increasing(stored, has_cell(keys[i]));
        lemma_filter_increasing(members, undominated(members, directions));
        lemma_bounded_increasing(pareto_front(members, directions), capacity);
    }
    assert forall|i: int, a: int, b: int|
        0 <= i < m.cells.len() && 0 <= a < b < m.cells[i].1.len() implies #[trigger] m.cells[i].1[a]
        < #[trigger] m.cells[i].1[b] by {
        let f = bounded_pareto(cell_members(stored, keys[i]), directions, capacity);
        assert(m.cells[i].1[a] == f[a].id && m.cells[i].1[b] == f[b].id);
    }
    assert forall|i: int, a: int|
        0 <= i < m.cells.len() && 0 <= a < m.cells[i].1.len() implies exists|c: int|
        0 <= c < m.candidates.len() && (#[trigger] m.candidates[c]).id == #[trigger] m.cells[i].1[a] by {
        let k = keys[i];
        let members = cell_members(stored, k);
        let f = bounded_pareto(members, directions, capacity);
        lemma_cell_elites_bounded_front(members, directions, capacity);
        let x = f[a];
        assert(f.contains(x));
        assert(members.contains(x));
        stored.lemma_filter_contains_rev(has_cell(k), x);
        assert(cell_elites(stored, k, directions, capacity) == ids_of(f));
        assert(ids_of(f)[a] == x.id);
        assert(elite_in(stored, x.id, directions, capacity)(k));
        assert(keys.contains(k));
        let ki = i;
        keys.lemma_filter_contains(elite_in(stored, x.id, directions, capacity), ki);
        assert(elite_keys(stored, keys, x.id, directions, capacity).len() > 0);
        assert(surv(x));
        let si = choose|si: int| 0 <= si < stored.len() && stored[si] == x;
        stored.lemma_filter_contains(surv, si);
        let c = choose|c: int| 0 <= c < kept.len() && kept[c] == x;
        assert(m.candidates[c].id == m.cells[i].1[a]);
    }
    assert forall|c: int| 0 <= c < m.candidates.len() implies exists|i: int|
        0 <= i < m.cells.len() && (#[trigger] m.cells[i]).1.contains(#[trigger] m.candidates[c].id) by {
        let x = kept[c];
        assert(kept.contains(x));
        stored.lemma_filter_contains_rev(surv, x);
        let ek = elite_keys(stored, keys, x.id, directions, capacity);
        assert(ek.len() > 0);
        assert(ek.contains(ek[0]));
        keys.lemma_filter_contains_rev(elite_in(stored, x.id, directions, capacity), ek[0]);
        let i = choose|i: int| 0 <= i < keys.len() && keys[i] == ek[0];
        assert(m.cells[i].1 == cell_elites(stored, keys[i], directions, capacity));
    }
    assert forall|c: int, i: int|
        0 <= c < m.candidates.len() && 0 <= i < m.cells.len() implies (#[trigger] m.elite_cells[c].1.contains(
        m.cells[i].0,
    ) <==> #[trigger] m.cells[i].1.contains(m.candidates[c].id)) by {
        let id = kept[c].id;
        let pred = elite_in(stored, id, directions, capacity);
        assert(m.elite_cells[c].1 == keys.filter(pred));
        assert(m.cells[i].0 == keys[i]);
        if m.cells[i].1.contains(id) {
            assert(pred(keys[i]));
            keys.lemma_filter_contains(pred, i);
        }
        if keys.filter(pred).contains(keys[i]) {
            keys.lemma_filter_contains_rev(pred, keys[i]);
        }
    }
}


proof fn lemma_dominates_transitive(a: Seq<i64>, b: Seq<i64>, c: Seq<i64>, d: Seq<ObjectiveDirection>)
    requires
        a.len() == d.len(),
        b.len() == d.len(),
        c.len() == d.len(),
        dominates(a, b, d),
        dominates(b, c, d),
    ensures
        dominates(a, c, d),
{
    assert forall|k: int| 0 <= k < d.len() implies directed_sign(a[k], c[k], d[k]) >= 0 by {
        assert(directed_sign(a[k], b[k], d[k]) >= 0);
        assert(directed_sign(b[k], c[k], d[k]) >= 0);
    }
    let k = choose|k: int| 0 <= k < d.len() && directed_sign(a[k], b[k], d[k]) > 0;
    assert(directed_sign(b[k], c[k], d[k]) >= 0);
    assert(directed_sign(a[k], c[k], d[k]) > 0);
}

proof fn lemma_dominates_asymmetric(a: Seq<i64>, b: Seq<i64>, d: Seq<ObjectiveDirection>)
    requires
        a.len() == d.len(),
        b.len() == d.len(),
        dominates(a, b, d),
    ensures
        !dominates(b, a, d),
{
    let k = choose|k: int| 0 <= k < d.len() && directed_sign(a[k], b[k], d[k]) > 0;
    assert(directed_sign(b[k], a[k], d[k]) < 0);
}

/// Among candidates with distinct identifiers and full-length quality
/// vectors, some candidate is dominated by no other.
proof fn lemma_some_undominated(s: Seq<CandidateModel>, d: Seq<ObjectiveDirection>)
    requires
        s.len() > 0,
        ids_increasing(s),
        forall|i: int| 0 <= i < s.len() ==> (#[trigger] s[i]).quality.len() == d.len(),
    ensures
        exists|i: int| 0 <= i < s.len() && !dominated_in(#[trigger] s[i], s, d),
    decreases s.len(),
{
    let n = s.len() as int;
    let y = s[n - 1];
    if n == 1 {
        assert(!dominated_in(s[0], s, d));
    } else {
        let p = s.drop_last();
        lemma_some_undominated(p, d);
        let xi = choose|i: int| 0 <= i < p.len() && !dominated_in(#[trigger] p[i], p, d);
        let x = p[xi];
        assert(s[xi] == x);
        if !dominates(y.quality, x.quality, d) {
            assert(!dominated_in(x, s, d)) by {
                if dominated_in(x, s, d) {
                    let j = choose|j: int| 0 <= j < s.len() && s[j].id != x.id && dominates(s[j].quality, x.quality, d);
                    assert(j < n - 1);
                    assert(p[j] == s[j]);
                }
            }
            assert(!dominated_in(s[xi], s, d));
        } else {
            assert(!dominated_in(y, s, d)) by {
                if dominated_in(y, s, d) {
                    let j = choose|j: int| 0 <= j < s.len() && s[j].id != y.id && dominates(s[j].quality, y.quality, d);
                    assert(j < n - 1);
                    assert(p[j] == s[j]);
                    lemma_dominates_transitive(s[j].quality, y.quality, x.quality, d);
                    if s[j].id == x.id {
                        assert(j == xi);
                        lemma_dominates_asymmetric(x.quality, y.quality, d);
                    } else {
                        assert(dominated_in(x, p, d));
                    }
                }
            }
            assert(!dominated_in(s[n - 1], s, d));
        }
    }
}

/// Cell `i` of the built archive keeps a bounded Pareto front of the
/// candidates projected into it.
pub open spec fn cell_is_bounded_front(
    directions: Seq<ObjectiveDirection>,
    capacity: nat,
    inputs: Seq<CandidateModel>,
    i: int,
) -> bool {
    let st = scan_all(directions.len(), initial_scan(), inputs)->Ok_0;
    let stored = sort_by_id(st.accepted);
    let m = build_result(directions, capacity, inputs)->Ok_0;
    let members = cell_members(stored, m.cells[i].0);
    let front = pareto_front(members, directions);
    &&& m.cells[i].1.len() > 0
    &&& m.cells[i].1.len() == if front.len() <= capacity { front.len() } else { capacity }
    &&& m.cells[i].1 == ids_of(bounded_pareto(members, directions, capacity))
    &&& forall|x: CandidateModel| #[trigger] bounded_pareto(members, directions, capacity).contains(x)
        ==> members.contains(x) && !dominated_in(x, members, directions)
    &&& front.len() <= capacity ==> m.cells[i].1 == ids_of(front)
}

/// Every cell of a successfully built archive keeps a bounded Pareto front
/// of the candidates projected into it: at least one elite and at most
/// `capacity`, in ascending identifier order; each elite a member of the
/// cell that no other member dominates; as many elites as the front has,
/// up to `capacity`; and the whole front when it fits.
pub proof fn lemma_built_cells_are_bounded_fronts(
    directions: Seq<ObjectiveDirection>,
    capacity: nat,
    inputs: Seq<CandidateModel>,
)
    requires
        build_result(directions, capacity, inputs) is Ok,
    ensures
        forall|i: int| 0 <= i < build_result(directions, capacity, inputs)->Ok_0.cells.len()
            ==> #[trigger] cell_is_bounded_front(directions, capacity, inputs, i),
{
    let st = scan_all(directions.len(), initial_scan(), inputs)->Ok_0;
    lemma_scan_all_invariant(directions.len(), initial_scan(), inputs);
    let stored = sort_by_id(st.accepted);
    lemma_sort_by_id_contents(st.accepted);
    lemma_sort_by_id_sorted(st.accepted);
    let keys = collect_cells(stored);
    crate::archive_spec::lemma_collect_cells(stored);
    let m = build_result(directions, capacity, inputs)->Ok_0;
    assert forall|i: int| 0 <= i < m.cells.len() implies #[trigger] cell_is_bounded_front(
        directions,
        capacity,
        inputs,
        i,
    ) by {
        let k = keys[i];
        assert(m.cells[i].0 == k);
        let members = cell_members(stored, k);
        let front = pareto_front(members, directions);
        assert(m.cells[i].1 == cell_elites(stored, k, directions, capacity));
        lemma_cell_elites_bounded_front(members, directions, capacity);
        lemma_bounded_len(front, capacity);
        assert(keys.contains(k));
        let j = choose|j: int| 0 <= j < stored.len() && (#[trigger] stored[j]).projections.contains(k);
        stored.lemma_filter_contains(has_cell(k), j);
        assert(members.len() > 0);
        lemma_filter_increasing(stored, has_cell(k));
        assert forall|t: int| 0 <= t < members.len() implies (#[trigger] members[t]).quality.len() == directions.len() by {
            assert(members.contains(members[t]));
            stored.lemma_filter_contains_rev(has_cell(k), members[t]);
            assert(stored.contains(members[t]));
            assert(st.accepted.contains(members[t]));
            let a = choose|a: int| 0 <= a < st.accepted.len() && st.accepted[a] == members[t];
            assert(st.accepted[a].quality.len() == directions.len());
        }
        lemma_some_undominated(members, directions);
        let u = choose|u: int| 0 <= u < members.len() && !dominated_in(#[trigger] members[u], members, directions);
        members.lemma_filter_contains(undominated(members, directions), u);
        assert(front.len() > 0);
    }
}

} // verus!
