//! Diversity coordinates never influence archiving: they are validated, and
//! fix the archive's diversity dimension, but which cells exist, which
//! candidates they keep, and what the summary counts do not depend on them.
use vstd::prelude::*;

use crate::archive::{CandidateModel, ObjectiveDirection, archive_model, build_result, expected_cells};
use crate::archive_order::{candidate_ok, compatible, inputs_valid, lemma_build_accepts_valid_inputs};
use crate::archive_spec::{
    cell_elites, cell_members, collect_cells, elite_in, elite_keys, has_cell, id_insert_pos,
    initial_scan, lemma_id_insert_pos, lemma_scan_all_accepts, lemma_scan_all_invariant, normalized, placements,
    retained, scan_all, sort_by_id, survives,
};
use crate::cell_order::CellModel;
use crate::front::{
    before, bounded, bounded_pareto, col_max, col_min, col_range, crowding, dominated_in, evict_among,
    evicts_before, extreme, front_dims, gap_sum, ids_of, is_boundary, lemma_evict_among_range, normalized_gap,
    pareto_front, pred_val, qv, succ_val, undominated,
};

verus! {

broadcast use vstd::seq_lib::group_seq_properties;

/// The candidate without its diversity coordinates.
pub open spec fn strip(c: CandidateModel) -> CandidateModel {
    CandidateModel { diversity: Seq::empty(), ..c }
}

/// Every candidate without its diversity coordinates.
pub open spec fn strip_all(s: Seq<CandidateModel>) -> Seq<CandidateModel> {
    s.map_values(|c: CandidateModel| strip(c))
}

proof fn lemma_col_strip(f: Seq<CandidateModel>, d: int, n: int)
    requires
        1 <= n <= f.len(),
    ensures
        col_min(strip_all(f), d, n) == col_min(f, d, n),
        col_max(strip_all(f), d, n) == col_max(f, d, n),
    decreases n,
{
    let g = strip_all(f);
    assert(qv(g, 0, d) == qv(f, 0, d));
    assert(qv(g, n - 1, d) == qv(f, n - 1, d));
    if n > 1 {
        lemma_col_strip(f, d, n - 1);
    }
}

proof fn lemma_neighbours_strip(f: Seq<CandidateModel>, i: int, d: int, n: int)
    requires
        0 <= n <= f.len(),
        0 <= i < f.len(),
    ensures
        pred_val(strip_all(f), i, d, n) == pred_val(f, i, d, n),
        succ_val(strip_all(f), i, d, n) == succ_val(f, i, d, n),
    decreases n,
{
    if n > 0 {
        let g = strip_all(f);
        lemma_neighbours_strip(f, i, d, n - 1);
        assert(qv(g, n - 1, d) == qv(f, n - 1, d));
        assert(qv(g, i, d) == qv(f, i, d));
        assert(g[n - 1].id == f[n - 1].id && g[i].id == f[i].id);
        assert(before(g, n - 1, i, d) == before(f, n - 1, i, d));
        assert(before(g, i, n - 1, d) == before(f, i, n - 1, d));
    }
}

proof fn lemma_gap_strip(f: Seq<CandidateModel>, i: int, d: int)
    requires
        0 <= i < f.len(),
    ensures
        col_range(strip_all(f), d) == col_range(f, d),
        extreme(strip_all(f), i, d) == extreme(f, i, d),
        normalized_gap(strip_all(f), i, d) == normalized_gap(f, i, d),
{
    let g = strip_all(f);
    lemma_col_strip(f, d, f.len() as int);
    lemma_neighbours_strip(f, i, d, f.len() as int);
    assert(qv(g, i, d) == qv(f, i, d));
}

proof fn lemma_gap_sum_strip(f: Seq<CandidateModel>, i: int, k: int)
    requires
        0 <= i < f.len(),
    ensures
        gap_sum(strip_all(f), i, k) == gap_sum(f, i, k),
    decreases k,
{
    if k > 0 {
        lemma_gap_sum_strip(f, i, k - 1);
        lemma_gap_strip(f, i, k - 1);
    }
}

proof fn lemma_crowding_strip(f: Seq<CandidateModel>, i: int)
    requires
        0 <= i < f.len(),
    ensures
        crowding(strip_all(f), i) == crowding(f, i),
{
    let g = strip_all(f);
    assert(front_dims(g) == front_dims(f));
    assert(is_boundary(g, i) == is_boundary(f, i)) by {
        if is_boundary(f, i) {
            let d = choose|d: int| 0 <= d < front_dims(f) && extreme(f, i, d);
            lemma_gap_strip(f, i, d);
        }
        if is_boundary(g, i) {
            let d = choose|d: int| 0 <= d < front_dims(g) && extreme(g, i, d);
            lemma_gap_strip(f, i, d);
        }
    }
    lemma_gap_sum_strip(f, i, front_dims(f));
}

proof fn lemma_evict_strip(f: Seq<CandidateModel>, n: int)
    requires
        1 <= n <= f.len(),
    ensures
        evict_among(strip_all(f), n) == evict_among(f, n),
    decreases n,
{
    if n > 1 {
        let g = strip_all(f);
        lemma_evict_strip(f, n - 1);
        lemma_evict_among_range(f, n - 1);
        let b = evict_among(f, n - 1);
        lemma_crowding_strip(f, n - 1);
        lemma_crowding_strip(f, b);
        assert(g[n - 1].id == f[n - 1].id && g[b].id == f[b].id);
        assert(evicts_before(g, n - 1, b) == evicts_before(f, n - 1, b));
    }
}

proof fn lemma_bounded_strip(f: Seq<CandidateModel>, capacity: nat)
    ensures
        bounded(strip_all(f), capacity) == strip_all(bounded(f, capacity)),
    decreases f.len(),
{
    if f.len() > capacity && f.len() > 0 {
        let g = strip_all(f);
        lemma_evict_strip(f, f.len() as int);
        lemma_evict_among_range(f, f.len() as int);
        let e = evict_among(f, f.len() as int);
        assert(g.remove(e) =~= strip_all(f.remove(e)));
        lemma_bounded_strip(f.remove(e), capacity);
    }
}

proof fn lemma_filter_strip(s: Seq<CandidateModel>, p: spec_fn(CandidateModel) -> bool, q: spec_fn(CandidateModel) -> bool)
    requires
        forall|c: CandidateModel| #[trigger] q(strip(c)) == p(c),
    ensures
        strip_all(s).filter(q) == strip_all(s.filter(p)),
    decreases s.len(),
{
    if s.len() == 0 {
        reveal(Seq::filter);
        assert(strip_all(s).filter(q) =~= Seq::empty());
        assert(strip_all(s.filter(p)) =~= Seq::empty());
    } else {
        let d = s.drop_last();
        let x = s.last();
        lemma_filter_strip(d, p, q);
        assert(d.push(x) =~= s);
        assert(strip_all(d).push(strip(x)) =~= strip_all(s));
        d.lemma_filter_push(x, p);
        strip_all(d).lemma_filter_push(strip(x), q);
        assert(q(strip(x)) == p(x));
        if p(x) {
            assert(strip_all(d.filter(p).push(x)) =~= strip_all(d.filter(p)).push(strip(x)));
        }
    }
}

proof fn lemma_dominated_strip(c: CandidateModel, m: Seq<CandidateModel>, d: Seq<ObjectiveDirection>)
    ensures
        dominated_in(strip(c), strip_all(m), d) == dominated_in(c, m, d),
{
    let g = strip_all(m);
    if dominated_in(c, m, d) {
        let j = choose|j: int| 0 <= j < m.len() && m[j].id != c.id && crate::front::dominates(m[j].quality, c.quality, d);
        assert(g[j].id == m[j].id && g[j].quality == m[j].quality);
    }
    if dominated_in(strip(c), g, d) {
        let j = choose|j: int| 0 <= j < g.len() && g[j].id != strip(c).id && crate::front::dominates(g[j].quality, strip(c).quality, d);
        assert(g[j].id == m[j].id && g[j].quality == m[j].quality);
    }
}

proof fn lemma_members_strip(s: Seq<CandidateModel>, k: CellModel, d: Seq<ObjectiveDirection>, capacity: nat)
    ensures
        cell_members(strip_all(s), k) == strip_all(cell_members(s, k)),
        cell_elites(strip_all(s), k, d, capacity) == cell_elites(s, k, d, capacity),
{
    lemma_filter_strip(s, has_cell(k), has_cell(k));
    let m = cell_members(s, k);
    let g = strip_all(m);
    assert forall|c: CandidateModel| #[trigger] undominated(g, d)(strip(c)) == undominated(m, d)(c) by {
        lemma_dominated_strip(c, m, d);
    }
    lemma_filter_strip(m, undominated(m, d), undominated(g, d));
    lemma_bounded_strip(pareto_front(m, d), capacity);
    let b = bounded_pareto(m, d, capacity);
    assert(ids_of(strip_all(b)) =~= ids_of(b));
}

proof fn lemma_cells_strip(s: Seq<CandidateModel>)
    ensures
        collect_cells(strip_all(s)) == collect_cells(s),
    decreases s.len(),
{
    if s.len() > 0 {
        lemma_cells_strip(s.drop_last());
        assert(strip_all(s).drop_last() =~= strip_all(s.drop_last()));
    }
}

proof fn lemma_insert_pos_strip(r: Seq<CandidateModel>, x: CandidateModel)
    ensures
        id_insert_pos(strip_all(r), strip(x)) == id_insert_pos(r, x),
    decreases r.len(),
{
    if r.len() > 0 {
        assert(strip_all(r).drop_first() =~= strip_all(r.drop_first()));
        lemma_insert_pos_strip(r.drop_first(), x);
    }
}

proof fn lemma_sort_strip(s: Seq<CandidateModel>)
    ensures
        sort_by_id(strip_all(s)) == strip_all(sort_by_id(s)),
    decreases s.len(),
{
    if s.len() > 0 {
        let d = s.drop_last();
        lemma_sort_strip(d);
        assert(strip_all(s).drop_last() =~= strip_all(d));
        let r = sort_by_id(d);
        lemma_insert_pos_strip(r, s.last());
        lemma_id_insert_pos(r, s.last());
        let p = id_insert_pos(r, s.last()) as int;
        crate::archive_spec::lemma_sort_by_id_contents(d);
        assert(strip_all(r.insert(p, s.last())) =~= strip_all(r).insert(p, strip(s.last())));
    }
}

proof fn lemma_retained_strip(
    s: Seq<CandidateModel>,
    keys: Seq<CellModel>,
    d: Seq<ObjectiveDirection>,
    capacity: nat,
)
    ensures
        forall|id: u64| elite_keys(strip_all(s), keys, id, d, capacity) == elite_keys(s, keys, id, d, capacity),
        retained(strip_all(s), keys, d, capacity) == strip_all(retained(s, keys, d, capacity)),
{
    assert forall|id: u64| elite_keys(strip_all(s), keys, id, d, capacity) == elite_keys(s, keys, id, d, capacity) by {
        assert forall|k: CellModel| #[trigger] elite_in(strip_all(s), id, d, capacity)(k) == elite_in(s, id, d, capacity)(k) by {
            lemma_members_strip(s, k, d, capacity);
        }
        assert(elite_in(strip_all(s), id, d, capacity) =~= elite_in(s, id, d, capacity));
    }
    assert forall|c: CandidateModel| #[trigger] survives(strip_all(s), keys, d, capacity)(strip(c)) == survives(
        s,
        keys,
        d,
        capacity,
    )(c) by {
        assert(elite_keys(strip_all(s), keys, c.id, d, capacity) == elite_keys(s, keys, c.id, d, capacity));
    }
    lemma_filter_strip(s, survives(s, keys, d, capacity), survives(strip_all(s), keys, d, capacity));
}

proof fn lemma_placements_strip(
    s: Seq<CandidateModel>,
    keys: Seq<CellModel>,
    rs: Seq<CandidateModel>,
    d: Seq<ObjectiveDirection>,
    capacity: nat,
)
    ensures
        placements(strip_all(s), keys, strip_all(rs), d, capacity) == placements(s, keys, rs, d, capacity),
    decreases rs.len(),
{
    if rs.len() > 0 {
        lemma_retained_strip(s, keys, d, capacity);
        lemma_placements_strip(s, keys, rs.drop_last(), d, capacity);
        assert(strip_all(rs).drop_last() =~= strip_all(rs.drop_last()));
        assert(elite_keys(strip_all(s), keys, rs.last().id, d, capacity) == elite_keys(s, keys, rs.last().id, d, capacity));
    }
}

/// `b` is `a` with every candidate's diversity coordinates replaced by
/// coordinates of one common non-zero length `dims`.
pub open spec fn diversity_replaced(a: Seq<CandidateModel>, b: Seq<CandidateModel>, dims: nat) -> bool {
    &&& a.len() == b.len()
    &&& dims > 0
    &&& forall|i: int| 0 <= i < a.len() ==> strip(#[trigger] b[i]) == strip(a[i]) && b[i].diversity.len() == dims
}

/// Diversity coordinates never influence archiving: replacing every
/// candidate's diversity coordinates in the inputs of a successful build by
/// coordinates of one common non-zero length still builds, with the same
/// cells and elites, the same retained identifiers, the same elite cells and
/// the same counts; only the diversity dimension becomes the new length.
pub proof fn lemma_diversity_never_archives(
    directions: Seq<ObjectiveDirection>,
    capacity: nat,
    a: Seq<CandidateModel>,
    b: Seq<CandidateModel>,
    dims: nat,
)
    requires
        diversity_replaced(a, b, dims),
        build_result(directions, capacity, a) is Ok,
    ensures
        build_result(directions, capacity, b) is Ok,
        ({
            let ma = build_result(directions, capacity, a)->Ok_0;
            let mb = build_result(directions, capacity, b)->Ok_0;
            &&& mb.cells == ma.cells
            &&& ids_of(mb.candidates) == ids_of(ma.candidates)
            &&& mb.elite_cells == ma.elite_cells
            &&& mb.submitted_candidates == ma.submitted_candidates
            &&& mb.retained_candidates == ma.retained_candidates
            &&& mb.cell_count == ma.cell_count
            &&& mb.elite_placements == ma.elite_placements
            &&& a.len() > 0 ==> mb.diversity_dimensions == dims
        }),
{
    let q = directions.len();
    lemma_build_accepts_valid_inputs(directions, capacity, a);
    assert forall|i: int| 0 <= i < a.len() implies (#[trigger] b[i]).id == a[i].id && b[i].projections
        == a[i].projections && b[i].quality == a[i].quality by {
        assert(strip(b[i]) == strip(a[i]));
    }
    assert(inputs_valid(q, b)) by {
        assert forall|i: int| 0 <= i < b.len() implies candidate_ok(q, #[trigger] b[i]) by {
            assert(candidate_ok(q, a[i]));
        }
        assert forall|i: int, j: int| 0 <= i < b.len() && 0 <= j < b.len() implies compatible(
            #[trigger] b[i],
            #[trigger] b[j],
        ) by {
            assert(compatible(a[i], a[j]));
        }
        assert forall|i: int, j: int| 0 <= i < j < b.len() implies b[i].id != b[j].id by {
            assert(a[i].id != a[j].id);
        }
    }
    lemma_build_accepts_valid_inputs(directions, capacity, b);
    let sa = scan_all(q, initial_scan(), a)->Ok_0;
    let sb = scan_all(q, initial_scan(), b)->Ok_0;
    lemma_scan_all_accepts(q, initial_scan(), a);
    lemma_scan_all_accepts(q, initial_scan(), b);
    lemma_scan_all_invariant(q, initial_scan(), b);
    assert(strip_all(sb.accepted) =~= strip_all(sa.accepted)) by {
        assert forall|i: int| 0 <= i < a.len() implies strip_all(sb.accepted)[i] == strip_all(sa.accepted)[i] by {
            assert(sb.accepted[i] == normalized(b[i]));
            assert(sa.accepted[i] == normalized(a[i]));
        }
    }
    let stored_a = sort_by_id(sa.accepted);
    let stored_b = sort_by_id(sb.accepted);
    lemma_sort_strip(sa.accepted);
    lemma_sort_strip(sb.accepted);
    assert(strip_all(stored_b) == strip_all(stored_a));
    lemma_cells_strip(stored_a);
    lemma_cells_strip(stored_b);
    let keys = collect_cells(stored_a);
    assert(collect_cells(stored_b) == keys);
    let ma = build_result(directions, capacity, a)->Ok_0;
    let mb = build_result(directions, capacity, b)->Ok_0;
    assert(ma == archive_model(sa, directions, capacity));
    assert(mb == archive_model(sb, directions, capacity));
    assert(mb.cells =~= ma.cells) by {
        assert forall|i: int| 0 <= i < keys.len() implies expected_cells(stored_b, keys, directions, capacity)[i]
            == expected_cells(stored_a, keys, directions, capacity)[i] by {
            lemma_members_strip(stored_a, keys[i], directions, capacity);
            lemma_members_strip(stored_b, keys[i], directions, capacity);
        }
    }
    lemma_retained_strip(stored_a, keys, directions, capacity);
    lemma_retained_strip(stored_b, keys, directions, capacity);
    let kept_a = retained(stored_a, keys, directions, capacity);
    let kept_b = retained(stored_b, keys, directions, capacity);
    assert(strip_all(kept_b) == strip_all(kept_a));
    assert(kept_b.len() == kept_a.len()) by {
        assert(strip_all(kept_b).len() == strip_all(kept_a).len());
    }
    assert forall|i: int| 0 <= i < kept_a.len() implies (#[trigger] kept_b[i]).id == kept_a[i].id by {
        assert(strip_all(kept_b)[i] == strip_all(kept_a)[i]);
    }
    assert(ids_of(mb.candidates) =~= ids_of(ma.candidates));
    assert(mb.elite_cells =~= ma.elite_cells) by {
        assert forall|i: int| 0 <= i < kept_a.len() implies mb.elite_cells[i] == ma.elite_cells[i] by {
            let id = kept_a[i].id;
            assert(elite_keys(strip_all(stored_b), keys, id, directions, capacity) == elite_keys(
                stored_b,
                keys,
                id,
                directions,
                capacity,
            ));
            assert(elite_keys(strip_all(stored_a), keys, id, directions, capacity) == elite_keys(
                stored_a,
                keys,
                id,
                directions,
                capacity,
            ));
        }
    }
    lemma_placements_strip(stored_a, keys, kept_a, directions, capacity);
    lemma_placements_strip(stored_b, keys, kept_b, directions, capacity);
    if a.len() > 0 {
        assert(sb.accepted[0] == normalized(b[0]));
    }
}

} // verus!
