//! Mathematical definition of archive construction: input validation, the
//! stable order of stored candidates, the projected cells and their elites.
use vstd::prelude::*;

use crate::archive::{ArchiveError, CandidateModel, ObjectiveDirection};
use crate::cell_order::{CellModel, cell_lt, lemma_cell_order, strictly_sorted_cells};
use crate::front::{bounded, bounded_pareto, evict_among, ids_of, lemma_evict_among_range, pareto_front};

verus! {

/// Position at which a stable insertion by projection identifier places `x` in `s`.
pub open spec fn projection_insert_pos(s: Seq<CellModel>, x: CellModel) -> nat
    decreases s.len(),
{
    if s.len() == 0 {
        0
    } else if s[0].0 > x.0 {
        0
    } else {
        1 + projection_insert_pos(s.drop_first(), x)
    }
}

/// Stable sort of projected cells by projection identifier.
pub open spec fn sort_by_projection(s: Seq<CellModel>) -> Seq<CellModel>
    decreases s.len(),
{
    if s.len() == 0 {
        s
    } else {
        let r = sort_by_projection(s.drop_last());
        r.insert(projection_insert_pos(r, s.last()) as int, s.last())
    }
}

/// Position at which a stable insertion by identifier places `x` in `s`.
pub open spec fn id_insert_pos(s: Seq<CandidateModel>, x: CandidateModel) -> nat
    decreases s.len(),
{
    if s.len() == 0 {
        0
    } else if s[0].id > x.id {
        0
    } else {
        1 + id_insert_pos(s.drop_first(), x)
    }
}

/// Stable sort of candidates by identifier.
pub open spec fn sort_by_id(s: Seq<CandidateModel>) -> Seq<CandidateModel>
    decreases s.len(),
{
    if s.len() == 0 {
        s
    } else {
        let r = sort_by_id(s.drop_last());
        r.insert(id_insert_pos(r, s.last()) as int, s.last())
    }
}

/// Two projected cells of one candidate share a projection identifier.
pub open spec fn has_duplicate_projection(s: Seq<CellModel>) -> bool {
    exists|i: int, j: int| 0 <= i < j < s.len() && s[i].0 == s[j].0
}

/// First recorded coordinate count for projection `p`.
pub open spec fn dims_lookup(dims: Seq<(u64, nat)>, p: u64) -> Option<nat>
    decreases dims.len(),
{
    if dims.len() == 0 {
        None
    } else if dims[0].0 == p {
        Some(dims[0].1)
    } else {
        dims_lookup(dims.drop_first(), p)
    }
}

/// Check the coordinate count of each projection against the counts seen so
/// far, recording first-seen counts, in the given order.
pub open spec fn scan_projections(dims: Seq<(u64, nat)>, projections: Seq<CellModel>) -> Result<
    Seq<(u64, nat)>,
    ArchiveError,
>
    decreases projections.len(),
{
    if projections.len() == 0 {
        Ok(dims)
    } else {
        let p = projections[0];
        match dims_lookup(dims, p.0) {
            Some(expected) => if expected != p.1.len() {
                Err(ArchiveError::ProjectionDimension { expected: expected as usize, actual: p.1.len() as usize })
            } else {
                scan_projections(dims, projections.drop_first())
            },
            None => scan_projections(dims.push((p.0, p.1.len())), projections.drop_first()),
        }
    }
}

/// Validation state after a prefix of the input candidates.
pub struct BuildScan {
    /// Diversity dimension fixed by the first candidate.
    pub diversity: Option<nat>,
    /// First-seen coordinate count of each projection.
    pub dims: Seq<(u64, nat)>,
    /// Accepted candidates in input order, projections sorted.
    pub accepted: Seq<CandidateModel>,
}

pub open spec fn initial_scan() -> BuildScan {
    BuildScan { diversity: None, dims: Seq::empty(), accepted: Seq::empty() }
}

/// The candidate with its projections sorted by projection identifier.
pub open spec fn normalized(c: CandidateModel) -> CandidateModel {
    CandidateModel { projections: sort_by_projection(c.projections), ..c }
}

/// Validate one candidate against the state of the earlier ones.
pub open spec fn scan_candidate(quality_len: nat, st: BuildScan, c: CandidateModel) -> Result<
    BuildScan,
    ArchiveError,
> {
    if c.quality.len() != quality_len {
        Err(ArchiveError::QualityDimension { expected: quality_len as usize, actual: c.quality.len() as usize })
    } else if c.projections.len() == 0 {
        Err(ArchiveError::CandidateWithoutProjection)
    } else if c.diversity.len() == 0 {
        Err(ArchiveError::EmptyDiversityVector)
    } else if st.diversity is Some && c.diversity.len() != st.diversity->0 {
        Err(ArchiveError::DiversityDimension { expected: st.diversity->0 as usize, actual: c.diversity.len() as usize })
    } else if has_duplicate_projection(c.projections) {
        Err(ArchiveError::DuplicateProjectionForCandidate)
    } else {
        match scan_projections(st.dims, sort_by_projection(c.projections)) {
            Err(e) => Err(e),
            Ok(dims) => if exists|k: int| 0 <= k < st.accepted.len() && st.accepted[k].id == c.id {
                Err(ArchiveError::DuplicateCandidateId)
            } else {
                Ok(
                    BuildScan {
                        diversity: Some(c.diversity.len()),
                        dims,
                        accepted: st.accepted.push(normalized(c)),
                    },
                )
            },
        }
    }
}

/// Validate all candidates in input order; the first failure is reported.
pub open spec fn scan_all(quality_len: nat, st: BuildScan, cs: Seq<CandidateModel>) -> Result<
    BuildScan,
    ArchiveError,
>
    decreases cs.len(),
{
    if cs.len() == 0 {
        Ok(st)
    } else {
        match scan_candidate(quality_len, st, cs[0]) {
            Err(e) => Err(e),
            Ok(next) => scan_all(quality_len, next, cs.drop_first()),
        }
    }
}

/// Position at which `k` is inserted into a strictly sorted list of cells.
pub open spec fn cell_insert_pos(keys: Seq<CellModel>, k: CellModel) -> nat
    decreases keys.len(),
{
    if keys.len() == 0 {
        0
    } else if cell_lt(k, keys[0]) {
        0
    } else {
        1 + cell_insert_pos(keys.drop_first(), k)
    }
}

/// Add a cell to a strictly sorted list of distinct cells.
pub open spec fn insert_cell(keys: Seq<CellModel>, k: CellModel) -> Seq<CellModel> {
    if keys.contains(k) {
        keys
    } else {
        keys.insert(cell_insert_pos(keys, k) as int, k)
    }
}

/// Add each of `ps` to a sorted list of distinct cells.
pub open spec fn add_cells(keys: Seq<CellModel>, ps: Seq<CellModel>) -> Seq<CellModel>
    decreases ps.len(),
{
    if ps.len() == 0 {
        keys
    } else {
        insert_cell(add_cells(keys, ps.drop_last()), ps.last())
    }
}

/// The distinct projected cells of all candidates, in cell order.
pub open spec fn collect_cells(stored: Seq<CandidateModel>) -> Seq<CellModel>
    decreases stored.len(),
{
    if stored.len() == 0 {
        Seq::empty()
    } else {
        add_cells(collect_cells(stored.drop_last()), stored.last().projections)
    }
}

/// The candidate is assigned to cell `k` in one of its projections.
pub open spec fn has_cell(k: CellModel) -> spec_fn(CandidateModel) -> bool {
    |c: CandidateModel| c.projections.contains(k)
}

/// Candidates assigned to cell `k`, in identifier order.
pub open spec fn cell_members(stored: Seq<CandidateModel>, k: CellModel) -> Seq<CandidateModel> {
    stored.filter(has_cell(k))
}

/// Elite identifiers of cell `k`.
pub open spec fn cell_elites(
    stored: Seq<CandidateModel>,
    k: CellModel,
    directions: Seq<ObjectiveDirection>,
    capacity: nat,
) -> Seq<u64> {
    ids_of(bounded_pareto(cell_members(stored, k), directions, capacity))
}

/// The cell retains candidate `id` among its elites.
pub open spec fn elite_in(
    stored: Seq<CandidateModel>,
    id: u64,
    directions: Seq<ObjectiveDirection>,
    capacity: nat,
) -> spec_fn(CellModel) -> bool {
    |k: CellModel| cell_elites(stored, k, directions, capacity).contains(id)
}

/// Cells, in cell order, in which candidate `id` survived.
pub open spec fn elite_keys(
    stored: Seq<CandidateModel>,
    keys: Seq<CellModel>,
    id: u64,
    directions: Seq<ObjectiveDirection>,
    capacity: nat,
) -> Seq<CellModel> {
    keys.filter(elite_in(stored, id, directions, capacity))
}

/// The candidate survived in at least one cell.
pub open spec fn survives(
    stored: Seq<CandidateModel>,
    keys: Seq<CellModel>,
    directions: Seq<ObjectiveDirection>,
    capacity: nat,
) -> spec_fn(CandidateModel) -> bool {
    |c: CandidateModel| elite_keys(stored, keys, c.id, directions, capacity).len() > 0
}

/// Retained candidates: those surviving in at least one cell, in identifier order.
pub open spec fn retained(
    stored: Seq<CandidateModel>,
    keys: Seq<CellModel>,
    directions: Seq<ObjectiveDirection>,
    capacity: nat,
) -> Seq<CandidateModel> {
    stored.filter(survives(stored, keys, directions, capacity))
}

/// Total number of elite placements of the given candidates.
pub open spec fn placements(
    stored: Seq<CandidateModel>,
    keys: Seq<CellModel>,
    rs: Seq<CandidateModel>,
    directions: Seq<ObjectiveDirection>,
    capacity: nat,
) -> int
    decreases rs.len(),
{
    if rs.len() == 0 {
        0
    } else {
        placements(stored, keys, rs.drop_last(), directions, capacity) + elite_keys(
            stored,
            keys,
            rs.last().id,
            directions,
            capacity,
        ).len()
    }
}

/// Total number of projected cells over all candidates.
pub open spec fn total_projections(cs: Seq<CandidateModel>) -> int
    decreases cs.len(),
{
    if cs.len() == 0 {
        0
    } else {
        total_projections(cs.drop_last()) + cs.last().projections.len()
    }
}

pub proof fn lemma_id_insert_pos(s: Seq<CandidateModel>, x: CandidateModel)
    ensures
        id_insert_pos(s, x) <= s.len(),
    decreases s.len(),
{
    if s.len() > 0 {
        lemma_id_insert_pos(s.drop_first(), x);
    }
}

/// Sorting by identifier keeps exactly the same candidates.
pub proof fn lemma_sort_by_id_contents(s: Seq<CandidateModel>)
    ensures
        sort_by_id(s).len() == s.len(),
        forall|x: CandidateModel| sort_by_id(s).contains(x) <==> s.contains(x),
    decreases s.len(),
{
    if s.len() > 0 {
        let d = s.drop_last();
        lemma_sort_by_id_contents(d);
        let r = sort_by_id(d);
        let p = id_insert_pos(r, s.last());
        lemma_id_insert_pos(r, s.last());
        let t = r.insert(p as int, s.last());
        assert forall|x: CandidateModel| t.contains(x) <==> s.contains(x) by {
            if t.contains(x) {
                let k = choose|k: int| 0 <= k < t.len() && t[k] == x;
                if k < p {
                    assert(r.contains(x));
                } else if k > p {
                    assert(r[k - 1] == x);
                    assert(r.contains(x));
                }
                if r.contains(x) {
                    assert(d.contains(x));
                    let j = choose|j: int| 0 <= j < d.len() && d[j] == x;
                    assert(d[j] == s[j]);
                    assert(s[j] == x);
                } else {
                    assert(s[s.len() - 1] == x);
                }
            }
            if s.contains(x) {
                let k = choose|k: int| 0 <= k < s.len() && s[k] == x;
                if k == s.len() - 1 {
                    assert(t[p as int] == x);
                } else {
                    assert(d[k] == x);
                    assert(d.contains(x));
                    assert(r.contains(x));
                    let j = choose|j: int| 0 <= j < r.len() && r[j] == x;
                    if j < p {
                        assert(t[j] == x);
                    } else {
                        assert(t[j + 1] == x);
                    }
                }
            }
        }
    }
}

/// Identifiers strictly increase along the sequence.
pub open spec fn ids_increasing(s: Seq<CandidateModel>) -> bool {
    forall|i: int, j: int| 0 <= i < j < s.len() ==> s[i].id < s[j].id
}

/// No two candidates share an identifier.
pub open spec fn ids_distinct(s: Seq<CandidateModel>) -> bool {
    forall|i: int, j: int| 0 <= i < j < s.len() ==> s[i].id != s[j].id
}

pub proof fn lemma_id_insert_pos_split(r: Seq<CandidateModel>, x: CandidateModel)
    requires
        ids_increasing(r),
    ensures
        forall|t: int| 0 <= t < id_insert_pos(r, x) ==> r[t].id <= x.id,
        id_insert_pos(r, x) < r.len() ==> r[id_insert_pos(r, x) as int].id > x.id,
        id_insert_pos(r, x) <= r.len(),
    decreases r.len(),
{
    if r.len() > 0 && r[0].id <= x.id {
        let d = r.drop_first();
        lemma_id_insert_pos_split(d, x);
        assert forall|t: int| 0 <= t < id_insert_pos(r, x) implies r[t].id <= x.id by {
            if t > 0 {
                assert(r[t] == d[t - 1]);
            }
        }
        if id_insert_pos(r, x) < r.len() {
            assert(r[id_insert_pos(r, x) as int] == d[id_insert_pos(d, x) as int]);
        }
    }
}

/// Sorting candidates with distinct identifiers orders them strictly by identifier.
pub proof fn lemma_sort_by_id_sorted(s: Seq<CandidateModel>)
    requires
        ids_distinct(s),
    ensures
        ids_increasing(sort_by_id(s)),
    decreases s.len(),
{
    if s.len() > 0 {
        let d = s.drop_last();
        assert(ids_distinct(d));
        lemma_sort_by_id_sorted(d);
        lemma_sort_by_id_contents(d);
        let r = sort_by_id(d);
        let x = s.last();
        lemma_id_insert_pos_split(r, x);
        let p = id_insert_pos(r, x) as int;
        let t = r.insert(p, x);
        assert forall|t1: int| 0 <= t1 < r.len() implies r[t1].id != x.id by {
            assert(r.contains(r[t1]));
            assert(d.contains(r[t1]));
            let j = choose|j: int| 0 <= j < d.len() && d[j] == r[t1];
            assert(s[j] == d[j]);
        }
        assert forall|a: int, b: int| 0 <= a < b < t.len() implies t[a].id < t[b].id by {
            if b < p {
            } else if b == p {
                assert(r[a].id <= x.id);
            } else if a < p {
                assert(r[a].id <= x.id);
                assert(r[p].id > x.id);
                if b - 1 > p {
                    assert(r[p].id < r[b - 1].id);
                }
            } else if a == p {
                assert(r[p].id > x.id);
                if b - 1 > p {
                    assert(r[p].id < r[b - 1].id);
                }
            } else {
            }
        }
    }
}

/// Facts every validation state reached from the initial one satisfies.
pub open spec fn scan_invariant(quality_len: nat, st: BuildScan) -> bool {
    &&& forall|i: int| 0 <= i < st.accepted.len() ==> (#[trigger] st.accepted[i]).quality.len() == quality_len
    &&& forall|i: int|
        0 <= i < st.accepted.len() ==> st.diversity is Some && (#[trigger] st.accepted[i]).diversity.len()
            == st.diversity->0
    &&& st.diversity is Some ==> st.diversity->0 > 0
    &&& ids_distinct(st.accepted)
}

pub proof fn lemma_scan_all_invariant(quality_len: nat, st: BuildScan, cs: Seq<CandidateModel>)
    requires
        scan_invariant(quality_len, st),
        scan_all(quality_len, st, cs) is Ok,
    ensures
        scan_invariant(quality_len, scan_all(quality_len, st, cs)->Ok_0),
    decreases cs.len(),
{
    if cs.len() > 0 {
        let next = scan_candidate(quality_len, st, cs[0])->Ok_0;
        assert(scan_invariant(quality_len, next));
        lemma_scan_all_invariant(quality_len, next, cs.drop_first());
    }
}

pub proof fn lemma_cell_insert_pos_split(keys: Seq<CellModel>, k: CellModel)
    requires
        strictly_sorted_cells(keys),
        !keys.contains(k),
    ensures
        cell_insert_pos(keys, k) <= keys.len(),
        forall|t: int| 0 <= t < cell_insert_pos(keys, k) ==> cell_lt(keys[t], k),
        cell_insert_pos(keys, k) < keys.len() ==> cell_lt(k, keys[cell_insert_pos(keys, k) as int]),
    decreases keys.len(),
{
    lemma_cell_order();
    if keys.len() > 0 && !cell_lt(k, keys[0]) {
        let d = keys.drop_first();
        assert(!d.contains(k)) by {
            if d.contains(k) {
                let j = choose|j: int| 0 <= j < d.len() && d[j] == k;
                assert(keys[j + 1] == k);
            }
        }
        lemma_cell_insert_pos_split(d, k);
        assert(keys[0] != k);
        assert forall|t: int| 0 <= t < cell_insert_pos(keys, k) implies cell_lt(keys[t], k) by {
            if t > 0 {
                assert(keys[t] == d[t - 1]);
            }
        }
        if cell_insert_pos(keys, k) < keys.len() {
            assert(keys[cell_insert_pos(keys, k) as int] == d[cell_insert_pos(d, k) as int]);
        }
    }
}

/// Inserting a cell into a strictly sorted list keeps it strictly sorted and
/// adds exactly that cell.
pub proof fn lemma_insert_cell(keys: Seq<CellModel>, k: CellModel)
    requires
        strictly_sorted_cells(keys),
    ensures
        strictly_sorted_cells(insert_cell(keys, k)),
        forall|x: CellModel| insert_cell(keys, k).contains(x) <==> (keys.contains(x) || x == k),
{
    lemma_cell_order();
    if !keys.contains(k) {
        lemma_cell_insert_pos_split(keys, k);
        let p = cell_insert_pos(keys, k) as int;
        let t = keys.insert(p, k);
        assert forall|a: int, b: int| 0 <= a < b < t.len() implies cell_lt(
            #[trigger] t[a],
            #[trigger] t[b],
        ) by {
            if b < p {
                assert(cell_lt(keys[a], keys[b]));
            } else if b == p {
                assert(cell_lt(keys[a], k));
            } else if a < p {
                assert(cell_lt(keys[a], k));
                assert(cell_lt(k, keys[p]));
                if b - 1 > p {
                    assert(cell_lt(keys[p], keys[b - 1]));
                }
            } else if a == p {
                if b - 1 > p {
                    assert(cell_lt(keys[p], keys[b - 1]));
                }
            } else {
                assert(cell_lt(keys[a - 1], keys[b - 1]));
            }
        }
        assert forall|x: CellModel| t.contains(x) <==> (keys.contains(x) || x == k) by {
            if t.contains(x) {
                let j = choose|j: int| 0 <= j < t.len() && t[j] == x;
                if j < p {
                    assert(keys[j] == x);
                } else if j > p {
                    assert(keys[j - 1] == x);
                }
            }
            if keys.contains(x) {
                let j = choose|j: int| 0 <= j < keys.len() && keys[j] == x;
                if j < p {
                    assert(t[j] == x);
                } else {
                    assert(t[j + 1] == x);
                }
            }
            if x == k {
                assert(t[p] == x);
            }
        }
    }
}

pub proof fn lemma_add_cells(keys: Seq<CellModel>, ps: Seq<CellModel>)
    requires
        strictly_sorted_cells(keys),
    ensures
        strictly_sorted_cells(add_cells(keys, ps)),
        forall|x: CellModel| add_cells(keys, ps).contains(x) <==> (keys.contains(x) || ps.contains(x)),
    decreases ps.len(),
{
    if ps.len() > 0 {
        let d = ps.drop_last();
        lemma_add_cells(keys, d);
        lemma_insert_cell(add_cells(keys, d), ps.last());
        assert forall|x: CellModel| ps.contains(x) <==> (d.contains(x) || x == ps.last()) by {
            if ps.contains(x) {
                let j = choose|j: int| 0 <= j < ps.len() && ps[j] == x;
                if j < ps.len() - 1 {
                    assert(d[j] == x);
                }
            }
            if d.contains(x) {
                let j = choose|j: int| 0 <= j < d.len() && d[j] == x;
                assert(ps[j] == x);
            }
        }
    }
}

/// The archive's cells are strictly ordered, and they are exactly the cells
/// that some stored candidate is assigned to.
pub proof fn lemma_collect_cells(stored: Seq<CandidateModel>)
    ensures
        strictly_sorted_cells(collect_cells(stored)),
        forall|x: CellModel|
            collect_cells(stored).contains(x) <==> exists|i: int|
                0 <= i < stored.len() && (#[trigger] stored[i]).projections.contains(x),
    decreases stored.len(),
{
    if stored.len() > 0 {
        let d = stored.drop_last();
        lemma_collect_cells(d);
        lemma_add_cells(collect_cells(d), stored.last().projections);
        assert(collect_cells(stored) == add_cells(collect_cells(d), stored.last().projections));
        assert forall|x: CellModel| collect_cells(stored).contains(x) implies exists|i: int|
            0 <= i < stored.len() && (#[trigger] stored[i]).projections.contains(x) by {
            if collect_cells(d).contains(x) {
                let i = choose|i: int| 0 <= i < d.len() && (#[trigger] d[i]).projections.contains(x);
                assert(stored[i] == d[i]);
                assert(stored[i].projections.contains(x));
            } else {
                assert(stored.last().projections.contains(x));
                assert(stored[stored.len() - 1].projections.contains(x));
            }
        }
        assert forall|x: CellModel|
            (exists|i: int| 0 <= i < stored.len() && (#[trigger] stored[i]).projections.contains(x))
            implies collect_cells(stored).contains(x) by {
            let i = choose|i: int|
                0 <= i < stored.len() && (#[trigger] stored[i]).projections.contains(x);
            if i < stored.len() - 1 {
                assert(d[i] == stored[i]);
                assert(d[i].projections.contains(x));
                assert(collect_cells(d).contains(x));
            } else {
                assert(stored.last() == stored[i]);
            }
        }
    }
}

/// A duplicate-free sequence whose elements all occur in `t` is no longer than `t`.
pub proof fn lemma_distinct_subset_len<A>(s: Seq<A>, t: Seq<A>)
    requires
        s.no_duplicates(),
        forall|x: A| s.contains(x) ==> t.contains(x),
    ensures
        s.len() <= t.len(),
{
    s.unique_seq_to_set();
    t.lemma_cardinality_of_set();
    vstd::seq_lib::seq_to_set_is_finite(t);
    assert(s.to_set().subset_of(t.to_set()));
    vstd::set_lib::lemma_len_subset(s.to_set(), t.to_set());
}

pub proof fn lemma_sort_by_projection_len(s: Seq<CellModel>)
    ensures
        sort_by_projection(s).len() == s.len(),
    decreases s.len(),
{
    if s.len() > 0 {
        lemma_sort_by_projection_len(s.drop_last());
        lemma_projection_insert_pos(sort_by_projection(s.drop_last()), s.last());
    }
}

pub proof fn lemma_projection_insert_pos(s: Seq<CellModel>, x: CellModel)
    ensures
        projection_insert_pos(s, x) <= s.len(),
    decreases s.len(),
{
    if s.len() > 0 {
        lemma_projection_insert_pos(s.drop_first(), x);
    }
}

pub proof fn lemma_total_insert(a: Seq<CandidateModel>, p: int, x: CandidateModel)
    requires
        0 <= p <= a.len(),
    ensures
        total_projections(a.insert(p, x)) == total_projections(a) + x.projections.len(),
    decreases a.len(),
{
    if p == a.len() {
        assert(a.insert(p, x).drop_last() =~= a);
    } else {
        lemma_total_insert(a.drop_last(), p, x);
        assert(a.insert(p, x).drop_last() =~= a.drop_last().insert(p, x));
        assert(a.insert(p, x).last() == a.last());
    }
}

pub proof fn lemma_total_sort_by_id(s: Seq<CandidateModel>)
    ensures
        total_projections(sort_by_id(s)) == total_projections(s),
    decreases s.len(),
{
    if s.len() > 0 {
        lemma_total_sort_by_id(s.drop_last());
        let r = sort_by_id(s.drop_last());
        lemma_id_insert_pos(r, s.last());
        lemma_total_insert(r, id_insert_pos(r, s.last()) as int, s.last());
    }
}

pub proof fn lemma_total_filter(s: Seq<CandidateModel>, pred: spec_fn(CandidateModel) -> bool)
    ensures
        total_projections(s.filter(pred)) <= total_projections(s),
    decreases s.len(),
{
    reveal(Seq::filter);
    if s.len() > 0 {
        lemma_total_filter(s.drop_last(), pred);
        if pred(s.last()) {
            assert(s.filter(pred).drop_last() =~= s.drop_last().filter(pred));
        }
    }
}

/// A successful validation accepts every input, normalized, in input order.
pub proof fn lemma_scan_all_accepts(quality_len: nat, st: BuildScan, cs: Seq<CandidateModel>)
    requires
        scan_all(quality_len, st, cs) is Ok,
    ensures
        scan_all(quality_len, st, cs)->Ok_0.accepted == st.accepted + cs.map_values(
            |c: CandidateModel| normalized(c),
        ),
    decreases cs.len(),
{
    if cs.len() > 0 {
        let next = scan_candidate(quality_len, st, cs[0])->Ok_0;
        lemma_scan_all_accepts(quality_len, next, cs.drop_first());
        assert(cs.map_values(|c: CandidateModel| normalized(c)) =~= seq![normalized(cs[0])]
            + cs.drop_first().map_values(|c: CandidateModel| normalized(c)));
        assert(st.accepted.push(normalized(cs[0])) + cs.drop_first().map_values(
            |c: CandidateModel| normalized(c),
        ) =~= st.accepted + cs.map_values(|c: CandidateModel| normalized(c)));
    }
}

pub proof fn lemma_total_normalized(cs: Seq<CandidateModel>)
    ensures
        total_projections(cs.map_values(|c: CandidateModel| normalized(c))) == total_projections(cs),
    decreases cs.len(),
{
    if cs.len() > 0 {
        lemma_total_normalized(cs.drop_last());
        assert(cs.map_values(|c: CandidateModel| normalized(c)).drop_last() =~= cs.drop_last().map_values(
            |c: CandidateModel| normalized(c),
        ));
        lemma_sort_by_projection_len(cs.last().projections);
    }
}

/// Members that survive eviction were members of the input front.
pub proof fn lemma_bounded_subset(f: Seq<CandidateModel>, capacity: nat)
    ensures
        forall|x: CandidateModel| bounded(f, capacity).contains(x) ==> f.contains(x),
    decreases f.len(),
{
    if f.len() > capacity && f.len() > 0 {
        lemma_evict_among_range(f, f.len() as int);
        let e = evict_among(f, f.len() as int);
        let g = f.remove(e);
        lemma_bounded_subset(g, capacity);
        assert forall|x: CandidateModel| g.contains(x) implies f.contains(x) by {
            let j = choose|j: int| 0 <= j < g.len() && g[j] == x;
            if j < e {
                assert(f[j] == x);
            } else {
                assert(f[j + 1] == x);
            }
        }
    }
}

/// A filter of a strictly sorted list of cells has no duplicates.
pub proof fn lemma_sorted_filter_distinct(keys: Seq<CellModel>, pred: spec_fn(CellModel) -> bool)
    requires
        strictly_sorted_cells(keys),
    ensures
        keys.filter(pred).no_duplicates(),
        strictly_sorted_cells(keys.filter(pred)),
    decreases keys.len(),
{
    reveal(Seq::filter);
    lemma_cell_order();
    if keys.len() > 0 {
        let d = keys.drop_last();
        lemma_sorted_filter_distinct(d, pred);
        let fd = d.filter(pred);
        #[allow(deprecated)]
        d.filter_lemma(pred);
        if pred(keys.last()) {
            let t = fd.push(keys.last());
            assert forall|a: int, b: int| 0 <= a < b < t.len() implies cell_lt(
                #[trigger] t[a],
                #[trigger] t[b],
            ) by {
                if b == t.len() - 1 {
                    assert(fd.contains(fd[a]));
                    d.lemma_filter_contains_rev(pred, fd[a]);
                    assert(d.contains(fd[a]));
                    let j = choose|j: int| 0 <= j < d.len() && d[j] == fd[a];
                    assert(cell_lt(keys[j], keys[keys.len() - 1]));
                }
            }
        }
    }
}

/// Each candidate survives in at most as many cells as it is assigned to.
pub proof fn lemma_elite_keys_len(
    stored: Seq<CandidateModel>,
    c: CandidateModel,
    directions: Seq<ObjectiveDirection>,
    capacity: nat,
)
    requires
        ids_distinct(stored),
        stored.contains(c),
    ensures
        elite_keys(stored, collect_cells(stored), c.id, directions, capacity).len()
            <= c.projections.len(),
{
    let keys = collect_cells(stored);
    lemma_collect_cells(stored);
    let pred = elite_in(stored, c.id, directions, capacity);
    let s = keys.filter(pred);
    lemma_sorted_filter_distinct(keys, pred);
    #[allow(deprecated)]
    keys.filter_lemma(pred);
    assert forall|x: CellModel| s.contains(x) implies c.projections.contains(x) by {
        let j = choose|j: int| 0 <= j < s.len() && s[j] == x;
        assert(pred(s[j]));
        let el = cell_elites(stored, x, directions, capacity);
        assert(el.contains(c.id));
        let b = bounded_pareto(cell_members(stored, x), directions, capacity);
        let k = choose|k: int| 0 <= k < el.len() && el[k] == c.id;
        let m = b[k];
        assert(b.contains(m));
        lemma_bounded_subset(pareto_front(cell_members(stored, x), directions), capacity);
        let members = cell_members(stored, x);
        let pf = pareto_front(members, directions);
        assert(pf.contains(m));
        #[allow(deprecated)]
        members.filter_lemma(crate::front::undominated(members, directions));
        let t = choose|t: int| 0 <= t < pf.len() && pf[t] == m;
        #[allow(deprecated)]
        stored.filter_lemma(has_cell(x));
        assert(members.contains(m)) by {
            #[allow(deprecated)]
            members.filter_lemma(crate::front::undominated(members, directions));
            members.lemma_filter_contains_rev(crate::front::undominated(members, directions), m);
        }
        let u = choose|u: int| 0 <= u < members.len() && members[u] == m;
        assert(has_cell(x)(members[u]));
        stored.lemma_filter_contains_rev(has_cell(x), m);
        let w = choose|w: int| 0 <= w < stored.len() && stored[w] == m;
        let v = choose|v: int| 0 <= v < stored.len() && stored[v] == c;
        assert(m.id == c.id);
        assert(w == v);
    }
    lemma_distinct_subset_len(s, c.projections);
}

/// Elite placements of candidates drawn from the store are bounded by their
/// projected cells.
pub proof fn lemma_placements_bound(
    stored: Seq<CandidateModel>,
    rs: Seq<CandidateModel>,
    directions: Seq<ObjectiveDirection>,
    capacity: nat,
)
    requires
        ids_distinct(stored),
        forall|i: int| 0 <= i < rs.len() ==> stored.contains(#[trigger] rs[i]),
    ensures
        0 <= placements(stored, collect_cells(stored), rs, directions, capacity) <= total_projections(rs),
    decreases rs.len(),
{
    if rs.len() > 0 {
        lemma_placements_bound(stored, rs.drop_last(), directions, capacity);
        assert(stored.contains(rs[rs.len() - 1]));
        lemma_elite_keys_len(stored, rs.last(), directions, capacity);
    }
}

/// Adding two runs of cells is adding their concatenation.
pub proof fn lemma_add_cells_concat(keys: Seq<CellModel>, a: Seq<CellModel>, b: Seq<CellModel>)
    ensures
        add_cells(keys, a + b) == add_cells(add_cells(keys, a), b),
    decreases b.len(),
{
    if b.len() == 0 {
        assert(a + b =~= a);
    } else {
        lemma_add_cells_concat(keys, a, b.drop_last());
        assert((a + b).drop_last() =~= a + b.drop_last());
        assert((a + b).last() == b.last());
    }
}

} // verus!
