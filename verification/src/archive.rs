//! Deterministic quality-diversity archiving.
//!
//! Callers provide stable candidate identifiers, integer-quantized cell
//! projections, a directed Pareto-quality vector and integer diversity
//! coordinates. Each projection is archived independently: coordinates from
//! different projections are never concatenated into one Cartesian cell.
//! Quality coordinates are used only for Pareto dominance and crowding;
//! diversity coordinates only for farthest-point selection.
use vstd::prelude::*;

use crate::archive_spec::{
    BuildScan, add_cells, cell_elites, cell_insert_pos, cell_members, collect_cells, dims_lookup,
    elite_in, elite_keys, has_cell, has_duplicate_projection, id_insert_pos, initial_scan,
    insert_cell, lemma_sort_by_id_contents, normalized, placements, ids_increasing, ids_distinct,
    lemma_sort_by_id_sorted, lemma_scan_all_invariant, scan_invariant, lemma_collect_cells,
    lemma_placements_bound, lemma_total_filter, lemma_total_sort_by_id, lemma_total_normalized,
    lemma_scan_all_accepts, projection_insert_pos, retained, scan_all,
    scan_candidate, scan_projections, sort_by_id, sort_by_projection, survives,
    total_projections,
};
use crate::cell_order::{CellModel, cell_compare, cell_lt, lemma_cell_order, strictly_sorted_cells};
use crate::front::{bounded_pareto, bounded_pareto_front, ids_of, picked};

verus! {

/// Whether a quality coordinate is better when its integer value rises or falls.
#[derive(Clone, Copy, Debug, PartialEq, Eq, Structural)]
pub enum ObjectiveDirection {
    Maximize,
    Minimize,
}

/// Configuration shared by every cell in one archive.
#[derive(Clone, Debug, PartialEq, Eq)]
pub struct ArchiveConfig {
    /// The comparison direction of each quality coordinate.
    pub quality_directions: Vec<ObjectiveDirection>,
    /// Maximum number of mutually non-dominated elites retained in one cell.
    pub elites_per_cell: usize,
}

impl ArchiveConfig {
    pub fn new(quality_directions: Vec<ObjectiveDirection>, elites_per_cell: usize) -> (r: Self)
        ensures
            r.quality_directions@ == quality_directions@,
            r.elites_per_cell == elites_per_cell,
    {
        ArchiveConfig { quality_directions, elites_per_cell }
    }
}

/// One cell assignment in one independently evaluated descriptor projection.
#[derive(Clone, Debug, PartialEq, Eq, PartialOrd, Ord)]
pub struct ProjectedCell {
    pub projection: u64,
    pub coordinates: Vec<i64>,
}

impl View for ProjectedCell {
    type V = CellModel;

    open spec fn view(&self) -> CellModel {
        (self.projection, self.coordinates@)
    }
}

impl ProjectedCell {
    pub fn new(projection: u64, coordinates: Vec<i64>) -> (r: Self)
        ensures
            r@ == (projection, coordinates@),
    {
        ProjectedCell { projection, coordinates }
    }

    /// A copy with the same projection and coordinates.
    pub fn duplicate(&self) -> (r: Self)
        ensures
            r@ == self@,
    {
        let coordinates = self.coordinates.clone();
        assert(coordinates@ =~= self.coordinates@);
        ProjectedCell { projection: self.projection, coordinates }
    }
}

/// Mathematical value of one archive candidate.
pub struct CandidateModel {
    pub id: u64,
    pub projections: Seq<CellModel>,
    pub quality: Seq<i64>,
    pub diversity: Seq<i64>,
}

/// The cells of a sequence of projected cells.
pub open spec fn cells_of(projections: Seq<ProjectedCell>) -> Seq<CellModel> {
    projections.map_values(|p: ProjectedCell| p@)
}

/// Precomputed input to [`QualityDiversityArchive::build`].
#[derive(Clone, Debug, PartialEq, Eq)]
pub struct ArchiveCandidate {
    pub id: u64,
    pub projections: Vec<ProjectedCell>,
    pub quality: Vec<i64>,
    pub diversity_coordinates: Vec<i64>,
}

impl View for ArchiveCandidate {
    type V = CandidateModel;

    open spec fn view(&self) -> CandidateModel {
        CandidateModel {
            id: self.id,
            projections: cells_of(self.projections@),
            quality: self.quality@,
            diversity: self.diversity_coordinates@,
        }
    }
}

impl ArchiveCandidate {
    pub fn new(
        id: u64,
        projections: Vec<ProjectedCell>,
        quality: Vec<i64>,
        diversity_coordinates: Vec<i64>,
    ) -> (r: Self)
        ensures
            r.id == id,
            r.projections@ == projections@,
            r.quality@ == quality@,
            r.diversity_coordinates@ == diversity_coordinates@,
    {
        ArchiveCandidate { id, projections, quality, diversity_coordinates }
    }
}

/// Stable key for one cell in one projection.
#[derive(Clone, Debug, PartialEq, Eq, PartialOrd, Ord)]
pub struct ArchiveCellKey {
    pub projection: u64,
    pub coordinates: Vec<i64>,
}

impl View for ArchiveCellKey {
    type V = CellModel;

    open spec fn view(&self) -> CellModel {
        (self.projection, self.coordinates@)
    }
}

impl ArchiveCellKey {
    /// The key of a projected cell.
    pub fn from_projected(value: &ProjectedCell) -> (r: Self)
        ensures
            r@ == value@,
    {
        let coordinates = value.coordinates.clone();
        assert(coordinates@ =~= value.coordinates@);
        ArchiveCellKey { projection: value.projection, coordinates }
    }

    /// A copy with the same projection and coordinates.
    pub fn duplicate(&self) -> (r: Self)
        ensures
            r@ == self@,
    {
        let coordinates = self.coordinates.clone();
        assert(coordinates@ =~= self.coordinates@);
        ArchiveCellKey { projection: self.projection, coordinates }
    }
}

/// The cells of a sequence of cell keys.
pub open spec fn keys_of(keys: Seq<ArchiveCellKey>) -> Seq<CellModel> {
    keys.map_values(|k: ArchiveCellKey| k@)
}

/// A bounded, deterministic Pareto set for one projected cell.
#[derive(Clone, Debug, PartialEq, Eq)]
pub struct ArchiveCell {
    elites: Vec<u64>,
}

impl View for ArchiveCell {
    type V = Seq<u64>;

    closed spec fn view(&self) -> Seq<u64> {
        self.elites@
    }
}

impl ArchiveCell {
    /// Elites ordered by stable candidate identifier.
    pub fn elites(&self) -> (r: &[u64])
        ensures
            r@ == self@,
    {
        self.elites.as_slice()
    }
}

/// Aggregate counts from archive construction.
#[derive(Clone, Copy, Debug, Default, PartialEq, Eq)]
pub struct ArchiveBuildSummary {
    pub submitted_candidates: usize,
    pub retained_candidates: usize,
    pub cell_count: usize,
    pub elite_placements: usize,
}

/// Invalid precomputed archive input.
#[derive(Clone, Debug, PartialEq, Eq, Structural)]
pub enum ArchiveError {
    EmptyQualityVector,
    ZeroCellCapacity,
    DuplicateCandidateId,
    CandidateWithoutProjection,
    DuplicateProjectionForCandidate,
    QualityDimension { expected: usize, actual: usize },
    EmptyDiversityVector,
    DiversityDimension { expected: usize, actual: usize },
    ProjectionDimension { expected: usize, actual: usize },
}

/// Stable sort of projected cells by projection identifier.
fn sort_projections(v: Vec<ProjectedCell>) -> (r: Vec<ProjectedCell>)
    ensures
        cells_of(r@) == sort_by_projection(cells_of(v@)),
{
    let mut v = v;
    let ghost orig = cells_of(v@);
    let mut r: Vec<ProjectedCell> = Vec::new();
    let mut taken: usize = 0;
    let n = v.len();
    while v.len() > 0
        invariant
            taken + v.len() == n,
            n == orig.len(),
            cells_of(v@) == orig.skip(taken as int),
            cells_of(r@) == sort_by_projection(orig.take(taken as int)),
        decreases v.len(),
    {
        let ghost prev = v@;
        assert(cells_of(prev)[0] == orig.skip(taken as int)[0]);
        let x = v.remove(0);
        proof {
            assert(v@ == prev.remove(0));
            assert(cells_of(v@) =~= cells_of(prev).drop_first());
            assert(cells_of(v@) =~= orig.skip(taken + 1));
            assert(x@ == orig[taken as int]);
        }
        let mut j: usize = 0;
        let ghost rm = cells_of(r@);
        assert(rm.skip(0) =~= rm);
        while j < r.len() && r[j].projection <= x.projection
            invariant
                j <= r.len(),
                rm == cells_of(r@),
                projection_insert_pos(rm, x@) == j + projection_insert_pos(rm.skip(j as int), x@),
            decreases r.len() - j,
        {
            assert(rm.skip(j as int).drop_first() =~= rm.skip(j + 1));
            assert(rm[j as int].0 == r@[j as int].projection);
            j = j + 1;
        }
        if j < r.len() {
            assert(rm[j as int].0 == r@[j as int].projection);
            assert(rm.skip(j as int)[0] == rm[j as int]);
        }
        proof {
            assert(orig.take(taken + 1).drop_last() =~= orig.take(taken as int));
            assert(orig.take(taken + 1).last() == x@);
        }
        let ghost xm = x@;
        r.insert(j, x);
        proof {
            assert(cells_of(r@) =~= rm.insert(j as int, xm));
        }
        taken = taken + 1;
    }
    assert(orig.take(n as int) =~= orig);
    r
}

/// Whether two projected cells share a projection identifier.
fn duplicate_projection(v: &Vec<ProjectedCell>) -> (r: bool)
    ensures
        r == has_duplicate_projection(cells_of(v@)),
{
    let ghost m = cells_of(v@);
    let mut i: usize = 0;
    while i < v.len()
        invariant
            m == cells_of(v@),
            forall|a: int, b: int| 0 <= a < b < v.len() && a < i ==> m[a].0 != m[b].0,
        decreases v.len() - i,
    {
        let mut j: usize = i + 1;
        while j < v.len()
            invariant
                i < v.len(),
                i < j <= v.len(),
                m == cells_of(v@),
                forall|a: int, b: int| 0 <= a < b < v.len() && a < i ==> m[a].0 != m[b].0,
                forall|b: int| i < b < j ==> m[i as int].0 != m[b].0,
            decreases v.len() - j,
        {
            if v[i].projection == v[j].projection {
                assert(m[i as int].0 == m[j as int].0);
                return true;
            }
            j = j + 1;
        }
        i = i + 1;
    }
    false
}

/// Mathematical value of the first-seen projection coordinate counts.
pub open spec fn dims_model(v: Seq<(u64, usize)>) -> Seq<(u64, nat)> {
    v.map_values(|e: (u64, usize)| (e.0, e.1 as nat))
}

fn lookup_dims(dims: &Vec<(u64, usize)>, p: u64) -> (r: Option<usize>)
    ensures
        match r {
            Some(e) => dims_lookup(dims_model(dims@), p) == Some(e as nat),
            None => dims_lookup(dims_model(dims@), p) is None,
        },
{
    let ghost m = dims_model(dims@);
    let mut j: usize = 0;
    assert(m.skip(0) =~= m);
    while j < dims.len()
        invariant
            j <= dims.len(),
            m == dims_model(dims@),
            dims_lookup(m, p) == dims_lookup(m.skip(j as int), p),
        decreases dims.len() - j,
    {
        assert(m.skip(j as int).drop_first() =~= m.skip(j + 1));
        assert(m.skip(j as int)[0] == m[j as int]);
        if dims[j].0 == p {
            return Some(dims[j].1);
        }
        j = j + 1;
    }
    None
}

/// Check and record projection coordinate counts of sorted projections.
fn scan_dims(dims: &mut Vec<(u64, usize)>, projections: &Vec<ProjectedCell>) -> (r: Result<(), ArchiveError>)
    ensures
        match scan_projections(dims_model(old(dims)@), cells_of(projections@)) {
            Ok(d) => r is Ok && dims_model(final(dims)@) == d,
            Err(e) => r == Err::<(), ArchiveError>(e),
        },
{
    let ghost d0 = dims_model(dims@);
    let ghost ps = cells_of(projections@);
    let mut i: usize = 0;
    assert(ps.skip(0) =~= ps);
    while i < projections.len()
        invariant
            i <= projections.len(),
            ps == cells_of(projections@),
            d0 == dims_model(old(dims)@),
            scan_projections(d0, ps) == scan_projections(dims_model(dims@), ps.skip(i as int)),
        decreases projections.len() - i,
    {
        let p = &projections[i];
        assert(ps.skip(i as int)[0] == p@);
        assert(ps.skip(i as int).drop_first() =~= ps.skip(i + 1));
        match lookup_dims(dims, p.projection) {
            Some(expected) => {
                if expected != p.coordinates.len() {
                    assert(scan_projections(dims_model(dims@), ps.skip(i as int)) == Err::<
                        Seq<(u64, nat)>,
                        ArchiveError,
                    >(ArchiveError::ProjectionDimension { expected, actual: p.coordinates.len() }));
                    assert(d0 == dims_model(old(dims)@));
                    assert(scan_projections(d0, ps) == Err::<
                        Seq<(u64, nat)>,
                        ArchiveError,
                    >(ArchiveError::ProjectionDimension { expected, actual: p.coordinates.len() }));
                    return Err(
                        ArchiveError::ProjectionDimension {
                            expected,
                            actual: p.coordinates.len(),
                        },
                    );
                }
            },
            None => {
                let ghost before = dims_model(dims@);
                dims.push((p.projection, p.coordinates.len()));
                assert(dims_model(dims@) =~= before.push((p.projection, p.coordinates@.len())));
            },
        }
        i = i + 1;
    }
    Ok(())
}

/// Mathematical values of a sequence of candidates.
pub open spec fn models(v: Seq<ArchiveCandidate>) -> Seq<CandidateModel> {
    v.map_values(|c: ArchiveCandidate| c@)
}

/// Whether `stored` holds a candidate with identifier `id`.
fn contains_id(stored: &Vec<ArchiveCandidate>, id: u64) -> (r: bool)
    ensures
        r == exists|k: int| 0 <= k < stored.len() && stored@[k].id == id,
{
    let mut k: usize = 0;
    while k < stored.len()
        invariant
            forall|j: int| 0 <= j < k ==> stored@[j].id != id,
        decreases stored.len() - k,
    {
        if stored[k].id == id {
            return true;
        }
        k = k + 1;
    }
    false
}

/// Insert a candidate at its stable identifier position.
fn insert_by_id(stored: &mut Vec<ArchiveCandidate>, c: ArchiveCandidate)
    ensures
        models(final(stored)@) == models(old(stored)@).insert(
            id_insert_pos(models(old(stored)@), c@) as int,
            c@,
        ),
{
    let ghost m = models(stored@);
    let mut j: usize = 0;
    assert(m.skip(0) =~= m);
    while j < stored.len() && stored[j].id <= c.id
        invariant
            j <= stored.len(),
            m == models(stored@),
            m == models(old(stored)@),
            id_insert_pos(m, c@) == j + id_insert_pos(m.skip(j as int), c@),
        decreases stored.len() - j,
    {
        assert(m.skip(j as int).drop_first() =~= m.skip(j + 1));
        assert(m[j as int].id == stored@[j as int].id);
        j = j + 1;
    }
    if j < stored.len() {
        assert(m[j as int].id == stored@[j as int].id);
        assert(m.skip(j as int)[0] == m[j as int]);
    }
    let ghost cm = c@;
    stored.insert(j, c);
    assert(models(stored@) =~= m.insert(j as int, cm));
}

/// Validate the candidates in input order and store the accepted ones by identifier.
fn validate_candidates(quality_len: usize, candidates: Vec<ArchiveCandidate>) -> (r: Result<
    (Vec<ArchiveCandidate>, usize),
    ArchiveError,
>)
    ensures
        match scan_all(quality_len as nat, initial_scan(), models(candidates@)) {
            Ok(st) => r matches Ok((stored, div)) && models(stored@) == sort_by_id(st.accepted)
                && div == (match st.diversity {
                Some(d) => d,
                None => 0,
            }) && st.accepted.len() == candidates.len(),
            Err(e) => r == Err::<(Vec<ArchiveCandidate>, usize), ArchiveError>(e),
        },
{
    let ghost input = models(candidates@);
    let total = candidates.len();
    let mut rest = candidates;
    let mut stored: Vec<ArchiveCandidate> = Vec::new();
    let mut dims: Vec<(u64, usize)> = Vec::new();
    let mut diversity: Option<usize> = None;
    let mut taken: usize = 0;
    let ghost mut st = initial_scan();
    assert(input.skip(0) =~= input);
    while rest.len() > 0
        invariant
            taken + rest.len() == input.len(),
            input.len() == total,
            input == models(candidates@),
            models(rest@) == input.skip(taken as int),
            scan_all(quality_len as nat, initial_scan(), input) == scan_all(
                quality_len as nat,
                st,
                input.skip(taken as int),
            ),
            st.accepted.len() == taken,
            models(stored@) == sort_by_id(st.accepted),
            st.dims == dims_model(dims@),
            match diversity {
                Some(d) => st.diversity == Some(d as nat),
                None => st.diversity is None,
            },
        decreases rest.len(),
    {
        let ghost prev = rest@;
        assert(models(prev)[0] == input.skip(taken as int)[0]);
        let mut c = rest.remove(0);
        proof {
            assert(rest@ == prev.remove(0));
            assert(models(rest@) =~= models(prev).drop_first());
            assert(input.skip(taken as int).drop_first() =~= input.skip(taken + 1));
        }
        let ghost cm = c@;
        assert(cm == input.skip(taken as int)[0]);
        assert(scan_all(quality_len as nat, st, input.skip(taken as int)) == match scan_candidate(
            quality_len as nat,
            st,
            cm,
        ) {
            Err(e) => Err(e),
            Ok(n) => scan_all(quality_len as nat, n, input.skip(taken + 1)),
        });
        if c.quality.len() != quality_len {
            let err = ArchiveError::QualityDimension { expected: quality_len, actual: c.quality.len() };
            assert(scan_candidate(quality_len as nat, st, cm) == Err::<BuildScan, ArchiveError>(err));
            assert(scan_all(quality_len as nat, initial_scan(), input) == Err::<BuildScan, ArchiveError>(err));
            return Err(err);
        }
        if c.projections.len() == 0 {
            assert(cm.projections.len() == 0);
            assert(scan_all(quality_len as nat, initial_scan(), input) == Err::<BuildScan, ArchiveError>(
                ArchiveError::CandidateWithoutProjection,
            ));
            return Err(ArchiveError::CandidateWithoutProjection);
        }
        if c.diversity_coordinates.len() == 0 {
            return Err(ArchiveError::EmptyDiversityVector);
        }
        match diversity {
            Some(expected) => {
                if c.diversity_coordinates.len() != expected {
                    return Err(
                        ArchiveError::DiversityDimension {
                            expected,
                            actual: c.diversity_coordinates.len(),
                        },
                    );
                }
            },
            None => {
                diversity = Some(c.diversity_coordinates.len());
            },
        }
        if duplicate_projection(&c.projections) {
            return Err(ArchiveError::DuplicateProjectionForCandidate);
        }
        let mut projections: Vec<ProjectedCell> = Vec::new();
        std::mem::swap(&mut projections, &mut c.projections);
        let sorted = sort_projections(projections);
        match scan_dims(&mut dims, &sorted) {
            Err(e) => {
                assert(scan_all(quality_len as nat, initial_scan(), input) == Err::<BuildScan, ArchiveError>(e));
                return Err(e);
            },
            Ok(()) => {},
        }
        proof {
            lemma_sort_by_id_contents(st.accepted);
        }
        if contains_id(&stored, c.id) {
            proof {
                let k = choose|k: int| 0 <= k < stored.len() && stored@[k].id == c.id;
                assert(models(stored@)[k].id == c.id);
                assert(sort_by_id(st.accepted).contains(models(stored@)[k]));
                assert(st.accepted.contains(models(stored@)[k]));
                let j = choose|j: int|
                    0 <= j < st.accepted.len() && st.accepted[j] == models(stored@)[k];
                assert(st.accepted[j].id == cm.id);
            }
            return Err(ArchiveError::DuplicateCandidateId);
        }
        proof {
            if exists|k: int| 0 <= k < st.accepted.len() && st.accepted[k].id == cm.id {
                let k = choose|k: int| 0 <= k < st.accepted.len() && st.accepted[k].id == cm.id;
                assert(st.accepted.contains(st.accepted[k]));
                assert(sort_by_id(st.accepted).contains(st.accepted[k]));
                let j = choose|j: int|
                    0 <= j < stored.len() && models(stored@)[j] == st.accepted[k];
                assert(stored@[j].id == cm.id);
            }
        }
        c.projections = sorted;
        assert(c@ == normalized(cm));
        let ghost next = BuildScan {
            diversity: Some(cm.diversity.len()),
            dims: dims_model(dims@),
            accepted: st.accepted.push(normalized(cm)),
        };
        assert(scan_candidate(quality_len as nat, st, cm) == Ok::<BuildScan, ArchiveError>(next));
        proof {
            assert(next.accepted.drop_last() =~= st.accepted);
        }
        insert_by_id(&mut stored, c);
        proof {
            st = next;
        }
        taken = taken + 1;
    }
    let div = match diversity {
        Some(d) => d,
        None => 0,
    };
    Ok((stored, div))
}

/// Whether candidate `c` is assigned to cell `k`.
fn has_projection(c: &ArchiveCandidate, k: &ArchiveCellKey) -> (r: bool)
    ensures
        r == c@.projections.contains(k@),
{
    let ghost ps = c@.projections;
    let mut j: usize = 0;
    while j < c.projections.len()
        invariant
            ps == c@.projections,
            forall|t: int| 0 <= t < j ==> ps[t] != k@,
        decreases c.projections.len() - j,
    {
        let p = &c.projections[j];
        if cell_compare(p.projection, p.coordinates.as_slice(), k.projection, k.coordinates.as_slice())
            == 0 {
            assert(ps[j as int] == k@);
            return true;
        }
        j = j + 1;
    }
    false
}

/// Add a cell key to a sorted list of distinct keys.
pub(crate) fn insert_key(keys: &mut Vec<ArchiveCellKey>, k: ArchiveCellKey)
    ensures
        keys_of(final(keys)@) == insert_cell(keys_of(old(keys)@), k@),
{
    let ghost m = keys_of(keys@);
    let mut j: usize = 0;
    while j < keys.len()
        invariant
            m == keys_of(keys@),
            m == keys_of(old(keys)@),
            forall|t: int| 0 <= t < j ==> m[t] != k@,
        decreases keys.len() - j,
    {
        if cell_compare(keys[j].projection, keys[j].coordinates.as_slice(), k.projection, k.coordinates.as_slice())
            == 0 {
            assert(m[j as int] == k@);
            return;
        }
        j = j + 1;
    }
    assert(!m.contains(k@));
    let mut j: usize = 0;
    assert(m.skip(0) =~= m);
    while j < keys.len() && cell_compare(k.projection, k.coordinates.as_slice(), keys[j].projection, keys[j].coordinates.as_slice())
        >= 0
        invariant
            j <= keys.len(),
            m == keys_of(keys@),
            m == keys_of(old(keys)@),
            cell_insert_pos(m, k@) == j + cell_insert_pos(m.skip(j as int), k@),
        decreases keys.len() - j,
    {
        assert(m.skip(j as int).drop_first() =~= m.skip(j + 1));
        assert(m.skip(j as int)[0] == m[j as int]);
        j = j + 1;
    }
    if j < keys.len() {
        assert(m.skip(j as int)[0] == m[j as int]);
    }
    let ghost km = k@;
    keys.insert(j, k);
    assert(keys_of(keys@) =~= m.insert(j as int, km));
}

/// The distinct projected cells of all stored candidates, in cell order.
fn collect_keys(stored: &Vec<ArchiveCandidate>) -> (r: Vec<ArchiveCellKey>)
    ensures
        keys_of(r@) == collect_cells(models(stored@)),
{
    let ghost ms = models(stored@);
    let mut keys: Vec<ArchiveCellKey> = Vec::new();
    let mut i: usize = 0;
    while i < stored.len()
        invariant
            i <= stored.len(),
            ms == models(stored@),
            keys_of(keys@) == collect_cells(ms.take(i as int)),
        decreases stored.len() - i,
    {
        let c = &stored[i];
        let ghost base = keys_of(keys@);
        let ghost ps = c@.projections;
        let mut j: usize = 0;
        while j < c.projections.len()
            invariant
                j <= c.projections.len(),
                ps == c@.projections,
                keys_of(keys@) == add_cells(base, ps.take(j as int)),
            decreases c.projections.len() - j,
        {
            let k = ArchiveCellKey::from_projected(&c.projections[j]);
            assert(ps.take(j + 1).drop_last() =~= ps.take(j as int));
            assert(ps.take(j + 1).last() == k@);
            insert_key(&mut keys, k);
            j = j + 1;
        }
        proof {
            assert(ps.take(j as int) =~= ps);
            assert(ms.take(i + 1).drop_last() =~= ms.take(i as int));
            assert(ms.take(i + 1).last() == c@);
        }
        i = i + 1;
    }
    assert(ms.take(stored.len() as int) =~= ms);
    keys
}

/// Indices, in stored order, of the candidates assigned to cell `k`.
fn members_of(stored: &Vec<ArchiveCandidate>, k: &ArchiveCellKey) -> (r: Vec<usize>)
    ensures
        picked(stored@, r@) == cell_members(models(stored@), k@),
        forall|i: int| 0 <= i < r.len() ==> (#[trigger] r@[i]) < stored.len(),
{
    let ghost ms = models(stored@);
    let ghost pred = has_cell(k@);
    let mut r: Vec<usize> = Vec::new();
    let mut i: usize = 0;
    while i < stored.len()
        invariant
            i <= stored.len(),
            ms == models(stored@),
            pred == has_cell(k@),
            picked(stored@, r@) == ms.take(i as int).filter(pred),
            forall|t: int| 0 <= t < r.len() ==> (#[trigger] r@[t]) < stored.len(),
        decreases stored.len() - i,
    {
        let member = has_projection(&stored[i], k);
        proof {
            reveal(Seq::filter);
            assert(ms.take(i + 1).drop_last() =~= ms.take(i as int));
            assert(ms.take(i + 1).last() == stored@[i as int]@);
        }
        let ghost prev = r@;
        if member {
            r.push(i);
            assert(picked(stored@, r@) =~= picked(stored@, prev).push(stored@[i as int]@));
        }
        i = i + 1;
    }
    assert(ms.take(stored.len() as int) =~= ms);
    r
}

/// Whether `ids` holds `id`.
fn contains_u64(ids: &Vec<u64>, id: u64) -> (r: bool)
    ensures
        r == ids@.contains(id),
{
    let mut k: usize = 0;
    while k < ids.len()
        invariant
            forall|j: int| 0 <= j < k ==> ids@[j] != id,
        decreases ids.len() - k,
    {
        if ids[k] == id {
            assert(ids@[k as int] == id);
            return true;
        }
        k = k + 1;
    }
    false
}

/// Mathematical value of the cells of an archive.
pub open spec fn cells_model(v: Seq<(ArchiveCellKey, ArchiveCell)>) -> Seq<(CellModel, Seq<u64>)> {
    v.map_values(|e: (ArchiveCellKey, ArchiveCell)| (e.0@, e.1@))
}

/// Mathematical value of the per-candidate elite cells of an archive.
pub open spec fn elite_cells_model(v: Seq<(u64, Vec<ArchiveCellKey>)>) -> Seq<(u64, Seq<CellModel>)> {
    v.map_values(|e: (u64, Vec<ArchiveCellKey>)| (e.0, keys_of(e.1@)))
}

/// The expected cells: every key with its elites.
pub open spec fn expected_cells(
    stored: Seq<CandidateModel>,
    keys: Seq<CellModel>,
    directions: Seq<ObjectiveDirection>,
    capacity: nat,
) -> Seq<(CellModel, Seq<u64>)> {
    keys.map_values(|k: CellModel| (k, cell_elites(stored, k, directions, capacity)))
}

/// Compute the elites of every cell.
fn compute_cells(
    stored: &Vec<ArchiveCandidate>,
    keys: Vec<ArchiveCellKey>,
    directions: &Vec<ObjectiveDirection>,
    capacity: usize,
) -> (r: Vec<(ArchiveCellKey, ArchiveCell)>)
    requires
        capacity > 0,
        forall|i: int| 0 <= i < stored.len() ==> (#[trigger] stored@[i]).quality@.len() == directions.len(),
    ensures
        cells_model(r@) == expected_cells(models(stored@), keys_of(keys@), directions@, capacity as nat),
{
    let ghost km = keys_of(keys@);
    let ghost ms = models(stored@);
    let mut keys = keys;
    let mut cells: Vec<(ArchiveCellKey, ArchiveCell)> = Vec::new();
    let mut taken: usize = 0;
    let total = keys.len();
    while keys.len() > 0
        invariant
            taken + keys.len() == total,
            total == km.len(),
            keys_of(keys@) == km.skip(taken as int),
            ms == models(stored@),
            capacity > 0,
            forall|i: int| 0 <= i < stored.len() ==> (#[trigger] stored@[i]).quality@.len() == directions.len(),
            cells_model(cells@) == expected_cells(ms, km, directions@, capacity as nat).take(taken as int),
        decreases keys.len(),
    {
        let ghost prev = keys@;
        assert(keys_of(prev)[0] == km.skip(taken as int)[0]);
        let key = keys.remove(0);
        proof {
            assert(keys_of(keys@) =~= keys_of(prev).drop_first());
            assert(keys_of(keys@) =~= km.skip(taken + 1));
        }
        let members = members_of(stored, &key);
        proof {
            assert forall|i: int| 0 <= i < members.len() implies stored@[(#[trigger] members@[i]) as int].quality@.len()
                == directions.len() by {
                assert(members@[i] < stored.len());
            }
        }
        let front = bounded_pareto_front(stored, &members, directions, capacity);
        let ghost fm = picked(stored@, front@);
        let mut elites: Vec<u64> = Vec::new();
        let mut j: usize = 0;
        while j < front.len()
            invariant
                j <= front.len(),
                fm == picked(stored@, front@),
                forall|t: int| 0 <= t < front.len() ==> (#[trigger] front@[t]) < stored.len(),
                elites@ == ids_of(fm).take(j as int),
            decreases front.len() - j,
        {
            assert(fm[j as int] == stored@[front@[j as int] as int]@);
            elites.push(stored[front[j]].id);
            assert(elites@ =~= ids_of(fm).take(j + 1));
            j = j + 1;
        }
        assert(elites@ =~= ids_of(fm));
        let ghost entry = (key@, elites@);
        let ghost prev_cells = cells@;
        let cell = ArchiveCell { elites };
        assert(cell@ == entry.1);
        cells.push((key, cell));
        proof {
            assert(cells_model(cells@) =~= cells_model(prev_cells).push(entry));
            assert(km[taken as int] == entry.0);
            assert(entry.1 == cell_elites(ms, km[taken as int], directions@, capacity as nat));
            assert(cells_model(cells@) =~= expected_cells(ms, km, directions@, capacity as nat).take(
                taken + 1,
            ));
        }
        taken = taken + 1;
    }
    assert(expected_cells(ms, km, directions@, capacity as nat).take(taken as int) =~= expected_cells(
        ms,
        km,
        directions@,
        capacity as nat,
    ));
    cells
}

/// Cells, in cell order, in which candidate `id` survived.
fn elite_keys_for(
    cells: &Vec<(ArchiveCellKey, ArchiveCell)>,
    id: u64,
    Ghost(stored): Ghost<Seq<CandidateModel>>,
    Ghost(keys): Ghost<Seq<CellModel>>,
    Ghost(directions): Ghost<Seq<ObjectiveDirection>>,
    Ghost(capacity): Ghost<nat>,
) -> (r: Vec<ArchiveCellKey>)
    requires
        cells_model(cells@) == expected_cells(stored, keys, directions, capacity),
    ensures
        keys_of(r@) == elite_keys(stored, keys, id, directions, capacity),
{
    let ghost pred = elite_in(stored, id, directions, capacity);
    let ghost cm = cells_model(cells@);
    let mut r: Vec<ArchiveCellKey> = Vec::new();
    let mut i: usize = 0;
    assert(cm.len() == keys.len());
    while i < cells.len()
        invariant
            i <= cells.len(),
            cm == cells_model(cells@),
            cm == expected_cells(stored, keys, directions, capacity),
            cm.len() == keys.len(),
            pred == elite_in(stored, id, directions, capacity),
            keys_of(r@) == keys.take(i as int).filter(pred),
        decreases cells.len() - i,
    {
        assert(cm[i as int] == (cells@[i as int].0@, cells@[i as int].1@));
        let found = contains_u64(&cells[i].1.elites, id);
        proof {
            reveal(Seq::filter);
            assert(keys.take(i + 1).drop_last() =~= keys.take(i as int));
            assert(keys.take(i + 1).last() == keys[i as int]);
            assert(found == pred(keys[i as int]));
        }
        if found {
            let ghost prev = r@;
            let k = cells[i].0.duplicate();
            r.push(k);
            assert(keys_of(r@) =~= keys_of(prev).push(keys[i as int]));
        }
        i = i + 1;
    }
    assert(keys.take(cells.len() as int) =~= keys);
    r
}

/// Mathematical value of a built archive.
pub struct ArchiveModel {
    /// Retained candidates in identifier order.
    pub candidates: Seq<CandidateModel>,
    /// Every projected cell, in cell order, with its elites in identifier order.
    pub cells: Seq<(CellModel, Seq<u64>)>,
    /// For each retained candidate, the cells in which it survived, in cell order.
    pub elite_cells: Seq<(u64, Seq<CellModel>)>,
    pub diversity_dimensions: nat,
    pub submitted_candidates: nat,
    pub retained_candidates: nat,
    pub cell_count: nat,
    pub elite_placements: nat,
}

/// The archive built from a successful validation state.
pub open spec fn archive_model(
    st: BuildScan,
    directions: Seq<ObjectiveDirection>,
    capacity: nat,
) -> ArchiveModel {
    let stored = sort_by_id(st.accepted);
    let keys = collect_cells(stored);
    let kept = retained(stored, keys, directions, capacity);
    ArchiveModel {
        candidates: kept,
        cells: expected_cells(stored, keys, directions, capacity),
        elite_cells: kept.map_values(
            |c: CandidateModel| (c.id, elite_keys(stored, keys, c.id, directions, capacity)),
        ),
        diversity_dimensions: match st.diversity {
            Some(d) => d,
            None => 0,
        },
        submitted_candidates: st.accepted.len(),
        retained_candidates: kept.len(),
        cell_count: keys.len(),
        elite_placements: placements(stored, keys, kept, directions, capacity) as nat,
    }
}

/// The result of building an archive with the given configuration and inputs.
pub open spec fn build_result(
    directions: Seq<ObjectiveDirection>,
    capacity: nat,
    inputs: Seq<CandidateModel>,
) -> Result<ArchiveModel, ArchiveError> {
    if directions.len() == 0 {
        Err(ArchiveError::EmptyQualityVector)
    } else if capacity == 0 {
        Err(ArchiveError::ZeroCellCapacity)
    } else {
        match scan_all(directions.len(), initial_scan(), inputs) {
            Err(e) => Err(e),
            Ok(st) => Ok(archive_model(st, directions, capacity)),
        }
    }
}

/// A deterministic collection of bounded Pareto fronts across independent
/// descriptor projections. A candidate is retained when it survives in at
/// least one projected cell.
#[derive(Debug, PartialEq, Eq)]
pub struct QualityDiversityArchive {
    config: ArchiveConfig,
    candidates: Vec<ArchiveCandidate>,
    cells: Vec<(ArchiveCellKey, ArchiveCell)>,
    elite_cells: Vec<(u64, Vec<ArchiveCellKey>)>,
    diversity_dimensions: usize,
    summary: ArchiveBuildSummary,
}

impl QualityDiversityArchive {
    /// The archive's mathematical value.
    pub closed spec fn model(&self) -> ArchiveModel {
        ArchiveModel {
            candidates: models(self.candidates@),
            cells: cells_model(self.cells@),
            elite_cells: elite_cells_model(self.elite_cells@),
            diversity_dimensions: self.diversity_dimensions as nat,
            submitted_candidates: self.summary.submitted_candidates as nat,
            retained_candidates: self.summary.retained_candidates as nat,
            cell_count: self.summary.cell_count as nat,
            elite_placements: self.summary.elite_placements as nat,
        }
    }

    /// The configuration the archive was built with.
    pub closed spec fn spec_config(&self) -> ArchiveConfig {
        self.config
    }

    /// Retained candidates have increasing identifiers and the common diversity dimension.
    #[verifier::type_invariant]
    spec fn well_formed(&self) -> bool {
        &&& ids_increasing(models(self.candidates@))
        &&& forall|i: int|
            0 <= i < self.candidates.len() ==> (#[trigger] self.candidates@[i]).diversity_coordinates@.len()
                == self.diversity_dimensions
    }

    /// Build order-independently from precomputed candidates.
    ///
    /// Each cell first drops Pareto-dominated candidates. If its front exceeds
    /// `elites_per_cell`, the least crowded candidate is repeatedly removed.
    /// Crowding is the saturating sum of range-normalized neighbour gaps in
    /// each integer quality coordinate; coordinate extrema are protected.
    /// Equal crowding is broken by retaining the smaller stable identifier.
    pub fn build(config: ArchiveConfig, candidates: Vec<ArchiveCandidate>) -> (r: Result<Self, ArchiveError>)
        requires
            total_projections(models(candidates@)) <= usize::MAX,
        ensures
            match build_result(config.quality_directions@, config.elites_per_cell as nat, models(candidates@)) {
                Ok(m) => r matches Ok(a) && a.model() == m && a.spec_config() == config,
                Err(e) => r matches Err(re) && re == e,
            },
    {
        if config.quality_directions.len() == 0 {
            return Err(ArchiveError::EmptyQualityVector);
        }
        if config.elites_per_cell == 0 {
            return Err(ArchiveError::ZeroCellCapacity);
        }
        let ghost inputs = models(candidates@);
        let ghost directions = config.quality_directions@;
        let ghost capacity = config.elites_per_cell as nat;
        let (stored, diversity) = match validate_candidates(config.quality_directions.len(), candidates) {
            Ok(v) => v,
            Err(e) => {
                return Err(e);
            },
        };
        let ghost st = scan_all(directions.len(), initial_scan(), inputs)->Ok_0;
        let ghost sm = models(stored@);
        proof {
            lemma_scan_all_invariant(directions.len(), initial_scan(), inputs);
            lemma_sort_by_id_contents(st.accepted);
            lemma_sort_by_id_sorted(st.accepted);
            assert forall|i: int| 0 <= i < stored.len() implies (#[trigger] stored@[i]).quality@.len()
                == config.quality_directions.len() && stored@[i].diversity_coordinates@.len() == diversity by {
                assert(sm[i] == stored@[i]@);
                assert(sort_by_id(st.accepted).contains(sm[i]));
                assert(st.accepted.contains(sm[i]));
                let j = choose|j: int| 0 <= j < st.accepted.len() && st.accepted[j] == sm[i];
                assert(st.accepted[j].quality.len() == directions.len());
                assert(st.accepted[j].diversity.len() == st.diversity->0);
            }
            assert(ids_distinct(sm));
        }
        let keys = collect_keys(&stored);
        let ghost km = keys_of(keys@);
        let cells = compute_cells(&stored, keys, &config.quality_directions, config.elites_per_cell);
        let ghost surv = survives(sm, km, directions, capacity);
        let ghost kept = retained(sm, km, directions, capacity);
        proof {
            lemma_total_filter(sm, surv);
            lemma_total_sort_by_id(st.accepted);
            lemma_scan_all_accepts(directions.len(), initial_scan(), inputs);
            assert(st.accepted =~= inputs.map_values(|c: CandidateModel| normalized(c)));
            lemma_total_normalized(inputs);
            assert forall|i: int| 0 <= i < kept.len() implies sm.contains(#[trigger] kept[i]) by {
                assert(kept.contains(kept[i]));
                sm.lemma_filter_contains_rev(surv, kept[i]);
            }
            lemma_placements_bound(sm, kept, directions, capacity);
            assert(total_projections(sm) <= usize::MAX);
            assert(ids_increasing(sm));
        }
        let mut flags: Vec<bool> = Vec::new();
        let mut elite_cells: Vec<(u64, Vec<ArchiveCellKey>)> = Vec::new();
        let mut elite_placements: usize = 0;
        let mut i: usize = 0;
        while i < stored.len()
            invariant
                i <= stored.len(),
                sm == models(stored@),
                ids_distinct(sm),
                cells_model(cells@) == expected_cells(sm, km, directions, capacity),
                surv == survives(sm, km, directions, capacity),
                kept == sm.filter(surv),
                km == collect_cells(sm),
                flags.len() == i,
                forall|t: int| 0 <= t < i ==> flags@[t] == surv(sm[t]),
                elite_cells_model(elite_cells@) == sm.take(i as int).filter(surv).map_values(
                    |c: CandidateModel| (c.id, elite_keys(sm, km, c.id, directions, capacity)),
                ),
                elite_placements == placements(sm, km, sm.take(i as int).filter(surv), directions, capacity),
                total_projections(kept) <= usize::MAX,
                total_projections(sm) <= usize::MAX,
            decreases stored.len() - i,
        {
            let id = stored[i].id;
            assert(sm[i as int].id == id);
            let ek = elite_keys_for(&cells, id, Ghost(sm), Ghost(km), Ghost(directions), Ghost(capacity));
            let keep = ek.len() > 0;
            proof {
                reveal(Seq::filter);
                assert(sm.take(i + 1).drop_last() =~= sm.take(i as int));
                assert(sm.take(i + 1).last() == sm[i as int]);
                assert(keep == surv(sm[i as int]));
            }
            flags.push(keep);
            if keep {
                proof {
                    let pre = sm.take(i as int).filter(surv);
                    let post = sm.take(i + 1).filter(surv);
                    assert(post == pre.push(sm[i as int]));
                    assert(post.drop_last() =~= pre);
                    assert forall|t: int| 0 <= t < post.len() implies sm.contains(#[trigger] post[t]) by {
                        assert(post.contains(post[t]));
                        sm.take(i + 1).lemma_filter_contains_rev(surv, post[t]);
                        let pre_seq = sm.take(i + 1);
                        assert(pre_seq.contains(post[t]));
                        let u = choose|u: int| 0 <= u < pre_seq.len() && pre_seq[u] == post[t];
                        assert(sm[u] == post[t]);
                    }
                    lemma_placements_bound(sm, post, directions, capacity);
                    lemma_total_filter(sm.take(i + 1), surv);
                    lemma_total_prefix(sm, i + 1);
                    lemma_total_filter(sm, surv);
                }
                let ghost prev = elite_cells@;
                assert(keys_of(ek@).len() == ek.len());
                assert(placements(sm, km, sm.take(i + 1).filter(surv), directions, capacity)
                    == elite_placements + ek.len());
                elite_placements = elite_placements + ek.len();
                let ghost ekm = keys_of(ek@);
                elite_cells.push((id, ek));
                assert(elite_cells_model(elite_cells@) =~= elite_cells_model(prev).push((id, ekm)));
            }
            i = i + 1;
        }
        assert(sm.take(stored.len() as int) =~= sm);
        let mut stored = stored;
        let mut kept_candidates: Vec<ArchiveCandidate> = Vec::new();
        let mut j: usize = 0;
        let total = stored.len();
        assert(sm.skip(0) =~= sm);
        while stored.len() > 0
            invariant
                j + stored.len() == total,
                total == sm.len(),
                models(stored@) == sm.skip(j as int),
                flags.len() == total,
                forall|t: int| 0 <= t < total ==> flags@[t] == surv(sm[t]),
                models(kept_candidates@) == sm.take(j as int).filter(surv),
                forall|t: int| 0 <= t < stored.len() ==> (#[trigger] stored@[t]).diversity_coordinates@.len()
                    == diversity,
                forall|t: int| 0 <= t < kept_candidates.len() ==> (#[trigger] kept_candidates@[t]).diversity_coordinates@.len()
                    == diversity,
            decreases stored.len(),
        {
            let ghost prev = stored@;
            assert(models(prev)[0] == sm.skip(j as int)[0]);
            let c = stored.remove(0);
            proof {
                assert(models(stored@) =~= models(prev).drop_first());
                assert(sm.skip(j as int).drop_first() =~= sm.skip(j + 1));
                assert(forall|t: int| 0 <= t < stored.len() ==> stored@[t] == prev[t + 1]);
                reveal(Seq::filter);
                assert(sm.take(j + 1).drop_last() =~= sm.take(j as int));
                assert(sm.take(j + 1).last() == c@);
            }
            if flags[j] {
                let ghost pk = kept_candidates@;
                kept_candidates.push(c);
                assert(models(kept_candidates@) =~= models(pk).push(sm[j as int]));
            }
            j = j + 1;
        }
        assert(sm.take(total as int) =~= sm);
        proof {
            lemma_sort_by_id_sorted(st.accepted);
            assert(ids_increasing(sm));
            assert(models(kept_candidates@) == sm.filter(surv));
            assert forall|a: int, b: int| 0 <= a < b < sm.filter(surv).len() implies sm.filter(surv)[a].id
                < sm.filter(surv)[b].id by {
                lemma_filter_preserves_increasing(sm, surv, a, b);
            }
            assert(ids_increasing(models(kept_candidates@)));
        }
        let summary = ArchiveBuildSummary {
            submitted_candidates: total,
            retained_candidates: kept_candidates.len(),
            cell_count: cells.len(),
            elite_placements,
        };
        proof {
            lemma_scan_all_accepts(directions.len(), initial_scan(), inputs);
            lemma_scan_all_invariant(directions.len(), initial_scan(), inputs);
            lemma_sort_by_id_sorted(st.accepted);
            lemma_sort_by_id_contents(st.accepted);
        }
        assert(ids_increasing(models(kept_candidates@)));
        assert(forall|t: int| 0 <= t < kept_candidates.len() ==> (#[trigger] kept_candidates@[t]).diversity_coordinates@.len()
            == diversity);
        let archive = QualityDiversityArchive {
            config,
            candidates: kept_candidates,
            cells,
            elite_cells,
            diversity_dimensions: diversity,
            summary,
        };
        proof {
            let m = archive_model(st, directions, capacity);
            assert(archive.model().candidates == m.candidates);
            assert(archive.model().cells == m.cells);
            assert(archive.model().elite_cells =~= m.elite_cells);
            assert(archive.model().diversity_dimensions == m.diversity_dimensions);
            assert(archive.model().submitted_candidates == m.submitted_candidates);
            assert(archive.model().retained_candidates == m.retained_candidates);
            assert(archive.model().cell_count == m.cell_count);
            assert(archive.model().elite_placements == m.elite_placements);
        }
        Ok(archive)
    }
}

impl QualityDiversityArchive {
    pub fn config(&self) -> (r: &ArchiveConfig)
        ensures
            *r == self.spec_config(),
    {
        &self.config
    }

    pub fn summary(&self) -> (r: ArchiveBuildSummary)
        ensures
            r.submitted_candidates == self.model().submitted_candidates,
            r.retained_candidates == self.model().retained_candidates,
            r.cell_count == self.model().cell_count,
            r.elite_placements == self.model().elite_placements,
    {
        self.summary
    }

    /// Number of retained candidates.
    pub fn len(&self) -> (r: usize)
        ensures
            r == self.model().candidates.len(),
    {
        self.candidates.len()
    }

    pub fn is_empty(&self) -> (r: bool)
        ensures
            r == (self.model().candidates.len() == 0),
    {
        self.candidates.len() == 0
    }

    pub fn diversity_dimensions(&self) -> (r: usize)
        ensures
            r == self.model().diversity_dimensions,
    {
        self.diversity_dimensions
    }

    /// The retained candidate with identifier `id`, if any.
    pub fn candidate(&self, id: &u64) -> (r: Option<&ArchiveCandidate>)
        ensures
            match r {
                Some(c) => c@.id == *id && exists|i: int|
                    0 <= i < self.model().candidates.len() && self.model().candidates[i] == c@,
                None => forall|i: int|
                    0 <= i < self.model().candidates.len() ==> self.model().candidates[i].id != *id,
            },
    {
        let mut k: usize = 0;
        while k < self.candidates.len()
            invariant
                forall|j: int| 0 <= j < k ==> self.candidates@[j].id != *id,
            decreases self.candidates.len() - k,
        {
            if self.candidates[k].id == *id {
                assert(self.model().candidates[k as int] == self.candidates@[k as int]@);
                return Some(&self.candidates[k]);
            }
            k = k + 1;
        }
        assert forall|i: int| 0 <= i < self.model().candidates.len() implies self.model().candidates[i].id
            != *id by {
            assert(self.model().candidates[i] == self.candidates@[i]@);
        }
        None
    }

    /// The retained candidates, in identifier order.
    pub(crate) fn candidate_list(&self) -> (r: &Vec<ArchiveCandidate>)
        ensures
            models(r@) == self.model().candidates,
    {
        &self.candidates
    }

    /// Retained candidate identifiers in stable order.
    pub fn candidate_ids(&self) -> (r: Vec<u64>)
        ensures
            r@ == ids_of(self.model().candidates),
    {
        let mut r: Vec<u64> = Vec::new();
        let mut k: usize = 0;
        while k < self.candidates.len()
            invariant
                k <= self.candidates.len(),
                r@ == ids_of(models(self.candidates@)).take(k as int),
            decreases self.candidates.len() - k,
        {
            r.push(self.candidates[k].id);
            assert(r@ =~= ids_of(models(self.candidates@)).take(k + 1));
            k = k + 1;
        }
        assert(r@ =~= ids_of(models(self.candidates@)));
        r
    }

    /// Every cell, in cell order, with its elites.
    pub fn cells(&self) -> (r: &[(ArchiveCellKey, ArchiveCell)])
        ensures
            cells_model(r@) == self.model().cells,
    {
        self.cells.as_slice()
    }

    /// The cell with key `key`, if any candidate was assigned to it.
    pub fn cell(&self, key: &ArchiveCellKey) -> (r: Option<&ArchiveCell>)
        ensures
            match r {
                Some(c) => exists|i: int|
                    0 <= i < self.model().cells.len() && self.model().cells[i] == (key@, c@),
                None => forall|i: int|
                    0 <= i < self.model().cells.len() ==> self.model().cells[i].0 != key@,
            },
    {
        let mut k: usize = 0;
        while k < self.cells.len()
            invariant
                forall|j: int| 0 <= j < k ==> self.cells@[j].0@ != key@,
            decreases self.cells.len() - k,
        {
            let e = &self.cells[k];
            if cell_compare(e.0.projection, e.0.coordinates.as_slice(), key.projection, key.coordinates.as_slice())
                == 0 {
                assert(self.model().cells[k as int] == (e.0@, e.1@));
                return Some(&e.1);
            }
            k = k + 1;
        }
        assert forall|i: int| 0 <= i < self.model().cells.len() implies self.model().cells[i].0
            != key@ by {
            assert(self.model().cells[i].0 == self.cells@[i].0@);
        }
        None
    }

    /// Cells in which this candidate survived Pareto and crowding reduction.
    /// This can be a subset of the candidate's cell assignments.
    pub fn elite_cells_for(&self, id: &u64) -> (r: Option<&[ArchiveCellKey]>)
        ensures
            match r {
                Some(ks) => exists|i: int|
                    0 <= i < self.model().elite_cells.len() && self.model().elite_cells[i] == (
                        *id,
                        keys_of(ks@),
                    ),
                None => forall|i: int|
                    0 <= i < self.model().elite_cells.len() ==> self.model().elite_cells[i].0 != *id,
            },
    {
        let mut k: usize = 0;
        while k < self.elite_cells.len()
            invariant
                forall|j: int| 0 <= j < k ==> self.elite_cells@[j].0 != *id,
            decreases self.elite_cells.len() - k,
        {
            if self.elite_cells[k].0 == *id {
                assert(self.model().elite_cells[k as int] == (
                    self.elite_cells@[k as int].0,
                    keys_of(self.elite_cells@[k as int].1@),
                ));
                return Some(self.elite_cells[k].1.as_slice());
            }
            k = k + 1;
        }
        assert forall|i: int| 0 <= i < self.model().elite_cells.len() implies self.model().elite_cells[i].0
            != *id by {
            assert(self.model().elite_cells[i].0 == self.elite_cells@[i].0);
        }
        None
    }
}

pub proof fn lemma_total_prefix(s: Seq<CandidateModel>, n: int)
    requires
        0 <= n <= s.len(),
    ensures
        total_projections(s.take(n)) <= total_projections(s),
    decreases s.len(),
{
    if n < s.len() {
        lemma_total_prefix(s.drop_last(), n);
        assert(s.drop_last().take(n) =~= s.take(n));
    } else {
        assert(s.take(n) =~= s);
    }
}

pub proof fn lemma_filter_preserves_increasing(
    s: Seq<CandidateModel>,
    pred: spec_fn(CandidateModel) -> bool,
    a: int,
    b: int,
)
    requires
        ids_increasing(s),
        0 <= a < b < s.filter(pred).len(),
    ensures
        s.filter(pred)[a].id < s.filter(pred)[b].id,
    decreases s.len(),
{
    reveal(Seq::filter);
    let d = s.drop_last();
    if pred(s.last()) && b == s.filter(pred).len() - 1 {
        let x = s.filter(pred)[a];
        assert(x == d.filter(pred)[a]);
        assert(d.filter(pred).contains(x));
        d.lemma_filter_contains_rev(pred, x);
        let j = choose|j: int| 0 <= j < d.len() && d[j] == x;
        assert(s[j] == x);
    } else {
        assert(ids_increasing(d));
        lemma_filter_preserves_increasing(d, pred, a, b);
    }
}

} // verus!
