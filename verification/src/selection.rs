//! Package-aware representative selection over a built archive: marginal
//! projected-cell coverage first, max-min L1 diversity second, the smaller
//! stable package identifier last.
use vstd::prelude::*;

use std::ops::RangeInclusive;

use crate::archive::{ArchiveCandidate, ArchiveCellKey, CandidateModel, QualityDiversityArchive, keys_of, models};
use crate::front::ids_of;
use crate::archive_spec::{add_cells, insert_cell, lemma_add_cells_concat};
use crate::cell_order::{CellModel, cell_compare};
use crate::selection_spec::{
    PackageModel, SelectionError, StepModel, cand_distance, cross_min, diversity_of, find_candidate,
    has_duplicate_id, l1, l1_prefix, member_cells, min_dist_to, new_cells, opt_min,
    package_min_distance, sort_u64, u64_insert_pos, PackageScan, scan_package, scan_packages,
    initial_package_scan, package_error, sorted_package, eligibility_consulted, package_insert_pos,
    lemma_scan_packages_snoc, lemma_scan_packages_prefix_error, lemma_l1_self, lemma_l1_symmetric,
    lemma_package_distance_extend, GreedyState, greedy, take_package, best_among, preferred, room,
    distance_gt, marginal_coverage, greedy_outcome, initial_greedy, SelectionModel,
    lemma_best_among_range, select_result, lemma_scan_answers_agree, consulted_from,
};

verus! {

/// Atomic unit offered to package-aware representative selection.
#[derive(Clone, Debug, PartialEq, Eq)]
pub struct SelectionPackage {
    pub id: u64,
    pub members: Vec<u64>,
}

impl View for SelectionPackage {
    type V = PackageModel;

    open spec fn view(&self) -> PackageModel {
        PackageModel { id: self.id, members: self.members@ }
    }
}

impl SelectionPackage {
    pub fn new(id: u64, members: Vec<u64>) -> (r: Self)
        ensures
            r.id == id,
            r.members@ == members@,
    {
        SelectionPackage { id, members }
    }
}

/// One auditable greedy choice.
#[derive(Clone, Debug, PartialEq, Eq)]
pub struct SelectionStep {
    pub package_id: u64,
    pub members: Vec<u64>,
    pub marginal_cell_coverage: usize,
    /// `None` means there was no previously or internally selected point from
    /// which to measure distance (normally the first singleton choice).
    pub minimum_l1_distance: Option<u128>,
}

impl View for SelectionStep {
    type V = StepModel;

    open spec fn view(&self) -> StepModel {
        StepModel {
            package_id: self.package_id,
            members: self.members@,
            marginal_cell_coverage: self.marginal_cell_coverage as nat,
            minimum_l1_distance: self.minimum_l1_distance,
        }
    }
}

/// Deterministic representative selection and its rationale.
#[derive(Clone, Debug, PartialEq, Eq)]
pub struct SelectionResult {
    /// Package identifiers in greedy selection order.
    pub selected_packages: Vec<u64>,
    /// Candidate identifiers in package-selection order and ascending order
    /// within each package.
    pub selected_candidates: Vec<u64>,
    /// Covered independent projected cells in stable key order.
    pub covered_cells: Vec<ArchiveCellKey>,
    pub steps: Vec<SelectionStep>,
}

/// Mathematical values of a sequence of steps.
pub open spec fn steps_model(v: Seq<SelectionStep>) -> Seq<StepModel> {
    v.map_values(|s: SelectionStep| s@)
}

/// Mathematical values of a sequence of packages.
pub open spec fn packages_model(v: Seq<SelectionPackage>) -> Seq<PackageModel> {
    v.map_values(|p: SelectionPackage| p@)
}

/// Stable ascending sort of identifiers.
pub fn sort_ids(v: Vec<u64>) -> (r: Vec<u64>)
    ensures
        r@ == sort_u64(v@),
{
    let mut v = v;
    let ghost orig = v@;
    let mut r: Vec<u64> = Vec::new();
    let mut taken: usize = 0;
    let n = v.len();
    while v.len() > 0
        invariant
            taken + v.len() == n,
            n == orig.len(),
            v@ == orig.skip(taken as int),
            r@ == sort_u64(orig.take(taken as int)),
        decreases v.len(),
    {
        let ghost prev = v@;
        let x = v.remove(0);
        proof {
            assert(v@ =~= orig.skip(taken + 1));
            assert(x == orig[taken as int]);
        }
        let mut j: usize = 0;
        let ghost rm = r@;
        assert(rm.skip(0) =~= rm);
        while j < r.len() && r[j] <= x
            invariant
                j <= r.len(),
                rm == r@,
                u64_insert_pos(rm, x) == j + u64_insert_pos(rm.skip(j as int), x),
            decreases r.len() - j,
        {
            assert(rm.skip(j as int).drop_first() =~= rm.skip(j + 1));
            j = j + 1;
        }
        if j < r.len() {
            assert(rm.skip(j as int)[0] == rm[j as int]);
        }
        proof {
            assert(orig.take(taken + 1).drop_last() =~= orig.take(taken as int));
            assert(orig.take(taken + 1).last() == x);
        }
        r.insert(j, x);
        taken = taken + 1;
    }
    assert(orig.take(n as int) =~= orig);
    r
}

/// Whether an identifier occurs twice.
pub fn duplicate_id(v: &Vec<u64>) -> (r: bool)
    ensures
        r == has_duplicate_id(v@),
{
    let mut i: usize = 0;
    while i < v.len()
        invariant
            forall|a: int, b: int| 0 <= a < b < v.len() && a < i ==> v@[a] != v@[b],
        decreases v.len() - i,
    {
        let mut j: usize = i + 1;
        while j < v.len()
            invariant
                i < v.len(),
                i < j <= v.len(),
                forall|a: int, b: int| 0 <= a < b < v.len() && a < i ==> v@[a] != v@[b],
                forall|b: int| i < b < j ==> v@[i as int] != v@[b],
            decreases v.len() - j,
        {
            if v[i] == v[j] {
                return true;
            }
            j = j + 1;
        }
        i = i + 1;
    }
    false
}

/// Index of the first candidate with identifier `id`.
pub fn find_index(cands: &Vec<ArchiveCandidate>, id: u64) -> (r: Option<usize>)
    ensures
        match r {
            Some(k) => k < cands.len() && find_candidate(models(cands@), id) == Some(cands@[k as int]@),
            None => find_candidate(models(cands@), id) is None,
        },
{
    let ghost m = models(cands@);
    let mut k: usize = 0;
    assert(m.skip(0) =~= m);
    while k < cands.len()
        invariant
            k <= cands.len(),
            m == models(cands@),
            find_candidate(m, id) == find_candidate(m.skip(k as int), id),
        decreases cands.len() - k,
    {
        assert(m.skip(k as int).drop_first() =~= m.skip(k + 1));
        assert(m.skip(k as int)[0] == cands@[k as int]@);
        if cands[k].id == id {
            return Some(k);
        }
        k = k + 1;
    }
    None
}

/// Saturating L1 distance between two diversity vectors.
pub fn l1_distance(a: &[i64], b: &[i64]) -> (r: u128)
    ensures
        r == l1(a@, b@),
{
    let mut total: u128 = 0;
    let mut k: usize = 0;
    while k < a.len() && k < b.len()
        invariant
            k <= a.len(),
            k <= b.len(),
            total == l1_prefix(a@, b@, k as int),
            0 <= l1_prefix(a@, b@, k as int) <= u128::MAX,
        decreases a.len() - k,
    {
        let x = a[k];
        let y = b[k];
        let diff: u128 = if x >= y {
            (x as i128 - y as i128) as u128
        } else {
            (y as i128 - x as i128) as u128
        };
        total = total.saturating_add(diff);
        k = k + 1;
    }
    total
}

/// Diversity coordinates of the candidate with identifier `id` (empty when absent).
fn diversity_slice(cands: &Vec<ArchiveCandidate>, id: u64) -> (r: &[i64])
    ensures
        r@ == diversity_of(models(cands@), id),
{
    match find_index(cands, id) {
        Some(x) => cands[x].diversity_coordinates.as_slice(),
        None => {
            let e: &[i64] = &[];
            assert(e@ =~= Seq::<i64>::empty());
            e
        },
    }
}

/// L1 distance between two candidates of the archive.
pub fn candidate_distance(cands: &Vec<ArchiveCandidate>, a: u64, b: u64) -> (r: u128)
    ensures
        r == cand_distance(models(cands@), a, b),
{
    l1_distance(diversity_slice(cands, a), diversity_slice(cands, b))
}

/// Whether the sorted key list holds `k`.
pub fn contains_key(keys: &Vec<ArchiveCellKey>, k: &ArchiveCellKey) -> (r: bool)
    ensures
        r == keys_of(keys@).contains(k@),
{
    let mut j: usize = 0;
    while j < keys.len()
        invariant
            forall|t: int| 0 <= t < j ==> keys@[t]@ != k@,
        decreases keys.len() - j,
    {
        if cell_compare(keys[j].projection, keys[j].coordinates.as_slice(), k.projection, k.coordinates.as_slice())
            == 0 {
            assert(keys_of(keys@)[j as int] == k@);
            return true;
        }
        j = j + 1;
    }
    assert forall|t: int| 0 <= t < keys.len() implies keys_of(keys@)[t] != k@ by {
        assert(keys_of(keys@)[t] == keys@[t]@);
    }
    false
}

/// Number of distinct cells of the package's members not yet covered.
pub fn marginal_cell_coverage(
    cands: &Vec<ArchiveCandidate>,
    members: &Vec<u64>,
    covered: &Vec<ArchiveCellKey>,
) -> (r: usize)
    ensures
        r == new_cells(member_cells(models(cands@), members@), keys_of(covered@)).len(),
{
    let ghost cm = models(cands@);
    let ghost cov = keys_of(covered@);
    let mut fresh: Vec<ArchiveCellKey> = Vec::new();
    let mut i: usize = 0;
    while i < members.len()
        invariant
            i <= members.len(),
            cm == models(cands@),
            cov == keys_of(covered@),
            keys_of(fresh@) == new_cells(member_cells(cm, members@.take(i as int)), cov),
        decreases members.len() - i,
    {
        let ghost base = member_cells(cm, members@.take(i as int));
        proof {
            assert(members@.take(i + 1).drop_last() =~= members@.take(i as int));
            assert(members@.take(i + 1).last() == members@[i as int]);
        }
        match find_index(cands, members[i]) {
            Some(idx) => {
                let c = &cands[idx];
                let ghost ps = c@.projections;
                assert(member_cells(cm, members@.take(i + 1)) == base + ps);
                let mut j: usize = 0;
                assert(base + ps.take(0) =~= base);
                while j < c.projections.len()
                    invariant
                        j <= c.projections.len(),
                        ps == c@.projections,
                        cov == keys_of(covered@),
                        keys_of(fresh@) == new_cells(base + ps.take(j as int), cov),
                    decreases c.projections.len() - j,
                {
                    let k = ArchiveCellKey::from_projected(&c.projections[j]);
                    proof {
                        assert((base + ps.take(j + 1)).drop_last() =~= base + ps.take(j as int));
                        assert((base + ps.take(j + 1)).last() == k@);
                    }
                    if !contains_key(covered, &k) && !contains_key(&fresh, &k) {
                        let ghost prev = fresh@;
                        let ghost km = k@;
                        fresh.push(k);
                        assert(keys_of(fresh@) =~= keys_of(prev).push(km));
                    }
                    j = j + 1;
                }
                assert(ps.take(j as int) =~= ps);
            },
            None => {
                assert(member_cells(cm, members@.take(i + 1)) =~= base);
            },
        }
        i = i + 1;
    }
    assert(members@.take(members.len() as int) =~= members@);
    fresh.len()
}

/// Whether `v` holds `id`.
fn holds_id(v: &Vec<u64>, id: u64) -> (r: bool)
    ensures
        r == v@.contains(id),
{
    let mut k: usize = 0;
    while k < v.len()
        invariant
            forall|j: int| 0 <= j < k ==> v@[j] != id,
        decreases v.len() - k,
    {
        if v[k] == id {
            assert(v@[k as int] == id);
            return true;
        }
        k = k + 1;
    }
    false
}

/// Whether some identifier names no archive candidate.
fn any_unknown(cands: &Vec<ArchiveCandidate>, ids: &Vec<u64>) -> (r: bool)
    ensures
        r == exists|i: int| 0 <= i < ids.len() && find_candidate(models(cands@), ids@[i]) is None,
{
    let mut k: usize = 0;
    while k < ids.len()
        invariant
            forall|t: int| 0 <= t < k ==> find_candidate(models(cands@), ids@[t]) is Some,
        decreases ids.len() - k,
    {
        if find_index(cands, ids[k]).is_none() {
            return true;
        }
        k = k + 1;
    }
    false
}

/// Whether some identifier is already held.
fn any_held(held: &Vec<u64>, ids: &Vec<u64>) -> (r: bool)
    ensures
        r == exists|i: int| 0 <= i < ids.len() && held@.contains(ids@[i]),
{
    let mut k: usize = 0;
    while k < ids.len()
        invariant
            forall|t: int| 0 <= t < k ==> !held@.contains(ids@[t]),
        decreases ids.len() - k,
    {
        if holds_id(held, ids[k]) {
            return true;
        }
        k = k + 1;
    }
    false
}

/// Whether identifier `id` was already seen.
fn package_id_taken(seen: &Vec<u64>, id: u64) -> (r: bool)
    ensures
        r == seen@.contains(id),
{
    let mut k: usize = 0;
    while k < seen.len()
        invariant
            k <= seen.len(),
            forall|t: int| 0 <= t < k ==> seen@[t] != id,
        decreases seen.len() - k,
    {
        if seen[k] == id {
            assert(seen@[k as int] == id);
            return true;
        }
        k = k + 1;
    }
    false
}

/// Validate packages in input order, consulting `is_eligible` for each
/// structurally valid package, and keep the eligible ones by identifier.
pub fn validate_packages<F: Fn(&SelectionPackage) -> bool>(
    cands: &Vec<ArchiveCandidate>,
    packages: Vec<SelectionPackage>,
    is_eligible: &F,
) -> (r: (Result<Vec<SelectionPackage>, SelectionError>, Ghost<Seq<bool>>))
    requires
        forall|q: SelectionPackage| call_requires(*is_eligible, (&q,)),
    ensures
        r.1@.len() == packages.len(),
        forall|i: int|
            0 <= i < packages.len() && eligibility_consulted(
                models(cands@),
                packages_model(packages@),
                r.1@,
                i,
            ) ==> exists|q: SelectionPackage|
                q@ == sorted_package(packages@[i]@) && call_ensures(*is_eligible, (&q,), r.1@[i]),
        match scan_packages(models(cands@), initial_package_scan(), packages_model(packages@), r.1@) {
            Ok(st) => r.0 matches Ok(v) && packages_model(v@) == st.eligible,
            Err(e) => r.0 == Err::<Vec<SelectionPackage>, SelectionError>(e),
        },
{
    let ghost cm = models(cands@);
    let ghost pm = packages_model(packages@);
    let total = packages.len();
    let mut rest = packages;
    let mut eligible: Vec<SelectionPackage> = Vec::new();
    let mut packaged: Vec<u64> = Vec::new();
    let mut seen: Vec<u64> = Vec::new();
    let mut i: usize = 0;
    let ghost mut es: Seq<bool> = Seq::empty();
    let ghost mut st = initial_package_scan();
    assert(pm.take(0) =~= Seq::<PackageModel>::empty());
    while rest.len() > 0
        invariant
            i + rest.len() == total,
            pm.len() == total,
            cm == models(cands@),
            pm == packages_model(packages@),
            packages_model(rest@) == pm.skip(i as int),
            es.len() == i,
            scan_packages(cm, initial_package_scan(), pm.take(i as int), es) == Ok::<PackageScan, SelectionError>(st),
            packages_model(eligible@) == st.eligible,
            packaged@ == st.packaged,
            seen@ == st.seen_ids,
            forall|t: int|
                0 <= t < i && #[trigger] eligibility_consulted(cm, pm, es, t) ==> exists|q: SelectionPackage|
                    q@ == sorted_package(pm[t]) && call_ensures(*is_eligible, (&q,), es[t]),
            forall|q: SelectionPackage| call_requires(*is_eligible, (&q,)),
        decreases rest.len(),
    {
        let ghost prev = rest@;
        assert(packages_model(prev)[0] == pm.skip(i as int)[0]);
        let mut package = rest.remove(0);
        proof {
            assert(packages_model(rest@) =~= packages_model(prev).drop_first());
            assert(pm.skip(i as int).drop_first() =~= pm.skip(i + 1));
        }
        let ghost p = package@;
        assert(p == pm[i as int]);
        let ghost pad_rest = Seq::new((total - i - 1) as nat, |k: int| false);
        assert(es.take(i as int) =~= es);
        let mut failure: Option<SelectionError> = None;
        let mut members: Vec<u64> = Vec::new();
        std::mem::swap(&mut members, &mut package.members);
        if members.len() == 0 {
            failure = Some(SelectionError::EmptyPackage);
        } else if duplicate_id(&members) {
            failure = Some(SelectionError::DuplicatePackageMember);
        }
        let sorted = sort_ids(members);
        if failure.is_none() {
            if any_unknown(cands, &sorted) {
                failure = Some(SelectionError::UnknownCandidate);
            } else if any_held(&packaged, &sorted) {
                failure = Some(SelectionError::CandidateInMultiplePackages);
            } else if package_id_taken(&seen, package.id) {
                failure = Some(SelectionError::DuplicatePackageId);
            }
        }
        assert(failure == package_error(cm, st, p));
        match failure {
            Some(e) => {
                let ghost full = es.push(false) + pad_rest;
                proof {
                    lemma_scan_packages_snoc(cm, initial_package_scan(), pm.take(i as int), es, p, false);
                    assert(pm.take(i + 1) =~= pm.take(i as int).push(p));
                    assert(full.take(i + 1) =~= es.push(false));
                    lemma_scan_packages_prefix_error(cm, initial_package_scan(), pm, full, i + 1);
                    assert forall|t: int| 0 <= t < total && #[trigger] eligibility_consulted(cm, pm, full, t)
                        implies exists|q: SelectionPackage|
                        q@ == sorted_package(pm[t]) && call_ensures(*is_eligible, (&q,), full[t]) by {
                        if t < i {
                            assert(full.take(t) =~= es.take(t));
                            assert(eligibility_consulted(cm, pm, es, t));
                            assert(full[t] == es[t]);
                        } else if t == i {
                            assert(full.take(t) =~= es);
                        } else {
                            assert(pm.take(t).take(i + 1) =~= pm.take(i + 1));
                            assert(full.take(t).take(i + 1) =~= full.take(i + 1));
                            lemma_scan_packages_prefix_error(cm, initial_package_scan(), pm.take(t), full.take(t), i + 1);
                        }
                    }
                }
                return (Err(e), Ghost(full));
            },
            None => {},
        }
        package.members = sorted;
        assert(package@ == sorted_package(p));
        let keep = is_eligible(&package);
        let ghost next = scan_package(cm, st, p, keep)->Ok_0;
        proof {
            lemma_scan_packages_snoc(cm, initial_package_scan(), pm.take(i as int), es, p, keep);
            assert(pm.take(i + 1) =~= pm.take(i as int).push(p));
        }
        let mut k: usize = 0;
        while k < package.members.len()
            invariant
                k <= package.members.len(),
                packaged@ == st.packaged + package.members@.take(k as int),
            decreases package.members.len() - k,
        {
            packaged.push(package.members[k]);
            assert(st.packaged + package.members@.take(k + 1) =~= (st.packaged + package.members@.take(k as int)).push(package.members@[k as int]));
            k = k + 1;
        }
        assert(package.members@.take(k as int) =~= package.members@);
        seen.push(package.id);
        if keep {
            let mut j: usize = 0;
            let ghost em = packages_model(eligible@);
            assert(em.skip(0) =~= em);
            while j < eligible.len() && eligible[j].id <= package.id
                invariant
                    j <= eligible.len(),
                    em == packages_model(eligible@),
                    package_insert_pos(em, package@) == j + package_insert_pos(em.skip(j as int), package@),
                decreases eligible.len() - j,
            {
                assert(em.skip(j as int).drop_first() =~= em.skip(j + 1));
                assert(em[j as int].id == eligible@[j as int].id);
                j = j + 1;
            }
            if j < eligible.len() {
                assert(em[j as int].id == eligible@[j as int].id);
                assert(em.skip(j as int)[0] == em[j as int]);
            }
            let ghost pk = package@;
            eligible.insert(j, package);
            assert(packages_model(eligible@) =~= em.insert(j as int, pk));
        }
        proof {
            let old_es = es;
            es = es.push(keep);
            st = next;
            assert forall|t: int|
                0 <= t < i + 1 && #[trigger] eligibility_consulted(cm, pm, es, t) implies exists|q: SelectionPackage|
                    q@ == sorted_package(pm[t]) && call_ensures(*is_eligible, (&q,), es[t]) by {
                if t < i {
                    assert(es.take(t) =~= old_es.take(t));
                    assert(eligibility_consulted(cm, pm, old_es, t));
                    assert(es[t] == old_es[t]);
                } else {
                    assert(es[t] == keep);
                }
            }
        }
        i = i + 1;
    }
    assert(pm.take(total as int) =~= pm);
    assert(es.take(total as int) =~= es);
    (Ok(eligible), Ghost(es))
}

/// Lower-triangular cache of distances between distinct active candidates:
/// row `high` holds distances `(high, 0)..(high, high - 1)`.
struct PairwiseDistanceCache {
    candidate_count: usize,
    rows: Vec<Vec<u128>>,
}

/// The cache holds the distance of every ordered pair of active candidates.
spec fn cache_ok(c: PairwiseDistanceCache, cm: Seq<CandidateModel>, active: Seq<u64>) -> bool {
    &&& c.candidate_count == active.len()
    &&& c.rows.len() == active.len()
    &&& forall|h: int| 0 <= h < active.len() ==> (#[trigger] c.rows@[h]).len() == h
    &&& forall|h: int, l: int|
        0 <= l < h < active.len() ==> (#[trigger] c.rows@[h]@[l]) == cand_distance(cm, active[h], active[l])
}

proof fn lemma_distance_symmetric(cm: Seq<CandidateModel>, a: u64, b: u64)
    ensures
        cand_distance(cm, a, b) == cand_distance(cm, b, a),
        cand_distance(cm, a, a) == 0,
{
    lemma_l1_symmetric(diversity_of(cm, a), diversity_of(cm, b));
    lemma_l1_self(diversity_of(cm, a));
}

impl PairwiseDistanceCache {
    fn new(cands: &Vec<ArchiveCandidate>, active: &Vec<u64>) -> (r: Self)
        ensures
            cache_ok(r, models(cands@), active@),
    {
        let ghost cm = models(cands@);
        let mut rows: Vec<Vec<u128>> = Vec::new();
        let mut high: usize = 0;
        while high < active.len()
            invariant
                high <= active.len(),
                cm == models(cands@),
                rows.len() == high,
                forall|h: int| 0 <= h < high ==> (#[trigger] rows@[h]).len() == h,
                forall|h: int, l: int|
                    0 <= l < h < high ==> (#[trigger] rows@[h]@[l]) == cand_distance(cm, active@[h], active@[l]),
            decreases active.len() - high,
        {
            let mut row: Vec<u128> = Vec::new();
            let mut low: usize = 0;
            while low < high
                invariant
                    low <= high < active.len(),
                    cm == models(cands@),
                    row.len() == low,
                    forall|l: int| 0 <= l < low ==> (#[trigger] row@[l]) == cand_distance(
                        cm,
                        active@[high as int],
                        active@[l],
                    ),
                decreases high - low,
            {
                row.push(candidate_distance(cands, active[high], active[low]));
                low = low + 1;
            }
            rows.push(row);
            high = high + 1;
        }
        PairwiseDistanceCache { candidate_count: active.len(), rows }
    }

    /// Distance between active candidates `left` and `right`.
    fn get(
        &self,
        Ghost(cm): Ghost<Seq<CandidateModel>>,
        Ghost(active): Ghost<Seq<u64>>,
        left: usize,
        right: usize,
    ) -> (r: u128)
        requires
            cache_ok(*self, cm, active),
            left < active.len(),
            right < active.len(),
        ensures
            r == cand_distance(cm, active[left as int], active[right as int]),
    {
        proof {
            lemma_distance_symmetric(cm, active[left as int], active[right as int]);
        }
        if left == right {
            return 0;
        }
        if left < right {
            assert(self.rows@[right as int]@[left as int] == cand_distance(cm, active[right as int], active[left as int]));
            self.rows[right][left]
        } else {
            assert(self.rows@[left as int]@[right as int] == cand_distance(cm, active[left as int], active[right as int]));
            self.rows[left][right]
        }
    }
}

/// Position of `id` among the active candidates.
fn index_of(active: &Vec<u64>, id: u64) -> (r: usize)
    requires
        active@.contains(id),
    ensures
        r < active.len(),
        active@[r as int] == id,
{
    let mut k: usize = 0;
    while k < active.len()
        invariant
            active@.contains(id),
            forall|j: int| 0 <= j < k ==> active@[j] != id,
        decreases active.len() - k,
    {
        if active[k] == id {
            return k;
        }
        k = k + 1;
    }
    proof {
        let j = choose|j: int| 0 <= j < active.len() && active@[j] == id;
        assert(false);
    }
    0
}

/// Minimum distance between distinct members of one package.
fn internal_minimum_distance(
    cache: &PairwiseDistanceCache,
    active: &Vec<u64>,
    members: &Vec<u64>,
    Ghost(cm): Ghost<Seq<CandidateModel>>,
) -> (r: Option<u128>)
    requires
        cache_ok(*cache, cm, active@),
        forall|i: int| 0 <= i < members.len() ==> active@.contains(#[trigger] members@[i]),
    ensures
        r == package_min_distance(cm, members@, Seq::empty()),
{
    let ghost ms = members@;
    let mut minimum: Option<u128> = None;
    if members.len() == 0 {
        return None;
    }
    proof {
        assert(ms.take(1).drop_last() =~= Seq::<u64>::empty());
        assert(Seq::<u64>::empty() + ms.take(1).drop_last() =~= Seq::<u64>::empty());
        assert(min_dist_to(cm, ms.take(1).last(), Seq::<u64>::empty()) == None::<u128>);
        assert(package_min_distance(cm, ms.take(1).drop_last(), Seq::empty()) == None::<u128>);
        assert(package_min_distance(cm, ms.take(1), Seq::empty()) == None::<u128>);
    }
    let mut high: usize = 1;
    while high < members.len()
        invariant
            1 <= high <= members.len(),
            ms == members@,
            cache_ok(*cache, cm, active@),
            forall|i: int| 0 <= i < members.len() ==> active@.contains(#[trigger] members@[i]),
            minimum == package_min_distance(cm, ms.take(high as int), Seq::empty()),
        decreases members.len() - high,
    {
        let ghost base = minimum;
        let ih = index_of(active, members[high]);
        let mut low: usize = 0;
        while low < high
            invariant
                low <= high < members.len(),
                ms == members@,
                cache_ok(*cache, cm, active@),
                forall|i: int| 0 <= i < members.len() ==> active@.contains(#[trigger] members@[i]),
                active@[ih as int] == ms[high as int],
                ih < active.len(),
                minimum == opt_min(base, min_dist_to(cm, ms[high as int], ms.take(low as int))),
            decreases high - low,
        {
            let il = index_of(active, members[low]);
            let d = cache.get(Ghost(cm), Ghost(active@), ih, il);
            proof {
                assert(ms.take(low + 1).drop_last() =~= ms.take(low as int));
                assert(ms.take(low + 1).last() == ms[low as int]);
            }
            minimum = match minimum {
                Some(m) => Some(if m <= d { m } else { d }),
                None => Some(d),
            };
            low = low + 1;
        }
        proof {
            assert(ms.take(high + 1).drop_last() =~= ms.take(high as int));
            assert(ms.take(high + 1).last() == ms[high as int]);
            assert(Seq::<u64>::empty() + ms.take(high as int) =~= ms.take(high as int));
            assert(ms.take(high as int).take(low as int) =~= ms.take(high as int));
        }
        high = high + 1;
    }
    assert(ms.take(members.len() as int) =~= ms);
    minimum
}

/// Minimum distance between any member of `left` and any member of `right`.
fn cross_minimum_distance(
    cache: &PairwiseDistanceCache,
    active: &Vec<u64>,
    left: &Vec<u64>,
    right: &Vec<u64>,
    Ghost(cm): Ghost<Seq<CandidateModel>>,
) -> (r: Option<u128>)
    requires
        cache_ok(*cache, cm, active@),
        forall|i: int| 0 <= i < left.len() ==> active@.contains(#[trigger] left@[i]),
        forall|i: int| 0 <= i < right.len() ==> active@.contains(#[trigger] right@[i]),
    ensures
        r == cross_min(cm, left@, right@),
{
    let ghost ls = left@;
    let ghost rs = right@;
    let mut minimum: Option<u128> = None;
    let mut a: usize = 0;
    while a < left.len()
        invariant
            a <= left.len(),
            ls == left@,
            rs == right@,
            cache_ok(*cache, cm, active@),
            forall|i: int| 0 <= i < left.len() ==> active@.contains(#[trigger] left@[i]),
            forall|i: int| 0 <= i < right.len() ==> active@.contains(#[trigger] right@[i]),
            minimum == cross_min(cm, ls.take(a as int), rs),
        decreases left.len() - a,
    {
        let ghost base = minimum;
        let ia = index_of(active, left[a]);
        let mut b: usize = 0;
        while b < right.len()
            invariant
                a < left.len(),
                b <= right.len(),
                ls == left@,
                rs == right@,
                cache_ok(*cache, cm, active@),
                forall|i: int| 0 <= i < right.len() ==> active@.contains(#[trigger] right@[i]),
                active@[ia as int] == ls[a as int],
                ia < active.len(),
                minimum == opt_min(base, min_dist_to(cm, ls[a as int], rs.take(b as int))),
            decreases right.len() - b,
        {
            let ib = index_of(active, right[b]);
            let d = cache.get(Ghost(cm), Ghost(active@), ia, ib);
            proof {
                assert(rs.take(b + 1).drop_last() =~= rs.take(b as int));
                assert(rs.take(b + 1).last() == rs[b as int]);
            }
            minimum = match minimum {
                Some(m) => Some(if m <= d { m } else { d }),
                None => Some(d),
            };
            b = b + 1;
        }
        proof {
            assert(ls.take(a + 1).drop_last() =~= ls.take(a as int));
            assert(ls.take(a + 1).last() == ls[a as int]);
            assert(rs.take(b as int) =~= rs);
        }
        a = a + 1;
    }
    assert(ls.take(left.len() as int) =~= ls);
    minimum
}

/// Minimum distance of a package measured directly from coordinates.
fn package_minimum_distance_reference(
    cands: &Vec<ArchiveCandidate>,
    members: &Vec<u64>,
    selected: &Vec<u64>,
) -> (r: Option<u128>)
    ensures
        r == package_min_distance(models(cands@), members@, selected@),
{
    let ghost cm = models(cands@);
    let ghost ms = members@;
    let ghost ss = selected@;
    let mut minimum: Option<u128> = None;
    let mut index: usize = 0;
    while index < members.len()
        invariant
            index <= members.len(),
            cm == models(cands@),
            ms == members@,
            ss == selected@,
            minimum == package_min_distance(cm, ms.take(index as int), ss),
        decreases members.len() - index,
    {
        let ghost base = minimum;
        let member = members[index];
        let mut k: usize = 0;
        while k < selected.len()
            invariant
                index < members.len(),
                k <= selected.len(),
                cm == models(cands@),
                ms == members@,
                ss == selected@,
                member == ms[index as int],
                minimum == opt_min(base, min_dist_to(cm, member, ss.take(k as int))),
            decreases selected.len() - k,
        {
            let d = candidate_distance(cands, member, selected[k]);
            proof {
                assert(ss.take(k + 1).drop_last() =~= ss.take(k as int));
                assert(ss.take(k + 1).last() == ss[k as int]);
            }
            minimum = match minimum {
                Some(m) => Some(if m <= d { m } else { d }),
                None => Some(d),
            };
            k = k + 1;
        }
        assert(ss.take(k as int) =~= ss + ms.take(0));
        let mut j: usize = 0;
        while j < index
            invariant
                index < members.len(),
                j <= index,
                cm == models(cands@),
                ms == members@,
                ss == selected@,
                member == ms[index as int],
                minimum == opt_min(base, min_dist_to(cm, member, ss + ms.take(j as int))),
            decreases index - j,
        {
            let d = candidate_distance(cands, member, members[j]);
            proof {
                assert((ss + ms.take(j + 1)).drop_last() =~= ss + ms.take(j as int));
                assert((ss + ms.take(j + 1)).last() == ms[j as int]);
            }
            minimum = match minimum {
                Some(m) => Some(if m <= d { m } else { d }),
                None => Some(d),
            };
            j = j + 1;
        }
        proof {
            assert(ms.take(index + 1).drop_last() =~= ms.take(index as int));
            assert(ms.take(index + 1).last() == ms[index as int]);
        }
        index = index + 1;
    }
    assert(ms.take(members.len() as int) =~= ms);
    minimum
}

/// A copy of an identifier list.
fn copy_ids(v: &Vec<u64>) -> (r: Vec<u64>)
    ensures
        r@ == v@,
{
    let mut r: Vec<u64> = Vec::new();
    let mut k: usize = 0;
    while k < v.len()
        invariant
            k <= v.len(),
            r@ == v@.take(k as int),
        decreases v.len() - k,
    {
        r.push(v[k]);
        assert(r@ =~= v@.take(k + 1));
        k = k + 1;
    }
    assert(r@ =~= v@);
    r
}

/// Mathematical value of a selection result.
pub open spec fn selection_model(r: SelectionResult) -> SelectionModel {
    SelectionModel {
        selected_packages: r.selected_packages@,
        selected_candidates: r.selected_candidates@,
        covered_cells: keys_of(r.covered_cells@),
        steps: steps_model(r.steps@),
    }
}

/// Mathematical value of a selection outcome.
pub open spec fn outcome_model(r: Result<SelectionResult, SelectionError>) -> Result<SelectionModel, SelectionError> {
    match r {
        Ok(v) => Ok(selection_model(v)),
        Err(e) => Err(e),
    }
}

/// Add the cells of the given members to the covered set.
fn cover_members(
    cands: &Vec<ArchiveCandidate>,
    members: &Vec<u64>,
    covered: &mut Vec<ArchiveCellKey>,
)
    ensures
        keys_of(final(covered)@) == add_cells(keys_of(old(covered)@), member_cells(models(cands@), members@)),
{
    let ghost cm = models(cands@);
    let ghost start = keys_of(covered@);
    let mut i: usize = 0;
    assert(member_cells(cm, members@.take(0)) =~= Seq::<CellModel>::empty());
    assert(add_cells(start, Seq::<CellModel>::empty()) == start);
    while i < members.len()
        invariant
            i <= members.len(),
            cm == models(cands@),
            start == keys_of(old(covered)@),
            keys_of(covered@) == add_cells(start, member_cells(cm, members@.take(i as int))),
        decreases members.len() - i,
    {
        let ghost base = member_cells(cm, members@.take(i as int));
        proof {
            assert(members@.take(i + 1).drop_last() =~= members@.take(i as int));
            assert(members@.take(i + 1).last() == members@[i as int]);
        }
        match find_index(cands, members[i]) {
            Some(idx) => {
                let c = &cands[idx];
                let ghost ps = c@.projections;
                assert(member_cells(cm, members@.take(i + 1)) == base + ps);
                proof {
                    lemma_add_cells_concat(start, base, ps);
                }
                let ghost mid = add_cells(start, base);
                let mut j: usize = 0;
                assert(ps.take(0) =~= Seq::<CellModel>::empty());
                while j < c.projections.len()
                    invariant
                        j <= c.projections.len(),
                        ps == c@.projections,
                        keys_of(covered@) == add_cells(mid, ps.take(j as int)),
                    decreases c.projections.len() - j,
                {
                    let k = ArchiveCellKey::from_projected(&c.projections[j]);
                    proof {
                        assert(ps.take(j + 1).drop_last() =~= ps.take(j as int));
                        assert(ps.take(j + 1).last() == k@);
                    }
                    crate::archive::insert_key(covered, k);
                    j = j + 1;
                }
                assert(ps.take(j as int) =~= ps);
            },
            None => {
                assert(member_cells(cm, members@.take(i + 1)) =~= base);
            },
        }
        i = i + 1;
    }
    assert(members@.take(members.len() as int) =~= members@);
}

/// An optional position as a mathematical index.
pub open spec fn index_model(o: Option<usize>) -> Option<int> {
    match o {
        Some(j) => Some(j as int),
        None => None,
    }
}

/// Whether two optional distances are equal.
fn same_distance(a: Option<u128>, b: Option<u128>) -> (r: bool)
    ensures
        r == (a == b),
{
    match (a, b) {
        (Some(x), Some(y)) => x == y,
        (None, None) => true,
        _ => false,
    }
}

/// Whether distance `a` is preferred to distance `b`.
fn distance_greater(a: Option<u128>, b: Option<u128>) -> (r: bool)
    ensures
        r == distance_gt(a, b),
{
    match (a, b) {
        (Some(x), Some(y)) => x > y,
        (None, Some(_)) => true,
        _ => false,
    }
}

/// Greedy selection over validated eligible packages.
fn greedy_select(
    cands: &Vec<ArchiveCandidate>,
    eligible: Vec<SelectionPackage>,
    minimum: usize,
    maximum: usize,
    use_cache: bool,
) -> (r: Result<SelectionResult, SelectionError>)
    ensures
        outcome_model(r) == greedy_outcome(models(cands@), packages_model(eligible@), minimum as nat, maximum as nat),
{
    let ghost cm = models(cands@);
    let ghost init = initial_greedy(packages_model(eligible@));
    let mut active: Vec<u64> = Vec::new();
    let mut p: usize = 0;
    while p < eligible.len()
        invariant
            p <= eligible.len(),
            forall|a: int, b: int|
                0 <= a < p && 0 <= b < eligible@[a].members.len() ==> active@.contains(
                    #[trigger] eligible@[a].members@[b],
                ),
        decreases eligible.len() - p,
    {
        let mut q: usize = 0;
        while q < eligible[p].members.len()
            invariant
                p < eligible.len(),
                q <= eligible@[p as int].members.len(),
                forall|a: int, b: int|
                    0 <= a < p && 0 <= b < eligible@[a].members.len() ==> active@.contains(
                        #[trigger] eligible@[a].members@[b],
                    ),
                forall|b: int| 0 <= b < q ==> active@.contains(#[trigger] eligible@[p as int].members@[b]),
            decreases eligible@[p as int].members.len() - q,
        {
            let ghost before = active@;
            active.push(eligible[p].members[q]);
            assert forall|x: u64| before.contains(x) implies active@.contains(x) by {
                let t = choose|t: int| 0 <= t < before.len() && before[t] == x;
                assert(active@[t] == x);
            }
            assert(active@[active.len() - 1] == eligible@[p as int].members@[q as int]);
            q = q + 1;
        }
        p = p + 1;
    }
    let empty: Vec<u64> = Vec::new();
    let cache = if use_cache {
        PairwiseDistanceCache::new(cands, &active)
    } else {
        PairwiseDistanceCache::new(cands, &empty)
    };
    let mut min_dists: Vec<Option<u128>> = Vec::new();
    let mut k: usize = 0;
    while k < eligible.len()
        invariant
            k <= eligible.len(),
            min_dists.len() == k,
            use_cache ==> cache_ok(cache, cm, active@),
            forall|a: int, b: int|
                0 <= a < eligible.len() && 0 <= b < eligible@[a].members.len() ==> active@.contains(
                    #[trigger] eligible@[a].members@[b],
                ),
            use_cache ==> forall|t: int|
                0 <= t < k ==> min_dists@[t] == package_min_distance(
                    cm,
                    eligible@[t].members@,
                    Seq::empty(),
                ),
        decreases eligible.len() - k,
    {
        if use_cache {
            let d = internal_minimum_distance(&cache, &active, &eligible[k].members, Ghost(cm));
            min_dists.push(d);
        } else {
            min_dists.push(None);
        }
        k = k + 1;
    }
    let mut remaining = eligible;
    let mut selected: Vec<u64> = Vec::new();
    let mut chosen: Vec<u64> = Vec::new();
    let mut covered: Vec<ArchiveCellKey> = Vec::new();
    let mut steps: Vec<SelectionStep> = Vec::new();
    let ghost mut gs = init;
    let mut done = false;
    assert(packages_model(remaining@) == init.remaining);
    assert(keys_of(covered@) =~= init.covered);
    assert(steps_model(steps@) =~= init.steps);
    while !done
        invariant
            cm == models(cands@),
            gs.remaining == packages_model(remaining@),
            gs.selected == selected@,
            gs.packages == chosen@,
            gs.covered == keys_of(covered@),
            gs.steps == steps_model(steps@),
            greedy(cm, gs, maximum as nat) == greedy(cm, init, maximum as nat),
            done ==> greedy(cm, gs, maximum as nat) == gs,
            min_dists.len() == remaining.len(),
            use_cache ==> cache_ok(cache, cm, active@),
            use_cache ==> forall|t: int|
                0 <= t < remaining.len() ==> min_dists@[t] == package_min_distance(
                    cm,
                    remaining@[t].members@,
                    selected@,
                ),
            forall|a: int, b: int|
                0 <= a < remaining.len() && 0 <= b < remaining@[a].members.len() ==> active@.contains(
                    #[trigger] remaining@[a].members@[b],
                ),
        decreases remaining.len() + if done { 0int } else { 1int },
    {
        let slots = maximum.saturating_sub(selected.len());
        assert(slots == room(gs, maximum as nat));
        let mut best: Option<usize> = None;
        let mut best_cov: usize = 0;
        let mut best_dist: Option<u128> = None;
        let mut r: usize = 0;
        while r < remaining.len()
            invariant
                r <= remaining.len(),
                cm == models(cands@),
                gs.remaining == packages_model(remaining@),
                gs.selected == selected@,
                gs.covered == keys_of(covered@),
                slots == room(gs, maximum as nat),
                min_dists.len() == remaining.len(),
                use_cache ==> forall|t: int|
                    0 <= t < remaining.len() ==> min_dists@[t] == package_min_distance(
                        cm,
                        remaining@[t].members@,
                        selected@,
                    ),
                index_model(best) == best_among(cm, gs, slots as nat, r as int),
                best matches Some(j) ==> j < r && best_cov == marginal_coverage(
                    cm,
                    gs.remaining[j as int].members,
                    gs.covered,
                ) && best_dist == package_min_distance(cm, gs.remaining[j as int].members, gs.selected),
            decreases remaining.len() - r,
        {
            assert(gs.remaining[r as int] == remaining@[r as int]@);
            if remaining[r].members.len() <= slots {
                let cov = marginal_cell_coverage(cands, &remaining[r].members, &covered);
                let dist = if use_cache {
                    min_dists[r]
                } else {
                    package_minimum_distance_reference(cands, &remaining[r].members, &selected)
                };
                match best {
                    None => {
                        best = Some(r);
                        best_cov = cov;
                        best_dist = dist;
                    },
                    Some(j) => {
                        assert(gs.remaining[j as int] == remaining@[j as int]@);
                        let better = cov > best_cov || (cov == best_cov && (distance_greater(dist, best_dist)
                            || (same_distance(dist, best_dist) && remaining[r].id < remaining[j].id)));
                        assert(better == preferred(cm, gs, r as int, j as int));
                        if better {
                            best = Some(r);
                            best_cov = cov;
                            best_dist = dist;
                        }
                    },
                }
            }
            r = r + 1;
        }
        match best {
            None => {
                done = true;
            },
            Some(i) => {
                proof {
                    lemma_best_among_range(cm, gs, slots as nat, remaining.len() as int);
                }
                let ghost next = take_package(cm, gs, i as int);
                let ghost old_remaining = remaining@;
                let ghost old_selected = selected@;
                let package = remaining.remove(i);
                let _ = min_dists.remove(i);
                assert(package@ == gs.remaining[i as int]);
                assert(packages_model(remaining@) =~= gs.remaining.remove(i as int));
                let members = copy_ids(&package.members);
                steps.push(SelectionStep {
                    package_id: package.id,
                    members,
                    marginal_cell_coverage: best_cov,
                    minimum_l1_distance: best_dist,
                });
                if use_cache {
                    let mut t: usize = 0;
                    while t < remaining.len()
                        invariant
                            t <= remaining.len(),
                            min_dists.len() == remaining.len(),
                            cache_ok(cache, cm, active@),
                            forall|a: int, b: int|
                                0 <= a < remaining.len() && 0 <= b < remaining@[a].members.len()
                                    ==> active@.contains(#[trigger] remaining@[a].members@[b]),
                            forall|b: int| 0 <= b < package.members.len() ==> active@.contains(
                                #[trigger] package.members@[b],
                            ),
                            forall|u: int|
                                t <= u < remaining.len() ==> min_dists@[u] == package_min_distance(
                                    cm,
                                    remaining@[u].members@,
                                    old_selected,
                                ),
                            forall|u: int|
                                0 <= u < t ==> min_dists@[u] == package_min_distance(
                                    cm,
                                    remaining@[u].members@,
                                    old_selected + package.members@,
                                ),
                        decreases remaining.len() - t,
                    {
                        let cross = cross_minimum_distance(&cache, &active, &remaining[t].members, &package.members, Ghost(cm));
                        let current = min_dists[t];
                        let updated = match (current, cross) {
                            (Some(x), Some(y)) => Some(if x <= y { x } else { y }),
                            (Some(x), None) => Some(x),
                            (None, Some(y)) => Some(y),
                            (None, None) => None,
                        };
                        proof {
                            lemma_package_distance_extend(cm, remaining@[t as int].members@, old_selected, package.members@);
                        }
                        min_dists.set(t, updated);
                        t = t + 1;
                    }
                }
                cover_members(cands, &package.members, &mut covered);
                let mut m: usize = 0;
                while m < package.members.len()
                    invariant
                        m <= package.members.len(),
                        selected@ == old_selected + package.members@.take(m as int),
                    decreases package.members.len() - m,
                {
                    selected.push(package.members[m]);
                    assert(old_selected + package.members@.take(m + 1) =~= (old_selected
                        + package.members@.take(m as int)).push(package.members@[m as int]));
                    m = m + 1;
                }
                assert(package.members@.take(m as int) =~= package.members@);
                chosen.push(package.id);
                proof {
                    assert(steps_model(steps@) =~= next.steps);
                    gs = next;
                }
            },
        }
    }
    let result = SelectionResult {
        selected_packages: chosen,
        selected_candidates: selected,
        covered_cells: covered,
        steps,
    };
    if result.selected_candidates.len() < minimum {
        return Err(
            SelectionError::RequestedMinimumUnavailable {
                minimum,
                maximum,
                selected: result.selected_candidates.len(),
            },
        );
    }
    Ok(result)
}

/// Every eligibility answer that validation consulted is one `is_eligible`
/// can give for that package with its members in ascending order.
pub open spec fn eligibility_answers<F: Fn(&SelectionPackage) -> bool>(
    is_eligible: F,
    cands: Seq<CandidateModel>,
    packages: Seq<SelectionPackage>,
    e: Seq<bool>,
) -> bool {
    &&& e.len() == packages.len()
    &&& forall|i: int|
        0 <= i < packages.len() && eligibility_consulted(cands, packages_model(packages), e, i)
            ==> exists|q: SelectionPackage|
            q@ == sorted_package(packages[i]@) && call_ensures(is_eligible, (&q,), #[trigger] e[i])
}

/// `r` is the selection from `packages` for some answers of `is_eligible`.
pub open spec fn selection_agrees<F: Fn(&SelectionPackage) -> bool>(
    is_eligible: F,
    cands: Seq<CandidateModel>,
    packages: Seq<SelectionPackage>,
    minimum: nat,
    maximum: nat,
    r: Result<SelectionResult, SelectionError>,
) -> bool {
    exists|e: Seq<bool>|
        #![trigger select_result(cands, packages_model(packages), e, minimum, maximum)]
        (minimum <= maximum ==> eligibility_answers(is_eligible, cands, packages, e)) && outcome_model(r)
            == select_result(cands, packages_model(packages), e, minimum, maximum)
}

/// Validate `packages`, then select greedily within `minimum..=maximum`.
fn select_packages<F: Fn(&SelectionPackage) -> bool>(
    cands: &Vec<ArchiveCandidate>,
    packages: Vec<SelectionPackage>,
    minimum: usize,
    maximum: usize,
    is_eligible: &F,
    use_cache: bool,
) -> (r: Result<SelectionResult, SelectionError>)
    requires
        forall|q: SelectionPackage| call_requires(*is_eligible, (&q,)),
    ensures
        selection_agrees(*is_eligible, models(cands@), packages@, minimum as nat, maximum as nat, r),
{
    let ghost cm = models(cands@);
    let ghost ps = packages@;
    if minimum > maximum {
        let r = Err(SelectionError::InvalidRequestedRange { minimum, maximum });
        assert(outcome_model(r) == select_result(
            cm,
            packages_model(ps),
            Seq::<bool>::empty(),
            minimum as nat,
            maximum as nat,
        ));
        return r;
    }
    let (validated, Ghost(e)) = validate_packages(cands, packages, is_eligible);
    assert(eligibility_answers(*is_eligible, cm, ps, e));
    match validated {
        Err(err) => {
            let r = Err(err);
            assert(outcome_model(r) == select_result(cm, packages_model(ps), e, minimum as nat, maximum as nat));
            r
        },
        Ok(eligible) => {
            let r = greedy_select(cands, eligible, minimum, maximum, use_cache);
            assert(outcome_model(r) == select_result(cm, packages_model(ps), e, minimum as nat, maximum as nat));
            r
        },
    }
}

/// The bounds of `requested`, as far as std defines them: a range that was
/// iterated to exhaustion has unspecified bounds.
pub open spec fn requested_bounds(requested: RangeInclusive<usize>, minimum: usize, maximum: usize) -> bool {
    !requested@.exhausted ==> minimum == requested@.start && maximum == requested@.end
}

/// `RangeInclusive::start`: the lower bound of a range that has not been
/// iterated to exhaustion (std leaves it unspecified after exhaustion).
#[verifier::external_body]
fn range_start(requested: &RangeInclusive<usize>) -> (r: usize)
    ensures
        !requested@.exhausted ==> r == requested@.start,
{
    *requested.start()
}

/// `RangeInclusive::end`: the upper bound of a range that has not been
/// iterated to exhaustion (std leaves it unspecified after exhaustion).
#[verifier::external_body]
fn range_end(requested: &RangeInclusive<usize>) -> (r: usize)
    ensures
        !requested@.exhausted ==> r == requested@.end,
{
    *requested.end()
}

/// One singleton package per candidate identifier, keyed by that identifier.
pub open spec fn singleton_packages(ids: Seq<u64>) -> Seq<PackageModel> {
    ids.map_values(|id: u64| PackageModel { id, members: seq![id] })
}

/// Every package eligible.
pub open spec fn all_eligible(n: nat) -> Seq<bool> {
    Seq::new(n, |i: int| true)
}

impl QualityDiversityArchive {
    /// Select singleton candidates with marginal projected-cell coverage as
    /// the primary criterion and max-min L1 diversity as the secondary one.
    pub fn select_farthest(&self, requested: RangeInclusive<usize>) -> (r: Result<SelectionResult, SelectionError>)
        ensures
            exists|minimum: usize, maximum: usize|
                #![trigger requested_bounds(requested, minimum, maximum)]
                requested_bounds(requested, minimum, maximum) && outcome_model(r) == select_result(
                    self.model().candidates,
                    singleton_packages(ids_of(self.model().candidates)),
                    all_eligible(self.model().candidates.len()),
                    minimum as nat,
                    maximum as nat,
                ),
    {
        let cands = self.candidate_list();
        let ghost cm = models(cands@);
        let ghost pm = singleton_packages(ids_of(cm));
        assert(pm.len() == cands.len());
        let mut packages: Vec<SelectionPackage> = Vec::new();
        let mut k: usize = 0;
        while k < cands.len()
            invariant
                k <= cands.len(),
                cm == models(cands@),
                pm == singleton_packages(ids_of(cm)),
                pm.len() == cands.len(),
                packages.len() == k,
                packages_model(packages@) =~= pm.take(k as int),
            decreases cands.len() - k,
        {
            let id = cands[k].id;
            let mut members: Vec<u64> = Vec::new();
            members.push(id);
            let package = SelectionPackage::new(id, members);
            assert(cm[k as int].id == id);
            assert(ids_of(cm)[k as int] == id);
            assert(package@ =~= pm[k as int]);
            let ghost before = packages@;
            packages.push(package);
            assert forall|j: int| 0 <= j <= k implies packages_model(packages@)[j] == pm.take(k + 1)[j] by {
                if j < k {
                    assert(packages@[j] == before[j]);
                    assert(packages_model(before)[j] == pm.take(k as int)[j]);
                }
            }
            assert(packages_model(packages@) =~= pm.take(k + 1));
            k = k + 1;
        }
        let minimum = range_start(&requested);
        let maximum = range_end(&requested);
        let ghost ps = packages@;
        let always = |p: &SelectionPackage| -> (b: bool)
            ensures
                b,
            { true };
        let r = select_packages(cands, packages, minimum, maximum, &always, true);
        proof {
            let n = cm.len();
            let e = choose|e: Seq<bool>|
                #![trigger select_result(cm, packages_model(ps), e, minimum as nat, maximum as nat)]
                (minimum <= maximum ==> eligibility_answers(always, cm, ps, e)) && outcome_model(r)
                    == select_result(cm, packages_model(ps), e, minimum as nat, maximum as nat);
            assert(packages_model(ps) =~= pm);
            if minimum <= maximum {
                assert forall|i: int|
                    0 <= i < pm.len() && #[trigger] consulted_from(cm, initial_package_scan(), pm, e, i)
                    implies e[i] == all_eligible(n)[i] by {
                    assert(eligibility_consulted(cm, packages_model(ps), e, i));
                    let q = choose|q: SelectionPackage|
                        q@ == sorted_package(ps[i]@) && call_ensures(always, (&q,), #[trigger] e[i]);
                }
                lemma_scan_answers_agree(cm, initial_package_scan(), pm, e, all_eligible(n));
            }
            assert(requested_bounds(requested, minimum, maximum));
        }
        r
    }

    /// Select atomic caller-defined packages.
    ///
    /// Package identifiers and members must be unique; members are selected
    /// atomically. `is_eligible` is consulted once for each package that
    /// passes the structural checks, with its members in ascending order.
    /// Selection greedily prefers (in order): more newly covered cells across
    /// the independent projections, greater minimum L1 distance from the
    /// already selected set, then the smaller package identifier. It selects
    /// while another whole package fits under the requested maximum and
    /// reports an error if the resulting candidate count is below the
    /// requested minimum.
    pub fn select_farthest_packages<F: Fn(&SelectionPackage) -> bool>(
        &self,
        packages: Vec<SelectionPackage>,
        requested: RangeInclusive<usize>,
        is_eligible: F,
    ) -> (r: Result<SelectionResult, SelectionError>)
        requires
            forall|q: SelectionPackage| call_requires(is_eligible, (&q,)),
        ensures
            exists|minimum: usize, maximum: usize|
                #![trigger requested_bounds(requested, minimum, maximum)]
                requested_bounds(requested, minimum, maximum) && selection_agrees(
                    is_eligible,
                    self.model().candidates,
                    packages@,
                    minimum as nat,
                    maximum as nat,
                    r,
                ),
    {
        let minimum = range_start(&requested);
        let maximum = range_end(&requested);
        let r = select_packages(self.candidate_list(), packages, minimum, maximum, &is_eligible, true);
        assert(requested_bounds(requested, minimum, maximum));
        r
    }

    /// The direct selector, which recomputes every pairwise distance at each
    /// greedy step; it meets the same contract as `select_farthest_packages`.
    pub fn select_farthest_packages_reference<F: Fn(&SelectionPackage) -> bool>(
        &self,
        packages: Vec<SelectionPackage>,
        requested: RangeInclusive<usize>,
        is_eligible: F,
    ) -> (r: Result<SelectionResult, SelectionError>)
        requires
            forall|q: SelectionPackage| call_requires(is_eligible, (&q,)),
        ensures
            exists|minimum: usize, maximum: usize|
                #![trigger requested_bounds(requested, minimum, maximum)]
                requested_bounds(requested, minimum, maximum) && selection_agrees(
                    is_eligible,
                    self.model().candidates,
                    packages@,
                    minimum as nat,
                    maximum as nat,
                    r,
                ),
    {
        let minimum = range_start(&requested);
        let maximum = range_end(&requested);
        let r = select_packages(self.candidate_list(), packages, minimum, maximum, &is_eligible, false);
        assert(requested_bounds(requested, minimum, maximum));
        r
    }
}

} // verus!
