//! Mathematical definition of representative selection: package validation,
//! marginal cell coverage, max-min L1 distance and the greedy choice.
use vstd::prelude::*;

use crate::archive::CandidateModel;
use crate::archive_spec::add_cells;
use crate::cell_order::CellModel;

verus! {

/// Mathematical value of a selection package.
pub struct PackageModel {
    pub id: u64,
    pub members: Seq<u64>,
}

/// Invalid selection request or package input.
#[derive(Clone, Debug, PartialEq, Eq, Structural)]
pub enum SelectionError {
    InvalidRequestedRange { minimum: usize, maximum: usize },
    EmptyPackage,
    DuplicatePackageId,
    DuplicatePackageMember,
    CandidateInMultiplePackages,
    UnknownCandidate,
    RequestedMinimumUnavailable { minimum: usize, maximum: usize, selected: usize },
}

/// Position at which a stable insertion by value places `x` in `s`.
pub open spec fn u64_insert_pos(s: Seq<u64>, x: u64) -> nat
    decreases s.len(),
{
    if s.len() == 0 {
        0
    } else if s[0] > x {
        0
    } else {
        1 + u64_insert_pos(s.drop_first(), x)
    }
}

/// Stable ascending sort of identifiers.
pub open spec fn sort_u64(s: Seq<u64>) -> Seq<u64>
    decreases s.len(),
{
    if s.len() == 0 {
        s
    } else {
        let r = sort_u64(s.drop_last());
        r.insert(u64_insert_pos(r, s.last()) as int, s.last())
    }
}

/// Position at which a stable insertion by package identifier places `x` in `s`.
pub open spec fn package_insert_pos(s: Seq<PackageModel>, x: PackageModel) -> nat
    decreases s.len(),
{
    if s.len() == 0 {
        0
    } else if s[0].id > x.id {
        0
    } else {
        1 + package_insert_pos(s.drop_first(), x)
    }
}

/// The first candidate with identifier `id`.
pub open spec fn find_candidate(cands: Seq<CandidateModel>, id: u64) -> Option<CandidateModel>
    decreases cands.len(),
{
    if cands.len() == 0 {
        None
    } else if cands[0].id == id {
        Some(cands[0])
    } else {
        find_candidate(cands.drop_first(), id)
    }
}

/// Some identifier occurs twice.
pub open spec fn has_duplicate_id(s: Seq<u64>) -> bool {
    exists|i: int, j: int| 0 <= i < j < s.len() && s[i] == s[j]
}

/// Validation state after a prefix of the packages.
pub struct PackageScan {
    /// Members of every validated package so far, eligible or not.
    pub packaged: Seq<u64>,
    /// Identifiers of every validated package so far, eligible or not.
    pub seen_ids: Seq<u64>,
    /// Eligible packages, members sorted, in package-identifier order.
    pub eligible: Seq<PackageModel>,
}

/// The package with its members in ascending order.
pub open spec fn sorted_package(p: PackageModel) -> PackageModel {
    PackageModel { id: p.id, members: sort_u64(p.members) }
}

/// Structural checks of one package, before eligibility is consulted.
pub open spec fn package_error(cands: Seq<CandidateModel>, st: PackageScan, p: PackageModel) -> Option<SelectionError> {
    let m = sort_u64(p.members);
    if p.members.len() == 0 {
        Some(SelectionError::EmptyPackage)
    } else if has_duplicate_id(p.members) {
        Some(SelectionError::DuplicatePackageMember)
    } else if exists|i: int| 0 <= i < m.len() && find_candidate(cands, m[i]) is None {
        Some(SelectionError::UnknownCandidate)
    } else if exists|i: int| 0 <= i < m.len() && st.packaged.contains(m[i]) {
        Some(SelectionError::CandidateInMultiplePackages)
    } else if st.seen_ids.contains(p.id) {
        Some(SelectionError::DuplicatePackageId)
    } else {
        None
    }
}

/// Validate one package whose eligibility is `eligible`.
pub open spec fn scan_package(cands: Seq<CandidateModel>, st: PackageScan, p: PackageModel, eligible: bool) -> Result<
    PackageScan,
    SelectionError,
> {
    match package_error(cands, st, p) {
        Some(e) => Err(e),
        None => {
            let q = sorted_package(p);
            Ok(
                PackageScan {
                    packaged: st.packaged + q.members,
                    seen_ids: st.seen_ids.push(p.id),
                    eligible: if eligible {
                        st.eligible.insert(package_insert_pos(st.eligible, q) as int, q)
                    } else {
                        st.eligible
                    },
                },
            )
        },
    }
}

/// Validate packages in order; `eligible[i]` is the eligibility of package `i`.
pub open spec fn scan_packages(
    cands: Seq<CandidateModel>,
    st: PackageScan,
    ps: Seq<PackageModel>,
    eligible: Seq<bool>,
) -> Result<PackageScan, SelectionError>
    decreases ps.len(),
{
    if ps.len() == 0 {
        Ok(st)
    } else {
        match scan_package(cands, st, ps[0], eligible[0]) {
            Err(e) => Err(e),
            Ok(next) => scan_packages(cands, next, ps.drop_first(), eligible.drop_first()),
        }
    }
}

pub open spec fn initial_package_scan() -> PackageScan {
    PackageScan { packaged: Seq::empty(), seen_ids: Seq::empty(), eligible: Seq::empty() }
}

/// Eligibility of package `i` is consulted: the earlier packages validated
/// and package `i` passed its structural checks.
pub open spec fn eligibility_consulted(
    cands: Seq<CandidateModel>,
    ps: Seq<PackageModel>,
    eligible: Seq<bool>,
    i: int,
) -> bool {
    consulted_from(cands, initial_package_scan(), ps, eligible, i)
}

/// Eligibility of package `i` is consulted when validation starts in state `st`.
pub open spec fn consulted_from(
    cands: Seq<CandidateModel>,
    st: PackageScan,
    ps: Seq<PackageModel>,
    eligible: Seq<bool>,
    i: int,
) -> bool {
    match scan_packages(cands, st, ps.take(i), eligible.take(i)) {
        Ok(s) => package_error(cands, s, ps[i]) is None,
        Err(_) => false,
    }
}

/// Validation reads an eligibility answer only where it is consulted: two
/// answer sequences that agree there validate alike.
pub proof fn lemma_scan_answers_agree(
    cands: Seq<CandidateModel>,
    st: PackageScan,
    ps: Seq<PackageModel>,
    e1: Seq<bool>,
    e2: Seq<bool>,
)
    requires
        e1.len() == ps.len(),
        e2.len() == ps.len(),
        forall|i: int| 0 <= i < ps.len() && #[trigger] consulted_from(cands, st, ps, e1, i) ==> e1[i] == e2[i],
    ensures
        scan_packages(cands, st, ps, e1) == scan_packages(cands, st, ps, e2),
    decreases ps.len(),
{
    if ps.len() > 0 {
        assert(ps.take(0) =~= Seq::<PackageModel>::empty());
        assert(e1.take(0) =~= Seq::<bool>::empty());
        if package_error(cands, st, ps[0]) is None {
            assert(consulted_from(cands, st, ps, e1, 0));
            let next = PackageScan {
                packaged: st.packaged + sorted_package(ps[0]).members,
                seen_ids: st.seen_ids.push(ps[0].id),
                eligible: if e1[0] {
                    st.eligible.insert(package_insert_pos(st.eligible, sorted_package(ps[0])) as int, sorted_package(ps[0]))
                } else {
                    st.eligible
                },
            };
            assert(scan_package(cands, st, ps[0], e1[0]) == Ok::<PackageScan, SelectionError>(next));
            assert forall|i: int|
                0 <= i < ps.len() - 1 && #[trigger] consulted_from(cands, next, ps.drop_first(), e1.drop_first(), i)
                implies e1.drop_first()[i] == e2.drop_first()[i] by {
                assert(ps.take(i + 1).drop_first() =~= ps.drop_first().take(i));
                assert(e1.take(i + 1).drop_first() =~= e1.drop_first().take(i));
                assert(ps.take(i + 1)[0] == ps[0]);
                assert(e1.take(i + 1)[0] == e1[0]);
                assert(consulted_from(cands, st, ps, e1, i + 1));
            }
            lemma_scan_answers_agree(cands, next, ps.drop_first(), e1.drop_first(), e2.drop_first());
        }
    }
}

/// Saturating L1 distance over the first `n` coordinate pairs.
pub open spec fn l1_prefix(a: Seq<i64>, b: Seq<i64>, n: int) -> int
    decreases n,
{
    if n <= 0 {
        0
    } else {
        let s = l1_prefix(a, b, n - 1) + if a[n - 1] >= b[n - 1] {
            a[n - 1] - b[n - 1]
        } else {
            b[n - 1] - a[n - 1]
        };
        if s > u128::MAX {
            u128::MAX as int
        } else {
            s
        }
    }
}

/// Saturating L1 distance between two diversity vectors (over their common prefix).
pub open spec fn l1(a: Seq<i64>, b: Seq<i64>) -> u128 {
    l1_prefix(a, b, if a.len() <= b.len() {
        a.len() as int
    } else {
        b.len() as int
    }) as u128
}

/// Minimum of two optional distances; `None` is unbounded.
pub open spec fn opt_min(a: Option<u128>, b: Option<u128>) -> Option<u128> {
    match (a, b) {
        (Some(x), Some(y)) => Some(if x <= y {
            x
        } else {
            y
        }),
        (Some(x), None) => Some(x),
        (None, Some(y)) => Some(y),
        (None, None) => None,
    }
}

/// Diversity coordinates of the candidate with identifier `id`.
pub open spec fn diversity_of(cands: Seq<CandidateModel>, id: u64) -> Seq<i64> {
    match find_candidate(cands, id) {
        Some(c) => c.diversity,
        None => Seq::empty(),
    }
}

/// L1 distance between two candidates.
pub open spec fn cand_distance(cands: Seq<CandidateModel>, a: u64, b: u64) -> u128 {
    l1(diversity_of(cands, a), diversity_of(cands, b))
}

/// Minimum distance from candidate `m` to each of `others`.
pub open spec fn min_dist_to(cands: Seq<CandidateModel>, m: u64, others: Seq<u64>) -> Option<u128>
    decreases others.len(),
{
    if others.len() == 0 {
        None
    } else {
        opt_min(
            min_dist_to(cands, m, others.drop_last()),
            Some(cand_distance(cands, m, others.last())),
        )
    }
}

/// Minimum L1 distance of a package: over every member and every previously
/// selected candidate or earlier member of the same package.
pub open spec fn package_min_distance(
    cands: Seq<CandidateModel>,
    members: Seq<u64>,
    selected: Seq<u64>,
) -> Option<u128>
    decreases members.len(),
{
    if members.len() == 0 {
        None
    } else {
        opt_min(
            package_min_distance(cands, members.drop_last(), selected),
            min_dist_to(cands, members.last(), selected + members.drop_last()),
        )
    }
}

/// Projected cells of the given candidates, concatenated in order.
pub open spec fn member_cells(cands: Seq<CandidateModel>, members: Seq<u64>) -> Seq<CellModel>
    decreases members.len(),
{
    if members.len() == 0 {
        Seq::empty()
    } else {
        member_cells(cands, members.drop_last()) + match find_candidate(cands, members.last()) {
            Some(c) => c.projections,
            None => Seq::empty(),
        }
    }
}

/// Distinct cells of `cs` not already in `covered`, in first-occurrence order.
pub open spec fn new_cells(cs: Seq<CellModel>, covered: Seq<CellModel>) -> Seq<CellModel>
    decreases cs.len(),
{
    if cs.len() == 0 {
        Seq::empty()
    } else {
        let r = new_cells(cs.drop_last(), covered);
        if covered.contains(cs.last()) || r.contains(cs.last()) {
            r
        } else {
            r.push(cs.last())
        }
    }
}

/// Number of cells a package would newly cover.
pub open spec fn marginal_coverage(cands: Seq<CandidateModel>, members: Seq<u64>, covered: Seq<CellModel>) -> nat {
    new_cells(member_cells(cands, members), covered).len()
}

/// One greedy choice and its rationale.
pub struct StepModel {
    pub package_id: u64,
    pub members: Seq<u64>,
    pub marginal_cell_coverage: nat,
    pub minimum_l1_distance: Option<u128>,
}

/// Greedy selection state.
pub struct GreedyState {
    pub remaining: Seq<PackageModel>,
    pub selected: Seq<u64>,
    pub packages: Seq<u64>,
    pub covered: Seq<CellModel>,
    pub steps: Seq<StepModel>,
}

/// Candidate slots left under the requested maximum.
pub open spec fn room(st: GreedyState, maximum: nat) -> nat {
    if maximum >= st.selected.len() {
        (maximum - st.selected.len()) as nat
    } else {
        0
    }
}

/// Distance `a` is preferred to distance `b`: `None` (unconstrained) is best.
pub open spec fn distance_gt(a: Option<u128>, b: Option<u128>) -> bool {
    match (a, b) {
        (Some(x), Some(y)) => x > y,
        (None, Some(_)) => true,
        _ => false,
    }
}

/// Remaining package `i` is preferred to remaining package `j`: more newly
/// covered cells, then greater minimum distance, then the smaller identifier.
pub open spec fn preferred(cands: Seq<CandidateModel>, st: GreedyState, i: int, j: int) -> bool {
    let ci = marginal_coverage(cands, st.remaining[i].members, st.covered);
    let cj = marginal_coverage(cands, st.remaining[j].members, st.covered);
    let di = package_min_distance(cands, st.remaining[i].members, st.selected);
    let dj = package_min_distance(cands, st.remaining[j].members, st.selected);
    ci > cj || (ci == cj && (distance_gt(di, dj) || (di == dj && st.remaining[i].id
        < st.remaining[j].id)))
}

/// Best package among the first `n` remaining ones that fits in `slots`.
pub open spec fn best_among(cands: Seq<CandidateModel>, st: GreedyState, slots: nat, n: int) -> Option<int>
    decreases n,
{
    if n <= 0 {
        None
    } else {
        let b = best_among(cands, st, slots, n - 1);
        if st.remaining[n - 1].members.len() > slots {
            b
        } else {
            match b {
                None => Some(n - 1),
                Some(j) => if preferred(cands, st, n - 1, j) {
                    Some(n - 1)
                } else {
                    Some(j)
                },
            }
        }
    }
}

/// Select remaining package `i`.
pub open spec fn take_package(cands: Seq<CandidateModel>, st: GreedyState, i: int) -> GreedyState {
    let p = st.remaining[i];
    GreedyState {
        remaining: st.remaining.remove(i),
        selected: st.selected + p.members,
        packages: st.packages.push(p.id),
        covered: add_cells(st.covered, member_cells(cands, p.members)),
        steps: st.steps.push(
            StepModel {
                package_id: p.id,
                members: p.members,
                marginal_cell_coverage: marginal_coverage(cands, p.members, st.covered),
                minimum_l1_distance: package_min_distance(cands, p.members, st.selected),
            },
        ),
    }
}

pub proof fn lemma_best_among_range(cands: Seq<CandidateModel>, st: GreedyState, slots: nat, n: int)
    ensures
        best_among(cands, st, slots, n) matches Some(i) ==> 0 <= i < n,
    decreases n,
{
    if n > 0 {
        lemma_best_among_range(cands, st, slots, n - 1);
    }
}

/// Greedily select while another whole package fits under `maximum`.
pub open spec fn greedy(cands: Seq<CandidateModel>, st: GreedyState, maximum: nat) -> GreedyState
    decreases st.remaining.len(),
{
    match best_among(cands, st, room(st, maximum), st.remaining.len() as int) {
        None => st,
        Some(i) => {
            proof {
                lemma_best_among_range(cands, st, room(st, maximum), st.remaining.len() as int);
            }
            if 0 <= i < st.remaining.len() {
                greedy(cands, take_package(cands, st, i), maximum)
            } else {
                st
            }
        },
    }
}

/// Deterministic representative selection and its rationale.
pub struct SelectionModel {
    pub selected_packages: Seq<u64>,
    pub selected_candidates: Seq<u64>,
    pub covered_cells: Seq<CellModel>,
    pub steps: Seq<StepModel>,
}

/// The initial greedy state over the eligible packages.
pub open spec fn initial_greedy(eligible: Seq<PackageModel>) -> GreedyState {
    GreedyState {
        remaining: eligible,
        selected: Seq::empty(),
        packages: Seq::empty(),
        covered: Seq::empty(),
        steps: Seq::empty(),
    }
}

/// Greedy selection over validated eligible packages, then the minimum check.
pub open spec fn greedy_outcome(
    cands: Seq<CandidateModel>,
    eligible: Seq<PackageModel>,
    minimum: nat,
    maximum: nat,
) -> Result<SelectionModel, SelectionError> {
    let g = greedy(cands, initial_greedy(eligible), maximum);
    if g.selected.len() < minimum {
        Err(
            SelectionError::RequestedMinimumUnavailable {
                minimum: minimum as usize,
                maximum: maximum as usize,
                selected: g.selected.len() as usize,
            },
        )
    } else {
        Ok(
            SelectionModel {
                selected_packages: g.packages,
                selected_candidates: g.selected,
                covered_cells: g.covered,
                steps: g.steps,
            },
        )
    }
}

/// The result of selecting from `ps` with eligibilities `eligible`.
pub open spec fn select_result(
    cands: Seq<CandidateModel>,
    ps: Seq<PackageModel>,
    eligible: Seq<bool>,
    minimum: nat,
    maximum: nat,
) -> Result<SelectionModel, SelectionError> {
    if minimum > maximum {
        Err(SelectionError::InvalidRequestedRange { minimum: minimum as usize, maximum: maximum as usize })
    } else {
        match scan_packages(cands, initial_package_scan(), ps, eligible) {
            Err(e) => Err(e),
            Ok(st) => greedy_outcome(cands, st.eligible, minimum, maximum),
        }
    }
}

/// Minimum over every left member of its distance to each right member.
pub open spec fn cross_min(cands: Seq<CandidateModel>, left: Seq<u64>, right: Seq<u64>) -> Option<u128>
    decreases left.len(),
{
    if left.len() == 0 {
        None
    } else {
        opt_min(cross_min(cands, left.drop_last(), right), min_dist_to(cands, left.last(), right))
    }
}

pub proof fn lemma_min_dist_concat(cands: Seq<CandidateModel>, m: u64, a: Seq<u64>, b: Seq<u64>)
    ensures
        min_dist_to(cands, m, a + b) == opt_min(min_dist_to(cands, m, a), min_dist_to(cands, m, b)),
    decreases b.len(),
{
    if b.len() == 0 {
        assert(a + b =~= a);
    } else {
        lemma_min_dist_concat(cands, m, a, b.drop_last());
        assert((a + b).drop_last() =~= a + b.drop_last());
        assert((a + b).last() == b.last());
    }
}

/// Adding candidates `q` to the selection lowers a package's minimum distance
/// by exactly its cross distance to `q`.
pub proof fn lemma_package_distance_extend(
    cands: Seq<CandidateModel>,
    r: Seq<u64>,
    s: Seq<u64>,
    q: Seq<u64>,
)
    ensures
        package_min_distance(cands, r, s + q) == opt_min(
            package_min_distance(cands, r, s),
            cross_min(cands, r, q),
        ),
    decreases r.len(),
{
    if r.len() > 0 {
        let d = r.drop_last();
        let x = r.last();
        lemma_package_distance_extend(cands, d, s, q);
        lemma_min_dist_concat(cands, x, s + q, d);
        lemma_min_dist_concat(cands, x, s, q);
        lemma_min_dist_concat(cands, x, s, d);
        assert((s + q) + d =~= s + q + d);
        let a = package_min_distance(cands, d, s);
        let xx = cross_min(cands, d, q);
        let b = min_dist_to(cands, x, s);
        let qq = min_dist_to(cands, x, q);
        let c = min_dist_to(cands, x, d);
        assert(package_min_distance(cands, r, s + q) == opt_min(opt_min(a, xx), opt_min(opt_min(b, qq), c)));
        assert(package_min_distance(cands, r, s) == opt_min(a, opt_min(b, c)));
        assert(cross_min(cands, r, q) == opt_min(xx, qq));
    }
}

pub proof fn lemma_l1_prefix_symmetric(a: Seq<i64>, b: Seq<i64>, n: int)
    ensures
        l1_prefix(a, b, n) == l1_prefix(b, a, n),
    decreases n,
{
    if n > 0 {
        lemma_l1_prefix_symmetric(a, b, n - 1);
    }
}

pub proof fn lemma_l1_symmetric(a: Seq<i64>, b: Seq<i64>)
    ensures
        l1(a, b) == l1(b, a),
{
    let n = if a.len() <= b.len() {
        a.len() as int
    } else {
        b.len() as int
    };
    lemma_l1_prefix_symmetric(a, b, n);
}

/// Validating one more package extends the validation of the earlier ones.
pub proof fn lemma_scan_packages_snoc(
    cands: Seq<CandidateModel>,
    st: PackageScan,
    ps: Seq<PackageModel>,
    es: Seq<bool>,
    p: PackageModel,
    b: bool,
)
    requires
        ps.len() == es.len(),
    ensures
        scan_packages(cands, st, ps.push(p), es.push(b)) == match scan_packages(cands, st, ps, es) {
            Err(e) => Err(e),
            Ok(s) => scan_package(cands, s, p, b),
        },
    decreases ps.len(),
{
    if ps.len() == 0 {
        assert(ps.push(p).drop_first() =~= Seq::<PackageModel>::empty());
        assert(es.push(b).drop_first() =~= Seq::<bool>::empty());
        assert(ps.push(p)[0] == p);
        assert(es.push(b)[0] == b);
        assert(scan_packages(cands, st, ps, es) == Ok::<PackageScan, SelectionError>(st));
        match scan_package(cands, st, p, b) {
            Err(e) => {},
            Ok(n) => {
                assert(scan_packages(cands, n, ps.push(p).drop_first(), es.push(b).drop_first()) == Ok::<
                    PackageScan,
                    SelectionError,
                >(n));
            },
        }
    } else {
        assert(ps.push(p).drop_first() =~= ps.drop_first().push(p));
        assert(es.push(b).drop_first() =~= es.drop_first().push(b));
        match scan_package(cands, st, ps[0], es[0]) {
            Err(_) => {},
            Ok(next) => {
                lemma_scan_packages_snoc(cands, next, ps.drop_first(), es.drop_first(), p, b);
            },
        }
    }
}

/// A validation failure on a prefix is the failure of the whole.
pub proof fn lemma_scan_packages_prefix_error(
    cands: Seq<CandidateModel>,
    st: PackageScan,
    ps: Seq<PackageModel>,
    es: Seq<bool>,
    n: int,
)
    requires
        0 <= n <= ps.len(),
        ps.len() == es.len(),
        scan_packages(cands, st, ps.take(n), es.take(n)) is Err,
    ensures
        scan_packages(cands, st, ps, es) == scan_packages(cands, st, ps.take(n), es.take(n)),
    decreases n,
{
    assert(n > 0);
    assert(ps.take(n).drop_first() =~= ps.drop_first().take(n - 1));
    assert(es.take(n).drop_first() =~= es.drop_first().take(n - 1));
    assert(ps.take(n)[0] == ps[0]);
    assert(es.take(n)[0] == es[0]);
    match scan_package(cands, st, ps[0], es[0]) {
        Err(_) => {},
        Ok(next) => {
            lemma_scan_packages_prefix_error(cands, next, ps.drop_first(), es.drop_first(), n - 1);
        },
    }
}

pub proof fn lemma_l1_self(a: Seq<i64>)
    ensures
        l1(a, a) == 0,
{
    lemma_l1_prefix_self(a, a.len() as int);
}

pub proof fn lemma_l1_prefix_self(a: Seq<i64>, n: int)
    ensures
        l1_prefix(a, a, n) == 0,
    decreases n,
{
    if n > 0 {
        lemma_l1_prefix_self(a, n - 1);
    }
}

} // verus!
