//! Directed Pareto dominance, crowding and bounded per-cell fronts.
use vstd::prelude::*;

use crate::archive::{ArchiveCandidate, CandidateModel, ObjectiveDirection};

verus! {

/// Directed comparison of one coordinate: positive when `left` is better,
/// negative when worse, zero when equal.
pub open spec fn directed_sign(left: i64, right: i64, direction: ObjectiveDirection) -> int {
    match direction {
        ObjectiveDirection::Maximize => if left > right {
            1
        } else if left < right {
            -1
        } else {
            0
        },
        ObjectiveDirection::Minimize => if left < right {
            1
        } else if left > right {
            -1
        } else {
            0
        },
    }
}

/// Number of coordinates compared: the shortest of the three sequences.
pub open spec fn compared_len(a: Seq<i64>, b: Seq<i64>, d: Seq<ObjectiveDirection>) -> int {
    if a.len() <= b.len() && a.len() <= d.len() {
        a.len() as int
    } else if b.len() <= d.len() {
        b.len() as int
    } else {
        d.len() as int
    }
}

/// `left` is no worse than `right` in every compared coordinate and strictly
/// better in at least one.
pub open spec fn dominates(left: Seq<i64>, right: Seq<i64>, directions: Seq<ObjectiveDirection>) -> bool {
    let n = compared_len(left, right, directions);
    &&& forall|k: int| 0 <= k < n ==> directed_sign(left[k], right[k], directions[k]) >= 0
    &&& exists|k: int| 0 <= k < n && directed_sign(left[k], right[k], directions[k]) > 0
}

/// Decide directed Pareto dominance of two quality vectors.
pub fn dominates_quality(left: &[i64], right: &[i64], directions: &[ObjectiveDirection]) -> (r: bool)
    ensures
        r == dominates(left@, right@, directions@),
{
    let ghost n = compared_len(left@, right@, directions@);
    let mut strictly_better = false;
    let mut k: usize = 0;
    while k < left.len() && k < right.len() && k < directions.len()
        invariant
            k <= n,
            n == compared_len(left@, right@, directions@),
            forall|j: int| 0 <= j < k ==> directed_sign(left@[j], right@[j], directions@[j]) >= 0,
            strictly_better == exists|j: int|
                0 <= j < k && directed_sign(left@[j], right@[j], directions@[j]) > 0,
        decreases left.len() - k,
    {
        let better;
        let worse;
        match directions[k] {
            ObjectiveDirection::Maximize => {
                better = left[k] > right[k];
                worse = left[k] < right[k];
            },
            ObjectiveDirection::Minimize => {
                better = left[k] < right[k];
                worse = left[k] > right[k];
            },
        }
        if worse {
            assert(directed_sign(left@[k as int], right@[k as int], directions@[k as int]) < 0);
            return false;
        }
        if better {
            assert(directed_sign(left@[k as int], right@[k as int], directions@[k as int]) > 0);
        }
        strictly_better = strictly_better || better;
        k = k + 1;
    }
    assert(k == n);
    strictly_better
}

/// Some other candidate of `members` (by identifier) dominates `c`.
pub open spec fn dominated_in(
    c: CandidateModel,
    members: Seq<CandidateModel>,
    directions: Seq<ObjectiveDirection>,
) -> bool {
    exists|j: int|
        0 <= j < members.len() && members[j].id != c.id && dominates(
            members[j].quality,
            c.quality,
            directions,
        )
}

/// Membership test of the Pareto front of `members`.
pub open spec fn undominated(members: Seq<CandidateModel>, directions: Seq<ObjectiveDirection>) -> spec_fn(
    CandidateModel,
) -> bool {
    |c: CandidateModel| !dominated_in(c, members, directions)
}

/// The members that no other member dominates, in member order.
pub open spec fn pareto_front(members: Seq<CandidateModel>, directions: Seq<ObjectiveDirection>) -> Seq<
    CandidateModel,
> {
    members.filter(undominated(members, directions))
}

/// Value of quality coordinate `d` of front member `i`.
pub open spec fn qv(f: Seq<CandidateModel>, i: int, d: int) -> i64 {
    f[i].quality[d]
}

/// Member `j` orders before member `i` in coordinate `d` (value, then identifier).
pub open spec fn before(f: Seq<CandidateModel>, j: int, i: int, d: int) -> bool {
    qv(f, j, d) < qv(f, i, d) || (qv(f, j, d) == qv(f, i, d) && f[j].id < f[i].id)
}

/// Smallest value of coordinate `d` among the first `n` members.
pub open spec fn col_min(f: Seq<CandidateModel>, d: int, n: int) -> i64
    decreases n,
{
    if n <= 1 {
        qv(f, 0, d)
    } else {
        let m = col_min(f, d, n - 1);
        if qv(f, n - 1, d) < m {
            qv(f, n - 1, d)
        } else {
            m
        }
    }
}

/// Largest value of coordinate `d` among the first `n` members.
pub open spec fn col_max(f: Seq<CandidateModel>, d: int, n: int) -> i64
    decreases n,
{
    if n <= 1 {
        qv(f, 0, d)
    } else {
        let m = col_max(f, d, n - 1);
        if qv(f, n - 1, d) > m {
            qv(f, n - 1, d)
        } else {
            m
        }
    }
}

/// Value of the nearest member ordered before `i` in coordinate `d`, among the first `n`.
pub open spec fn pred_val(f: Seq<CandidateModel>, i: int, d: int, n: int) -> Option<i64>
    decreases n,
{
    if n <= 0 {
        None
    } else {
        let rest = pred_val(f, i, d, n - 1);
        if before(f, n - 1, i, d) {
            match rest {
                Some(v) => if qv(f, n - 1, d) > v {
                    Some(qv(f, n - 1, d))
                } else {
                    Some(v)
                },
                None => Some(qv(f, n - 1, d)),
            }
        } else {
            rest
        }
    }
}

/// Value of the nearest member ordered after `i` in coordinate `d`, among the first `n`.
pub open spec fn succ_val(f: Seq<CandidateModel>, i: int, d: int, n: int) -> Option<i64>
    decreases n,
{
    if n <= 0 {
        None
    } else {
        let rest = succ_val(f, i, d, n - 1);
        if before(f, i, n - 1, d) {
            match rest {
                Some(v) => if qv(f, n - 1, d) < v {
                    Some(qv(f, n - 1, d))
                } else {
                    Some(v)
                },
                None => Some(qv(f, n - 1, d)),
            }
        } else {
            rest
        }
    }
}

/// Spread of coordinate `d` over the whole front.
pub open spec fn col_range(f: Seq<CandidateModel>, d: int) -> int {
    col_max(f, d, f.len() as int) - col_min(f, d, f.len() as int)
}

/// Member `i` holds an extreme value of a non-constant coordinate `d`.
pub open spec fn extreme(f: Seq<CandidateModel>, i: int, d: int) -> bool {
    col_range(f, d) != 0 && (qv(f, i, d) == col_min(f, d, f.len() as int) || qv(f, i, d) == col_max(
        f,
        d,
        f.len() as int,
    ))
}

/// Number of quality coordinates of the front.
pub open spec fn front_dims(f: Seq<CandidateModel>) -> int {
    f[0].quality.len() as int
}

/// Member `i` is extreme in some coordinate and so is protected from eviction.
pub open spec fn is_boundary(f: Seq<CandidateModel>, i: int) -> bool {
    exists|d: int| 0 <= d < front_dims(f) && extreme(f, i, d)
}

/// The largest `u64`; fixed-point scale of normalized gaps.
pub open spec fn scale() -> int {
    0xffff_ffff_ffff_ffff
}

/// Range-normalized gap between the neighbours of member `i` in coordinate `d`.
pub open spec fn normalized_gap(f: Seq<CandidateModel>, i: int, d: int) -> int {
    let range = col_range(f, d);
    let lower = pred_val(f, i, d, f.len() as int);
    let upper = succ_val(f, i, d, f.len() as int);
    if range == 0 || extreme(f, i, d) {
        0
    } else {
        let gap = upper.unwrap() - lower.unwrap();
        (gap * scale() + range / 2) / range
    }
}

/// Saturating sum of normalized gaps of member `i` over the first `k` coordinates.
pub open spec fn gap_sum(f: Seq<CandidateModel>, i: int, k: int) -> int
    decreases k,
{
    if k <= 0 {
        0
    } else {
        let s = gap_sum(f, i, k - 1) + normalized_gap(f, i, k - 1);
        if s > u128::MAX {
            u128::MAX as int
        } else {
            s
        }
    }
}

/// Crowding of one front member: boundary members rank above every finite score.
#[derive(Clone, Copy, Debug, PartialEq, Eq, Structural)]
pub enum CrowdingScore {
    Finite(u128),
    Boundary,
}

/// The crowding score of member `i` of the front.
pub open spec fn crowding(f: Seq<CandidateModel>, i: int) -> CrowdingScore {
    if is_boundary(f, i) {
        CrowdingScore::Boundary
    } else {
        CrowdingScore::Finite(gap_sum(f, i, front_dims(f)) as u128)
    }
}

/// Strict order of crowding scores.
pub open spec fn score_lt(a: CrowdingScore, b: CrowdingScore) -> bool {
    match (a, b) {
        (CrowdingScore::Finite(x), CrowdingScore::Finite(y)) => x < y,
        (CrowdingScore::Finite(_), CrowdingScore::Boundary) => true,
        _ => false,
    }
}

/// Member `a` should be evicted in preference to member `b`: it is less crowded,
/// or equally crowded with the larger identifier.
pub open spec fn evicts_before(f: Seq<CandidateModel>, a: int, b: int) -> bool {
    score_lt(crowding(f, a), crowding(f, b)) || (crowding(f, a) == crowding(f, b) && f[a].id
        > f[b].id)
}

/// Index of the member to evict among the first `n` (the first best one).
pub open spec fn evict_among(f: Seq<CandidateModel>, n: int) -> int
    decreases n,
{
    if n <= 1 {
        0
    } else {
        let b = evict_among(f, n - 1);
        if evicts_before(f, n - 1, b) {
            n - 1
        } else {
            b
        }
    }
}

pub proof fn lemma_evict_among_range(f: Seq<CandidateModel>, n: int)
    requires
        n >= 1,
    ensures
        0 <= evict_among(f, n) < n,
    decreases n,
{
    if n > 1 {
        lemma_evict_among_range(f, n - 1);
    }
}

/// Repeatedly evict the least crowded member until at most `capacity` remain.
pub open spec fn bounded(f: Seq<CandidateModel>, capacity: nat) -> Seq<CandidateModel>
    decreases f.len(),
{
    if f.len() <= capacity || f.len() == 0 {
        f
    } else {
        proof {
            lemma_evict_among_range(f, f.len() as int);
        }
        bounded(f.remove(evict_among(f, f.len() as int)), capacity)
    }
}

/// The retained elites of one cell whose members are `members`.
pub open spec fn bounded_pareto(
    members: Seq<CandidateModel>,
    directions: Seq<ObjectiveDirection>,
    capacity: nat,
) -> Seq<CandidateModel> {
    bounded(pareto_front(members, directions), capacity)
}

/// Identifiers of a sequence of candidates.
pub open spec fn ids_of(s: Seq<CandidateModel>) -> Seq<u64> {
    s.map_values(|c: CandidateModel| c.id)
}

/// The candidates selected by a list of indices.
pub open spec fn picked(cands: Seq<ArchiveCandidate>, idx: Seq<usize>) -> Seq<CandidateModel> {
    idx.map_values(|k: usize| cands[k as int]@)
}

/// All selected candidates' quality vectors have exactly `dims` coordinates.
pub open spec fn uniform_quality(cands: Seq<ArchiveCandidate>, idx: Seq<usize>, dims: nat) -> bool {
    &&& forall|i: int| 0 <= i < idx.len() ==> (#[trigger] idx[i]) < cands.len()
    &&& forall|i: int| 0 <= i < idx.len() ==> cands[#[trigger] idx[i] as int].quality@.len() == dims
}

/// Indices of the members that no other member dominates, in member order.
pub fn pareto_indices(
    cands: &Vec<ArchiveCandidate>,
    members: &Vec<usize>,
    directions: &Vec<ObjectiveDirection>,
) -> (r: Vec<usize>)
    requires
        forall|i: int| 0 <= i < members.len() ==> (#[trigger] members@[i]) < cands.len(),
    ensures
        picked(cands@, r@) == pareto_front(picked(cands@, members@), directions@),
        forall|i: int| 0 <= i < r.len() ==> (#[trigger] r@[i]) < cands.len(),
        forall|i: int| 0 <= i < r.len() ==> members@.contains(#[trigger] r@[i]),
{
    let ghost ms = picked(cands@, members@);
    let ghost pred = undominated(ms, directions@);
    let mut r: Vec<usize> = Vec::new();
    let mut i: usize = 0;
    while i < members.len()
        invariant
            i <= members.len(),
            ms == picked(cands@, members@),
            pred == undominated(ms, directions@),
            forall|k: int| 0 <= k < members.len() ==> (#[trigger] members@[k]) < cands.len(),
            picked(cands@, r@) == ms.take(i as int).filter(pred),
            forall|k: int| 0 <= k < r.len() ==> (#[trigger] r@[k]) < cands.len(),
            forall|k: int| 0 <= k < r.len() ==> members@.contains(#[trigger] r@[k]),
        decreases members.len() - i,
    {
        let ci = members[i];
        let mut dominated = false;
        let mut j: usize = 0;
        while j < members.len()
            invariant
                i < members.len(),
                j <= members.len(),
                ci == members@[i as int],
                ms == picked(cands@, members@),
                forall|k: int| 0 <= k < members.len() ==> (#[trigger] members@[k]) < cands.len(),
                dominated == exists|jj: int|
                    0 <= jj < j && ms[jj].id != ms[i as int].id && dominates(
                        ms[jj].quality,
                        ms[i as int].quality,
                        directions@,
                    ),
            decreases members.len() - j,
        {
            let cj = members[j];
            assert(ms[j as int] == cands@[cj as int]@);
            assert(ms[i as int] == cands@[ci as int]@);
            if cands[cj].id != cands[ci].id && dominates_quality(
                cands[cj].quality.as_slice(),
                cands[ci].quality.as_slice(),
                directions.as_slice(),
            ) {
                dominated = true;
            }
            j = j + 1;
        }
        proof {
            reveal(Seq::filter);
            assert(ms.take(i + 1).drop_last() =~= ms.take(i as int));
            assert(ms.take(i + 1).last() == ms[i as int]);
            assert(pred(ms[i as int]) == !dominated);
        }
        let ghost prev = r@;
        if !dominated {
            r.push(ci);
            assert(picked(cands@, r@) =~= picked(cands@, prev).push(cands@[ci as int]@));
            assert(members@.contains(ci)) by {
                assert(members@[i as int] == ci);
            }
        }
        i = i + 1;
    }
    assert(ms.take(members.len() as int) =~= ms);
    r
}

/// Every member of `f` has exactly `front_dims(f)` quality coordinates.
pub open spec fn uniform_front(f: Seq<CandidateModel>) -> bool {
    f.len() >= 1 && forall|i: int| 0 <= i < f.len() ==> (#[trigger] f[i]).quality.len() == front_dims(f)
}

pub proof fn lemma_col_bounds(f: Seq<CandidateModel>, d: int, n: int)
    requires
        1 <= n <= f.len(),
    ensures
        forall|k: int| 0 <= k < n ==> col_min(f, d, n) <= #[trigger] qv(f, k, d) <= col_max(f, d, n),
        exists|k: int| 0 <= k < n && qv(f, k, d) == col_min(f, d, n),
        exists|k: int| 0 <= k < n && qv(f, k, d) == col_max(f, d, n),
    decreases n,
{
    if n > 1 {
        lemma_col_bounds(f, d, n - 1);
        let kmin = choose|k: int| 0 <= k < n - 1 && qv(f, k, d) == col_min(f, d, n - 1);
        let kmax = choose|k: int| 0 <= k < n - 1 && qv(f, k, d) == col_max(f, d, n - 1);
        if qv(f, n - 1, d) < col_min(f, d, n - 1) {
            assert(qv(f, n - 1, d) == col_min(f, d, n));
        } else {
            assert(qv(f, kmin, d) == col_min(f, d, n));
        }
        if qv(f, n - 1, d) > col_max(f, d, n - 1) {
            assert(qv(f, n - 1, d) == col_max(f, d, n));
        } else {
            assert(qv(f, kmax, d) == col_max(f, d, n));
        }
    } else {
        assert(qv(f, 0, d) == col_min(f, d, n));
        assert(qv(f, 0, d) == col_max(f, d, n));
    }
}

pub proof fn lemma_pred_val(f: Seq<CandidateModel>, i: int, d: int, n: int)
    requires
        0 <= n <= f.len(),
    ensures
        pred_val(f, i, d, n) is Some <==> exists|k: int| 0 <= k < n && before(f, k, i, d),
        pred_val(f, i, d, n) matches Some(v) ==> (v <= qv(f, i, d) && exists|k: int|
            0 <= k < n && before(f, k, i, d) && qv(f, k, d) == v),
    decreases n,
{
    if n > 0 {
        lemma_pred_val(f, i, d, n - 1);
        if before(f, n - 1, i, d) {
            assert(exists|k: int| 0 <= k < n && before(f, k, i, d));
        }
        if pred_val(f, i, d, n - 1) is Some {
            let k = choose|k: int| 0 <= k < n - 1 && before(f, k, i, d);
            assert(0 <= k < n && before(f, k, i, d));
        }
        if pred_val(f, i, d, n) is Some && !before(f, n - 1, i, d) {
            let k = choose|k: int|
                0 <= k < n - 1 && before(f, k, i, d) && qv(f, k, d) == pred_val(f, i, d, n - 1)->0;
            assert(0 <= k < n && before(f, k, i, d));
        }
        if exists|k: int| 0 <= k < n && before(f, k, i, d) {
            let k = choose|k: int| 0 <= k < n && before(f, k, i, d);
            if k < n - 1 {
                assert(pred_val(f, i, d, n - 1) is Some);
            }
        }
    }
}

pub proof fn lemma_succ_val(f: Seq<CandidateModel>, i: int, d: int, n: int)
    requires
        0 <= n <= f.len(),
    ensures
        succ_val(f, i, d, n) is Some <==> exists|k: int| 0 <= k < n && before(f, i, k, d),
        succ_val(f, i, d, n) matches Some(v) ==> (v >= qv(f, i, d) && exists|k: int|
            0 <= k < n && before(f, i, k, d) && qv(f, k, d) == v),
    decreases n,
{
    if n > 0 {
        lemma_succ_val(f, i, d, n - 1);
        if before(f, i, n - 1, d) {
            assert(exists|k: int| 0 <= k < n && before(f, i, k, d));
        }
        if succ_val(f, i, d, n - 1) is Some {
            let k = choose|k: int| 0 <= k < n - 1 && before(f, i, k, d);
            assert(0 <= k < n && before(f, i, k, d));
        }
        if succ_val(f, i, d, n) is Some && !before(f, i, n - 1, d) {
            let k = choose|k: int|
                0 <= k < n - 1 && before(f, i, k, d) && qv(f, k, d) == succ_val(f, i, d, n - 1)->0;
            assert(0 <= k < n && before(f, i, k, d));
        }
        if exists|k: int| 0 <= k < n && before(f, i, k, d) {
            let k = choose|k: int| 0 <= k < n && before(f, i, k, d);
            if k < n - 1 {
                assert(succ_val(f, i, d, n - 1) is Some);
            }
        }
    }
}

proof fn lemma_fixed_point_bound(gap: int, range: int)
    requires
        0 <= gap <= range,
        0 < range <= scale(),
    ensures
        0 <= gap * scale() + range / 2 <= u128::MAX,
        0 <= (gap * scale() + range / 2) / range <= scale(),
{
    assert(gap * scale() <= range * scale()) by (nonlinear_arith)
        requires
            0 <= gap <= range,
            scale() > 0,
    ;
    assert(range * scale() <= scale() * scale()) by (nonlinear_arith)
        requires
            0 < range <= scale(),
    ;
    assert(gap * scale() >= 0) by (nonlinear_arith)
        requires
            0 <= gap,
            scale() > 0,
    ;
    assert((gap * scale() + range / 2) / range <= scale()) by (nonlinear_arith)
        requires
            0 <= gap <= range,
            0 < range,
            scale() > 0,
    ;
    assert((gap * scale() + range / 2) / range >= 0) by (nonlinear_arith)
        requires
            gap * scale() >= 0,
            0 < range,
    ;
}

/// Facts about the normalized gap of a non-extreme member of a non-constant coordinate.
pub proof fn lemma_normalized_gap(f: Seq<CandidateModel>, i: int, d: int)
    requires
        uniform_front(f),
        0 <= i < f.len(),
        0 <= d < front_dims(f),
    ensures
        0 <= normalized_gap(f, i, d) <= scale(),
        col_range(f, d) != 0 && !extreme(f, i, d) ==> {
            &&& pred_val(f, i, d, f.len() as int) is Some
            &&& succ_val(f, i, d, f.len() as int) is Some
            &&& col_min(f, d, f.len() as int) <= pred_val(f, i, d, f.len() as int)->0
            &&& pred_val(f, i, d, f.len() as int)->0 <= succ_val(f, i, d, f.len() as int)->0
            &&& succ_val(f, i, d, f.len() as int)->0 <= col_max(f, d, f.len() as int)
        },
{
    let n = f.len() as int;
    lemma_col_bounds(f, d, n);
    lemma_pred_val(f, i, d, n);
    lemma_succ_val(f, i, d, n);
    let mn = col_min(f, d, n);
    let mx = col_max(f, d, n);
    assert(mx - mn <= scale());
    if col_range(f, d) != 0 && !extreme(f, i, d) {
        let kmin = choose|k: int| 0 <= k < n && qv(f, k, d) == mn;
        let kmax = choose|k: int| 0 <= k < n && qv(f, k, d) == mx;
        assert(qv(f, i, d) <= mx);
        assert(qv(f, i, d) >= mn);
        assert(before(f, kmin, i, d));
        assert(before(f, i, kmax, d));
        let kp = choose|k: int|
            0 <= k < n && before(f, k, i, d) && qv(f, k, d) == pred_val(f, i, d, n)->0;
        let ks = choose|k: int|
            0 <= k < n && before(f, i, k, d) && qv(f, k, d) == succ_val(f, i, d, n)->0;
        assert(qv(f, kp, d) >= mn);
        assert(qv(f, ks, d) <= mx);
        lemma_fixed_point_bound(
            succ_val(f, i, d, n)->0 - pred_val(f, i, d, n)->0,
            col_range(f, d),
        );
    }
}

pub proof fn lemma_gap_sum_bounds(f: Seq<CandidateModel>, i: int, k: int)
    requires
        uniform_front(f),
        0 <= i < f.len(),
        k <= front_dims(f),
    ensures
        0 <= gap_sum(f, i, k) <= u128::MAX,
    decreases k,
{
    if k > 0 {
        lemma_gap_sum_bounds(f, i, k - 1);
        lemma_normalized_gap(f, i, k - 1);
    }
}

/// Crowding state of member `i` after the first `k` coordinates.
pub open spec fn partial_crowding(f: Seq<CandidateModel>, i: int, k: int) -> CrowdingScore {
    if exists|d: int| 0 <= d < k && extreme(f, i, d) {
        CrowdingScore::Boundary
    } else {
        CrowdingScore::Finite(gap_sum(f, i, k) as u128)
    }
}

/// Crowding scores of every member of a non-empty front with uniform quality dimensions.
pub fn crowding_scores(cands: &Vec<ArchiveCandidate>, front: &Vec<usize>) -> (r: Vec<CrowdingScore>)
    requires
        front.len() >= 1,
        forall|i: int| 0 <= i < front.len() ==> (#[trigger] front@[i]) < cands.len(),
        uniform_front(picked(cands@, front@)),
    ensures
        r.len() == front.len(),
        forall|i: int| 0 <= i < front.len() ==> r@[i] == crowding(picked(cands@, front@), i),
{
    let ghost f = picked(cands@, front@);
    let n = front.len();
    let dims = cands[front[0]].quality.len();
    assert(dims == front_dims(f));
    let mut scores: Vec<CrowdingScore> = Vec::new();
    let mut i: usize = 0;
    while i < n
        invariant
            i <= n,
            n == front.len(),
            scores.len() == i,
            forall|k: int| 0 <= k < i ==> scores@[k] == CrowdingScore::Finite(0),
        decreases n - i,
    {
        scores.push(CrowdingScore::Finite(0));
        i = i + 1;
    }
    assert forall|k: int| 0 <= k < n implies scores@[k] == partial_crowding(f, k, 0) by {}
    let mut d: usize = 0;
    while d < dims
        invariant
            d <= dims,
            n == front.len(),
            n >= 1,
            dims == front_dims(f),
            f == picked(cands@, front@),
            uniform_front(f),
            forall|k: int| 0 <= k < front.len() ==> (#[trigger] front@[k]) < cands.len(),
            scores.len() == n,
            forall|k: int| 0 <= k < n ==> scores@[k] == partial_crowding(f, k, d as int),
        decreases dims - d,
    {
        assert(f[0] == cands@[front@[0] as int]@);
        let mut mn = cands[front[0]].quality[d];
        let mut mx = mn;
        let mut k: usize = 1;
        while k < n
            invariant
                1 <= k <= n,
                n == front.len(),
                d < dims,
                dims == front_dims(f),
                f == picked(cands@, front@),
                uniform_front(f),
                forall|j: int| 0 <= j < front.len() ==> (#[trigger] front@[j]) < cands.len(),
                mn == col_min(f, d as int, k as int),
                mx == col_max(f, d as int, k as int),
            decreases n - k,
        {
            assert(f[k as int] == cands@[front@[k as int] as int]@);
            let v = cands[front[k]].quality[d];
            if v < mn {
                mn = v;
            }
            if v > mx {
                mx = v;
            }
            k = k + 1;
        }
        proof {
            lemma_col_bounds(f, d as int, n as int);
        }
        if mn == mx {
            proof {
                assert forall|j: int| 0 <= j < n implies scores@[j] == partial_crowding(
                    f,
                    j,
                    d + 1,
                ) by {
                    lemma_gap_sum_bounds(f, j, d as int);
                    assert(!extreme(f, j, d as int));
                    assert(normalized_gap(f, j, d as int) == 0);
                    if exists|e: int| 0 <= e < d + 1 && extreme(f, j, e) {
                        let e = choose|e: int| 0 <= e < d + 1 && extreme(f, j, e);
                        assert(e < d);
                    }
                }
            }
            d = d + 1;
            continue;
        }
        let range: u128 = (mx as i128 - mn as i128) as u128;
        assert(range == col_range(f, d as int));
        let mut j: usize = 0;
        while j < n
            invariant
                j <= n,
                n == front.len(),
                d < dims,
                dims == front_dims(f),
                f == picked(cands@, front@),
                uniform_front(f),
                forall|t: int| 0 <= t < front.len() ==> (#[trigger] front@[t]) < cands.len(),
                mn == col_min(f, d as int, n as int),
                mx == col_max(f, d as int, n as int),
                range == col_range(f, d as int),
                range > 0,
                scores.len() == n,
                forall|t: int| 0 <= t < j ==> scores@[t] == partial_crowding(f, t, d + 1),
                forall|t: int| j <= t < n ==> scores@[t] == partial_crowding(f, t, d as int),
            decreases n - j,
        {
            assert(f[j as int] == cands@[front@[j as int] as int]@);
            let v = cands[front[j]].quality[d];
            let ghost before_scores = scores@;
            if v == mn || v == mx {
                scores.set(j, CrowdingScore::Boundary);
                assert(extreme(f, j as int, d as int));
            } else {
                assert(!extreme(f, j as int, d as int));
                match scores[j] {
                    CrowdingScore::Boundary => {
                        proof {
                            if !(exists|e: int| 0 <= e < d && extreme(f, j as int, e)) {
                                assert(false);
                            }
                        }
                    },
                    CrowdingScore::Finite(s) => {
                        let id = cands[front[j]].id;
                        let mut lower: Option<i64> = None;
                        let mut upper: Option<i64> = None;
                        let mut t: usize = 0;
                        while t < n
                            invariant
                                t <= n,
                                j < n,
                                n == front.len(),
                                d < dims,
                                f == picked(cands@, front@),
                                uniform_front(f),
                                dims == front_dims(f),
                                forall|u: int|
                                    0 <= u < front.len() ==> (#[trigger] front@[u]) < cands.len(),
                                v == qv(f, j as int, d as int),
                                id == f[j as int].id,
                                lower == pred_val(f, j as int, d as int, t as int),
                                upper == succ_val(f, j as int, d as int, t as int),
                            decreases n - t,
                        {
                            assert(f[t as int] == cands@[front@[t as int] as int]@);
                            let w = cands[front[t]].quality[d];
                            let wid = cands[front[t]].id;
                            if w < v || (w == v && wid < id) {
                                lower = match lower {
                                    Some(x) => if w > x {
                                        Some(w)
                                    } else {
                                        Some(x)
                                    },
                                    None => Some(w),
                                };
                            }
                            if v < w || (v == w && id < wid) {
                                upper = match upper {
                                    Some(x) => if w < x {
                                        Some(w)
                                    } else {
                                        Some(x)
                                    },
                                    None => Some(w),
                                };
                            }
                            t = t + 1;
                        }
                        proof {
                            lemma_normalized_gap(f, j as int, d as int);
                            lemma_gap_sum_bounds(f, j as int, d as int);
                            lemma_fixed_point_bound(
                                upper->0 - lower->0,
                                range as int,
                            );
                        }
                        let lo = match lower {
                            Some(x) => x,
                            None => 0,
                        };
                        let hi = match upper {
                            Some(x) => x,
                            None => 0,
                        };
                        let gap: u128 = (hi as i128 - lo as i128) as u128;
                        let normalized: u128 = (gap * 0xffff_ffff_ffff_ffffu128 + range / 2) / range;
                        assert(normalized == normalized_gap(f, j as int, d as int));
                        scores.set(j, CrowdingScore::Finite(s.saturating_add(normalized)));
                    },
                }
            }
            proof {
                assert forall|t: int| 0 <= t < j + 1 implies scores@[t] == partial_crowding(
                    f,
                    t,
                    d + 1,
                ) by {
                    if t == j {
                        if exists|e: int| 0 <= e < d + 1 && extreme(f, t, e) {
                            if !extreme(f, t, d as int) {
                                let e = choose|e: int| 0 <= e < d + 1 && extreme(f, t, e);
                                assert(e < d);
                            }
                        }
                    }
                }
            }
            j = j + 1;
        }
        d = d + 1;
    }
    assert forall|k: int| 0 <= k < n implies scores@[k] == crowding(f, k) by {
        assert(partial_crowding(f, k, dims as int) == crowding(f, k));
    }
    scores
}

/// Index of the front member to evict: least crowded, larger identifier on ties.
pub fn eviction_index(cands: &Vec<ArchiveCandidate>, front: &Vec<usize>, scores: &Vec<CrowdingScore>) -> (r: usize)
    requires
        front.len() >= 1,
        scores.len() == front.len(),
        forall|i: int| 0 <= i < front.len() ==> (#[trigger] front@[i]) < cands.len(),
        forall|i: int| 0 <= i < front.len() ==> scores@[i] == crowding(picked(cands@, front@), i),
    ensures
        r == evict_among(picked(cands@, front@), front.len() as int),
        r < front.len(),
{
    let ghost f = picked(cands@, front@);
    let mut best: usize = 0;
    let mut k: usize = 1;
    while k < front.len()
        invariant
            1 <= k <= front.len(),
            scores.len() == front.len(),
            f == picked(cands@, front@),
            forall|i: int| 0 <= i < front.len() ==> (#[trigger] front@[i]) < cands.len(),
            forall|i: int| 0 <= i < front.len() ==> scores@[i] == crowding(f, i),
            best == evict_among(f, k as int),
            best < k,
        decreases front.len() - k,
    {
        assert(f[k as int] == cands@[front@[k as int] as int]@);
        assert(f[best as int] == cands@[front@[best as int] as int]@);
        let better = match (scores[k], scores[best]) {
            (CrowdingScore::Finite(x), CrowdingScore::Finite(y)) => x < y || (x == y
                && cands[front[k]].id > cands[front[best]].id),
            (CrowdingScore::Finite(_), CrowdingScore::Boundary) => true,
            (CrowdingScore::Boundary, CrowdingScore::Finite(_)) => false,
            (CrowdingScore::Boundary, CrowdingScore::Boundary) => cands[front[k]].id
                > cands[front[best]].id,
        };
        assert(better == evicts_before(f, k as int, best as int));
        if better {
            best = k;
        }
        k = k + 1;
    }
    best
}

/// The retained elites of one cell: drop dominated members, then evict the
/// least crowded until at most `capacity` remain.
pub fn bounded_pareto_front(
    cands: &Vec<ArchiveCandidate>,
    members: &Vec<usize>,
    directions: &Vec<ObjectiveDirection>,
    capacity: usize,
) -> (r: Vec<usize>)
    requires
        capacity > 0,
        forall|i: int| 0 <= i < members.len() ==> (#[trigger] members@[i]) < cands.len(),
        forall|i: int|
            0 <= i < members.len() ==> cands@[(#[trigger] members@[i]) as int].quality@.len()
                == directions.len(),
    ensures
        picked(cands@, r@) == bounded_pareto(picked(cands@, members@), directions@, capacity as nat),
        forall|i: int| 0 <= i < r.len() ==> (#[trigger] r@[i]) < cands.len(),
        forall|i: int| 0 <= i < r.len() ==> members@.contains(#[trigger] r@[i]),
{
    let mut front = pareto_indices(cands, members, directions);
    let ghost target = bounded(picked(cands@, front@), capacity as nat);
    while front.len() > capacity
        invariant
            capacity > 0,
            bounded(picked(cands@, front@), capacity as nat) == target,
            forall|i: int| 0 <= i < front.len() ==> (#[trigger] front@[i]) < cands.len(),
            forall|i: int| 0 <= i < front.len() ==> members@.contains(#[trigger] front@[i]),
            forall|i: int|
                0 <= i < members.len() ==> cands@[(#[trigger] members@[i]) as int].quality@.len()
                    == directions.len(),
        decreases front.len(),
    {
        let ghost f = picked(cands@, front@);
        proof {
            assert forall|i: int| 0 <= i < f.len() implies (#[trigger] f[i]).quality.len()
                == front_dims(f) by {
                assert(f[i] == cands@[front@[i] as int]@);
                assert(f[0] == cands@[front@[0] as int]@);
                let a = choose|a: int| 0 <= a < members.len() && members@[a] == front@[i];
                let b = choose|b: int| 0 <= b < members.len() && members@[b] == front@[0];
            }
        }
        let scores = crowding_scores(cands, &front);
        let remove = eviction_index(cands, &front, &scores);
        let ghost before_remove = front@;
        front.remove(remove);
        proof {
            assert(picked(cands@, front@) =~= f.remove(remove as int));
            assert forall|i: int| 0 <= i < front.len() implies members@.contains(
                #[trigger] front@[i],
            ) by {
                if i < remove {
                    assert(front@[i] == before_remove[i]);
                } else {
                    assert(front@[i] == before_remove[i + 1]);
                }
            }
        }
    }
    front
}

} // verus!
