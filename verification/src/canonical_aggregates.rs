//! Consistency of a room's canonical-route aggregates: route and loadout
//! cell denominators, per-loadout counts against the retained route vectors,
//! and the integer structure of each behavior-diversity record.
use vstd::prelude::*;

use crate::ability_promotion::{EvaluationLoadout, all_loadouts};
use crate::checks::{ArtifactViolation, CorpusAnalysisArtifactError, require_exact_loadout_order};

verus! {

/// A pairwise route-distance summary: its comparison count, which of its
/// five statistics (minimum, mean, median, maximum, mean nearest neighbor)
/// are present, and whether every present one is finite and within `[0, 1]`.
#[derive(Clone, Copy, Debug, PartialEq, Eq, Structural)]
pub struct PairwiseDistanceSummary {
    pub comparisons: usize,
    pub minimum_present: bool,
    pub mean_present: bool,
    pub median_present: bool,
    pub maximum_present: bool,
    pub mean_nearest_neighbor_present: bool,
    pub present_values_in_unit_interval: bool,
}

/// Behavior diversity of a set of routes.
#[derive(Clone, Copy, Debug, PartialEq, Eq, Structural)]
pub struct RouteDiversitySummary {
    pub version: u32,
    pub route_count: usize,
    pub reached_target_count: usize,
    pub spatial_path_classes: usize,
    pub semantic_controller_classes: usize,
    pub joint_play_style_classes: usize,
    pub traversal_distance: PairwiseDistanceSummary,
    pub semantic_action_distance: PairwiseDistanceSummary,
    pub combined_behavior_distance: PairwiseDistanceSummary,
}

/// Canonical-route counts of one loadout.
#[derive(Clone, Copy, Debug, PartialEq, Eq, Structural)]
pub struct CanonicalLoadoutAggregateRecord {
    pub loadout: EvaluationLoadout,
    pub route_cell_count: usize,
    pub positive_route_count: usize,
    pub bounded_inconclusive_route_count: usize,
    pub behavior_diversity: RouteDiversitySummary,
}

/// Canonical-route counts of a room.
#[derive(Clone, Debug, PartialEq, Eq)]
pub struct CanonicalRouteAggregateRecord {
    pub directed_route_count: usize,
    pub loadout_route_cell_count: usize,
    pub positive_route_count: usize,
    pub bounded_inconclusive_route_count: usize,
    pub by_loadout: Vec<CanonicalLoadoutAggregateRecord>,
    pub behavior_diversity: RouteDiversitySummary,
}

/// `a + b`, or the largest `usize` when the sum does not fit.
pub open spec fn sat_add(a: usize, b: usize) -> usize {
    if a + b > usize::MAX {
        usize::MAX
    } else {
        (a + b) as usize
    }
}

/// `a * b`, or the largest `usize` when the product does not fit.
pub open spec fn sat_mul(a: usize, b: usize) -> usize {
    if a * b > usize::MAX {
        usize::MAX
    } else {
        (a * b) as usize
    }
}

/// Number of unordered route pairs compared for `n` routes.
pub open spec fn pair_comparisons(n: usize) -> usize {
    (sat_mul(n, if n >= 1 { (n - 1) as usize } else { 0 }) / 2) as usize
}

/// Any of the five statistics is present.
pub open spec fn any_present(d: PairwiseDistanceSummary) -> bool {
    d.minimum_present || d.mean_present || d.median_present || d.maximum_present || d.mean_nearest_neighbor_present
}

/// All five statistics are present.
pub open spec fn all_present(d: PairwiseDistanceSummary) -> bool {
    d.minimum_present && d.mean_present && d.median_present && d.maximum_present && d.mean_nearest_neighbor_present
}

/// The outcome of checking one distance summary over `comparisons` route pairs.
pub open spec fn distance_result(d: PairwiseDistanceSummary, comparisons: usize) -> Result<(), CorpusAnalysisArtifactError> {
    if d.comparisons != comparisons {
        Err(CorpusAnalysisArtifactError::Invalid(ArtifactViolation::DiversityComparisonCountDiffers))
    } else if comparisons == 0 {
        if any_present(d) {
            Err(CorpusAnalysisArtifactError::Invalid(ArtifactViolation::DiversityDistanceWithoutPair))
        } else {
            Ok(())
        }
    } else if !all_present(d) || !d.present_values_in_unit_interval {
        Err(CorpusAnalysisArtifactError::Invalid(ArtifactViolation::DiversityDistanceOutOfRange))
    } else {
        Ok(())
    }
}

/// The outcome of checking a diversity record: class counts within the
/// route count, then each distance summary in field order.
pub open spec fn diversity_result(d: RouteDiversitySummary) -> Result<(), CorpusAnalysisArtifactError> {
    let comparisons = pair_comparisons(d.route_count);
    if d.reached_target_count > d.route_count || d.spatial_path_classes > d.route_count
        || d.semantic_controller_classes > d.route_count || d.joint_play_style_classes > d.route_count {
        Err(CorpusAnalysisArtifactError::Invalid(ArtifactViolation::DiversityClassCountExceeds))
    } else if distance_result(d.traversal_distance, comparisons) is Err {
        distance_result(d.traversal_distance, comparisons)
    } else if distance_result(d.semantic_action_distance, comparisons) is Err {
        distance_result(d.semantic_action_distance, comparisons)
    } else {
        distance_result(d.combined_behavior_distance, comparisons)
    }
}

fn check_distance(d: &PairwiseDistanceSummary, comparisons: usize) -> (r: Result<(), CorpusAnalysisArtifactError>)
    ensures
        r == distance_result(*d, comparisons),
{
    if d.comparisons != comparisons {
        return Err(CorpusAnalysisArtifactError::Invalid(ArtifactViolation::DiversityComparisonCountDiffers));
    }
    let any = d.minimum_present || d.mean_present || d.median_present || d.maximum_present
        || d.mean_nearest_neighbor_present;
    let all = d.minimum_present && d.mean_present && d.median_present && d.maximum_present
        && d.mean_nearest_neighbor_present;
    if comparisons == 0 {
        if any {
            return Err(CorpusAnalysisArtifactError::Invalid(ArtifactViolation::DiversityDistanceWithoutPair));
        }
    } else if !all || !d.present_values_in_unit_interval {
        return Err(CorpusAnalysisArtifactError::Invalid(ArtifactViolation::DiversityDistanceOutOfRange));
    }
    Ok(())
}

/// Check a behavior-diversity record's class counts and the comparison
/// counts and presence of its distance summaries.
pub fn validate_route_diversity(d: &RouteDiversitySummary) -> (r: Result<(), CorpusAnalysisArtifactError>)
    ensures
        r == diversity_result(*d),
{
    let n = d.route_count;
    let pairs = match n.checked_mul(n.saturating_sub(1)) {
        Some(p) => p,
        None => usize::MAX,
    };
    let comparisons = pairs / 2;
    if d.reached_target_count > n || d.spatial_path_classes > n || d.semantic_controller_classes > n
        || d.joint_play_style_classes > n {
        return Err(CorpusAnalysisArtifactError::Invalid(ArtifactViolation::DiversityClassCountExceeds));
    }
    let traversal = check_distance(&d.traversal_distance, comparisons);
    if traversal.is_err() {
        return traversal;
    }
    let semantic = check_distance(&d.semantic_action_distance, comparisons);
    if semantic.is_err() {
        return semantic;
    }
    check_distance(&d.combined_behavior_distance, comparisons)
}

/// Number of retained route vectors of `loadout`.
pub open spec fn vectors_of(vectors: Seq<EvaluationLoadout>, loadout: EvaluationLoadout) -> nat
    decreases vectors.len(),
{
    if vectors.len() == 0 {
        0
    } else {
        vectors_of(vectors.drop_last(), loadout) + if vectors.last() == loadout { 1nat } else { 0nat }
    }
}

/// The outcome of checking one loadout's canonical counts.
pub open spec fn canonical_loadout_result(
    a: CanonicalLoadoutAggregateRecord,
    vectors: Seq<EvaluationLoadout>,
    directed_route_count: usize,
) -> Result<(), CorpusAnalysisArtifactError> {
    if a.route_cell_count != directed_route_count || sat_add(a.positive_route_count, a.bounded_inconclusive_route_count)
        != directed_route_count || a.positive_route_count != vectors_of(vectors, a.loadout)
        || a.behavior_diversity.route_count != a.positive_route_count {
        Err(CorpusAnalysisArtifactError::Invalid(ArtifactViolation::CanonicalLoadoutCountsDiffer { loadout: a.loadout }))
    } else {
        diversity_result(a.behavior_diversity)
    }
}

/// The first failing loadout's outcome.
pub open spec fn canonical_loadouts_result(
    s: Seq<CanonicalLoadoutAggregateRecord>,
    vectors: Seq<EvaluationLoadout>,
    directed_route_count: usize,
) -> Result<(), CorpusAnalysisArtifactError>
    decreases s.len(),
{
    if s.len() == 0 {
        Ok(())
    } else {
        match canonical_loadout_result(s[0], vectors, directed_route_count) {
            Err(e) => Err(e),
            Ok(()) => canonical_loadouts_result(s.drop_first(), vectors, directed_route_count),
        }
    }
}

/// Saturating sums of the per-loadout positive and inconclusive counts.
pub open spec fn loadout_sums(s: Seq<CanonicalLoadoutAggregateRecord>) -> (usize, usize)
    decreases s.len(),
{
    if s.len() == 0 {
        (0, 0)
    } else {
        let (p, i) = loadout_sums(s.drop_last());
        (sat_add(p, s.last().positive_route_count), sat_add(i, s.last().bounded_inconclusive_route_count))
    }
}

/// The loadouts of the per-loadout aggregates, in order.
pub open spec fn canonical_loadouts(s: Seq<CanonicalLoadoutAggregateRecord>) -> Seq<EvaluationLoadout> {
    s.map_values(|a: CanonicalLoadoutAggregateRecord| a.loadout)
}

/// The outcome of checking a room's canonical aggregate against the
/// loadouts of its retained route vectors and its `directed_route_count`.
pub open spec fn canonical_result(
    c: CanonicalRouteAggregateRecord,
    vectors: Seq<EvaluationLoadout>,
    directed_route_count: usize,
) -> Result<(), CorpusAnalysisArtifactError> {
    if directed_route_count * 4 > usize::MAX {
        Err(CorpusAnalysisArtifactError::Invalid(ArtifactViolation::CanonicalCellOverflow))
    } else if c.directed_route_count != directed_route_count || c.loadout_route_cell_count != directed_route_count * 4
        || sat_add(c.positive_route_count, c.bounded_inconclusive_route_count) != directed_route_count * 4
        || c.behavior_diversity.route_count != c.positive_route_count {
        Err(CorpusAnalysisArtifactError::Invalid(ArtifactViolation::CanonicalCountsDiffer))
    } else if canonical_loadouts(c.by_loadout@) != all_loadouts() {
        Err(CorpusAnalysisArtifactError::Invalid(ArtifactViolation::LoadoutOrder))
    } else if canonical_loadouts_result(c.by_loadout@, vectors, directed_route_count) is Err {
        canonical_loadouts_result(c.by_loadout@, vectors, directed_route_count)
    } else if loadout_sums(c.by_loadout@) != (c.positive_route_count, c.bounded_inconclusive_route_count) {
        Err(CorpusAnalysisArtifactError::Invalid(ArtifactViolation::CanonicalLoadoutSumsDiffer))
    } else {
        diversity_result(c.behavior_diversity)
    }
}

proof fn lemma_vectors_of_bound(vectors: Seq<EvaluationLoadout>, loadout: EvaluationLoadout)
    ensures
        vectors_of(vectors, loadout) <= vectors.len(),
    decreases vectors.len(),
{
    if vectors.len() > 0 {
        lemma_vectors_of_bound(vectors.drop_last(), loadout);
    }
}

fn count_vectors(vectors: &[EvaluationLoadout], loadout: EvaluationLoadout) -> (r: usize)
    ensures
        r == vectors_of(vectors@, loadout),
{
    let mut n: usize = 0;
    let mut k: usize = 0;
    while k < vectors.len()
        invariant
            k <= vectors.len(),
            n == vectors_of(vectors@.take(k as int), loadout),
        decreases vectors.len() - k,
    {
        assert(vectors@.take(k + 1).drop_last() =~= vectors@.take(k as int));
        proof {
            lemma_vectors_of_bound(vectors@.take(k + 1), loadout);
        }
        if vectors[k] == loadout {
            n = n + 1;
        }
        k = k + 1;
    }
    assert(vectors@.take(k as int) =~= vectors@);
    n
}

fn saturating_sum(a: usize, b: usize) -> (r: usize)
    ensures
        r == sat_add(a, b),
{
    match a.checked_add(b) {
        Some(v) => v,
        None => usize::MAX,
    }
}

fn check_canonical_loadout(
    a: &CanonicalLoadoutAggregateRecord,
    vectors: &[EvaluationLoadout],
    directed_route_count: usize,
) -> (r: Result<(), CorpusAnalysisArtifactError>)
    ensures
        r == canonical_loadout_result(*a, vectors@, directed_route_count),
{
    let retained = count_vectors(vectors, a.loadout);
    if a.route_cell_count != directed_route_count || saturating_sum(a.positive_route_count, a.bounded_inconclusive_route_count)
        != directed_route_count || a.positive_route_count != retained
        || a.behavior_diversity.route_count != a.positive_route_count {
        return Err(CorpusAnalysisArtifactError::Invalid(ArtifactViolation::CanonicalLoadoutCountsDiffer { loadout: a.loadout }));
    }
    validate_route_diversity(&a.behavior_diversity)
}

/// Check a room's canonical-route aggregate over `directed_route_count`
/// directed routes against the loadouts of its retained route vectors.
pub fn validate_canonical_aggregate(
    canonical: &CanonicalRouteAggregateRecord,
    route_vector_loadouts: &[EvaluationLoadout],
    directed_route_count: usize,
) -> (r: Result<(), CorpusAnalysisArtifactError>)
    ensures
        r == canonical_result(*canonical, route_vector_loadouts@, directed_route_count),
{
    let cells = match directed_route_count.checked_mul(4) {
        Some(c) => c,
        None => {
            return Err(CorpusAnalysisArtifactError::Invalid(ArtifactViolation::CanonicalCellOverflow));
        },
    };
    if canonical.directed_route_count != directed_route_count || canonical.loadout_route_cell_count != cells
        || saturating_sum(canonical.positive_route_count, canonical.bounded_inconclusive_route_count) != cells
        || canonical.behavior_diversity.route_count != canonical.positive_route_count {
        return Err(CorpusAnalysisArtifactError::Invalid(ArtifactViolation::CanonicalCountsDiffer));
    }
    let mut loadouts: Vec<EvaluationLoadout> = Vec::new();
    let mut k: usize = 0;
    while k < canonical.by_loadout.len()
        invariant
            k <= canonical.by_loadout.len(),
            loadouts@ == canonical_loadouts(canonical.by_loadout@).take(k as int),
        decreases canonical.by_loadout.len() - k,
    {
        loadouts.push(canonical.by_loadout[k].loadout);
        assert(loadouts@ =~= canonical_loadouts(canonical.by_loadout@).take(k + 1));
        k = k + 1;
    }
    assert(canonical_loadouts(canonical.by_loadout@).take(k as int) =~= canonical_loadouts(canonical.by_loadout@));
    let ordered = require_exact_loadout_order(loadouts.as_slice());
    if ordered.is_err() {
        return ordered;
    }
    let ghost all = canonical.by_loadout@;
    let mut positive_sum: usize = 0;
    let mut inconclusive_sum: usize = 0;
    let mut j: usize = 0;
    assert(all.skip(0) =~= all);
    while j < canonical.by_loadout.len()
        invariant
            j <= canonical.by_loadout.len(),
            all == canonical.by_loadout@,
            canonical_loadouts_result(all, route_vector_loadouts@, directed_route_count) == canonical_loadouts_result(
                all.skip(j as int),
                route_vector_loadouts@,
                directed_route_count,
            ),
            (positive_sum, inconclusive_sum) == loadout_sums(all.take(j as int)),
            canonical_result(*canonical, route_vector_loadouts@, directed_route_count) == (
            if canonical_loadouts_result(all, route_vector_loadouts@, directed_route_count) is Err {
                canonical_loadouts_result(all, route_vector_loadouts@, directed_route_count)
            } else if loadout_sums(all) != (canonical.positive_route_count, canonical.bounded_inconclusive_route_count) {
                Err(CorpusAnalysisArtifactError::Invalid(ArtifactViolation::CanonicalLoadoutSumsDiffer))
            } else {
                diversity_result(canonical.behavior_diversity)
            }),
        decreases canonical.by_loadout.len() - j,
    {
        let ghost rest = all.skip(j as int);
        assert(rest[0] == all[j as int]);
        assert(rest.drop_first() =~= all.skip(j + 1));
        assert(all.take(j + 1).drop_last() =~= all.take(j as int));
        let checked = check_canonical_loadout(&canonical.by_loadout[j], route_vector_loadouts, directed_route_count);
        if checked.is_err() {
            return checked;
        }
        positive_sum = saturating_sum(positive_sum, canonical.by_loadout[j].positive_route_count);
        inconclusive_sum = saturating_sum(inconclusive_sum, canonical.by_loadout[j].bounded_inconclusive_route_count);
        j = j + 1;
    }
    assert(all.skip(j as int) =~= Seq::<CanonicalLoadoutAggregateRecord>::empty());
    assert(all.take(j as int) =~= all);
    if positive_sum != canonical.positive_route_count || inconclusive_sum != canonical.bounded_inconclusive_route_count {
        return Err(CorpusAnalysisArtifactError::Invalid(ArtifactViolation::CanonicalLoadoutSumsDiffer));
    }
    validate_route_diversity(&canonical.behavior_diversity)
}

} // verus!
