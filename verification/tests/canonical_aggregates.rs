use downwards_research::ability_promotion::EvaluationLoadout;
use downwards_research::canonical_aggregates::{
    CanonicalLoadoutAggregateRecord, CanonicalRouteAggregateRecord, PairwiseDistanceSummary,
    RouteDiversitySummary, validate_canonical_aggregate, validate_route_diversity,
};
use downwards_research::checks::{ArtifactViolation, CorpusAnalysisArtifactError};

fn invalid(v: ArtifactViolation) -> CorpusAnalysisArtifactError {
    CorpusAnalysisArtifactError::Invalid(v)
}

fn distance(comparisons: usize) -> PairwiseDistanceSummary {
    let present = comparisons > 0;
    PairwiseDistanceSummary {
        comparisons,
        minimum_present: present,
        mean_present: present,
        median_present: present,
        maximum_present: present,
        mean_nearest_neighbor_present: present,
        present_values_in_unit_interval: true,
    }
}

fn diversity(route_count: usize) -> RouteDiversitySummary {
    let comparisons = route_count * route_count.saturating_sub(1) / 2;
    RouteDiversitySummary {
        version: 1,
        route_count,
        reached_target_count: route_count,
        spatial_path_classes: route_count.min(1),
        semantic_controller_classes: route_count.min(1),
        joint_play_style_classes: route_count.min(1),
        traversal_distance: distance(comparisons),
        semantic_action_distance: distance(comparisons),
        combined_behavior_distance: distance(comparisons),
    }
}

fn loadout(loadout: EvaluationLoadout, positive: usize, inconclusive: usize) -> CanonicalLoadoutAggregateRecord {
    CanonicalLoadoutAggregateRecord {
        loadout,
        route_cell_count: positive + inconclusive,
        positive_route_count: positive,
        bounded_inconclusive_route_count: inconclusive,
        behavior_diversity: diversity(positive),
    }
}

fn canonical() -> CanonicalRouteAggregateRecord {
    CanonicalRouteAggregateRecord {
        directed_route_count: 2,
        loadout_route_cell_count: 8,
        positive_route_count: 5,
        bounded_inconclusive_route_count: 3,
        by_loadout: vec![
            loadout(EvaluationLoadout::Baseline, 1, 1),
            loadout(EvaluationLoadout::WallJump, 2, 0),
            loadout(EvaluationLoadout::Dash, 0, 2),
            loadout(EvaluationLoadout::Both, 2, 0),
        ],
        behavior_diversity: diversity(5),
    }
}

fn vectors() -> Vec<EvaluationLoadout> {
    vec![
        EvaluationLoadout::Both,
        EvaluationLoadout::WallJump,
        EvaluationLoadout::Baseline,
        EvaluationLoadout::Both,
        EvaluationLoadout::WallJump,
    ]
}

#[test]
fn canonical_counts_matching_the_route_vectors_are_accepted() {
    assert_eq!(validate_canonical_aggregate(&canonical(), &vectors(), 2), Ok(()));
}

#[test]
fn canonical_denominators_and_per_loadout_counts_are_checked() {
    let mut c = canonical();
    c.loadout_route_cell_count = 6;
    assert_eq!(
        validate_canonical_aggregate(&c, &vectors(), 2),
        Err(invalid(ArtifactViolation::CanonicalCountsDiffer))
    );
    let mut v = vectors();
    v.pop();
    assert_eq!(
        validate_canonical_aggregate(&canonical(), &v, 2),
        Err(invalid(ArtifactViolation::CanonicalLoadoutCountsDiffer { loadout: EvaluationLoadout::WallJump }))
    );
    let mut c = canonical();
    c.by_loadout.swap(2, 3);
    assert_eq!(validate_canonical_aggregate(&c, &vectors(), 2), Err(invalid(ArtifactViolation::LoadoutOrder)));
    let mut c = canonical();
    c.positive_route_count = 4;
    c.bounded_inconclusive_route_count = 4;
    c.behavior_diversity = diversity(4);
    assert_eq!(
        validate_canonical_aggregate(&c, &vectors(), 2),
        Err(invalid(ArtifactViolation::CanonicalLoadoutSumsDiffer))
    );
    assert_eq!(
        validate_canonical_aggregate(&canonical(), &vectors(), usize::MAX),
        Err(invalid(ArtifactViolation::CanonicalCellOverflow))
    );
}

#[test]
fn diversity_distances_follow_the_pair_count() {
    assert_eq!(validate_route_diversity(&diversity(0)), Ok(()));
    assert_eq!(validate_route_diversity(&diversity(1)), Ok(()));
    assert_eq!(validate_route_diversity(&diversity(4)), Ok(()));
    let mut d = diversity(1);
    d.semantic_action_distance.mean_present = true;
    assert_eq!(validate_route_diversity(&d), Err(invalid(ArtifactViolation::DiversityDistanceWithoutPair)));
    let mut d = diversity(3);
    d.combined_behavior_distance.median_present = false;
    assert_eq!(validate_route_diversity(&d), Err(invalid(ArtifactViolation::DiversityDistanceOutOfRange)));
    let mut d = diversity(3);
    d.traversal_distance.present_values_in_unit_interval = false;
    assert_eq!(validate_route_diversity(&d), Err(invalid(ArtifactViolation::DiversityDistanceOutOfRange)));
    let mut d = diversity(3);
    d.traversal_distance.comparisons = 2;
    assert_eq!(validate_route_diversity(&d), Err(invalid(ArtifactViolation::DiversityComparisonCountDiffers)));
    let mut d = diversity(3);
    d.spatial_path_classes = 4;
    assert_eq!(validate_route_diversity(&d), Err(invalid(ArtifactViolation::DiversityClassCountExceeds)));
}
