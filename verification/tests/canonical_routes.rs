use downwards_research::ability_promotion::EvaluationLoadout;
use downwards_research::canonical_aggregates::{
    CanonicalRouteAggregateRecord, PairwiseDistanceSummary, RouteDiversitySummary,
};
use downwards_research::canonical_routes::{
    CanonicalRouteDifficultyRecord, CanonicalRoutePolicy, CanonicalRouteVectorRecord,
    MissingTimingEvidenceRecord, RouteVectorSummary, ShakyHandStatusRecord, validate_canonical_routes,
    validate_route_vector,
};
use downwards_research::checks::{ArtifactViolation, CorpusAnalysisArtifactError};
use downwards_research::landing::{LandingPrecisionRecord, LandingSampleRecord, LandingSupportKindRecord};
use downwards_research::landing_checks::LandingPrecisionPolicy;
use downwards_research::operational_cost::{CanonicalRouteCostUnitRecord, OperationalCostRecord};

const CLAIM: &str = "canonical_matrix_witness_measurement_not_easiest_known";

fn invalid(v: ArtifactViolation) -> Result<(), CorpusAnalysisArtifactError> {
    Err(CorpusAnalysisArtifactError::Invalid(v))
}

fn policy() -> CanonicalRoutePolicy {
    CanonicalRoutePolicy {
        measurement_version: 2,
        vector_version: 5,
        witness_fingerprint_prefix: "downwards-witness-v".to_owned(),
        landing: LandingPrecisionPolicy { version: 3, interpretation: "local landing geometry".to_owned() },
    }
}

fn landing(inspected_ticks: usize) -> LandingPrecisionRecord {
    LandingPrecisionRecord {
        version: 3,
        interpretation: "local landing geometry".to_owned(),
        inspected_ticks,
        landing_event_count: 1,
        samples: vec![LandingSampleRecord {
            replay_tick: 5,
            player_x: 10,
            player_y: 0,
            player_width: 8,
            player_height: 12,
            surface_y: 12,
            support_left: 12,
            support_right: 30,
            support_kind: LandingSupportKindRecord::Solid,
            footprint_overlap_pixels: 6,
            left_edge_margin_pixels: -2,
            right_edge_margin_pixels: 12,
        }],
        unmeasured_landing_ticks: vec![],
        minimum_footprint_overlap_pixels: Some(6),
        minimum_edge_margin_pixels: Some(-2),
        narrowest_support_width_pixels: Some(18),
        edge_overhang_landings: 1,
        one_way_or_mixed_landings: 0,
    }
}

fn vector(target: &str) -> RouteVectorSummary {
    RouteVectorSummary {
        version: 5,
        target_id: target.to_owned(),
        completion_ticks: 40,
        restart_presses: 0,
        distances_finite_nonnegative: true,
        perfect_control_trials: 1,
        perfect_control_probabilities_valid: true,
        perfect_control_exact: true,
        shaky_hand: ShakyHandStatusRecord::Missing { reason: MissingTimingEvidenceRecord::ShakyHandStudyNotProvided },
    }
}

fn cost_id(loadout: EvaluationLoadout, source: &str, target: &str) -> String {
    format!("cost-{loadout:?}-{source}-{target}")
}

fn route(loadout: EvaluationLoadout, source: &str, target: &str) -> CanonicalRouteVectorRecord {
    CanonicalRouteVectorRecord {
        measurement_version: 2,
        source_door_id: source.to_owned(),
        target_door_id: target.to_owned(),
        loadout,
        witness_fingerprint: format!("downwards-witness-v1:{source}{target}"),
        landing_precision: landing(40),
        vector: vector(target),
        operational_cost_ref: cost_id(loadout, source, target),
    }
}

fn unit(loadout: EvaluationLoadout, source: &str, target: &str) -> CanonicalRouteCostUnitRecord {
    CanonicalRouteCostUnitRecord {
        cost_id: cost_id(loadout, source, target),
        source_door_id: source.to_owned(),
        target_door_id: target.to_owned(),
        loadout,
        cost: OperationalCostRecord { expanded_nodes: 1, generated_nodes: 2, simulated_ticks: 3, deepest_path_ticks: 4 },
    }
}

fn keys() -> Vec<(EvaluationLoadout, &'static str, &'static str)> {
    vec![
        (EvaluationLoadout::Baseline, "A", "B"),
        (EvaluationLoadout::Dash, "A", "B"),
        (EvaluationLoadout::Dash, "B", "A"),
    ]
}

fn canonical() -> CanonicalRouteDifficultyRecord {
    CanonicalRouteDifficultyRecord {
        claim: CLAIM.to_owned(),
        routes: keys().into_iter().map(|(l, s, t)| route(l, s, t)).collect(),
    }
}

fn units() -> Vec<CanonicalRouteCostUnitRecord> {
    keys().into_iter().map(|(l, s, t)| unit(l, s, t)).collect()
}

fn distance() -> PairwiseDistanceSummary {
    PairwiseDistanceSummary {
        comparisons: 0,
        minimum_present: false,
        mean_present: false,
        median_present: false,
        maximum_present: false,
        mean_nearest_neighbor_present: false,
        present_values_in_unit_interval: true,
    }
}

fn aggregate(positive: usize) -> CanonicalRouteAggregateRecord {
    CanonicalRouteAggregateRecord {
        directed_route_count: 2,
        loadout_route_cell_count: 8,
        positive_route_count: positive,
        bounded_inconclusive_route_count: 0,
        by_loadout: Vec::new(),
        behavior_diversity: RouteDiversitySummary {
            version: 1,
            route_count: positive,
            reached_target_count: positive,
            spatial_path_classes: 1,
            semantic_controller_classes: 1,
            joint_play_style_classes: 1,
            traversal_distance: distance(),
            semantic_action_distance: distance(),
            combined_behavior_distance: distance(),
        },
    }
}

fn doors() -> Vec<String> {
    vec!["A".to_owned(), "B".to_owned()]
}

fn check(c: &CanonicalRouteDifficultyRecord, u: &[CanonicalRouteCostUnitRecord]) -> Result<(), CorpusAnalysisArtifactError> {
    validate_canonical_routes(c, &doors(), u, &aggregate(c.routes.len()), 2, &policy())
}

#[test]
fn consistent_canonical_routes_are_accepted() {
    assert_eq!(check(&canonical(), &units()), Ok(()));
    let empty = CanonicalRouteDifficultyRecord { claim: CLAIM.to_owned(), routes: Vec::new() };
    assert_eq!(check(&empty, &[]), Ok(()));
}

#[test]
fn claim_and_order_are_checked_first() {
    let mut c = canonical();
    c.claim = "easiest_known".to_owned();
    c.routes.swap(0, 1);
    assert_eq!(check(&c, &units()), invalid(ArtifactViolation::CanonicalClaim));
    let mut c = canonical();
    c.routes.swap(1, 2);
    assert_eq!(check(&c, &units()), invalid(ArtifactViolation::CanonicalRouteOrder));
}

#[test]
fn route_identity_is_checked() {
    let mut c = canonical();
    c.routes[0].measurement_version = 1;
    assert_eq!(check(&c, &units()), invalid(ArtifactViolation::CanonicalRouteIdentity));
    let mut c = canonical();
    c.routes[1].witness_fingerprint = "other-witness".to_owned();
    assert_eq!(check(&c, &units()), invalid(ArtifactViolation::CanonicalRouteIdentity));
    let mut c = canonical();
    c.routes[2].vector.target_id = "B".to_owned();
    assert_eq!(check(&c, &units()), invalid(ArtifactViolation::CanonicalRouteIdentity));
    let c = CanonicalRouteDifficultyRecord { claim: CLAIM.to_owned(), routes: vec![route(EvaluationLoadout::Dash, "A", "C")] };
    assert_eq!(check(&c, &[unit(EvaluationLoadout::Dash, "A", "C")]), invalid(ArtifactViolation::CanonicalRouteIdentity));
}

#[test]
fn vector_policy_errors() {
    assert_eq!(validate_route_vector(&vector("A")), Ok(()));
    let v = RouteVectorSummary { restart_presses: 1, ..vector("A") };
    assert_eq!(validate_route_vector(&v), invalid(ArtifactViolation::RouteVectorCoordinates));
    let v = RouteVectorSummary { distances_finite_nonnegative: false, ..vector("A") };
    assert_eq!(validate_route_vector(&v), invalid(ArtifactViolation::RouteVectorCoordinates));
    let v = RouteVectorSummary { perfect_control_trials: 0, ..vector("A") };
    assert_eq!(validate_route_vector(&v), invalid(ArtifactViolation::TimingProbabilities));
    let v = RouteVectorSummary { perfect_control_trials: 2, ..vector("A") };
    assert_eq!(validate_route_vector(&v), invalid(ArtifactViolation::ExactControlPolicy));
    let v = RouteVectorSummary {
        shaky_hand: ShakyHandStatusRecord::Missing { reason: MissingTimingEvidenceRecord::CurveNotRecorded },
        ..vector("A")
    };
    assert_eq!(validate_route_vector(&v), invalid(ArtifactViolation::ExactControlPolicy));
    let mut c = canonical();
    c.routes[1].vector.perfect_control_exact = false;
    assert_eq!(check(&c, &units()), invalid(ArtifactViolation::ExactControlPolicy));
}

#[test]
fn landing_precision_is_checked_against_completion_ticks() {
    let mut c = canonical();
    c.routes[2].vector.completion_ticks = 41;
    assert_eq!(check(&c, &units()), invalid(ArtifactViolation::LandingIdentityDiffers));
}

#[test]
fn costs_cross_reference_one_to_one() {
    let mut c = canonical();
    c.routes[1].operational_cost_ref = "missing".to_owned();
    assert_eq!(check(&c, &units()), invalid(ArtifactViolation::AbsentCanonicalCost));
    let mut c = canonical();
    c.routes[1].operational_cost_ref = cost_id(EvaluationLoadout::Baseline, "A", "B");
    assert_eq!(check(&c, &units()), invalid(ArtifactViolation::CanonicalCostCrossReference));
    let mut u = units();
    u[2].loadout = EvaluationLoadout::Both;
    assert_eq!(check(&canonical(), &u), invalid(ArtifactViolation::CanonicalCostCrossReference));
    let mut u = units();
    u.push(unit(EvaluationLoadout::Both, "B", "A"));
    assert_eq!(check(&canonical(), &u), invalid(ArtifactViolation::OrphanCanonicalCost));
}

#[test]
fn metric_counts_must_match() {
    let c = canonical();
    assert_eq!(
        validate_canonical_routes(&c, &doors(), &units(), &aggregate(2), 2, &policy()),
        invalid(ArtifactViolation::CanonicalMetricCounts)
    );
    assert_eq!(
        validate_canonical_routes(&c, &doors(), &units(), &aggregate(3), 3, &policy()),
        invalid(ArtifactViolation::CanonicalMetricCounts)
    );
}
