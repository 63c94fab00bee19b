use downwards_research::ability_promotion::EvaluationLoadout;
use downwards_research::canonical_routes::{
    CanonicalRouteVectorRecord, MissingTimingEvidenceRecord, RouteVectorSummary, ShakyHandStatusRecord,
};
use downwards_research::checks::{ArtifactViolation, CorpusAnalysisArtifactError};
use downwards_research::landing::{
    LandingCoordinateEvidenceRecord,
    LandingCoordinateNotApplicableReasonRecord, LandingPrecisionAggregateRecord,
    LandingPrecisionRecord, LandingSampleRecord, LandingSupportKindRecord,
    landing_aggregate_from_route_records, landing_metric_from_canonical_routes,
    validate_landing_metric,
};
use downwards_research::metrics::{
    IntegerCoordinateDistributionRecord, SignedIntegerCoordinateDistributionRecord,
};

fn sample(
    left: i32,
    right: i32,
    footprint: u32,
    support: (i32, i32),
    kind: LandingSupportKindRecord,
) -> LandingSampleRecord {
    LandingSampleRecord {
        replay_tick: 7,
        player_x: 0,
        player_y: 0,
        player_width: 8,
        player_height: 12,
        surface_y: 20,
        support_left: support.0,
        support_right: support.1,
        support_kind: kind,
        footprint_overlap_pixels: footprint,
        left_edge_margin_pixels: left,
        right_edge_margin_pixels: right,
    }
}

fn precision(
    version: u32,
    inspected_ticks: usize,
    landing_event_count: usize,
    samples: Vec<LandingSampleRecord>,
    unmeasured_landing_ticks: Vec<usize>,
) -> LandingPrecisionRecord {
    LandingPrecisionRecord {
        version,
        interpretation: "local landing geometry".to_owned(),
        inspected_ticks,
        landing_event_count,
        samples,
        unmeasured_landing_ticks,
        minimum_footprint_overlap_pixels: None,
        minimum_edge_margin_pixels: None,
        narrowest_support_width_pixels: None,
        edge_overhang_landings: 0,
        one_way_or_mixed_landings: 0,
    }
}

fn canonical_route(loadout: EvaluationLoadout, landing_precision: LandingPrecisionRecord) -> CanonicalRouteVectorRecord {
    CanonicalRouteVectorRecord {
        measurement_version: 1,
        source_door_id: "A".to_owned(),
        target_door_id: "B".to_owned(),
        loadout,
        witness_fingerprint: "downwards-witness-v1".to_owned(),
        vector: RouteVectorSummary {
            version: 1,
            target_id: "B".to_owned(),
            completion_ticks: landing_precision.inspected_ticks,
            restart_presses: 0,
            distances_finite_nonnegative: true,
            perfect_control_trials: 1,
            perfect_control_probabilities_valid: true,
            perfect_control_exact: true,
            shaky_hand: ShakyHandStatusRecord::Missing {
                reason: MissingTimingEvidenceRecord::ShakyHandStudyNotProvided,
            },
        },
        landing_precision,
        operational_cost_ref: "cost".to_owned(),
    }
}

fn routes() -> Vec<CanonicalRouteVectorRecord> {
    vec![
        canonical_route(EvaluationLoadout::Baseline, precision(
                2,
                100,
                2,
                vec![
                    sample(3, 5, 10, (0, 16), LandingSupportKindRecord::Solid),
                    sample(-1, 4, 6, (5, 9), LandingSupportKindRecord::OneWay),
                ],
                vec![],
            )),
        canonical_route(EvaluationLoadout::WallJump, precision(1, 50, 1, vec![], vec![40])),
        canonical_route(EvaluationLoadout::WallJump, precision(2, 30, 0, vec![], vec![])),
    ]
}

fn dist(minimum: usize, maximum: usize) -> IntegerCoordinateDistributionRecord {
    IntegerCoordinateDistributionRecord {
        sample_count: 2,
        minimum,
        median_lower: minimum,
        median_upper: maximum,
        maximum,
        spread: maximum - minimum,
    }
}

#[test]
fn overall_landing_aggregate_counts_routes_and_samples() {
    assert_eq!(
        landing_aggregate_from_route_records(&routes(), None),
        LandingPrecisionAggregateRecord {
            canonical_positive_route_count: 3,
            inspected_ticks: 180,
            routes_with_landing_events: 2,
            routes_without_landing_events: 1,
            routes_with_measured_landings: 1,
            routes_with_unmeasured_landings: 1,
            routes_with_only_unmeasured_landings: 1,
            landing_event_count: 3,
            measured_landing_count: 2,
            unmeasured_landing_count: 1,
            minimum_edge_margin_pixels: LandingCoordinateEvidenceRecord::Observed {
                value: SignedIntegerCoordinateDistributionRecord {
                    sample_count: 2,
                    minimum: -1,
                    median_lower: -1,
                    median_upper: 3,
                    maximum: 3,
                    spread: 4,
                },
            },
            footprint_overlap_pixels: LandingCoordinateEvidenceRecord::Observed { value: dist(6, 10) },
            support_width_pixels: LandingCoordinateEvidenceRecord::Observed { value: dist(4, 16) },
            edge_overhang_landings: 1,
            one_way_or_mixed_landings: 1,
        }
    );
}

#[test]
fn loadout_without_measured_landings_names_the_reason() {
    let wall_jump = landing_aggregate_from_route_records(&routes(), Some(EvaluationLoadout::WallJump));
    assert_eq!(wall_jump.canonical_positive_route_count, 2);
    assert_eq!(wall_jump.inspected_ticks, 80);
    assert_eq!(wall_jump.routes_with_only_unmeasured_landings, 1);
    let reason = LandingCoordinateNotApplicableReasonRecord::NoMeasuredLandings;
    assert_eq!(wall_jump.support_width_pixels, LandingCoordinateEvidenceRecord::NotApplicable { reason });
    let dash = landing_aggregate_from_route_records(&routes(), Some(EvaluationLoadout::Dash));
    assert_eq!(dash.canonical_positive_route_count, 0);
    assert_eq!(
        dash.minimum_edge_margin_pixels,
        LandingCoordinateEvidenceRecord::NotApplicable {
            reason: LandingCoordinateNotApplicableReasonRecord::NoCanonicalPositiveRoutes
        }
    );
    let quiet = vec![canonical_route(EvaluationLoadout::Both, precision(1, 10, 0, vec![], vec![]))];
    assert_eq!(
        landing_aggregate_from_route_records(&quiet, None).footprint_overlap_pixels,
        LandingCoordinateEvidenceRecord::NotApplicable {
            reason: LandingCoordinateNotApplicableReasonRecord::NoLandingEvents
        }
    );
}

#[test]
fn inverted_support_has_the_largest_width() {
    let inverted = vec![canonical_route(EvaluationLoadout::Baseline, precision(
            1,
            1,
            1,
            vec![sample(0, 0, 0, (9, 2), LandingSupportKindRecord::Mixed)],
            vec![],
        ))];
    let aggregate = landing_aggregate_from_route_records(&inverted, None);
    let LandingCoordinateEvidenceRecord::Observed { value } = aggregate.support_width_pixels else {
        panic!("one measured landing")
    };
    assert_eq!(value.maximum, usize::MAX);
    assert_eq!(aggregate.one_way_or_mixed_landings, 1);
}

#[test]
fn recorded_landing_metric_must_match_the_routes() {
    let metric = landing_metric_from_canonical_routes(&routes());
    assert_eq!(metric.source_landing_precision_versions, vec![1, 2]);
    assert_eq!(metric.by_loadout.len(), 4);
    assert_eq!(metric.by_loadout[0].aggregate.canonical_positive_route_count, 1);
    assert_eq!(validate_landing_metric(&metric, &routes()), Ok(()));
    let mut changed = metric.clone();
    changed.source_landing_precision_versions = vec![2, 1];
    assert_eq!(
        validate_landing_metric(&changed, &routes()),
        Err(CorpusAnalysisArtifactError::Invalid(ArtifactViolation::LandingMetricDiffers))
    );
    let mut changed = metric;
    changed.by_loadout[3].aggregate.inspected_ticks = 1;
    assert_eq!(
        validate_landing_metric(&changed, &routes()),
        Err(CorpusAnalysisArtifactError::Invalid(ArtifactViolation::LandingMetricDiffers))
    );
}
