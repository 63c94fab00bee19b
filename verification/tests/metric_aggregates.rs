use downwards_research::ability_promotion::{EvaluationLoadout, LoadoutControllerAuditStatus};
use downwards_research::asymmetry_rows::DirectionalAsymmetryRecord;
use downwards_research::canonical_aggregates::{
    CanonicalLoadoutAggregateRecord, CanonicalRouteAggregateRecord, PairwiseDistanceSummary,
    RouteDiversitySummary,
};
use downwards_research::checks::{ArtifactViolation, CorpusAnalysisArtifactError, ExactFractionRecord};
use downwards_research::direct_aggregates::{
    AbilityBypassAggregateRecord, ControllerLoadoutCell, DirectControllerAggregateRecord,
    DirectControllerLoadoutAggregateRecord, MetricEvidenceRecord, MissingMetricReasonRecord,
    NotApplicableMetricReasonRecord,
};
use downwards_research::landing::landing_metric_from_canonical_routes;
use downwards_research::metric_aggregates::{
    MetricAggregatesRecord, TerrainCoverageFractionRecord, validate_fraction_evidence,
    validate_metric_aggregates,
};
use downwards_research::terrain::{AblationUtilityRecord, PositiveTerrainCoverageRecord, TerrainMetricAggregateRecord};
use downwards_research::metrics::{AggregateAuditCompletenessRecord, AuditCompletenessCountsRecord};

fn invalid(v: ArtifactViolation) -> CorpusAnalysisArtifactError {
    CorpusAnalysisArtifactError::Invalid(v)
}

fn no_distance() -> PairwiseDistanceSummary {
    PairwiseDistanceSummary {
        comparisons: 0,
        minimum_present: false,
        mean_present: false,
        median_present: false,
        maximum_present: false,
        mean_nearest_neighbor_present: false,
        present_values_in_unit_interval: true,
    }
}

fn no_routes() -> RouteDiversitySummary {
    RouteDiversitySummary {
        version: 1,
        route_count: 0,
        reached_target_count: 0,
        spatial_path_classes: 0,
        semantic_controller_classes: 0,
        joint_play_style_classes: 0,
        traversal_distance: no_distance(),
        semantic_action_distance: no_distance(),
        combined_behavior_distance: no_distance(),
    }
}

fn cells() -> Vec<Vec<ControllerLoadoutCell>> {
    let row = EvaluationLoadout::all()
        .into_iter()
        .map(|loadout| ControllerLoadoutCell {
            loadout,
            status: LoadoutControllerAuditStatus::CompleteFiniteVocabulary,
            retained_semantic_witnesses: 0,
        })
        .collect::<Vec<_>>();
    vec![row.clone(), row]
}

fn complete(n: usize) -> AuditCompletenessCountsRecord {
    AuditCompletenessCountsRecord {
        expected: n,
        complete_finite_vocabulary: n,
        bounded_incomplete: 0,
        missing: 0,
        state: AggregateAuditCompletenessRecord::CompleteFiniteVocabulary,
    }
}

fn aggregates() -> MetricAggregatesRecord {
    let reason = NotApplicableMetricReasonRecord::SuccessfulRoutesForLoadout;
    let missing = MissingMetricReasonRecord::ReverseDirectionsRequireTwoKnownPositiveControllers;
    let not_applicable = MetricEvidenceRecord::NotApplicable {
        reason: NotApplicableMetricReasonRecord::InteriorTerrainTiles,
    };
    MetricAggregatesRecord {
        canonical_routes: CanonicalRouteAggregateRecord {
            directed_route_count: 2,
            loadout_route_cell_count: 8,
            positive_route_count: 0,
            bounded_inconclusive_route_count: 8,
            by_loadout: EvaluationLoadout::all()
                .into_iter()
                .map(|loadout| CanonicalLoadoutAggregateRecord {
                    loadout,
                    route_cell_count: 2,
                    positive_route_count: 0,
                    bounded_inconclusive_route_count: 2,
                    behavior_diversity: no_routes(),
                })
                .collect(),
            behavior_diversity: no_routes(),
        },
        landing_precision: landing_metric_from_canonical_routes(&[]),
        direct_controllers: DirectControllerAggregateRecord {
            directed_route_count: 2,
            by_loadout: EvaluationLoadout::all()
                .into_iter()
                .map(|loadout| DirectControllerLoadoutAggregateRecord {
                    loadout,
                    source_audit_completeness: complete(2),
                    route_audit_completeness: complete(2),
                    known_positive_directed_routes: 0,
                    ambiguous_nondominated_front_directed_routes: 0,
                    no_positive_in_complete_finite_vocabulary: 2,
                    inconclusive_without_positive: 0,
                    missing_route_or_audit: 0,
                    easiest_controller_fractions: MetricEvidenceRecord::NotApplicable { reason },
                    demand_coordinates: MetricEvidenceRecord::NotApplicable { reason },
                })
                .collect(),
            ability_bypasses: AbilityBypassAggregateRecord {
                directed_routes_with_any_bypass: 0,
                directed_routes_with_wall_jump_bypass: 0,
                directed_routes_with_dash_bypass: 0,
                directed_route_loadout_bypasses: 0,
                retained_semantic_bypass_witnesses: 0,
                by_successful_loadout: Vec::new(),
            },
        },
        directional_asymmetry: EvaluationLoadout::all()
            .into_iter()
            .map(|loadout| DirectionalAsymmetryRecord {
                door_a: "A".to_owned(),
                door_b: "B".to_owned(),
                loadout,
                a_to_b: MetricEvidenceRecord::Missing { reason: missing },
                b_to_a: MetricEvidenceRecord::Missing { reason: missing },
                comparison: MetricEvidenceRecord::Missing { reason: missing },
            })
            .collect(),
        terrain: TerrainMetricAggregateRecord {
            source_terrain_audit_version: 1,
            coverage: PositiveTerrainCoverageRecord {
                positive_controller_count: 0,
                interior_component_count: 0,
                interior_tile_count: 0,
                structurally_attributed_component_count: 0,
                structurally_attributed_tile_count: 0,
                traversal_near_component_count: 0,
                traversal_near_tile_count: 0,
                positively_corroborated_component_count: 0,
                positively_corroborated_tile_count: 0,
                uncorroborated_component_count: 0,
                uncorroborated_tile_count: 0,
            },
            ablations: Vec::new(),
            ablation_utility: AblationUtilityRecord {
                variant_count: 0,
                all_stored_controllers_survived: 0,
                at_least_one_stored_controller_affected: 0,
                no_stored_controllers: 0,
                removed_tiles_all_survived: 0,
                removed_tiles_some_affected: 0,
                removed_tiles_no_controllers: 0,
            },
            coverage_fractions: TerrainCoverageFractionRecord {
                structurally_attributed_components: not_applicable,
                structurally_attributed_tiles: not_applicable,
                traversal_near_components: not_applicable,
                traversal_near_tiles: not_applicable,
                positively_corroborated_components: not_applicable,
                positively_corroborated_tiles: not_applicable,
            },
            aggregate_ablation_survival_fraction: MetricEvidenceRecord::Observed {
                value: ExactFractionRecord { numerator: 1, denominator: 2 },
            },
        },
    }
}

fn doors() -> Vec<String> {
    vec!["A".to_owned(), "B".to_owned()]
}

#[test]
fn consistent_room_aggregates_are_accepted() {
    assert_eq!(validate_metric_aggregates(&aggregates(), &[], &cells(), &cells(), &doors(), 2), Ok(()));
}

#[test]
fn room_aggregate_checks_run_in_order() {
    let mut a = aggregates();
    a.terrain.aggregate_ablation_survival_fraction =
        MetricEvidenceRecord::Observed { value: ExactFractionRecord { numerator: 3, denominator: 2 } };
    assert_eq!(
        validate_metric_aggregates(&a, &[], &cells(), &cells(), &doors(), 2),
        Err(invalid(ArtifactViolation::InvalidFraction { numerator: 3, denominator: 2 }))
    );
    a.directional_asymmetry.pop();
    assert_eq!(
        validate_metric_aggregates(&a, &[], &cells(), &cells(), &doors(), 2),
        Err(invalid(ArtifactViolation::AsymmetryRowCount { found: 3, expected: 4 }))
    );
    a.direct_controllers.directed_route_count = 1;
    assert_eq!(
        validate_metric_aggregates(&a, &[], &cells(), &cells(), &doors(), 2),
        Err(invalid(ArtifactViolation::DirectRouteDenominatorMismatch))
    );
    a.canonical_routes.positive_route_count = 1;
    assert_eq!(
        validate_metric_aggregates(&a, &[], &cells(), &cells(), &doors(), 2),
        Err(invalid(ArtifactViolation::CanonicalCountsDiffer))
    );
    a.landing_precision.source_landing_precision_versions.push(1);
    assert_eq!(
        validate_metric_aggregates(&a, &[], &cells(), &cells(), &doors(), 2),
        Err(invalid(ArtifactViolation::LandingMetricDiffers))
    );
}

#[test]
fn fraction_evidence_is_checked_only_when_observed() {
    let zero = ExactFractionRecord { numerator: 0, denominator: 0 };
    assert_eq!(
        validate_fraction_evidence(&MetricEvidenceRecord::Observed { value: zero }),
        Err(invalid(ArtifactViolation::InvalidFraction { numerator: 0, denominator: 0 }))
    );
    assert_eq!(
        validate_fraction_evidence(&MetricEvidenceRecord::Missing {
            reason: MissingMetricReasonRecord::NoPositiveTerrainController
        }),
        Ok(())
    );
}
