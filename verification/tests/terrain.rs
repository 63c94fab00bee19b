use downwards_research::checks::{ArtifactViolation, CorpusAnalysisArtifactError, ExactFractionRecord};
use downwards_research::direct_aggregates::{
    MetricEvidenceRecord, MissingMetricReasonRecord, NotApplicableMetricReasonRecord,
};
use downwards_research::metric_aggregates::TerrainCoverageFractionRecord;
use downwards_research::terrain::{
    AbilitySetRecord, AblationOutcomeRecord, AblationSurvivalRecord, AblationUtilityRecord,
    PositiveTerrainCoverageRecord, RoomAblationKindRecord, TerrainMetricAggregateRecord,
    TerrainPositiveEvidenceRecord, validate_terrain,
};

const AUDIT: u32 = 4;

fn invalid(v: ArtifactViolation) -> Result<(), CorpusAnalysisArtifactError> {
    Err(CorpusAnalysisArtifactError::Invalid(v))
}

fn observed(numerator: usize, denominator: usize) -> MetricEvidenceRecord<ExactFractionRecord> {
    MetricEvidenceRecord::Observed { value: ExactFractionRecord { numerator, denominator } }
}

fn coverage() -> PositiveTerrainCoverageRecord {
    PositiveTerrainCoverageRecord {
        positive_controller_count: 3,
        interior_component_count: 4,
        interior_tile_count: 40,
        structurally_attributed_component_count: 2,
        structurally_attributed_tile_count: 10,
        traversal_near_component_count: 3,
        traversal_near_tile_count: 25,
        positively_corroborated_component_count: 1,
        positively_corroborated_tile_count: 6,
        uncorroborated_component_count: 3,
        uncorroborated_tile_count: 34,
    }
}

fn outcome(kind: RoomAblationKindRecord, controllers: usize, succeeded: usize) -> AblationOutcomeRecord {
    AblationOutcomeRecord {
        kind,
        controller_count: controllers,
        succeeded,
        died: controllers - succeeded,
        wrong_target: 0,
        diverged: 0,
    }
}

fn outcomes() -> Vec<AblationOutcomeRecord> {
    vec![
        outcome(RoomAblationKindRecord::InteriorTerrainComponent { component_index: 0, tile_count: 7 }, 3, 3),
        outcome(RoomAblationKindRecord::InteriorTerrainComponent { component_index: 1, tile_count: 5 }, 3, 1),
        outcome(RoomAblationKindRecord::StaticHazardComponent { component_index: 0, tile_count: 2 }, 0, 0),
        outcome(RoomAblationKindRecord::TimedHazard { hazard_index: 0 }, 3, 2),
    ]
}

fn evidence() -> TerrainPositiveEvidenceRecord {
    TerrainPositiveEvidenceRecord {
        audit_version: AUDIT,
        structural_descriptor_version: 1,
        room_ablation_version: 1,
        loadout: AbilitySetRecord { wall_jump: true, dash: true },
        positive_door_controller_count: 2,
        positive_pickup_controller_count: 1,
        coverage: coverage(),
        component_ablation_outcomes: outcomes(),
    }
}

fn survival(o: &AblationOutcomeRecord) -> MetricEvidenceRecord<ExactFractionRecord> {
    if o.controller_count == 0 {
        MetricEvidenceRecord::NotApplicable { reason: NotApplicableMetricReasonRecord::ExactControllersForAblation }
    } else {
        observed(o.succeeded, o.controller_count)
    }
}

fn metric() -> TerrainMetricAggregateRecord {
    TerrainMetricAggregateRecord {
        source_terrain_audit_version: AUDIT,
        coverage: coverage(),
        coverage_fractions: TerrainCoverageFractionRecord {
            structurally_attributed_components: observed(2, 4),
            structurally_attributed_tiles: observed(10, 40),
            traversal_near_components: observed(3, 4),
            traversal_near_tiles: observed(25, 40),
            positively_corroborated_components: observed(1, 4),
            positively_corroborated_tiles: observed(6, 40),
        },
        ablations: outcomes()
            .iter()
            .map(|o| AblationSurvivalRecord { kind: o.kind, outcomes: *o, survival_fraction: survival(o) })
            .collect(),
        ablation_utility: AblationUtilityRecord {
            variant_count: 4,
            all_stored_controllers_survived: 1,
            at_least_one_stored_controller_affected: 2,
            no_stored_controllers: 1,
            removed_tiles_all_survived: 7,
            removed_tiles_some_affected: 5,
            removed_tiles_no_controllers: 2,
        },
        aggregate_ablation_survival_fraction: observed(6, 9),
    }
}

#[test]
fn consistent_terrain_evidence_is_accepted() {
    assert_eq!(validate_terrain(&evidence(), &metric(), AUDIT), Ok(()));
}

#[test]
fn audit_identity_and_coverage_bounds() {
    assert_eq!(validate_terrain(&evidence(), &metric(), AUDIT + 1), invalid(ArtifactViolation::TerrainCoverageInvalid));
    let mut e = evidence();
    e.loadout.dash = false;
    assert_eq!(validate_terrain(&e, &metric(), AUDIT), invalid(ArtifactViolation::TerrainCoverageInvalid));
    let mut e = evidence();
    e.coverage.traversal_near_tile_count = 41;
    assert_eq!(validate_terrain(&e, &metric(), AUDIT), invalid(ArtifactViolation::TerrainCoverageInvalid));
    let mut e = evidence();
    e.positive_pickup_controller_count = 2;
    assert_eq!(validate_terrain(&e, &metric(), AUDIT), invalid(ArtifactViolation::TerrainCoverageInvalid));
}

#[test]
fn ablations_are_ordered_and_sum_to_their_controllers() {
    let mut e = evidence();
    e.component_ablation_outcomes.swap(0, 1);
    assert_eq!(validate_terrain(&e, &metric(), AUDIT), invalid(ArtifactViolation::TerrainAblationOrder));
    let mut e = evidence();
    e.component_ablation_outcomes.swap(2, 3);
    assert_eq!(validate_terrain(&e, &metric(), AUDIT), invalid(ArtifactViolation::TerrainAblationOrder));
    let mut e = evidence();
    e.component_ablation_outcomes[1].diverged = 1;
    assert_eq!(validate_terrain(&e, &metric(), AUDIT), invalid(ArtifactViolation::AblationOutcomeCounts));
}

#[test]
fn metric_must_repeat_the_evidence() {
    let mut m = metric();
    m.coverage.interior_tile_count = 41;
    assert_eq!(validate_terrain(&evidence(), &m, AUDIT), invalid(ArtifactViolation::TerrainMetricDiffers));
    let mut m = metric();
    m.ablations.pop();
    assert_eq!(validate_terrain(&evidence(), &m, AUDIT), invalid(ArtifactViolation::TerrainMetricDiffers));
    let mut m = metric();
    m.ablations[1].outcomes.succeeded = 2;
    assert_eq!(validate_terrain(&evidence(), &m, AUDIT), invalid(ArtifactViolation::TerrainAblationDiffers));
}

#[test]
fn survival_fractions_follow_the_outcomes() {
    let mut m = metric();
    m.ablations[3].survival_fraction = observed(3, 2);
    assert_eq!(
        validate_terrain(&evidence(), &m, AUDIT),
        invalid(ArtifactViolation::InvalidFraction { numerator: 3, denominator: 2 })
    );
    let mut m = metric();
    m.ablations[3].survival_fraction = observed(1, 3);
    assert_eq!(validate_terrain(&evidence(), &m, AUDIT), invalid(ArtifactViolation::AblationSurvivalDiffers));
    let mut m = metric();
    m.ablations[0].survival_fraction =
        MetricEvidenceRecord::NotApplicable { reason: NotApplicableMetricReasonRecord::ExactControllersForAblation };
    assert_eq!(validate_terrain(&evidence(), &m, AUDIT), invalid(ArtifactViolation::AblationSurvivalDiffers));
}

#[test]
fn utility_is_recomputed() {
    let mut m = metric();
    m.ablation_utility.removed_tiles_some_affected = 12;
    assert_eq!(validate_terrain(&evidence(), &m, AUDIT), invalid(ArtifactViolation::AblationUtilityDiffers));
    let mut m = metric();
    m.ablation_utility.no_stored_controllers = 0;
    assert_eq!(validate_terrain(&evidence(), &m, AUDIT), invalid(ArtifactViolation::AblationUtilityDiffers));
}

#[test]
fn coverage_fractions_follow_the_counts() {
    let mut m = metric();
    m.coverage_fractions.traversal_near_tiles = observed(24, 40);
    assert_eq!(validate_terrain(&evidence(), &m, AUDIT), invalid(ArtifactViolation::CoverageFractionDiffers));
    let mut m = metric();
    m.coverage_fractions.traversal_near_tiles =
        MetricEvidenceRecord::Missing { reason: MissingMetricReasonRecord::NoPositiveTerrainController };
    assert_eq!(validate_terrain(&evidence(), &m, AUDIT), invalid(ArtifactViolation::CoverageFractionDiffers));
}

#[test]
fn without_positive_controllers_traversal_fractions_are_missing() {
    let mut e = evidence();
    e.positive_door_controller_count = 0;
    e.positive_pickup_controller_count = 0;
    e.coverage.positive_controller_count = 0;
    let mut m = metric();
    m.coverage.positive_controller_count = 0;
    let missing = MetricEvidenceRecord::Missing { reason: MissingMetricReasonRecord::NoPositiveTerrainController };
    m.coverage_fractions.traversal_near_components = missing;
    m.coverage_fractions.traversal_near_tiles = missing;
    assert_eq!(validate_terrain(&e, &m, AUDIT), Ok(()));
}

#[test]
fn empty_interior_fractions_do_not_apply() {
    let empty = PositiveTerrainCoverageRecord {
        positive_controller_count: 3,
        interior_component_count: 0,
        interior_tile_count: 0,
        structurally_attributed_component_count: 0,
        structurally_attributed_tile_count: 0,
        traversal_near_component_count: 0,
        traversal_near_tile_count: 0,
        positively_corroborated_component_count: 0,
        positively_corroborated_tile_count: 0,
        uncorroborated_component_count: 0,
        uncorroborated_tile_count: 0,
    };
    let components =
        MetricEvidenceRecord::NotApplicable { reason: NotApplicableMetricReasonRecord::InteriorTerrainComponents };
    let tiles = MetricEvidenceRecord::NotApplicable { reason: NotApplicableMetricReasonRecord::InteriorTerrainTiles };
    let e = TerrainPositiveEvidenceRecord { coverage: empty, component_ablation_outcomes: Vec::new(), ..evidence() };
    let m = TerrainMetricAggregateRecord {
        coverage: empty,
        coverage_fractions: TerrainCoverageFractionRecord {
            structurally_attributed_components: components,
            structurally_attributed_tiles: tiles,
            traversal_near_components: components,
            traversal_near_tiles: tiles,
            positively_corroborated_components: components,
            positively_corroborated_tiles: tiles,
        },
        ablations: Vec::new(),
        ablation_utility: AblationUtilityRecord {
            variant_count: 0,
            all_stored_controllers_survived: 0,
            at_least_one_stored_controller_affected: 0,
            no_stored_controllers: 0,
            removed_tiles_all_survived: 0,
            removed_tiles_some_affected: 0,
            removed_tiles_no_controllers: 0,
        },
        aggregate_ablation_survival_fraction: MetricEvidenceRecord::NotApplicable {
            reason: NotApplicableMetricReasonRecord::AblationVariants,
        },
        ..metric()
    };
    assert_eq!(validate_terrain(&e, &m, AUDIT), Ok(()));
}

#[test]
fn aggregate_survival_sums_every_ablation() {
    let mut m = metric();
    m.aggregate_ablation_survival_fraction = observed(5, 9);
    assert_eq!(validate_terrain(&evidence(), &m, AUDIT), invalid(ArtifactViolation::AggregateSurvivalDiffers));
    let mut m = metric();
    m.aggregate_ablation_survival_fraction =
        MetricEvidenceRecord::NotApplicable { reason: NotApplicableMetricReasonRecord::AblationVariants };
    assert_eq!(validate_terrain(&evidence(), &m, AUDIT), invalid(ArtifactViolation::AggregateSurvivalDiffers));
}
