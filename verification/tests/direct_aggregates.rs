use downwards_research::ability_promotion::{
    AbilityPromotionBudgetLimitV2, EvaluationLoadout, LoadoutControllerAuditStatus,
};
use downwards_research::ability_promotion::EvaluationLoadout::{Baseline, Both, Dash, WallJump};
use downwards_research::checks::{ArtifactViolation, CorpusAnalysisArtifactError, ExactFractionRecord};
use downwards_research::direct_aggregates::{
    AbilityBypassAggregateRecord, AbilityBypassLoadoutRecord, ControllerLoadoutCell,
    DirectControllerAggregateRecord, DirectControllerLoadoutAggregateRecord,
    EasiestControllerFractionRecord, MetricEvidenceRecord, MissingMetricReasonRecord,
    NotApplicableMetricReasonRecord, validate_direct_controller_aggregate,
    validate_direct_loadout_aggregate,
};
use downwards_research::metrics::{
    AggregateAuditCompletenessRecord, AuditCompletenessCountsRecord,
    ControllerDemandCoordinateSummaryRecord, IntegerCoordinateDistributionRecord,
};

const COMPLETE: LoadoutControllerAuditStatus = LoadoutControllerAuditStatus::CompleteFiniteVocabulary;
const BOUNDED: LoadoutControllerAuditStatus = LoadoutControllerAuditStatus::BoundedIncomplete {
    limit: AbilityPromotionBudgetLimitV2::ExpandedNodes,
};

fn invalid(v: ArtifactViolation) -> CorpusAnalysisArtifactError {
    CorpusAnalysisArtifactError::Invalid(v)
}

fn cell(loadout: EvaluationLoadout, status: LoadoutControllerAuditStatus, retained: usize) -> ControllerLoadoutCell {
    ControllerLoadoutCell { loadout, status, retained_semantic_witnesses: retained }
}

fn sources() -> Vec<Vec<ControllerLoadoutCell>> {
    let row = EvaluationLoadout::all().into_iter().map(|l| cell(l, COMPLETE, 0)).collect::<Vec<_>>();
    vec![row.clone(), row]
}

fn routes() -> Vec<Vec<ControllerLoadoutCell>> {
    vec![
        vec![cell(Baseline, COMPLETE, 0), cell(WallJump, COMPLETE, 1), cell(Dash, BOUNDED, 0), cell(Both, COMPLETE, 2)],
        vec![cell(Both, COMPLETE, 1), cell(Dash, COMPLETE, 0), cell(WallJump, COMPLETE, 1), cell(Baseline, COMPLETE, 1)],
    ]
}

fn counts(expected: usize, complete: usize, bounded: usize) -> AuditCompletenessCountsRecord {
    AuditCompletenessCountsRecord {
        expected,
        complete_finite_vocabulary: complete,
        bounded_incomplete: bounded,
        missing: 0,
        state: if expected == 0 {
            AggregateAuditCompletenessRecord::NotApplicableNoAuditsExpected
        } else if bounded > 0 {
            AggregateAuditCompletenessRecord::BoundedIncomplete
        } else {
            AggregateAuditCompletenessRecord::CompleteFiniteVocabulary
        },
    }
}

fn fraction(numerator: usize, denominator: usize) -> ExactFractionRecord {
    ExactFractionRecord { numerator, denominator }
}

fn distribution(minimum: usize, maximum: usize) -> IntegerCoordinateDistributionRecord {
    IntegerCoordinateDistributionRecord {
        sample_count: 2,
        minimum,
        median_lower: minimum,
        median_upper: maximum,
        maximum,
        spread: maximum - minimum,
    }
}

fn aggregate(
    loadout: EvaluationLoadout,
    route_complete: usize,
    known: usize,
    complete_none: usize,
    bounded_none: usize,
) -> DirectControllerLoadoutAggregateRecord {
    DirectControllerLoadoutAggregateRecord {
        loadout,
        source_audit_completeness: counts(2, 2, 0),
        route_audit_completeness: counts(2, route_complete, 2 - route_complete),
        known_positive_directed_routes: known,
        ambiguous_nondominated_front_directed_routes: 0,
        no_positive_in_complete_finite_vocabulary: complete_none,
        inconclusive_without_positive: bounded_none,
        missing_route_or_audit: 0,
        easiest_controller_fractions: MetricEvidenceRecord::NotApplicable {
            reason: NotApplicableMetricReasonRecord::SuccessfulRoutesForLoadout,
        },
        demand_coordinates: MetricEvidenceRecord::Missing {
            reason: MissingMetricReasonRecord::MissingDirectControllerAudit,
        },
    }
}

fn wall_jump() -> DirectControllerLoadoutAggregateRecord {
    let mut a = aggregate(EvaluationLoadout::WallJump, 2, 2, 0, 0);
    a.easiest_controller_fractions = MetricEvidenceRecord::Observed {
        value: EasiestControllerFractionRecord {
            successful_route_count: 2,
            run_only_class_fraction: fraction(1, 2),
            monotone_simple_class_fraction: fraction(1, 2),
            other_controller_class_fraction: fraction(0, 2),
            run_only_fraction: fraction(1, 2),
            monotone_simple_fraction: fraction(2, 2),
        },
    };
    let d = distribution(3, 9);
    a.demand_coordinates = MetricEvidenceRecord::Observed {
        value: ControllerDemandCoordinateSummaryRecord {
            controller_class: d,
            ability_events: d,
            horizontal_reversals: d,
            vertical_decisions: d,
            semantic_spans: d,
            semantic_transitions: d,
            duration_ticks: d,
        },
    };
    a
}

fn direct() -> DirectControllerAggregateRecord {
    DirectControllerAggregateRecord {
        directed_route_count: 2,
        by_loadout: vec![
            aggregate(EvaluationLoadout::Baseline, 2, 1, 1, 0),
            wall_jump(),
            aggregate(EvaluationLoadout::Dash, 1, 0, 1, 1),
            aggregate(EvaluationLoadout::Both, 2, 2, 0, 0),
        ],
        ability_bypasses: AbilityBypassAggregateRecord {
            directed_routes_with_any_bypass: 1,
            directed_routes_with_wall_jump_bypass: 0,
            directed_routes_with_dash_bypass: 1,
            directed_route_loadout_bypasses: 2,
            retained_semantic_bypass_witnesses: 2,
            by_successful_loadout: vec![
                AbilityBypassLoadoutRecord {
                    successful_loadout: EvaluationLoadout::WallJump,
                    directed_route_bypasses: 1,
                    retained_semantic_witnesses: 1,
                },
                AbilityBypassLoadoutRecord {
                    successful_loadout: EvaluationLoadout::Dash,
                    directed_route_bypasses: 1,
                    retained_semantic_witnesses: 1,
                },
            ],
        },
    }
}

#[test]
fn direct_aggregates_matching_their_cells_are_accepted() {
    assert_eq!(validate_direct_controller_aggregate(&direct(), &sources(), &routes(), 2, 2), Ok(()));
}

#[test]
fn aggregate_counts_must_match_the_retained_cells() {
    let mut changed = aggregate(EvaluationLoadout::Dash, 1, 0, 1, 1);
    changed.inconclusive_without_positive = 0;
    changed.no_positive_in_complete_finite_vocabulary = 2;
    assert_eq!(
        validate_direct_loadout_aggregate(&changed, &sources(), &routes(), 2, 2),
        Err(invalid(ArtifactViolation::DirectAggregateDiffers { loadout: EvaluationLoadout::Dash }))
    );
    assert_eq!(
        validate_direct_loadout_aggregate(&aggregate(EvaluationLoadout::Dash, 1, 0, 1, 1), &sources(), &routes(), 3, 2),
        Err(invalid(ArtifactViolation::AuditCountsMismatch))
    );
}

#[test]
fn ambiguous_fronts_must_be_explicit() {
    let mut ambiguous = aggregate(EvaluationLoadout::Both, 2, 2, 0, 0);
    ambiguous.ambiguous_nondominated_front_directed_routes = 1;
    assert_eq!(
        validate_direct_loadout_aggregate(&ambiguous, &sources(), &routes(), 2, 2),
        Err(invalid(ArtifactViolation::AmbiguousFrontNotPreserved))
    );
    let reason = NotApplicableMetricReasonRecord::AmbiguousNondominatedFront;
    ambiguous.easiest_controller_fractions = MetricEvidenceRecord::NotApplicable { reason };
    ambiguous.demand_coordinates = MetricEvidenceRecord::NotApplicable { reason };
    assert_eq!(validate_direct_loadout_aggregate(&ambiguous, &sources(), &routes(), 2, 2), Ok(()));
}

#[test]
fn observed_fractions_and_coordinates_are_checked() {
    let mut a = wall_jump();
    if let MetricEvidenceRecord::Observed { value } = &mut a.easiest_controller_fractions {
        value.run_only_fraction = fraction(1, 3);
    }
    assert_eq!(
        validate_direct_loadout_aggregate(&a, &sources(), &routes(), 2, 2),
        Err(invalid(ArtifactViolation::FractionDenominatorMismatch))
    );
    let mut a = wall_jump();
    if let MetricEvidenceRecord::Observed { value } = &mut a.easiest_controller_fractions {
        value.other_controller_class_fraction = fraction(3, 2);
    }
    assert_eq!(
        validate_direct_loadout_aggregate(&a, &sources(), &routes(), 2, 2),
        Err(invalid(ArtifactViolation::InvalidFraction { numerator: 3, denominator: 2 }))
    );
    let mut a = wall_jump();
    if let MetricEvidenceRecord::Observed { value } = &mut a.easiest_controller_fractions {
        value.successful_route_count = 1;
    }
    assert_eq!(
        validate_direct_loadout_aggregate(&a, &sources(), &routes(), 2, 2),
        Err(invalid(ArtifactViolation::FractionSampleCountMismatch))
    );
    let mut a = wall_jump();
    if let MetricEvidenceRecord::Observed { value } = &mut a.demand_coordinates {
        value.duration_ticks.sample_count = 3;
    }
    assert_eq!(
        validate_direct_loadout_aggregate(&a, &sources(), &routes(), 2, 2),
        Err(invalid(ArtifactViolation::CoordinateDistributionInconsistent))
    );
}

#[test]
fn room_level_direct_checks_come_in_order() {
    let mut d = direct();
    d.directed_route_count = 3;
    assert_eq!(
        validate_direct_controller_aggregate(&d, &sources(), &routes(), 2, 2),
        Err(invalid(ArtifactViolation::DirectRouteDenominatorMismatch))
    );
    let mut d = direct();
    d.by_loadout.swap(0, 1);
    assert_eq!(
        validate_direct_controller_aggregate(&d, &sources(), &routes(), 2, 2),
        Err(invalid(ArtifactViolation::LoadoutOrder))
    );
    let mut d = direct();
    d.ability_bypasses.directed_routes_with_dash_bypass = 3;
    assert_eq!(
        validate_direct_controller_aggregate(&d, &sources(), &routes(), 2, 2),
        Err(invalid(ArtifactViolation::BypassExceedsDenominator))
    );
    let mut d = direct();
    d.ability_bypasses.by_successful_loadout.reverse();
    assert_eq!(
        validate_direct_controller_aggregate(&d, &sources(), &routes(), 2, 2),
        Err(invalid(ArtifactViolation::BypassLoadoutOrder))
    );
    let mut d = direct();
    d.by_loadout[3].known_positive_directed_routes = 1;
    assert_eq!(
        validate_direct_controller_aggregate(&d, &sources(), &routes(), 2, 2),
        Err(invalid(ArtifactViolation::DirectAggregateDiffers { loadout: EvaluationLoadout::Both }))
    );
}
