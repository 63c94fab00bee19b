use downwards_research::checks::{ArtifactViolation, CorpusAnalysisArtifactError};
use downwards_research::metrics::{
    AbilityUseRecord, AggregateAuditCompletenessRecord, AuditCompletenessCountsRecord,
    ControllerDemandCoordinateSummaryRecord, DirectionalAbilityUseComparisonRecord,
    DirectionalAsymmetryValuesRecord, DirectionalCountDifferenceRecord,
    IntegerCoordinateDistributionRecord, LargerDirectionRecord,
    SignedIntegerCoordinateDistributionRecord, signed_distribution_record,
    unsigned_distribution_record, validate_asymmetry_values, validate_audit_counts,
    validate_coordinate_summary,
};

fn invalid(v: ArtifactViolation) -> CorpusAnalysisArtifactError {
    CorpusAnalysisArtifactError::Invalid(v)
}

#[test]
fn unsigned_distribution_reads_sorted_order_statistics() {
    assert_eq!(
        unsigned_distribution_record(vec![9, 1, 4, 7]),
        IntegerCoordinateDistributionRecord {
            sample_count: 4,
            minimum: 1,
            median_lower: 4,
            median_upper: 7,
            maximum: 9,
            spread: 8,
        }
    );
    assert_eq!(
        unsigned_distribution_record(vec![5]),
        IntegerCoordinateDistributionRecord {
            sample_count: 1,
            minimum: 5,
            median_lower: 5,
            median_upper: 5,
            maximum: 5,
            spread: 0,
        }
    );
    assert_eq!(
        unsigned_distribution_record(vec![3, 3, 1, 8, 2]),
        IntegerCoordinateDistributionRecord {
            sample_count: 5,
            minimum: 1,
            median_lower: 3,
            median_upper: 3,
            maximum: 8,
            spread: 7,
        }
    );
}

#[test]
fn signed_distribution_spread_spans_the_whole_range() {
    assert_eq!(
        signed_distribution_record(vec![3, -4, 0]),
        SignedIntegerCoordinateDistributionRecord {
            sample_count: 3,
            minimum: -4,
            median_lower: 0,
            median_upper: 0,
            maximum: 3,
            spread: 7,
        }
    );
    assert_eq!(
        signed_distribution_record(vec![i32::MAX, i32::MIN]),
        SignedIntegerCoordinateDistributionRecord {
            sample_count: 2,
            minimum: i32::MIN,
            median_lower: i32::MIN,
            median_upper: i32::MAX,
            maximum: i32::MAX,
            spread: u32::MAX,
        }
    );
}

fn summary_of(d: IntegerCoordinateDistributionRecord) -> ControllerDemandCoordinateSummaryRecord {
    ControllerDemandCoordinateSummaryRecord {
        controller_class: d,
        ability_events: d,
        horizontal_reversals: d,
        vertical_decisions: d,
        semantic_spans: d,
        semantic_transitions: d,
        duration_ticks: d,
    }
}

#[test]
fn recorded_distributions_pass_the_summary_check() {
    let d = unsigned_distribution_record(vec![2, 11, 6]);
    assert_eq!(validate_coordinate_summary(&summary_of(d), 3), Ok(()));
    assert_eq!(
        validate_coordinate_summary(&summary_of(d), 4),
        Err(invalid(ArtifactViolation::CoordinateDistributionInconsistent))
    );
    let mut summary = summary_of(d);
    summary.duration_ticks.spread = 8;
    assert_eq!(
        validate_coordinate_summary(&summary, 3),
        Err(invalid(ArtifactViolation::CoordinateDistributionInconsistent))
    );
    let mut summary = summary_of(d);
    summary.semantic_spans.median_lower = 12;
    assert_eq!(
        validate_coordinate_summary(&summary, 3),
        Err(invalid(ArtifactViolation::CoordinateDistributionInconsistent))
    );
}

fn counts(
    expected: usize,
    complete: usize,
    bounded: usize,
    missing: usize,
    state: AggregateAuditCompletenessRecord,
) -> AuditCompletenessCountsRecord {
    AuditCompletenessCountsRecord {
        expected,
        complete_finite_vocabulary: complete,
        bounded_incomplete: bounded,
        missing,
        state,
    }
}

#[test]
fn audit_counts_state_follows_missing_then_bounded() {
    assert_eq!(validate_audit_counts(counts(0, 0, 0, 0, AggregateAuditCompletenessRecord::NotApplicableNoAuditsExpected), 0), Ok(()));
    assert_eq!(validate_audit_counts(counts(3, 3, 0, 0, AggregateAuditCompletenessRecord::CompleteFiniteVocabulary), 3), Ok(()));
    assert_eq!(validate_audit_counts(counts(3, 1, 2, 0, AggregateAuditCompletenessRecord::BoundedIncomplete), 3), Ok(()));
    assert_eq!(validate_audit_counts(counts(3, 0, 2, 1, AggregateAuditCompletenessRecord::Missing), 3), Ok(()));
    assert_eq!(
        validate_audit_counts(counts(3, 0, 2, 1, AggregateAuditCompletenessRecord::BoundedIncomplete), 3),
        Err(invalid(ArtifactViolation::AuditStateMismatch))
    );
    assert_eq!(
        validate_audit_counts(counts(3, 1, 1, 0, AggregateAuditCompletenessRecord::BoundedIncomplete), 3),
        Err(invalid(ArtifactViolation::AuditCountsMismatch))
    );
    assert_eq!(
        validate_audit_counts(counts(2, 1, 1, 0, AggregateAuditCompletenessRecord::BoundedIncomplete), 3),
        Err(invalid(ArtifactViolation::AuditCountsMismatch))
    );
    assert_eq!(
        validate_audit_counts(counts(usize::MAX, usize::MAX, 1, 0, AggregateAuditCompletenessRecord::BoundedIncomplete), usize::MAX),
        Ok(())
    );
}

fn difference(a_to_b: usize, b_to_a: usize, absolute: usize, larger: LargerDirectionRecord) -> DirectionalCountDifferenceRecord {
    DirectionalCountDifferenceRecord {
        a_to_b,
        b_to_a,
        absolute_difference: absolute,
        larger_direction: larger,
    }
}

fn asymmetry(
    d: DirectionalCountDifferenceRecord,
    a_to_b: AbilityUseRecord,
    b_to_a: AbilityUseRecord,
    wall_jump_use_differs: bool,
    dash_use_differs: bool,
) -> DirectionalAsymmetryValuesRecord {
    DirectionalAsymmetryValuesRecord {
        duration_ticks: d,
        semantic_spans: difference(4, 4, 0, LargerDirectionRecord::Equal),
        semantic_transitions: difference(1, 6, 5, LargerDirectionRecord::BToA),
        ability_events: difference(2, 0, 2, LargerDirectionRecord::AToB),
        ability_use: DirectionalAbilityUseComparisonRecord {
            a_to_b,
            b_to_a,
            wall_jump_use_differs,
            dash_use_differs,
        },
    }
}

#[test]
fn asymmetry_differences_and_flags_must_follow_from_counts() {
    let used = AbilityUseRecord { wall_jump_events: 2, dash_events: 0 };
    let unused = AbilityUseRecord { wall_jump_events: 0, dash_events: 0 };
    let good = difference(10, 3, 7, LargerDirectionRecord::AToB);
    assert_eq!(validate_asymmetry_values(&asymmetry(good, used, unused, true, false)), Ok(()));
    assert_eq!(
        validate_asymmetry_values(&asymmetry(difference(10, 3, 7, LargerDirectionRecord::BToA), used, unused, true, false)),
        Err(invalid(ArtifactViolation::AsymmetryDifferenceInconsistent))
    );
    assert_eq!(
        validate_asymmetry_values(&asymmetry(difference(10, 3, 13, LargerDirectionRecord::AToB), used, unused, true, false)),
        Err(invalid(ArtifactViolation::AsymmetryDifferenceInconsistent))
    );
    assert_eq!(
        validate_asymmetry_values(&asymmetry(good, used, unused, false, false)),
        Err(invalid(ArtifactViolation::AsymmetryAbilityUseInconsistent))
    );
    assert_eq!(
        validate_asymmetry_values(&asymmetry(good, used, used, false, false)),
        Ok(())
    );
}
