use downwards_research::ability_promotion::EvaluationLoadout;
use downwards_research::asymmetry_rows::{
    DirectionalAsymmetryRecord, EasiestKnownControllerRecord, validate_asymmetry_rows,
};
use downwards_research::checks::{ArtifactViolation, CorpusAnalysisArtifactError};
use downwards_research::demand::{ControllerDemandRecord, coordinates_from_demand};
use downwards_research::direct_aggregates::{MetricEvidenceRecord, MissingMetricReasonRecord};
use downwards_research::metrics::{
    AbilityUseRecord, DirectionalAbilityUseComparisonRecord, DirectionalAsymmetryValuesRecord,
    DirectionalCountDifferenceRecord, LargerDirectionRecord,
};

fn invalid(v: ArtifactViolation) -> CorpusAnalysisArtifactError {
    CorpusAnalysisArtifactError::Invalid(v)
}

fn doors() -> Vec<String> {
    vec!["door-a".to_owned(), "door-b".to_owned(), "door-c".to_owned()]
}

fn demand(duration_ticks: usize) -> ControllerDemandRecord {
    ControllerDemandRecord {
        run_only: false,
        monotone_simple: true,
        ordinary_jump_events: 1,
        wall_jump_events: 0,
        dash_events: 0,
        jump_press_edges: 1,
        dash_press_edges: 0,
        horizontal_reversals: 0,
        vertical_input_changes: 1,
        dash_direction_changes: 0,
        vertical_decisions: 1,
        semantic_spans: 2,
        semantic_transitions: 1,
        duration_ticks,
    }
}

fn easiest(duration_ticks: usize) -> MetricEvidenceRecord<EasiestKnownControllerRecord> {
    let demand = demand(duration_ticks);
    MetricEvidenceRecord::Observed {
        value: EasiestKnownControllerRecord {
            successful_loadout: EvaluationLoadout::Baseline,
            demand,
            coordinates: coordinates_from_demand(demand),
        },
    }
}

fn same(value: usize) -> DirectionalCountDifferenceRecord {
    DirectionalCountDifferenceRecord {
        a_to_b: value,
        b_to_a: value,
        absolute_difference: 0,
        larger_direction: LargerDirectionRecord::Equal,
    }
}

fn comparison() -> DirectionalAsymmetryValuesRecord {
    let unused = AbilityUseRecord { wall_jump_events: 0, dash_events: 0 };
    DirectionalAsymmetryValuesRecord {
        duration_ticks: DirectionalCountDifferenceRecord {
            a_to_b: 40,
            b_to_a: 55,
            absolute_difference: 15,
            larger_direction: LargerDirectionRecord::BToA,
        },
        semantic_spans: same(2),
        semantic_transitions: same(1),
        ability_events: same(0),
        ability_use: DirectionalAbilityUseComparisonRecord {
            a_to_b: unused,
            b_to_a: unused,
            wall_jump_use_differs: false,
            dash_use_differs: false,
        },
    }
}

fn rows() -> Vec<DirectionalAsymmetryRecord> {
    let reason = MissingMetricReasonRecord::ReverseDirectionsRequireTwoKnownPositiveControllers;
    let pairs = [("door-a", "door-b"), ("door-a", "door-c"), ("door-b", "door-c")];
    let mut rows = Vec::new();
    for (a, b) in pairs {
        for loadout in EvaluationLoadout::all() {
            rows.push(DirectionalAsymmetryRecord {
                door_a: a.to_owned(),
                door_b: b.to_owned(),
                loadout,
                a_to_b: MetricEvidenceRecord::Missing { reason },
                b_to_a: MetricEvidenceRecord::Missing { reason },
                comparison: MetricEvidenceRecord::Missing { reason },
            });
        }
    }
    rows[0].a_to_b = easiest(40);
    rows[0].b_to_a = easiest(55);
    rows[0].comparison = MetricEvidenceRecord::Observed { value: comparison() };
    rows
}

#[test]
fn one_row_per_door_pair_and_loadout_in_order() {
    assert_eq!(validate_asymmetry_rows(&rows(), &doors()), Ok(()));
    let mut short = rows();
    short.pop();
    assert_eq!(
        validate_asymmetry_rows(&short, &doors()),
        Err(invalid(ArtifactViolation::AsymmetryRowCount { found: 11, expected: 12 }))
    );
    assert_eq!(validate_asymmetry_rows(&[], &["only".to_owned()]), Ok(()));
}

#[test]
fn rows_out_of_order_or_repeated_are_rejected() {
    let mut swapped = rows();
    swapped.swap(3, 4);
    assert_eq!(
        validate_asymmetry_rows(&swapped, &doors()),
        Err(invalid(ArtifactViolation::AsymmetryRowOrder))
    );
    let mut repeated = rows();
    repeated[5] = repeated[4].clone();
    assert_eq!(
        validate_asymmetry_rows(&repeated, &doors()),
        Err(invalid(ArtifactViolation::AsymmetryRowOrder))
    );
}

#[test]
fn rows_must_name_the_rooms_doors_in_order() {
    let mut unknown = rows();
    for row in unknown.iter_mut().skip(8) {
        row.door_b = "door-d".to_owned();
    }
    assert_eq!(
        validate_asymmetry_rows(&unknown, &doors()),
        Err(invalid(ArtifactViolation::AsymmetryDoorIdentity))
    );
}

#[test]
fn easiest_coordinates_and_comparisons_are_checked() {
    let mut wrong = rows();
    if let MetricEvidenceRecord::Observed { value } = &mut wrong[0].b_to_a {
        value.coordinates.duration_ticks = 1;
    }
    assert_eq!(
        validate_asymmetry_rows(&wrong, &doors()),
        Err(invalid(ArtifactViolation::EasiestCoordinatesDiffer))
    );
    let mut wrong = rows();
    if let MetricEvidenceRecord::Observed { value } = &mut wrong[0].comparison {
        value.duration_ticks.larger_direction = LargerDirectionRecord::AToB;
    }
    assert_eq!(
        validate_asymmetry_rows(&wrong, &doors()),
        Err(invalid(ArtifactViolation::AsymmetryDifferenceInconsistent))
    );
}
