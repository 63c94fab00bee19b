use downwards_research::ability_promotion::EvaluationLoadout;
use downwards_research::checks::{ArtifactViolation, CorpusAnalysisArtifactError};
use downwards_research::demand::ControllerDemandCoordinatesRecord;
use downwards_research::witness_refs::{ReferencingRoute, WitnessBindingRecord, validate_witness_refs};

fn invalid(v: ArtifactViolation) -> Result<(), CorpusAnalysisArtifactError> {
    Err(CorpusAnalysisArtifactError::Invalid(v))
}

fn coords(ability_events: usize, duration_ticks: usize) -> ControllerDemandCoordinatesRecord {
    ControllerDemandCoordinatesRecord {
        controller_class: 1,
        ability_events,
        horizontal_reversals: 0,
        vertical_decisions: 0,
        semantic_spans: 1,
        semantic_transitions: 0,
        duration_ticks,
    }
}

fn witness(id: &str, loadout: EvaluationLoadout, c: ControllerDemandCoordinatesRecord) -> WitnessBindingRecord {
    WitnessBindingRecord {
        witness_id: id.to_owned(),
        room_id: "room".to_owned(),
        source_door_id: "A".to_owned(),
        target_door_id: "B".to_owned(),
        loadout,
        coordinates: c,
    }
}

fn route(loadout: Option<EvaluationLoadout>) -> ReferencingRoute {
    ReferencingRoute {
        room_id: "room".to_owned(),
        source_door_id: "A".to_owned(),
        target_door_id: "B".to_owned(),
        loadout,
    }
}

fn ids(v: &[&str]) -> Vec<String> {
    v.iter().map(|s| (*s).to_owned()).collect()
}

fn witnesses() -> Vec<WitnessBindingRecord> {
    vec![
        witness("w1", EvaluationLoadout::Dash, coords(0, 50)),
        witness("w2", EvaluationLoadout::Dash, coords(2, 20)),
        witness("w3", EvaluationLoadout::WallJump, coords(1, 10)),
        witness("w4", EvaluationLoadout::Dash, coords(3, 60)),
    ]
}

#[test]
fn accepts_an_incomparable_front_led_by_the_easiest() {
    let ws = witnesses();
    let r = validate_witness_refs(&route(Some(EvaluationLoadout::Dash)), &Some("w1".to_owned()), &ids(&["w1", "w2"]), &ws);
    assert_eq!(r, Ok(()));
}

#[test]
fn accepts_no_references_at_all() {
    let r = validate_witness_refs(&route(None), &None, &Vec::new(), &witnesses());
    assert_eq!(r, Ok(()));
}

#[test]
fn overall_references_need_no_loadout_match() {
    let ws = witnesses();
    let r = validate_witness_refs(&route(None), &Some("w3".to_owned()), &ids(&["w3", "w1"]), &ws);
    assert_eq!(r, Ok(()));
}

#[test]
fn easiest_without_front_is_refused() {
    let r = validate_witness_refs(&route(None), &Some("w1".to_owned()), &Vec::new(), &witnesses());
    assert_eq!(r, invalid(ArtifactViolation::EasiestParetoAvailability));
    let r = validate_witness_refs(&route(None), &None, &ids(&["w1"]), &witnesses());
    assert_eq!(r, invalid(ArtifactViolation::EasiestParetoAvailability));
}

#[test]
fn easiest_must_lead_the_front() {
    let r = validate_witness_refs(&route(None), &Some("w1".to_owned()), &ids(&["w2", "w1"]), &witnesses());
    assert_eq!(r, invalid(ArtifactViolation::EasiestNotFirstOnFront));
}

#[test]
fn repeated_front_member_is_refused() {
    let r = validate_witness_refs(&route(None), &Some("w1".to_owned()), &ids(&["w1", "w2", "w1"]), &witnesses());
    assert_eq!(r, invalid(ArtifactViolation::ParetoWitnessRepeated));
}

#[test]
fn absent_witness_is_refused() {
    let r = validate_witness_refs(&route(None), &Some("w1".to_owned()), &ids(&["w1", "w9"]), &witnesses());
    assert_eq!(r, invalid(ArtifactViolation::AbsentWitness));
}

#[test]
fn witness_of_another_loadout_is_refused() {
    let r = validate_witness_refs(
        &route(Some(EvaluationLoadout::Dash)),
        &Some("w1".to_owned()),
        &ids(&["w1", "w3"]),
        &witnesses(),
    );
    assert_eq!(r, invalid(ArtifactViolation::WitnessBinding));
}

#[test]
fn witness_of_another_route_is_refused() {
    let mut ws = witnesses();
    ws[1].target_door_id = "C".to_owned();
    let r = validate_witness_refs(&route(None), &Some("w1".to_owned()), &ids(&["w1", "w2"]), &ws);
    assert_eq!(r, invalid(ArtifactViolation::WitnessBinding));
}

#[test]
fn dominated_front_member_is_refused() {
    let r = validate_witness_refs(&route(None), &Some("w1".to_owned()), &ids(&["w1", "w4"]), &witnesses());
    assert_eq!(r, invalid(ArtifactViolation::ParetoWitnessesDominate));
}

#[test]
fn binding_is_checked_before_dominance() {
    let r = validate_witness_refs(
        &route(Some(EvaluationLoadout::Dash)),
        &Some("w1".to_owned()),
        &ids(&["w1", "w4", "w3"]),
        &witnesses(),
    );
    assert_eq!(r, invalid(ArtifactViolation::WitnessBinding));
}

