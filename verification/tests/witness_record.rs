use downwards_research::ability_promotion::EvaluationLoadout;
use downwards_research::actions::ActionSpanRecord;
use downwards_research::checks::{ArtifactViolation, CorpusAnalysisArtifactError};
use downwards_research::demand::{ControllerDemandRecord, coordinates_from_demand};
use downwards_research::witness_record::{
    ControllerWitnessRecord, SolverConfigRecord, SolverMacroRecord, controller_witness_id, validate_solver_config,
    validate_witness_record, witness_bindings,
};

fn invalid(v: ArtifactViolation) -> Result<(), CorpusAnalysisArtifactError> {
    Err(CorpusAnalysisArtifactError::Invalid(v))
}

fn span(ticks: usize, move_x: i8, jump: bool) -> ActionSpanRecord {
    ActionSpanRecord { ticks, move_x, move_y: 0, jump, dash: false }
}

fn solver() -> SolverConfigRecord {
    SolverConfigRecord {
        max_expanded_nodes: 1000,
        max_simulated_ticks: 5000,
        max_ticks_per_path: 120,
        beam_width: 8,
        position_quantum: 2,
        velocity_quantum: 3,
        probe_direct_routes: true,
        baseline_preview_max_expanded_nodes: 10,
        baseline_preview_max_simulated_ticks: 20,
        macros: vec![
            SolverMacroRecord { name: "run".to_owned(), actions: vec![span(4, 1, false)] },
            SolverMacroRecord { name: "hop".to_owned(), actions: vec![span(1, 1, true), span(3, 1, false)] },
        ],
    }
}

fn demand(ticks: usize) -> ControllerDemandRecord {
    ControllerDemandRecord {
        run_only: false,
        monotone_simple: true,
        ordinary_jump_events: 1,
        wall_jump_events: 1,
        dash_events: 2,
        jump_press_edges: 2,
        dash_press_edges: 2,
        horizontal_reversals: 0,
        vertical_input_changes: 0,
        dash_direction_changes: 0,
        vertical_decisions: 1,
        semantic_spans: 2,
        semantic_transitions: 1,
        duration_ticks: ticks,
    }
}

const PREIMAGE: &[u8] = b"{\"version\":1}";

fn witness() -> ControllerWitnessRecord {
    ControllerWitnessRecord {
        witness_id: controller_witness_id(PREIMAGE),
        room_id: "room".to_owned(),
        source_door_id: "A".to_owned(),
        target_door_id: "B".to_owned(),
        loadout: EvaluationLoadout::Both,
        initial_state_digest: "0123456789abcdef".to_owned(),
        terminal_state_digest: "fedcba9876543210".to_owned(),
        terminal_event_digest: Some("00000000000000ff".to_owned()),
        total_ticks: 30,
        demand: demand(30),
        coordinates: coordinates_from_demand(demand(30)),
        actions: vec![span(10, 1, false), span(1, 1, true), span(19, 0, false)],
    }
}

#[test]
fn witness_identity_is_the_prefixed_fnv_hash_of_the_preimage() {
    assert_eq!(controller_witness_id(b""), "downwards-controller-witness-v1-cbf29ce484222325");
    assert_eq!(controller_witness_id(b"a"), "downwards-controller-witness-v1-af63dc4c8601ec8c");
}

#[test]
fn coordinates_follow_the_demand() {
    let c = coordinates_from_demand(demand(30));
    assert_eq!(c.controller_class, 1);
    assert_eq!(c.ability_events, 3);
    assert_eq!(c.duration_ticks, 30);
}

#[test]
fn solver_config_structure() {
    assert_eq!(validate_solver_config(&solver()), Ok(()));
    let s = SolverConfigRecord { beam_width: 0, ..solver() };
    assert_eq!(validate_solver_config(&s), invalid(ArtifactViolation::SolverConfigInvalid));
    let s = SolverConfigRecord { velocity_quantum: -1, ..solver() };
    assert_eq!(validate_solver_config(&s), invalid(ArtifactViolation::SolverConfigInvalid));
    let s = SolverConfigRecord { macros: Vec::new(), ..solver() };
    assert_eq!(validate_solver_config(&s), invalid(ArtifactViolation::SolverConfigInvalid));
    let mut s = solver();
    s.macros[1].name.clear();
    assert_eq!(validate_solver_config(&s), invalid(ArtifactViolation::SolverMacroEmpty { index: 1 }));
    let mut s = solver();
    s.macros[1].actions = vec![span(1, 1, false), span(2, 1, false)];
    assert_eq!(validate_solver_config(&s), invalid(ArtifactViolation::UnmergedSpans { index: 1 }));
}

#[test]
fn consistent_witness_is_accepted() {
    assert_eq!(validate_witness_record(&witness(), &solver(), PREIMAGE), Ok(()));
    let w = ControllerWitnessRecord { terminal_event_digest: None, ..witness() };
    assert_eq!(validate_witness_record(&w, &solver(), PREIMAGE), Ok(()));
}

#[test]
fn witness_identity_and_digests() {
    assert_eq!(validate_witness_record(&witness(), &solver(), b"other"), invalid(ArtifactViolation::WitnessIdentity));
    let w = ControllerWitnessRecord { terminal_state_digest: "FEDCBA9876543210".to_owned(), ..witness() };
    assert_eq!(validate_witness_record(&w, &solver(), PREIMAGE), invalid(ArtifactViolation::NonCanonicalDigest));
    let w = ControllerWitnessRecord { terminal_event_digest: Some("ff".to_owned()), ..witness() };
    assert_eq!(validate_witness_record(&w, &solver(), PREIMAGE), invalid(ArtifactViolation::NonCanonicalDigest));
}

#[test]
fn witness_ticks_and_coordinates() {
    let w = ControllerWitnessRecord { total_ticks: 31, ..witness() };
    assert_eq!(validate_witness_record(&w, &solver(), PREIMAGE), invalid(ArtifactViolation::WitnessTicks));
    let s = SolverConfigRecord { max_ticks_per_path: 29, ..solver() };
    assert_eq!(validate_witness_record(&witness(), &s, PREIMAGE), invalid(ArtifactViolation::WitnessTicks));
    let w = ControllerWitnessRecord { actions: vec![span(0, 1, false)], ..witness() };
    assert_eq!(validate_witness_record(&w, &solver(), PREIMAGE), invalid(ArtifactViolation::ZeroTickSpan { index: 0 }));
    let mut w = witness();
    w.coordinates.semantic_spans = 3;
    assert_eq!(validate_witness_record(&w, &solver(), PREIMAGE), invalid(ArtifactViolation::WitnessCoordinates));
}

#[test]
fn bindings_copy_what_references_read() {
    let b = witness_bindings(&[witness()]);
    assert_eq!(b.len(), 1);
    assert_eq!(b[0].witness_id, witness().witness_id);
    assert_eq!(b[0].target_door_id, "B");
    assert_eq!(b[0].coordinates, witness().coordinates);
}
