use downwards_research::ability_promotion::RouteControllerAssessmentPolicy;
use downwards_research::actions::Action;
use downwards_research::analysis_config::{
    CorpusRoomAnalysisConfigError, CorpusRoomAnalysisConfigRecord, CurrentAnalysisPolicies,
    RouteEvaluationDifficultyConfigV2, RouteEvaluationSolverConfigV2, SolverMacroConfigV2,
};

fn action(move_x: i8, move_y: i8, jump: bool, dash: bool) -> Action {
    Action { move_x, move_y, jump, dash, restart: false }
}

fn solver() -> RouteEvaluationSolverConfigV2 {
    RouteEvaluationSolverConfigV2 {
        max_expanded_nodes: 1000,
        max_simulated_ticks: 2000,
        max_ticks_per_path: 300,
        beam_width: 8,
        position_quantum: 2,
        velocity_quantum: 3,
        probe_direct_routes: true,
        baseline_preview_max_expanded_nodes: 50,
        baseline_preview_max_simulated_ticks: 60,
        macros: vec![
            SolverMacroConfigV2 {
                name: "run-right".to_owned(),
                actions: vec![action(1, 0, false, false), action(1, 0, true, false)],
            },
            SolverMacroConfigV2 {
                name: "dash".to_owned(),
                actions: vec![action(-1, 1, false, true)],
            },
        ],
    }
}

fn policies() -> CurrentAnalysisPolicies {
    CurrentAnalysisPolicies {
        solver_policy_version: 7,
        route_controller_policy: RouteControllerAssessmentPolicy {
            assessment_version: 3,
            direct_probe_audit_version: 4,
            semantic_trace_version: 5,
            controller_demand_version: 6,
        },
    }
}

fn record() -> CorpusRoomAnalysisConfigRecord {
    CorpusRoomAnalysisConfigRecord::from_config(
        solver(),
        RouteEvaluationDifficultyConfigV2 { perturbation_grace_ticks: 4 },
        policies(),
    )
    .unwrap()
}

#[test]
fn config_id_is_the_fnv_identity_of_every_input() {
    let record = record();
    assert_eq!(
        record.config_id,
        "downwards-corpus-room-analysis-config-v1-2467ab1dba3520c0"
    );
    assert_eq!(record.recomputed_config_id(), record.config_id);
    assert_eq!(record.validate(policies()), Ok(()));
}

#[test]
fn any_identity_input_change_is_detected() {
    let mut record = record();
    record.canonical_witness_difficulty.perturbation_grace_ticks = 5;
    assert!(matches!(
        record.validate(policies()),
        Err(CorpusRoomAnalysisConfigError::ConfigIdMismatch { .. })
    ));
}

#[test]
fn version_and_policy_checks_come_first() {
    let mut record = record();
    record.config_id_version = 2;
    assert_eq!(
        record.validate(policies()),
        Err(CorpusRoomAnalysisConfigError::UnsupportedConfigIdVersion { expected: 1, actual: 2 })
    );
    let mut record = self::record();
    record.analysis_policy_version = 1;
    assert_eq!(
        record.validate(policies()),
        Err(CorpusRoomAnalysisConfigError::UnsupportedAnalysisPolicyVersion { expected: 2, actual: 1 })
    );
    let mut current = policies();
    current.solver_policy_version = 8;
    assert_eq!(
        self::record().validate(current),
        Err(CorpusRoomAnalysisConfigError::UnsupportedSolverPolicyVersion { expected: 8, actual: 7 })
    );
    let mut current = policies();
    current.route_controller_policy.semantic_trace_version = 9;
    assert_eq!(
        self::record().validate(current),
        Err(CorpusRoomAnalysisConfigError::UnsupportedRouteControllerPolicy)
    );
}

#[test]
fn structurally_invalid_solvers_and_macros_are_rejected() {
    let difficulty = RouteEvaluationDifficultyConfigV2 { perturbation_grace_ticks: 4 };
    let mut zero_beam = solver();
    zero_beam.beam_width = 0;
    assert_eq!(
        CorpusRoomAnalysisConfigRecord::from_config(zero_beam, difficulty, policies()),
        Err(CorpusRoomAnalysisConfigError::InvalidSolverConfig)
    );
    let mut empty_macro = solver();
    empty_macro.macros[1].actions.clear();
    assert_eq!(
        CorpusRoomAnalysisConfigRecord::from_config(empty_macro, difficulty, policies()),
        Err(CorpusRoomAnalysisConfigError::InvalidMacro { macro_index: 1 })
    );
    let mut restart = solver();
    restart.macros[0].actions[1].restart = true;
    assert_eq!(
        CorpusRoomAnalysisConfigRecord::from_config(restart, difficulty, policies()),
        Err(CorpusRoomAnalysisConfigError::RestartAction { macro_index: 0 })
    );
}
