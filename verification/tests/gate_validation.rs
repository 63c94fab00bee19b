use downwards_research::ability_promotion::{
    AbilityContractViolation, AbilityPromotionClaimV2, AbilityPromotionDecisionV2,
    AbilityPromotionGateV2Error, DoorRouteRow, EvaluationLoadout, LoadoutControllerAudit,
    LoadoutControllerAuditStatus, LoadoutRouteMatrix, RouteControllerAssessment,
    RouteControllerAssessmentPolicy,
};
use downwards_research::analysis_config::{
    CorpusRoomAnalysisConfigError, CorpusRoomAnalysisConfigRecord, CurrentAnalysisPolicies,
    RouteEvaluationDifficultyConfigV2, RouteEvaluationSolverConfigV2, SolverMacroConfigV2,
};
use downwards_research::actions::Action;
use downwards_research::gate_validation::{
    evaluate_variant_ability_promotion_gate_v2, rerun_validate_variant_ability_promotion_gate_v2,
    retained_direct_audit, validate_variant_ability_promotion_gate_v2,
};
use downwards_research::promotion_gate::{
    AbilityContract, GateStep, GateVersions, IntendedReplay, ReplayObservation,
    VariantAbilityPromotionEvidenceV2, VariantAbilityPromotionGateV2, after_intended_replay,
    after_reverse_replay,
};

const POLICY: RouteControllerAssessmentPolicy = RouteControllerAssessmentPolicy {
    assessment_version: 1,
    direct_probe_audit_version: 1,
    semantic_trace_version: 1,
    controller_demand_version: 1,
};

const VERSIONS: GateVersions = GateVersions {
    edge_rewrite_version: 2,
    gate_embedding_contract_version: 3,
    generation_version: 4,
};

const KEY: &str = "compositional-ability-seed-7";

fn current() -> CurrentAnalysisPolicies {
    CurrentAnalysisPolicies { solver_policy_version: 1, route_controller_policy: POLICY }
}

fn config() -> CorpusRoomAnalysisConfigRecord {
    CorpusRoomAnalysisConfigRecord::from_config(
        RouteEvaluationSolverConfigV2 {
            max_expanded_nodes: 100,
            max_simulated_ticks: 200,
            max_ticks_per_path: 50,
            beam_width: 4,
            position_quantum: 1,
            velocity_quantum: 1,
            probe_direct_routes: true,
            baseline_preview_max_expanded_nodes: 10,
            baseline_preview_max_simulated_ticks: 20,
            macros: vec![SolverMacroConfigV2 {
                name: "run-right".to_owned(),
                actions: vec![Action { move_x: 1, move_y: 0, jump: false, dash: false, restart: false }],
            }],
        },
        RouteEvaluationDifficultyConfigV2 { perturbation_grace_ticks: 2 },
        current(),
    )
    .unwrap()
}

fn row(source: &str, target: &str, positive: bool) -> DoorRouteRow {
    DoorRouteRow { source_door_id: source.to_owned(), target_door_id: target.to_owned(), positive }
}

fn matrices() -> Vec<LoadoutRouteMatrix> {
    EvaluationLoadout::all()
        .into_iter()
        .map(|loadout| LoadoutRouteMatrix {
            loadout,
            door_routes: vec![
                row("A", "B", loadout == EvaluationLoadout::WallJump || loadout == EvaluationLoadout::Both),
                row("B", "A", true),
            ],
        })
        .collect()
}

fn assessment() -> RouteControllerAssessment {
    let all = EvaluationLoadout::all();
    RouteControllerAssessment {
        policy: POLICY,
        source_door_id: "A".to_owned(),
        target_door_id: "B".to_owned(),
        authoritative_loadout: EvaluationLoadout::Both,
        expected_subset_loadouts: all.clone(),
        audits: all
            .into_iter()
            .map(|loadout| LoadoutControllerAudit {
                loadout,
                status: LoadoutControllerAuditStatus::CompleteFiniteVocabulary,
                raw_positive_witnesses: 0,
                retained_semantic_witnesses: 0,
            })
            .collect(),
        easiest_first_witness_loadouts: Vec::new(),
    }
}

fn contract() -> AbilityContract {
    AbilityContract {
        claim: AbilityPromotionClaimV2::WallJump,
        source_door_id: "A".to_owned(),
        sink_door_id: "B".to_owned(),
    }
}

fn observed(exit: &str, wall_jump: bool) -> ReplayObservation {
    ReplayObservation {
        reached_exit_id: exit.to_owned(),
        wall_jump_event: wall_jump,
        dash_event: false,
        matches_retained_trace: true,
    }
}

fn promoted_gate() -> VariantAbilityPromotionGateV2 {
    let ms = matrices();
    let step = evaluate_variant_ability_promotion_gate_v2(
        KEY.to_owned(), &config(),
        current(),
        Some(contract()),
        true,
        EvaluationLoadout::WallJump,
        &ms,
        Some(assessment()),
        VERSIONS,
    );
    let GateStep::ReplayIntended { pending, replay } = step else {
        panic!("the intended route must be replayed")
    };
    assert_eq!(replay, IntendedReplay::CanonicalMatrix);
    let GateStep::ReplayReverse { pending } =
        after_intended_replay(pending, replay, Some(observed("B", true)), &ms)
    else {
        panic!("the baseline reverse route must be replayed")
    };
    after_reverse_replay(pending, Some(observed("A", false)), &ms).unwrap()
}

#[test]
fn evaluation_promotes_a_clean_alias_under_a_valid_config() {
    let gate = promoted_gate();
    assert_eq!(gate.decision, AbilityPromotionDecisionV2::PromotedStructuralNoKnownBypass);
    assert_eq!(retained_direct_audit(&gate), Some(assessment()));
}

#[test]
fn evaluation_rejects_an_invalid_audit_config_first() {
    let mut config = config();
    config.config_id = "other".to_owned();
    let step = evaluate_variant_ability_promotion_gate_v2(
        KEY.to_owned(), &config,
        current(),
        Some(contract()),
        true,
        EvaluationLoadout::WallJump,
        &matrices(),
        Some(assessment()),
        VERSIONS,
    );
    assert!(matches!(
        step,
        GateStep::Done(Err(AbilityPromotionGateV2Error::InvalidContract(
            AbilityContractViolation::InvalidAuditConfig(CorpusRoomAnalysisConfigError::ConfigIdMismatch { .. })
        )))
    ));
}

#[test]
fn evaluation_ignores_an_audit_for_an_ordinary_candidate() {
    let step = evaluate_variant_ability_promotion_gate_v2(
        KEY.to_owned(), &config(),
        current(),
        None,
        true,
        EvaluationLoadout::Baseline,
        &matrices(),
        Some(assessment()),
        VERSIONS,
    );
    let GateStep::Done(Ok(gate)) = step else {
        panic!("an ordinary candidate's gate is immediate")
    };
    assert_eq!(gate.evidence, VariantAbilityPromotionEvidenceV2::NotApplicable);
    assert_eq!(gate.decision, AbilityPromotionDecisionV2::NotApplicable);
    assert_eq!(retained_direct_audit(&gate), None);
}

#[test]
fn stored_gate_must_equal_the_derived_gate() {
    let gate = promoted_gate();
    assert_eq!(validate_variant_ability_promotion_gate_v2(&gate, Ok(gate.clone())), Ok(()));
    let mut altered = gate.clone();
    altered.decision = AbilityPromotionDecisionV2::BoundedBaselineReverse;
    assert_eq!(
        validate_variant_ability_promotion_gate_v2(&altered, Ok(gate.clone())),
        Err(AbilityPromotionGateV2Error::InvalidContract(AbilityContractViolation::StoredGateDiffers))
    );
    let mut altered = gate.clone();
    if let VariantAbilityPromotionEvidenceV2::Ability { direct_route_assessment: Some(a), .. } =
        &mut altered.evidence
    {
        a.audits[1].raw_positive_witnesses = 1;
    }
    assert_eq!(
        validate_variant_ability_promotion_gate_v2(&altered, Ok(gate.clone())),
        Err(AbilityPromotionGateV2Error::InvalidContract(AbilityContractViolation::StoredGateDiffers))
    );
    let error = AbilityPromotionGateV2Error::InvalidContract(AbilityContractViolation::MissingDirectAudit);
    assert_eq!(validate_variant_ability_promotion_gate_v2(&gate, Err(error.clone())), Err(error));
}

#[test]
fn rerun_mismatch_is_reported_as_a_rerun_difference() {
    let gate = promoted_gate();
    assert_eq!(rerun_validate_variant_ability_promotion_gate_v2(&gate, Ok(gate.clone())), Ok(()));
    let mut altered = gate.clone();
    altered.gate_version += 1;
    assert_eq!(
        rerun_validate_variant_ability_promotion_gate_v2(&altered, Ok(gate)),
        Err(AbilityPromotionGateV2Error::InvalidContract(AbilityContractViolation::RerunGateDiffers))
    );
}

#[test]
fn stored_gate_of_another_candidate_key_differs() {
    let gate = promoted_gate();
    assert_eq!(gate.key, KEY);
    let mut other = gate.clone();
    other.key = "compositional-ability-seed-8".to_owned();
    assert_eq!(
        validate_variant_ability_promotion_gate_v2(&other, Ok(gate.clone())),
        Err(AbilityPromotionGateV2Error::InvalidContract(AbilityContractViolation::StoredGateDiffers))
    );
    assert_eq!(
        rerun_validate_variant_ability_promotion_gate_v2(&other, Ok(gate)),
        Err(AbilityPromotionGateV2Error::InvalidContract(AbilityContractViolation::RerunGateDiffers))
    );
}
