use downwards_research::ability_promotion::{
    AbilityContractViolation, AbilityPromotionClaimV2, AbilityPromotionDecisionV2,
    AbilityPromotionGateV2Error, AbilityPromotionIntendedEvidenceSourceV2,
    AbilityPromotionIntendedStateV2, AbilityPromotionMatrixStateV2, DoorRouteRow,
    EvaluationLoadout, LoadoutControllerAudit, LoadoutControllerAuditStatus, LoadoutRouteMatrix,
    RouteControllerAssessment, RouteControllerAssessmentPolicy,
};
use downwards_research::promotion_gate::{
    AbilityContract, GateStep, GateVersions, IntendedReplay, ReplayObservation,
    VariantAbilityPromotionEvidenceV2, after_intended_replay, after_reverse_replay,
    begin_promotion_gate,
};

const POLICY: RouteControllerAssessmentPolicy = RouteControllerAssessmentPolicy {
    assessment_version: 1,
    direct_probe_audit_version: 1,
    semantic_trace_version: 1,
    controller_demand_version: 1,
};

const VERSIONS: GateVersions = GateVersions {
    edge_rewrite_version: 2,
    gate_embedding_contract_version: 3,
    generation_version: 4,
};

const KEY: &str = "compositional-ability-seed-7";

fn row(source: &str, target: &str, positive: bool) -> DoorRouteRow {
    DoorRouteRow { source_door_id: source.to_owned(), target_door_id: target.to_owned(), positive }
}

fn matrices(dash_bypass: bool) -> Vec<LoadoutRouteMatrix> {
    vec![
        LoadoutRouteMatrix {
            loadout: EvaluationLoadout::Baseline,
            door_routes: vec![row("A", "B", false), row("B", "A", true)],
        },
        LoadoutRouteMatrix {
            loadout: EvaluationLoadout::WallJump,
            door_routes: vec![row("A", "B", true), row("B", "A", true)],
        },
        LoadoutRouteMatrix {
            loadout: EvaluationLoadout::Dash,
            door_routes: vec![row("A", "B", dash_bypass), row("B", "A", true)],
        },
        LoadoutRouteMatrix {
            loadout: EvaluationLoadout::Both,
            door_routes: vec![row("A", "B", true), row("B", "A", true)],
        },
    ]
}

fn assessment() -> RouteControllerAssessment {
    let all = EvaluationLoadout::all();
    RouteControllerAssessment {
        policy: POLICY,
        source_door_id: "A".to_owned(),
        target_door_id: "B".to_owned(),
        authoritative_loadout: EvaluationLoadout::Both,
        expected_subset_loadouts: all.clone(),
        audits: all
            .into_iter()
            .map(|loadout| LoadoutControllerAudit {
                loadout,
                status: LoadoutControllerAuditStatus::CompleteFiniteVocabulary,
                raw_positive_witnesses: 0,
                retained_semantic_witnesses: 0,
            })
            .collect(),
        easiest_first_witness_loadouts: Vec::new(),
    }
}

fn contract() -> AbilityContract {
    AbilityContract {
        claim: AbilityPromotionClaimV2::WallJump,
        source_door_id: "A".to_owned(),
        sink_door_id: "B".to_owned(),
    }
}

fn observed(exit: &str, wall_jump: bool) -> ReplayObservation {
    ReplayObservation {
        reached_exit_id: exit.to_owned(),
        wall_jump_event: wall_jump,
        dash_event: false,
        matches_retained_trace: true,
    }
}

fn derive(dash_bypass: bool, intended: ReplayObservation) -> GateStep {
    let ms = matrices(dash_bypass);
    let step = begin_promotion_gate(
        KEY.to_owned(), Some(contract()),
        true,
        EvaluationLoadout::WallJump,
        &ms,
        Some(assessment()),
        POLICY,
        VERSIONS,
    );
    let GateStep::ReplayIntended { pending, replay } = step else {
        panic!("the positive construction-loadout row must be replayed")
    };
    assert_eq!(replay, IntendedReplay::CanonicalMatrix);
    assert_eq!(pending.construction(), EvaluationLoadout::WallJump);
    after_intended_replay(pending, replay, Some(intended), &ms)
}

#[test]
fn clean_ability_alias_is_promoted_after_both_replays() {
    let ms = matrices(false);
    let GateStep::ReplayReverse { pending } = derive(false, observed("B", true)) else {
        panic!("the positive baseline reverse row must be replayed")
    };
    let gate = after_reverse_replay(pending, Some(observed("A", false)), &ms).unwrap();
    assert_eq!(gate.decision, AbilityPromotionDecisionV2::PromotedStructuralNoKnownBypass);
    let VariantAbilityPromotionEvidenceV2::Ability {
        intended_route,
        intended_evidence_source,
        baseline_reverse,
        missing_ability_loadouts,
        alias_room_compatible,
        edge_rewrite_version,
        ..
    } = gate.evidence
    else {
        panic!("ability evidence expected")
    };
    assert_eq!(
        intended_route,
        Some(AbilityPromotionIntendedStateV2::ReplayCertifiedRequiredEventAccepted)
    );
    assert_eq!(
        intended_evidence_source,
        Some(AbilityPromotionIntendedEvidenceSourceV2::CanonicalMatrix)
    );
    assert_eq!(baseline_reverse, Some(AbilityPromotionMatrixStateV2::ReplayCertifiedPositive));
    assert!(alias_room_compatible);
    assert_eq!(edge_rewrite_version, 2);
    let loadouts: Vec<_> = missing_ability_loadouts.iter().map(|m| m.loadout).collect();
    assert_eq!(loadouts, vec![EvaluationLoadout::Baseline, EvaluationLoadout::Dash]);
}

#[test]
fn positive_lower_loadout_matrix_row_refuses_promotion() {
    let ms = matrices(true);
    let GateStep::ReplayReverse { pending } = derive(true, observed("B", true)) else {
        panic!("the positive baseline reverse row must be replayed")
    };
    let gate = after_reverse_replay(pending, Some(observed("A", false)), &ms).unwrap();
    assert_eq!(
        gate.decision,
        AbilityPromotionDecisionV2::PositiveMatrixBypass { loadout: EvaluationLoadout::Dash }
    );
    assert!(!gate.decision.allows_canonical_selection());
}

#[test]
fn replay_without_the_required_event_or_at_the_wrong_exit_is_refused() {
    let ms = matrices(false);
    let GateStep::ReplayReverse { pending } = derive(false, observed("B", false)) else {
        panic!("the positive baseline reverse row must be replayed")
    };
    let gate = after_reverse_replay(pending, Some(observed("A", false)), &ms).unwrap();
    assert_eq!(gate.decision, AbilityPromotionDecisionV2::IntendedRouteMissingRequiredEvent);

    let GateStep::Done(result) = derive(false, observed("C", true)) else {
        panic!("a wrong-exit replay ends derivation")
    };
    assert_eq!(
        result,
        Err(AbilityPromotionGateV2Error::InvalidContract(
            AbilityContractViolation::IntendedReplayWrongExit
        ))
    );
}

#[test]
fn ordinary_and_incompatible_candidates_do_not_inherit_audits() {
    let ms = matrices(false);
    let GateStep::Done(ordinary) =
        begin_promotion_gate(KEY.to_owned(), None, true, EvaluationLoadout::Both, &ms, None, POLICY, VERSIONS)
    else {
        panic!("ordinary candidates finish at once")
    };
    let ordinary = ordinary.unwrap();
    assert_eq!(ordinary.decision, AbilityPromotionDecisionV2::NotApplicable);
    assert!(ordinary.decision.allows_canonical_selection());

    let GateStep::Done(retained) = begin_promotion_gate(
        KEY.to_owned(), None,
        true,
        EvaluationLoadout::Both,
        &ms,
        Some(assessment()),
        POLICY,
        VERSIONS,
    ) else {
        panic!("ordinary candidates finish at once")
    };
    assert_eq!(
        retained,
        Err(AbilityPromotionGateV2Error::InvalidContract(
            AbilityContractViolation::OrdinaryCandidateRetainedAudit
        ))
    );

    let GateStep::Done(alias) = begin_promotion_gate(
        KEY.to_owned(), Some(contract()),
        false,
        EvaluationLoadout::WallJump,
        &ms,
        None,
        POLICY,
        VERSIONS,
    ) else {
        panic!("incompatible aliases finish at once")
    };
    let alias = alias.unwrap();
    assert_eq!(alias.decision, AbilityPromotionDecisionV2::RefusedAliasRoomMismatch);
    assert!(matches!(
        alias.evidence,
        VariantAbilityPromotionEvidenceV2::Ability {
            alias_room_compatible: false,
            intended_route: None,
            baseline_reverse: None,
            direct_route_assessment: None,
            ..
        }
    ));
}

#[test]
fn stale_assessment_is_rejected_before_matrix_evidence() {
    let ms = matrices(false);
    let mut stale = assessment();
    stale.policy.assessment_version = 9;
    let GateStep::Done(result) = begin_promotion_gate(
        KEY.to_owned(), Some(contract()),
        true,
        EvaluationLoadout::WallJump,
        &ms,
        Some(stale),
        POLICY,
        VERSIONS,
    ) else {
        panic!("a stale audit ends derivation")
    };
    assert_eq!(
        result,
        Err(AbilityPromotionGateV2Error::InvalidContract(AbilityContractViolation::StaleDirectAudit))
    );
    let GateStep::Done(missing_row) = begin_promotion_gate(
        KEY.to_owned(), Some(contract()),
        true,
        EvaluationLoadout::WallJump,
        &ms[..1],
        Some(assessment()),
        POLICY,
        VERSIONS,
    ) else {
        panic!("a missing matrix row ends derivation")
    };
    assert_eq!(
        missing_row,
        Err(AbilityPromotionGateV2Error::InvalidContract(AbilityContractViolation::DoorRowCount {
            loadout: EvaluationLoadout::WallJump,
            rows: 0,
            source_door_id: "A".to_owned(),
            target_door_id: "B".to_owned(),
        }))
    );
}
