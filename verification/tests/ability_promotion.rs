use downwards_research::ability_promotion::{
    AbilityPromotionBudgetLimitV2, AbilityPromotionClaimV2, AbilityPromotionDecisionV2,
    AbilityPromotionDirectAuditStateV2, AbilityPromotionIntendedStateV2,
    AbilityPromotionMatrixStateV2, AbilityPromotionMissingLoadoutEvidenceV2, EvaluationLoadout,
    promotion_decision,
};

#[test]
fn missing_ability_set_includes_the_alternative_single_ability() {
    let missing = |claim: AbilityPromotionClaimV2| {
        EvaluationLoadout::all()
            .into_iter()
            .filter(|loadout| !claim.is_available(loadout.abilities()))
            .collect::<Vec<_>>()
    };
    assert_eq!(
        missing(AbilityPromotionClaimV2::WallJump),
        vec![EvaluationLoadout::Baseline, EvaluationLoadout::Dash]
    );
    assert_eq!(
        missing(AbilityPromotionClaimV2::Dash),
        vec![EvaluationLoadout::Baseline, EvaluationLoadout::WallJump]
    );
    assert_eq!(
        AbilityPromotionClaimV2::WallJump.missing_ability_loadouts(),
        missing(AbilityPromotionClaimV2::WallJump)
    );
    assert_eq!(
        AbilityPromotionClaimV2::Dash.missing_ability_loadouts(),
        missing(AbilityPromotionClaimV2::Dash)
    );
}

#[test]
fn promotion_decision_fails_closed_for_every_uncertain_or_bypass_state() {
    let complete = |loadout| AbilityPromotionMissingLoadoutEvidenceV2 {
        loadout,
        matrix: AbilityPromotionMatrixStateV2::BoundedInconclusive,
        direct_audit: AbilityPromotionDirectAuditStateV2::CompleteFiniteVocabularyNoPositive,
    };
    let accepted = AbilityPromotionIntendedStateV2::ReplayCertifiedRequiredEventAccepted;
    let reverse = AbilityPromotionMatrixStateV2::ReplayCertifiedPositive;
    let clean = vec![
        complete(EvaluationLoadout::Baseline),
        complete(EvaluationLoadout::Dash),
    ];
    assert_eq!(
        promotion_decision(accepted, reverse, &clean),
        AbilityPromotionDecisionV2::PromotedStructuralNoKnownBypass
    );
    assert_eq!(
        promotion_decision(
            AbilityPromotionIntendedStateV2::BoundedInconclusive,
            reverse,
            &clean,
        ),
        AbilityPromotionDecisionV2::BoundedIntendedRoute
    );
    assert_eq!(
        promotion_decision(
            AbilityPromotionIntendedStateV2::ReplayCertifiedRequiredEventMissing,
            reverse,
            &clean,
        ),
        AbilityPromotionDecisionV2::IntendedRouteMissingRequiredEvent
    );
    assert_eq!(
        promotion_decision(
            accepted,
            AbilityPromotionMatrixStateV2::BoundedInconclusive,
            &clean,
        ),
        AbilityPromotionDecisionV2::BoundedBaselineReverse
    );

    let mut matrix_bypass = clean.clone();
    matrix_bypass[1].matrix = AbilityPromotionMatrixStateV2::ReplayCertifiedPositive;
    assert_eq!(
        promotion_decision(accepted, reverse, &matrix_bypass),
        AbilityPromotionDecisionV2::PositiveMatrixBypass {
            loadout: EvaluationLoadout::Dash,
        }
    );

    let mut direct_bypass = clean.clone();
    direct_bypass[0].direct_audit = AbilityPromotionDirectAuditStateV2::PositiveBypass {
        raw_positive_witnesses: 2,
        retained_semantic_witnesses: 1,
    };
    assert_eq!(
        promotion_decision(accepted, reverse, &direct_bypass),
        AbilityPromotionDecisionV2::PositiveDirectBypass {
            loadout: EvaluationLoadout::Baseline,
        }
    );

    let mut bounded = clean;
    bounded[1].direct_audit = AbilityPromotionDirectAuditStateV2::BoundedInconclusive {
        limit: AbilityPromotionBudgetLimitV2::SimulatedTicks,
    };
    assert_eq!(
        promotion_decision(accepted, reverse, &bounded),
        AbilityPromotionDecisionV2::BoundedDirectAudit {
            loadout: EvaluationLoadout::Dash,
            limit: AbilityPromotionBudgetLimitV2::SimulatedTicks,
        }
    );
}

#[test]
fn only_promoted_or_ordinary_sources_allow_canonical_selection() {
    assert!(AbilityPromotionDecisionV2::NotApplicable.allows_canonical_selection());
    assert!(AbilityPromotionDecisionV2::PromotedStructuralNoKnownBypass.allows_canonical_selection());
    assert!(!AbilityPromotionDecisionV2::RefusedAliasRoomMismatch.allows_canonical_selection());
    assert!(!AbilityPromotionDecisionV2::BoundedBaselineReverse.allows_canonical_selection());
    assert!(!AbilityPromotionDecisionV2::PositiveMatrixBypass {
        loadout: EvaluationLoadout::Dash
    }
    .allows_canonical_selection());
}
