use downwards_research::ability_promotion::{AbilityPromotionClaimV2, AbilityPromotionDecisionV2};
use downwards_research::artifact_summary::{
    CorpusArtifactSummaryV3, RoomSummaryInputV3, summarize_artifact_v3,
};
use downwards_research::checks::{ArtifactViolation, CorpusArtifactV3Error};
use downwards_research::promotion_gate::{
    VariantAbilityPromotionEvidenceV2, VariantAbilityPromotionGateV2,
};

fn ability_gate(decision: AbilityPromotionDecisionV2) -> VariantAbilityPromotionGateV2 {
    VariantAbilityPromotionGateV2 {
        gate_version: 2,
        key: "variant".to_owned(),
        evidence: VariantAbilityPromotionEvidenceV2::Ability {
            claim: AbilityPromotionClaimV2::WallJump,
            source_door_id: "A".to_owned(),
            sink_door_id: "B".to_owned(),
            edge_rewrite_version: 1,
            gate_embedding_contract_version: 1,
            generation_version: 1,
            alias_room_compatible: true,
            intended_route: None,
            intended_evidence_source: None,
            baseline_reverse: None,
            missing_ability_loadouts: Vec::new(),
            direct_route_assessment: None,
        },
        decision,
    }
}

fn ordinary_gate() -> VariantAbilityPromotionGateV2 {
    VariantAbilityPromotionGateV2 {
        gate_version: 2,
        key: "variant".to_owned(),
        evidence: VariantAbilityPromotionEvidenceV2::NotApplicable,
        decision: AbilityPromotionDecisionV2::NotApplicable,
    }
}

fn rooms() -> Vec<RoomSummaryInputV3> {
    vec![
        RoomSummaryInputV3 {
            variant_count: 3,
            construction_gate_passes: vec![true, false, true],
            promotion_gates: vec![
                ordinary_gate(),
                ability_gate(AbilityPromotionDecisionV2::PromotedStructuralNoKnownBypass),
                ability_gate(AbilityPromotionDecisionV2::BoundedBaselineReverse),
            ],
            complete_kit_passes: true,
            has_canonical_regeneration: false,
        },
        RoomSummaryInputV3 {
            variant_count: 1,
            construction_gate_passes: vec![false],
            promotion_gates: vec![ordinary_gate()],
            complete_kit_passes: false,
            has_canonical_regeneration: true,
        },
    ]
}

#[test]
fn summary_counts_every_stream() {
    let summary = summarize_artifact_v3(
        &[true, false, true, true],
        &rooms(),
        &[true, false, false],
        &[true, true],
        3,
    );
    assert_eq!(
        summary,
        Ok(CorpusArtifactSummaryV3 {
            attempts: 4,
            constructed_attempts: 3,
            rejected_attempts: 1,
            physical_rooms: 2,
            native_variants: 4,
            alias_candidates: 2,
            route_rows: 3,
            positive_route_rows: 1,
            inconclusive_route_rows: 2,
            pickup_rows: 2,
            positive_pickup_rows: 2,
            inconclusive_pickup_rows: 0,
            positive_witnesses: 3,
            passing_variant_construction_gates: 2,
            ability_aliases: 2,
            promoted_ability_aliases: 1,
            unpromoted_ability_aliases: 1,
            passing_complete_kit_rooms: 1,
            rooms_with_canonical_regeneration: 1,
        })
    );
}

#[test]
fn positive_rows_must_match_the_witnesses() {
    assert_eq!(
        summarize_artifact_v3(&[], &rooms(), &[true, false], &[true], 1),
        Err(CorpusArtifactV3Error::Invalid(ArtifactViolation::PositiveWitnessMismatch {
            positive_rows: 2,
            witness_count: 1,
        }))
    );
}

#[test]
fn empty_shard_has_all_zero_counts() {
    assert_eq!(
        summarize_artifact_v3(&[], &[], &[], &[], 0),
        Ok(CorpusArtifactSummaryV3 {
            attempts: 0,
            constructed_attempts: 0,
            rejected_attempts: 0,
            physical_rooms: 0,
            native_variants: 0,
            alias_candidates: 0,
            route_rows: 0,
            positive_route_rows: 0,
            inconclusive_route_rows: 0,
            pickup_rows: 0,
            positive_pickup_rows: 0,
            inconclusive_pickup_rows: 0,
            positive_witnesses: 0,
            passing_variant_construction_gates: 0,
            ability_aliases: 0,
            promoted_ability_aliases: 0,
            unpromoted_ability_aliases: 0,
            passing_complete_kit_rooms: 0,
            rooms_with_canonical_regeneration: 0,
        })
    );
}
