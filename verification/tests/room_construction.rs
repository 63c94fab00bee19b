use downwards_research::ability_promotion::{EvaluationLoadout, RouteControllerAssessmentPolicy};
use downwards_research::actions::Action;
use downwards_research::analysis_config::{
    CorpusRoomAnalysisConfigRecord, CurrentAnalysisPolicies, RouteEvaluationDifficultyConfigV2,
    RouteEvaluationSolverConfigV2, SolverMacroConfigV2,
};
use downwards_research::artifact_summary::CorpusArtifactSummaryV3;
use downwards_research::checks::{ArtifactViolation, CorpusArtifactV3Error};
use downwards_research::positive_witness::{TargetEvidenceV3, TargetRowRecordV3};
use downwards_research::rehydrated_bundle::{
    GenerationSummaryV3, RegeneratedBundleV3, RehydratedBundleV3, check_rehydrated_bundle_v3,
};
use downwards_research::room_construction::{
    ConstructionPolicyV3, GateHeaderV3, MatrixSearchEffortRecordV3, NativeVariantRecordV3,
    RegeneratedRoomV3, RegeneratedVariantV3, RoomConstructionRecordV3, SearchStatsRecordV3,
    SourceSearchEffortRecordV3, verify_room_construction_v3,
};

fn policies() -> CurrentAnalysisPolicies {
    CurrentAnalysisPolicies {
        solver_policy_version: 7,
        route_controller_policy: RouteControllerAssessmentPolicy {
            assessment_version: 3,
            direct_probe_audit_version: 4,
            semantic_trace_version: 5,
            controller_demand_version: 6,
        },
    }
}

fn policy() -> ConstructionPolicyV3 {
    ConstructionPolicyV3 { feasibility_gate_version: 2, canonical_regeneration_policy_version: 5, current: policies() }
}

fn config() -> CorpusRoomAnalysisConfigRecord {
    CorpusRoomAnalysisConfigRecord::from_config(
        RouteEvaluationSolverConfigV2 {
            max_expanded_nodes: 1000,
            max_simulated_ticks: 2000,
            max_ticks_per_path: 300,
            beam_width: 8,
            position_quantum: 2,
            velocity_quantum: 3,
            probe_direct_routes: true,
            baseline_preview_max_expanded_nodes: 50,
            baseline_preview_max_simulated_ticks: 60,
            macros: vec![SolverMacroConfigV2 {
                name: "run-right".to_owned(),
                actions: vec![Action { move_x: 1, move_y: 0, jump: false, dash: false, restart: false }],
            }],
        },
        RouteEvaluationDifficultyConfigV2 { perturbation_grace_ticks: 4 },
        policies(),
    )
    .unwrap()
}

fn stats(e: usize, g: usize, s: usize, d: usize) -> SearchStatsRecordV3 {
    SearchStatsRecordV3 { expanded_nodes: e, generated_nodes: g, simulated_ticks: s, deepest_path_ticks: d }
}

fn variant(key: &str) -> NativeVariantRecordV3 {
    NativeVariantRecordV3 { key: key.to_owned(), encoding: format!("graph-of-{key}") }
}

fn regenerated_variant(key: &str, doors: &[&str]) -> RegeneratedVariantV3 {
    RegeneratedVariantV3 {
        key: key.to_owned(),
        record: variant(key),
        physical_descriptor: "descriptor".to_owned(),
        door_ids: doors.iter().map(|d| (*d).to_owned()).collect(),
        pickup_ids: vec![],
    }
}

fn regenerated() -> RegeneratedRoomV3 {
    RegeneratedRoomV3 {
        id: "room-a".to_owned(),
        descriptor_room_id: "room-a".to_owned(),
        physical_descriptor: "descriptor".to_owned(),
        // Generator order; "k-b" is the lexically least key.
        variants: vec![regenerated_variant("k-c", &["z"]), regenerated_variant("k-b", &["west", "east"])],
    }
}

fn matrix(loadout: EvaluationLoadout) -> MatrixSearchEffortRecordV3 {
    MatrixSearchEffortRecordV3 {
        loadout,
        source_search_effort: vec![
            SourceSearchEffortRecordV3 { source_door_id: "east".to_owned(), search_effort: stats(3, 4, 5, 6) },
            SourceSearchEffortRecordV3 { source_door_id: "west".to_owned(), search_effort: stats(10, 20, 30, 2) },
        ],
        aggregate_search_effort: stats(13, 24, 35, 6),
    }
}

fn gate(key: &str, version: u32) -> GateHeaderV3 {
    GateHeaderV3 { key: key.to_owned(), gate_version: version }
}

fn record() -> RoomConstructionRecordV3 {
    RoomConstructionRecordV3 {
        room_id: "room-a".to_owned(),
        physical_descriptor: "descriptor".to_owned(),
        physical_evidence_source_key: "k-b".to_owned(),
        variants: vec![variant("k-b"), variant("k-c")],
        matrix_search_effort: vec![
            matrix(EvaluationLoadout::Baseline),
            matrix(EvaluationLoadout::WallJump),
            matrix(EvaluationLoadout::Dash),
            matrix(EvaluationLoadout::Both),
        ],
        variant_construction_gates: vec![gate("k-b", 2), gate("k-c", 2)],
        ability_promotion_audit_config: config(),
        variant_ability_promotion_gates: vec![gate("k-b", 1), gate("k-c", 1)],
        canonical_regeneration_policy_version: 5,
    }
}

fn check(r: &RoomConstructionRecordV3, g: &RegeneratedRoomV3) -> Result<(), CorpusArtifactV3Error> {
    verify_room_construction_v3(r, g, &config(), policy())
}

fn violation(v: ArtifactViolation) -> Result<(), CorpusArtifactV3Error> {
    Err(CorpusArtifactV3Error::Invalid(v))
}

#[test]
fn room_matching_its_regeneration_is_accepted() {
    assert_eq!(check(&record(), &regenerated()), Ok(()));
}

#[test]
fn room_identity_and_descriptor_must_match_regeneration() {
    let mut r = record();
    r.room_id = "room-b".to_owned();
    assert_eq!(check(&r, &regenerated()), violation(ArtifactViolation::RoomIdentityDiffers));
    let mut g = regenerated();
    g.descriptor_room_id = "room-z".to_owned();
    assert_eq!(check(&record(), &g), violation(ArtifactViolation::RegeneratedIdInconsistent));
    let mut r = record();
    r.physical_descriptor = "other".to_owned();
    assert_eq!(check(&r, &regenerated()), violation(ArtifactViolation::PhysicalDescriptorDiffers));
}

#[test]
fn native_variants_are_ordered_and_exactly_regenerated() {
    let mut r = record();
    r.variants.clear();
    assert_eq!(check(&r, &regenerated()), violation(ArtifactViolation::NoNativeVariants));
    let mut r = record();
    r.variants.reverse();
    assert_eq!(check(&r, &regenerated()), violation(ArtifactViolation::NativeVariantOrder));
    let mut r = record();
    r.variants[1].encoding = "edited".to_owned();
    assert_eq!(check(&r, &regenerated()), violation(ArtifactViolation::NativeVariantsDiffer));
    let mut g = regenerated();
    g.variants[0].physical_descriptor = "elsewhere".to_owned();
    assert_eq!(check(&record(), &g), violation(ArtifactViolation::AliasOutsideDescriptor));
}

#[test]
fn evidence_source_is_the_lexically_least_alias() {
    let mut r = record();
    r.physical_evidence_source_key = "k-c".to_owned();
    assert_eq!(check(&r, &regenerated()), violation(ArtifactViolation::EvidenceSourcePolicy));
}

#[test]
fn search_effort_covers_the_source_doors_in_order_with_summed_aggregates() {
    let mut r = record();
    r.matrix_search_effort.swap(1, 2);
    assert_eq!(check(&r, &regenerated()), violation(ArtifactViolation::EffortLoadouts));
    let mut r = record();
    r.matrix_search_effort[2].source_search_effort.reverse();
    assert_eq!(
        check(&r, &regenerated()),
        violation(ArtifactViolation::SourceEffortOrder { loadout: EvaluationLoadout::Dash })
    );
    let mut r = record();
    r.matrix_search_effort[3].aggregate_search_effort = stats(13, 24, 35, 8);
    assert_eq!(
        check(&r, &regenerated()),
        violation(ArtifactViolation::AggregateEffortDiffers { loadout: EvaluationLoadout::Both })
    );
}

#[test]
fn aggregate_search_effort_saturates_and_keeps_the_deepest_path() {
    let mut r = record();
    for m in &mut r.matrix_search_effort {
        m.source_search_effort[0].search_effort = stats(usize::MAX, 1, 2, 9);
        m.aggregate_search_effort = stats(usize::MAX, 21, 32, 9);
    }
    assert_eq!(check(&r, &regenerated()), Ok(()));
}

#[test]
fn gates_config_and_versions_are_checked() {
    let mut r = record();
    r.variant_construction_gates.reverse();
    assert_eq!(check(&r, &regenerated()), violation(ArtifactViolation::ConstructionGateOrder));
    let mut r = record();
    r.variant_ability_promotion_gates.reverse();
    assert_eq!(check(&r, &regenerated()), violation(ArtifactViolation::PromotionGateOrder));
    let mut r = record();
    r.ability_promotion_audit_config.config_id = "0000000000000000".to_owned();
    assert_eq!(check(&r, &regenerated()), violation(ArtifactViolation::RoomAuditConfigInvalid));
    let mut shard = config();
    shard.direct_controller_solver.beam_width = 9;
    assert_eq!(
        verify_room_construction_v3(&record(), &regenerated(), &shard, policy()),
        violation(ArtifactViolation::RoomAuditConfigDiffers)
    );
    let mut r = record();
    r.variant_ability_promotion_gates.pop();
    assert_eq!(check(&r, &regenerated()), violation(ArtifactViolation::PromotionGatesMisaligned));
    let mut r = record();
    r.variant_construction_gates[0].gate_version = 1;
    assert_eq!(check(&r, &regenerated()), violation(ArtifactViolation::UnsupportedGatePolicy));
    let mut r = record();
    r.canonical_regeneration_policy_version = 4;
    assert_eq!(check(&r, &regenerated()), violation(ArtifactViolation::UnsupportedGatePolicy));
}

fn row(source: &str, target: &str, loadout: EvaluationLoadout, witness: Option<&str>) -> TargetRowRecordV3 {
    TargetRowRecordV3 {
        room_id: "room-a".to_owned(),
        source_door_id: source.to_owned(),
        target_id: target.to_owned(),
        loadout,
        evidence: match witness {
            Some(id) => TargetEvidenceV3::PositiveReplay { witness_id: id.to_owned() },
            None => TargetEvidenceV3::BoundedInconclusive,
        },
    }
}

fn generation() -> GenerationSummaryV3 {
    GenerationSummaryV3 { attempted: 3, constructed: 2, rejected: 1, physical_rooms: 1, alias_candidates: 1 }
}

fn summary() -> CorpusArtifactSummaryV3 {
    CorpusArtifactSummaryV3 {
        attempts: 3,
        constructed_attempts: 2,
        rejected_attempts: 1,
        physical_rooms: 1,
        native_variants: 2,
        alias_candidates: 1,
        route_rows: 2,
        positive_route_rows: 1,
        inconclusive_route_rows: 1,
        pickup_rows: 0,
        positive_pickup_rows: 0,
        inconclusive_pickup_rows: 0,
        positive_witnesses: 1,
        passing_variant_construction_gates: 2,
        ability_aliases: 0,
        promoted_ability_aliases: 0,
        unpromoted_ability_aliases: 0,
        passing_complete_kit_rooms: 1,
        rooms_with_canonical_regeneration: 1,
    }
}

const LOADOUTS: [EvaluationLoadout; 4] = [
    EvaluationLoadout::Baseline,
    EvaluationLoadout::WallJump,
    EvaluationLoadout::Dash,
    EvaluationLoadout::Both,
];

/// The complete door matrix of the evidence source: east to west and west
/// to east under every loadout, one of them positive.
fn routes() -> Vec<TargetRowRecordV3> {
    let mut rows = Vec::new();
    for (source, target) in [("east", "west"), ("west", "east")] {
        for loadout in LOADOUTS {
            let witness = if source == "east" && loadout == EvaluationLoadout::Baseline { Some("w-1") } else { None };
            rows.push(row(source, target, loadout, witness));
        }
    }
    rows
}

fn bundle() -> RehydratedBundleV3 {
    RehydratedBundleV3 {
        attempts: vec!["a-1".to_owned(), "a-2".to_owned(), "a-3".to_owned()],
        rooms: vec![record()],
        routes: routes(),
        pickups: vec![],
        witness_ids: vec!["w-1".to_owned()],
        generation: generation(),
        summary: summary(),
        ability_promotion_audit_config: config(),
    }
}

fn regenerated_bundle() -> RegeneratedBundleV3 {
    RegeneratedBundleV3 {
        attempts: vec!["a-2".to_owned(), "a-3".to_owned(), "a-1".to_owned()],
        summary: generation(),
        rooms: vec![regenerated()],
    }
}

fn check_bundle(b: &RehydratedBundleV3, g: &RegeneratedBundleV3) -> Result<(), CorpusArtifactV3Error> {
    let route_verdicts = vec![Ok(()); b.routes.len()];
    let pickup_verdicts = vec![Ok(()); b.pickups.len()];
    check_rehydrated_bundle_v3(b, g, policy(), &route_verdicts, &pickup_verdicts)
}

#[test]
fn shard_matching_its_regeneration_is_accepted() {
    assert_eq!(check_bundle(&bundle(), &regenerated_bundle()), Ok(()));
}

#[test]
fn streams_must_be_strictly_ordered() {
    let mut b = bundle();
    b.attempts.swap(0, 1);
    assert_eq!(check_bundle(&b, &regenerated_bundle()), violation(ArtifactViolation::AttemptOrder));
    let mut b = bundle();
    b.routes.reverse();
    assert_eq!(
        check_bundle(&b, &regenerated_bundle()),
        violation(ArtifactViolation::TargetRowOrder { pickups: false })
    );
    let mut b = bundle();
    b.witness_ids.push("w-0".to_owned());
    assert_eq!(check_bundle(&b, &regenerated_bundle()), violation(ArtifactViolation::WitnessOrder));
}

#[test]
fn attempts_generation_and_rooms_must_be_exactly_regenerated() {
    let mut g = regenerated_bundle();
    g.attempts[0] = "a-9".to_owned();
    assert_eq!(check_bundle(&bundle(), &g), violation(ArtifactViolation::AttemptsDiffer));
    let mut g = regenerated_bundle();
    g.summary.rejected = 0;
    assert_eq!(check_bundle(&bundle(), &g), violation(ArtifactViolation::GenerationDiffers));
    let mut g = regenerated_bundle();
    g.rooms.push(regenerated());
    assert_eq!(
        check_bundle(&bundle(), &g),
        violation(ArtifactViolation::RoomCountDiffers { found: 1, expected: 2 })
    );
    let mut g = regenerated_bundle();
    g.rooms[0].physical_descriptor = "other".to_owned();
    assert_eq!(check_bundle(&bundle(), &g), violation(ArtifactViolation::PhysicalDescriptorDiffers));
}

#[test]
fn matrices_must_cover_the_regenerated_evidence_source() {
    let mut b = bundle();
    b.routes.pop();
    assert_eq!(check_bundle(&b, &regenerated_bundle()), violation(ArtifactViolation::IncompleteTargetMatrix));
    let mut g = regenerated_bundle();
    g.rooms[0].variants[1].pickup_ids = vec!["gem".to_owned()];
    assert_eq!(check_bundle(&bundle(), &g), violation(ArtifactViolation::IncompleteTargetMatrix));
    let mut b = bundle();
    b.routes[0] = row("east", "north", EvaluationLoadout::Baseline, Some("w-1"));
    assert_eq!(check_bundle(&b, &regenerated_bundle()), violation(ArtifactViolation::InvalidTarget));
}

#[test]
fn failed_witness_replay_rejects_the_shard() {
    let b = bundle();
    let mut route_verdicts = vec![Ok(()); b.routes.len()];
    route_verdicts[0] = violation(ArtifactViolation::ReplayDiverged);
    assert_eq!(
        check_rehydrated_bundle_v3(&b, &regenerated_bundle(), policy(), &route_verdicts, &[]),
        violation(ArtifactViolation::ReplayDiverged)
    );
}

#[test]
fn each_positive_witness_is_referenced_exactly_once() {
    let mut b = bundle();
    b.routes[1] = row("east", "west", EvaluationLoadout::WallJump, Some("w-1"));
    assert_eq!(
        check_bundle(&b, &regenerated_bundle()),
        violation(ArtifactViolation::WitnessReferencedRepeatedly { count: 2 })
    );
    let mut b = bundle();
    b.witness_ids.push("w-2".to_owned());
    assert_eq!(check_bundle(&b, &regenerated_bundle()), violation(ArtifactViolation::OrphanPositiveWitness));
}

#[test]
fn summary_must_agree_with_generation_accounting() {
    let mut b = bundle();
    b.summary.alias_candidates = 0;
    assert_eq!(check_bundle(&b, &regenerated_bundle()), violation(ArtifactViolation::SummaryGenerationDisagree));
}
