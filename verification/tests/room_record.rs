use downwards_research::ability_promotion::{EvaluationLoadout, LoadoutControllerAuditStatus};
use downwards_research::asymmetry_rows::DirectionalAsymmetryRecord;
use downwards_research::canonical_aggregates::{
    CanonicalLoadoutAggregateRecord, CanonicalRouteAggregateRecord, PairwiseDistanceSummary,
    RouteDiversitySummary,
};
use downwards_research::canonical_routes::{CanonicalRouteDifficultyRecord, CanonicalRoutePolicy};
use downwards_research::checks::{ArtifactViolation, CorpusAnalysisArtifactError, RouteCompletenessRecord};
use downwards_research::direct_aggregates::{
    AbilityBypassAggregateRecord, DirectControllerAggregateRecord, DirectControllerLoadoutAggregateRecord,
    MetricEvidenceRecord, MissingMetricReasonRecord, NotApplicableMetricReasonRecord,
};
use downwards_research::actions::ActionSpanRecord;
use downwards_research::decoded_artifact::{AnalysisManifestSummary, ArtifactEncodings, validate_decoded_artifact};
use downwards_research::demand::{ControllerDemandRecord, coordinates_from_demand};
use downwards_research::identity::{byte_hash, stable_binding_id};
use downwards_research::witness_record::{
    ControllerWitnessRecord, SolverConfigRecord, SolverMacroRecord, controller_witness_id,
};
use downwards_research::landing::landing_metric_from_canonical_routes;
use downwards_research::landing_checks::LandingPrecisionPolicy;
use downwards_research::metric_aggregates::{MetricAggregatesRecord, TerrainCoverageFractionRecord};
use downwards_research::metrics::{AggregateAuditCompletenessRecord, AuditCompletenessCountsRecord};
use downwards_research::operational_cost::{
    DirectControllerCostUnitRecord, LoadoutSlugs, OperationalCostRecord, OperationalCostSummaryRecord,
};
use downwards_research::room_evidence::{
    DirectedControllerLoadoutRecord, DirectedControllerRouteRecord, SharedLoadoutAuditRecord, SourceAuditRecord,
};
use downwards_research::room_record::{
    CORPUS_ANALYSIS_ARTIFACT_VERSION, DirectControllerEvidenceRecord, GenerationKeyStatus, GenerationKeySummary,
    RoomPolicy, RoomRecord, validate_room_record,
};
use downwards_research::terrain::{
    AbilitySetRecord, AblationUtilityRecord, PositiveTerrainCoverageRecord, TerrainMetricAggregateRecord,
    TerrainPositiveEvidenceRecord,
};
use downwards_research::witness_refs::{WitnessBindingRecord, validate_no_orphan_witnesses};

const COMPLETE: LoadoutControllerAuditStatus = LoadoutControllerAuditStatus::CompleteFiniteVocabulary;
const TERRAIN_AUDIT: u32 = 4;
const METRIC_SUMMARY: u32 = 7;
const SEED: u64 = 11;

fn invalid(v: ArtifactViolation) -> Result<(), CorpusAnalysisArtifactError> {
    Err(CorpusAnalysisArtifactError::Invalid(v))
}

fn no_distance() -> PairwiseDistanceSummary {
    PairwiseDistanceSummary {
        comparisons: 0,
        minimum_present: false,
        mean_present: false,
        median_present: false,
        maximum_present: false,
        mean_nearest_neighbor_present: false,
        present_values_in_unit_interval: true,
    }
}

fn no_routes() -> RouteDiversitySummary {
    RouteDiversitySummary {
        version: 1,
        route_count: 0,
        reached_target_count: 0,
        spatial_path_classes: 0,
        semantic_controller_classes: 0,
        joint_play_style_classes: 0,
        traversal_distance: no_distance(),
        semantic_action_distance: no_distance(),
        combined_behavior_distance: no_distance(),
    }
}

fn complete(n: usize) -> AuditCompletenessCountsRecord {
    AuditCompletenessCountsRecord {
        expected: n,
        complete_finite_vocabulary: n,
        bounded_incomplete: 0,
        missing: 0,
        state: AggregateAuditCompletenessRecord::CompleteFiniteVocabulary,
    }
}

fn aggregates() -> MetricAggregatesRecord {
    let reason = NotApplicableMetricReasonRecord::SuccessfulRoutesForLoadout;
    let missing = MissingMetricReasonRecord::ReverseDirectionsRequireTwoKnownPositiveControllers;
    let not_applicable = MetricEvidenceRecord::NotApplicable {
        reason: NotApplicableMetricReasonRecord::InteriorTerrainTiles,
    };
    MetricAggregatesRecord {
        canonical_routes: CanonicalRouteAggregateRecord {
            directed_route_count: 2,
            loadout_route_cell_count: 8,
            positive_route_count: 0,
            bounded_inconclusive_route_count: 8,
            by_loadout: EvaluationLoadout::all()
                .into_iter()
                .map(|loadout| CanonicalLoadoutAggregateRecord {
                    loadout,
                    route_cell_count: 2,
                    positive_route_count: 0,
                    bounded_inconclusive_route_count: 2,
                    behavior_diversity: no_routes(),
                })
                .collect(),
            behavior_diversity: no_routes(),
        },
        landing_precision: landing_metric_from_canonical_routes(&[]),
        direct_controllers: DirectControllerAggregateRecord {
            directed_route_count: 2,
            by_loadout: EvaluationLoadout::all()
                .into_iter()
                .map(|loadout| DirectControllerLoadoutAggregateRecord {
                    loadout,
                    source_audit_completeness: complete(2),
                    route_audit_completeness: complete(2),
                    known_positive_directed_routes: 0,
                    ambiguous_nondominated_front_directed_routes: 0,
                    no_positive_in_complete_finite_vocabulary: 2,
                    inconclusive_without_positive: 0,
                    missing_route_or_audit: 0,
                    easiest_controller_fractions: MetricEvidenceRecord::NotApplicable { reason },
                    demand_coordinates: MetricEvidenceRecord::NotApplicable { reason },
                })
                .collect(),
            ability_bypasses: AbilityBypassAggregateRecord {
                directed_routes_with_any_bypass: 0,
                directed_routes_with_wall_jump_bypass: 0,
                directed_routes_with_dash_bypass: 0,
                directed_route_loadout_bypasses: 0,
                retained_semantic_bypass_witnesses: 0,
                by_successful_loadout: Vec::new(),
            },
        },
        directional_asymmetry: EvaluationLoadout::all()
            .into_iter()
            .map(|loadout| DirectionalAsymmetryRecord {
                door_a: "A".to_owned(),
                door_b: "B".to_owned(),
                loadout,
                a_to_b: MetricEvidenceRecord::Missing { reason: missing },
                b_to_a: MetricEvidenceRecord::Missing { reason: missing },
                comparison: MetricEvidenceRecord::Missing { reason: missing },
            })
            .collect(),
        terrain: TerrainMetricAggregateRecord {
            source_terrain_audit_version: TERRAIN_AUDIT,
            coverage: PositiveTerrainCoverageRecord {
                positive_controller_count: 0,
                interior_component_count: 0,
                interior_tile_count: 0,
                structurally_attributed_component_count: 0,
                structurally_attributed_tile_count: 0,
                traversal_near_component_count: 0,
                traversal_near_tile_count: 0,
                positively_corroborated_component_count: 0,
                positively_corroborated_tile_count: 0,
                uncorroborated_component_count: 0,
                uncorroborated_tile_count: 0,
            },
            ablations: Vec::new(),
            ablation_utility: AblationUtilityRecord {
                variant_count: 0,
                all_stored_controllers_survived: 0,
                at_least_one_stored_controller_affected: 0,
                no_stored_controllers: 0,
                removed_tiles_all_survived: 0,
                removed_tiles_some_affected: 0,
                removed_tiles_no_controllers: 0,
            },
            coverage_fractions: TerrainCoverageFractionRecord {
                structurally_attributed_components: not_applicable,
                structurally_attributed_tiles: not_applicable,
                traversal_near_components: not_applicable,
                traversal_near_tiles: not_applicable,
                positively_corroborated_components: not_applicable,
                positively_corroborated_tiles: not_applicable,
            },
            aggregate_ablation_survival_fraction: MetricEvidenceRecord::NotApplicable {
                reason: NotApplicableMetricReasonRecord::AblationVariants,
            },
        },
    }
}

fn slugs() -> LoadoutSlugs {
    LoadoutSlugs {
        baseline: "baseline".to_owned(),
        wall_jump: "wall-jump".to_owned(),
        dash: "dash".to_owned(),
        both: "both".to_owned(),
    }
}

fn slug(l: EvaluationLoadout) -> &'static str {
    match l {
        EvaluationLoadout::Baseline => "baseline",
        EvaluationLoadout::WallJump => "wall-jump",
        EvaluationLoadout::Dash => "dash",
        EvaluationLoadout::Both => "both",
    }
}

fn cost(n: usize, depth: usize) -> OperationalCostRecord {
    OperationalCostRecord { expanded_nodes: n, generated_nodes: 2 * n, simulated_ticks: 3 * n, deepest_path_ticks: depth }
}

fn direct_id(source: &str, l: EvaluationLoadout) -> String {
    stable_binding_id("direct-cost-v1", &[source, slug(l)])
}

fn sources() -> Vec<SourceAuditRecord> {
    ["A", "B"]
        .into_iter()
        .map(|door| SourceAuditRecord {
            source_door_id: door.to_owned(),
            target_door_ids: vec![if door == "A" { "B" } else { "A" }.to_owned()],
            authoritative_loadout: EvaluationLoadout::Both,
            expected_subset_loadouts: EvaluationLoadout::all(),
            shared_loadout_audits: EvaluationLoadout::all()
                .into_iter()
                .map(|loadout| SharedLoadoutAuditRecord {
                    loadout,
                    status: COMPLETE,
                    target_count: 1,
                    raw_positive_witnesses: 0,
                    retained_semantic_witnesses: 0,
                    operational_cost_ref: direct_id(door, loadout),
                })
                .collect(),
        })
        .collect()
}

fn summary() -> OperationalCostSummaryRecord {
    let mut units = Vec::new();
    for door in ["A", "B"] {
        for (i, loadout) in EvaluationLoadout::all().into_iter().enumerate() {
            units.push(DirectControllerCostUnitRecord {
                cost_id: direct_id(door, loadout),
                source_door_id: door.to_owned(),
                loadout,
                status: COMPLETE,
                cost: cost(i + 1, 10 * (i + 1)),
            });
        }
    }
    OperationalCostSummaryRecord {
        interpretation: "solver_capacity_evidence_not_player_difficulty".to_owned(),
        direct_controller_reported_total: cost(20, 40),
        direct_controller_recomputed_total: cost(20, 40),
        direct_controller_audit_units: units,
        canonical_positive_route_total: OperationalCostRecord {
            expanded_nodes: 0,
            generated_nodes: 0,
            simulated_ticks: 0,
            deepest_path_ticks: 0,
        },
        canonical_positive_routes: Vec::new(),
    }
}

fn route(source: &str, target: &str) -> DirectedControllerRouteRecord {
    DirectedControllerRouteRecord {
        source_door_id: source.to_owned(),
        target_door_id: target.to_owned(),
        authoritative_loadout: EvaluationLoadout::Both,
        expected_subset_loadouts: EvaluationLoadout::all(),
        completeness: RouteCompletenessRecord::CompleteFiniteVocabulary,
        overall_easiest_known_witness_id: None,
        overall_pareto_front_witness_ids: Vec::new(),
        loadouts: EvaluationLoadout::all()
            .into_iter()
            .map(|loadout| DirectedControllerLoadoutRecord {
                loadout,
                status: COMPLETE,
                raw_positive_witnesses: 0,
                retained_semantic_witnesses: 0,
                easiest_known_witness_id: None,
                pareto_front_witness_ids: Vec::new(),
            })
            .collect(),
        positive_bypasses: Vec::new(),
    }
}

fn empty_coverage() -> PositiveTerrainCoverageRecord {
    PositiveTerrainCoverageRecord {
        positive_controller_count: 0,
        interior_component_count: 0,
        interior_tile_count: 0,
        structurally_attributed_component_count: 0,
        structurally_attributed_tile_count: 0,
        traversal_near_component_count: 0,
        traversal_near_tile_count: 0,
        positively_corroborated_component_count: 0,
        positively_corroborated_tile_count: 0,
        uncorroborated_component_count: 0,
        uncorroborated_tile_count: 0,
    }
}

fn room() -> RoomRecord {
    RoomRecord {
        row_version: CORPUS_ANALYSIS_ARTIFACT_VERSION,
        room_id: "room-1".to_owned(),
        generation_key: GenerationKeySummary { seed: SEED, status: GenerationKeyStatus::Canonical },
        analysis_version: 2,
        metric_summary_version: METRIC_SUMMARY,
        door_ids: vec!["A".to_owned(), "B".to_owned()],
        direct_controller_evidence: DirectControllerEvidenceRecord {
            source_audits: sources(),
            directed_routes: vec![route("A", "B"), route("B", "A")],
        },
        canonical_route_difficulty: CanonicalRouteDifficultyRecord {
            claim: "canonical_matrix_witness_measurement_not_easiest_known".to_owned(),
            routes: Vec::new(),
        },
        terrain_positive_evidence: TerrainPositiveEvidenceRecord {
            audit_version: TERRAIN_AUDIT,
            structural_descriptor_version: 1,
            room_ablation_version: 1,
            loadout: AbilitySetRecord { wall_jump: true, dash: true },
            positive_door_controller_count: 0,
            positive_pickup_controller_count: 0,
            coverage: empty_coverage(),
            component_ablation_outcomes: Vec::new(),
        },
        metric_aggregates: aggregates(),
        operational_cost: summary(),
    }
}

fn policy() -> RoomPolicy {
    RoomPolicy {
        metric_summary_version: METRIC_SUMMARY,
        terrain_audit_version: TERRAIN_AUDIT,
        canonical: CanonicalRoutePolicy {
            measurement_version: 2,
            vector_version: 5,
            witness_fingerprint_prefix: "downwards-witness-v".to_owned(),
            landing: LandingPrecisionPolicy { version: 3, interpretation: "local landing geometry".to_owned() },
        },
        slugs: slugs(),
    }
}

fn check(r: &RoomRecord) -> Result<(), CorpusAnalysisArtifactError> {
    validate_room_record(SEED, r, &[], &policy())
}

#[test]
fn consistent_room_is_accepted() {
    assert_eq!(check(&room()), Ok(()));
}

#[test]
fn identities_and_key_come_first() {
    let mut r = room();
    r.row_version = 2;
    r.door_ids.reverse();
    assert_eq!(check(&r), invalid(ArtifactViolation::RoomIdentity));
    assert_eq!(validate_room_record(SEED + 1, &room(), &[], &policy()), invalid(ArtifactViolation::RoomIdentity));
    let mut r = room();
    r.generation_key.status = GenerationKeyStatus::UnknownIntent;
    r.door_ids.reverse();
    assert_eq!(check(&r), invalid(ArtifactViolation::UnknownGenerationIntent));
    let mut r = room();
    r.generation_key.status = GenerationKeyStatus::NotCanonical;
    assert_eq!(check(&r), invalid(ArtifactViolation::NonCanonicalGenerationKey));
}

#[test]
fn room_steps_run_in_order() {
    let mut r = room();
    r.door_ids.reverse();
    r.operational_cost.interpretation = "player difficulty".to_owned();
    assert_eq!(check(&r), invalid(ArtifactViolation::DoorOrder));
    let mut r = room();
    r.operational_cost.interpretation = "player difficulty".to_owned();
    r.canonical_route_difficulty.claim = "easiest".to_owned();
    assert_eq!(check(&r), invalid(ArtifactViolation::OperationalInterpretation));
    let mut r = room();
    r.canonical_route_difficulty.claim = "easiest".to_owned();
    r.terrain_positive_evidence.audit_version = 1;
    assert_eq!(check(&r), invalid(ArtifactViolation::CanonicalClaim));
    let mut r = room();
    r.terrain_positive_evidence.audit_version = 1;
    r.metric_aggregates.direct_controllers.directed_route_count = 1;
    assert_eq!(check(&r), invalid(ArtifactViolation::TerrainCoverageInvalid));
    let mut r = room();
    r.metric_aggregates.directional_asymmetry.pop();
    assert_eq!(check(&r), invalid(ArtifactViolation::AsymmetryRowCount { found: 3, expected: 4 }));
}

#[test]
fn witness_references_of_the_room_are_checked() {
    let mut r = room();
    r.direct_controller_evidence.directed_routes[1].overall_pareto_front_witness_ids.push("w".to_owned());
    assert_eq!(check(&r), invalid(ArtifactViolation::EasiestParetoAvailability));
    let ws = vec![binding("w")];
    assert_eq!(validate_room_record(SEED, &room(), &ws, &policy()), Ok(()));
}

fn binding(id: &str) -> WitnessBindingRecord {
    WitnessBindingRecord {
        witness_id: id.to_owned(),
        room_id: "room-1".to_owned(),
        source_door_id: "B".to_owned(),
        target_door_id: "A".to_owned(),
        loadout: EvaluationLoadout::Dash,
        coordinates: downwards_research::demand::ControllerDemandCoordinatesRecord {
            controller_class: 0,
            ability_events: 0,
            horizontal_reversals: 0,
            vertical_decisions: 0,
            semantic_spans: 1,
            semantic_transitions: 0,
            duration_ticks: 9,
        },
    }
}

#[test]
fn every_witness_referenced_somewhere_is_accepted() {
    let mut first = room();
    first.direct_controller_evidence.directed_routes[0].overall_easiest_known_witness_id = Some("w1".to_owned());
    first.direct_controller_evidence.directed_routes[0].overall_pareto_front_witness_ids =
        vec!["w1".to_owned(), "w3".to_owned()];
    let mut second = room();
    second.direct_controller_evidence.directed_routes[1].loadouts[2].pareto_front_witness_ids = vec!["w2".to_owned()];
    let ws = vec![binding("w1"), binding("w2"), binding("w3")];
    assert_eq!(validate_no_orphan_witnesses(&ws, &[first, second]), Ok(()));
    assert_eq!(validate_no_orphan_witnesses(&[], &[]), Ok(()));
}

#[test]
fn unreferenced_witness_is_an_orphan() {
    let mut first = room();
    first.direct_controller_evidence.directed_routes[0].loadouts[1].easiest_known_witness_id = Some("w1".to_owned());
    let ws = vec![binding("w1"), binding("w2")];
    assert_eq!(validate_no_orphan_witnesses(&ws, &[first]), invalid(ArtifactViolation::OrphanWitness));
    assert_eq!(validate_no_orphan_witnesses(&ws, &[]), invalid(ArtifactViolation::OrphanWitness));
}

fn solver() -> SolverConfigRecord {
    SolverConfigRecord {
        max_expanded_nodes: 1000,
        max_simulated_ticks: 5000,
        max_ticks_per_path: 120,
        beam_width: 8,
        position_quantum: 2,
        velocity_quantum: 3,
        probe_direct_routes: true,
        baseline_preview_max_expanded_nodes: 10,
        baseline_preview_max_simulated_ticks: 20,
        macros: vec![SolverMacroRecord {
            name: "run".to_owned(),
            actions: vec![ActionSpanRecord { ticks: 4, move_x: 1, move_y: 0, jump: false, dash: false }],
        }],
    }
}

const CONFIG: &[u8] = b"{\"direct_controller_solver\":{}}";

fn manifest(rooms: usize, witnesses: usize) -> AnalysisManifestSummary {
    AnalysisManifestSummary {
        artifact_schema: "downwards-corpus-per-seed-deep-analysis".to_owned(),
        artifact_version: 3,
        status: "deep_analysis".to_owned(),
        seed: SEED,
        room_count: rooms,
        retained_controller_witness_count: witnesses,
        canonical_route_vector_count: 0,
        policies_current: true,
        disclaimers_current: true,
        direct_controller_solver: solver(),
        config_fingerprint: byte_hash(CONFIG),
    }
}

fn encodings(preimages: Vec<Vec<u8>>) -> ArtifactEncodings {
    ArtifactEncodings { config: CONFIG.to_vec(), witness_preimages: preimages }
}

fn controller_witness(preimage: &[u8]) -> ControllerWitnessRecord {
    let demand = ControllerDemandRecord {
        run_only: true,
        monotone_simple: true,
        ordinary_jump_events: 0,
        wall_jump_events: 0,
        dash_events: 0,
        jump_press_edges: 0,
        dash_press_edges: 0,
        horizontal_reversals: 0,
        vertical_input_changes: 0,
        dash_direction_changes: 0,
        vertical_decisions: 0,
        semantic_spans: 1,
        semantic_transitions: 0,
        duration_ticks: 12,
    };
    ControllerWitnessRecord {
        witness_id: controller_witness_id(preimage),
        room_id: "room-1".to_owned(),
        source_door_id: "A".to_owned(),
        target_door_id: "B".to_owned(),
        loadout: EvaluationLoadout::Baseline,
        initial_state_digest: "0123456789abcdef".to_owned(),
        terminal_state_digest: "0123456789abcdef".to_owned(),
        terminal_event_digest: None,
        total_ticks: 12,
        demand,
        coordinates: coordinates_from_demand(demand),
        actions: vec![ActionSpanRecord { ticks: 12, move_x: 1, move_y: 0, jump: false, dash: false }],
    }
}

#[test]
fn consistent_decoded_artifact_is_accepted() {
    let r = validate_decoded_artifact(&manifest(1, 0), &[room()], &[], &encodings(Vec::new()), &policy());
    assert_eq!(r, Ok(()));
}

#[test]
fn manifest_identity_and_counts() {
    let mut m = manifest(1, 0);
    m.status = "draft".to_owned();
    let r = validate_decoded_artifact(&m, &[room()], &[], &encodings(Vec::new()), &policy());
    assert_eq!(r, invalid(ArtifactViolation::ArtifactIdentity));
    let mut m = manifest(1, 0);
    m.policies_current = false;
    let r = validate_decoded_artifact(&m, &[room()], &[], &encodings(Vec::new()), &policy());
    assert_eq!(r, invalid(ArtifactViolation::PolicyIdentity));
    let mut m = manifest(1, 0);
    m.config_fingerprint = byte_hash(b"{}");
    let r = validate_decoded_artifact(&m, &[room()], &[], &encodings(Vec::new()), &policy());
    assert_eq!(r, invalid(ArtifactViolation::ConfigFingerprint));
    let mut m = manifest(1, 0);
    m.direct_controller_solver.beam_width = 0;
    let r = validate_decoded_artifact(&m, &[room()], &[], &encodings(Vec::new()), &policy());
    assert_eq!(r, invalid(ArtifactViolation::SolverConfigInvalid));
    let r = validate_decoded_artifact(&manifest(2, 0), &[room()], &[], &encodings(Vec::new()), &policy());
    assert_eq!(r, invalid(ArtifactViolation::ManifestCounts));
    let mut m = manifest(1, 0);
    m.canonical_route_vector_count = 1;
    let r = validate_decoded_artifact(&m, &[room()], &[], &encodings(Vec::new()), &policy());
    assert_eq!(r, invalid(ArtifactViolation::CanonicalVectorCount));
}

#[test]
fn records_are_ordered_then_checked() {
    let r = validate_decoded_artifact(&manifest(2, 0), &[room(), room()], &[], &encodings(Vec::new()), &policy());
    assert_eq!(r, invalid(ArtifactViolation::RoomOrder));
    let a = controller_witness(b"a");
    let b = controller_witness(b"b");
    let (first, second) = if a.witness_id < b.witness_id { (a, b) } else { (b, a) };
    let preimages = |x: &ControllerWitnessRecord| if x.witness_id == controller_witness_id(b"a") { b"a".to_vec() } else { b"b".to_vec() };
    let out_of_order = vec![second.clone(), first.clone()];
    let enc = encodings(out_of_order.iter().map(preimages).collect());
    let r = validate_decoded_artifact(&manifest(1, 2), &[room()], &out_of_order, &enc, &policy());
    assert_eq!(r, invalid(ArtifactViolation::WitnessOrder));
    let ordered = vec![first.clone(), second.clone()];
    let mut enc = encodings(ordered.iter().map(preimages).collect());
    enc.witness_preimages.swap(0, 1);
    let r = validate_decoded_artifact(&manifest(1, 2), &[room()], &ordered, &enc, &policy());
    assert_eq!(r, invalid(ArtifactViolation::WitnessIdentity));
    let enc = encodings(ordered.iter().map(preimages).collect());
    let mut bad_room = room();
    bad_room.row_version = 1;
    let r = validate_decoded_artifact(&manifest(1, 2), &[bad_room], &ordered, &enc, &policy());
    assert_eq!(r, invalid(ArtifactViolation::RoomIdentity));
    let r = validate_decoded_artifact(&manifest(1, 2), &[room()], &ordered, &enc, &policy());
    assert_eq!(r, invalid(ArtifactViolation::OrphanWitness));
}
