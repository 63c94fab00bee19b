use downwards_research::ability_promotion::{EvaluationLoadout, LoadoutControllerAuditStatus};
use downwards_research::checks::{ArtifactViolation, CorpusAnalysisArtifactError};
use downwards_research::identity::stable_binding_id;
use downwards_research::operational_cost::{
    CanonicalRouteCostUnitRecord, DirectControllerCostUnitRecord, LoadoutSlugs,
    OperationalCostRecord, OperationalCostSummaryRecord, validate_operational_cost,
};
use downwards_research::room_evidence::{SharedLoadoutAuditRecord, SourceAuditRecord};

const COMPLETE: LoadoutControllerAuditStatus = LoadoutControllerAuditStatus::CompleteFiniteVocabulary;

fn invalid(v: ArtifactViolation) -> CorpusAnalysisArtifactError {
    CorpusAnalysisArtifactError::Invalid(v)
}

fn slugs() -> LoadoutSlugs {
    LoadoutSlugs {
        baseline: "baseline".to_owned(),
        wall_jump: "wall-jump".to_owned(),
        dash: "dash".to_owned(),
        both: "both".to_owned(),
    }
}

fn slug(l: EvaluationLoadout) -> &'static str {
    match l {
        EvaluationLoadout::Baseline => "baseline",
        EvaluationLoadout::WallJump => "wall-jump",
        EvaluationLoadout::Dash => "dash",
        EvaluationLoadout::Both => "both",
    }
}

fn cost(n: usize, depth: usize) -> OperationalCostRecord {
    OperationalCostRecord { expanded_nodes: n, generated_nodes: 2 * n, simulated_ticks: 3 * n, deepest_path_ticks: depth }
}

fn direct_id(source: &str, l: EvaluationLoadout) -> String {
    stable_binding_id("direct-cost-v1", &[source, slug(l)])
}

fn sources() -> Vec<SourceAuditRecord> {
    ["A", "B"]
        .into_iter()
        .map(|door| SourceAuditRecord {
            source_door_id: door.to_owned(),
            target_door_ids: vec![if door == "A" { "B" } else { "A" }.to_owned()],
            authoritative_loadout: EvaluationLoadout::Both,
            expected_subset_loadouts: EvaluationLoadout::all(),
            shared_loadout_audits: EvaluationLoadout::all()
                .into_iter()
                .map(|loadout| SharedLoadoutAuditRecord {
                    loadout,
                    status: COMPLETE,
                    target_count: 1,
                    raw_positive_witnesses: 0,
                    retained_semantic_witnesses: 0,
                    operational_cost_ref: direct_id(door, loadout),
                })
                .collect(),
        })
        .collect()
}

fn summary() -> OperationalCostSummaryRecord {
    let mut units = Vec::new();
    for door in ["A", "B"] {
        for (i, loadout) in EvaluationLoadout::all().into_iter().enumerate() {
            units.push(DirectControllerCostUnitRecord {
                cost_id: direct_id(door, loadout),
                source_door_id: door.to_owned(),
                loadout,
                status: COMPLETE,
                cost: cost(i + 1, 10 * (i + 1)),
            });
        }
    }
    let canonical = vec![CanonicalRouteCostUnitRecord {
        cost_id: stable_binding_id("canonical-cost-v1", &["A", "B", "both"]),
        source_door_id: "A".to_owned(),
        target_door_id: "B".to_owned(),
        loadout: EvaluationLoadout::Both,
        cost: cost(7, 5),
    }];
    OperationalCostSummaryRecord {
        interpretation: "solver_capacity_evidence_not_player_difficulty".to_owned(),
        direct_controller_reported_total: cost(20, 40),
        direct_controller_recomputed_total: cost(20, 40),
        direct_controller_audit_units: units,
        canonical_positive_route_total: cost(7, 5),
        canonical_positive_routes: canonical,
    }
}

#[test]
fn consistent_operational_costs_are_accepted() {
    assert_eq!(validate_operational_cost(&summary(), &sources(), &slugs()), Ok(()));
}

#[test]
fn order_and_identity_are_checked_first() {
    let mut s = summary();
    s.interpretation = "player difficulty".to_owned();
    assert_eq!(
        validate_operational_cost(&s, &sources(), &slugs()),
        Err(invalid(ArtifactViolation::OperationalInterpretation))
    );
    let mut s = summary();
    s.direct_controller_audit_units.swap(0, 4);
    assert_eq!(validate_operational_cost(&s, &sources(), &slugs()), Err(invalid(ArtifactViolation::DirectCostOrder)));
    let mut s = summary();
    s.direct_controller_audit_units[2].cost_id = "direct-cost-v1-0000000000000000".to_owned();
    assert_eq!(
        validate_operational_cost(&s, &sources(), &slugs()),
        Err(invalid(ArtifactViolation::DirectCostIdentity))
    );
    let mut other = slugs();
    other.dash = "dash-v2".to_owned();
    assert_eq!(
        validate_operational_cost(&summary(), &sources(), &other),
        Err(invalid(ArtifactViolation::DirectCostIdentity))
    );
}

#[test]
fn shared_audits_and_units_correspond_one_to_one() {
    let mut src = sources();
    src[1].shared_loadout_audits[0].operational_cost_ref = "absent".to_owned();
    assert_eq!(
        validate_operational_cost(&summary(), &src, &slugs()),
        Err(invalid(ArtifactViolation::AbsentDirectCost))
    );
    let mut src = sources();
    src[1].shared_loadout_audits[0].operational_cost_ref = direct_id("A", EvaluationLoadout::Baseline);
    assert_eq!(
        validate_operational_cost(&summary(), &src, &slugs()),
        Err(invalid(ArtifactViolation::DirectCostCrossReference))
    );
    let mut src = sources();
    src.pop();
    assert_eq!(
        validate_operational_cost(&summary(), &src, &slugs()),
        Err(invalid(ArtifactViolation::OrphanDirectCost))
    );
}

#[test]
fn totals_are_recomputed_with_saturation_and_maximum_depth() {
    let mut s = summary();
    s.direct_controller_reported_total = cost(21, 40);
    assert_eq!(validate_operational_cost(&s, &sources(), &slugs()), Err(invalid(ArtifactViolation::DirectCostTotals)));
    let mut s = summary();
    s.canonical_positive_route_total = cost(7, 6);
    assert_eq!(
        validate_operational_cost(&s, &sources(), &slugs()),
        Err(invalid(ArtifactViolation::CanonicalCostTotal))
    );
    let mut s = summary();
    s.canonical_positive_routes[0].cost_id = "x".to_owned();
    assert_eq!(
        validate_operational_cost(&s, &sources(), &slugs()),
        Err(invalid(ArtifactViolation::CanonicalCostIdentity))
    );
}
