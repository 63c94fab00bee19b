use downwards_research::ability_promotion::{
    AbilityPromotionBudgetLimitV2, EvaluationLoadout, LoadoutControllerAuditStatus,
};
use downwards_research::checks::{ArtifactViolation, CorpusAnalysisArtifactError, RouteCompletenessRecord};
use downwards_research::demand::ControllerDemandCoordinatesRecord;
use downwards_research::direct_aggregates::ControllerLoadoutCell;
use downwards_research::room_evidence::{
    DirectedControllerLoadoutRecord, DirectedControllerRouteRecord, PositiveBypassRecord,
    SharedLoadoutAuditRecord, SourceAuditRecord, route_cells, source_cells,
    validate_direct_controller_evidence,
};
use downwards_research::witness_refs::WitnessBindingRecord;

const COMPLETE: LoadoutControllerAuditStatus = LoadoutControllerAuditStatus::CompleteFiniteVocabulary;

fn invalid(v: ArtifactViolation) -> CorpusAnalysisArtifactError {
    CorpusAnalysisArtifactError::Invalid(v)
}

fn doors() -> Vec<String> {
    vec!["A".to_owned(), "B".to_owned(), "C".to_owned()]
}

fn positives(source: &str, target: &str, loadout: EvaluationLoadout) -> (usize, usize) {
    match (source, target, loadout) {
        ("A", "B", EvaluationLoadout::WallJump) => (1, 1),
        ("A", "B", EvaluationLoadout::Both) => (2, 1),
        _ => (0, 0),
    }
}

fn witness_id(source: &str, target: &str, loadout: EvaluationLoadout) -> String {
    format!("{source}{target}{loadout:?}")
}

fn witnesses() -> Vec<WitnessBindingRecord> {
    let mut ws = Vec::new();
    for s in doors() {
        for t in doors() {
            for loadout in EvaluationLoadout::all() {
                if s != t && positives(&s, &t, loadout).1 > 0 {
                    ws.push(WitnessBindingRecord {
                        witness_id: witness_id(&s, &t, loadout),
                        room_id: "room".to_owned(),
                        source_door_id: s.clone(),
                        target_door_id: t.clone(),
                        loadout,
                        coordinates: ControllerDemandCoordinatesRecord {
                            controller_class: 1,
                            ability_events: 1,
                            horizontal_reversals: 0,
                            vertical_decisions: 0,
                            semantic_spans: 1,
                            semantic_transitions: 0,
                            duration_ticks: 30,
                        },
                    });
                }
            }
        }
    }
    ws
}

fn check(
    doors: &[String],
    sources: &[SourceAuditRecord],
    routes: &[DirectedControllerRouteRecord],
) -> Result<(), CorpusAnalysisArtifactError> {
    validate_direct_controller_evidence(&"room".to_owned(), doors, sources, routes, &witnesses())
}

fn route(source: &str, target: &str) -> DirectedControllerRouteRecord {
    let loadouts = EvaluationLoadout::all()
        .into_iter()
        .map(|loadout| {
            let (raw, retained) = positives(source, target, loadout);
            DirectedControllerLoadoutRecord {
                loadout,
                status: COMPLETE,
                raw_positive_witnesses: raw,
                retained_semantic_witnesses: retained,
                easiest_known_witness_id: (retained > 0).then(|| witness_id(source, target, loadout)),
                pareto_front_witness_ids: if retained > 0 { vec![witness_id(source, target, loadout)] } else { Vec::new() },
            }
        })
        .collect::<Vec<_>>();
    let any = loadouts.iter().any(|l| l.retained_semantic_witnesses > 0);
    let positive_bypasses = loadouts
        .iter()
        .filter(|l| l.loadout != EvaluationLoadout::Both && l.retained_semantic_witnesses > 0)
        .map(|l| PositiveBypassRecord { loadout: l.loadout, retained_semantic_witnesses: l.retained_semantic_witnesses })
        .collect();
    DirectedControllerRouteRecord {
        source_door_id: source.to_owned(),
        target_door_id: target.to_owned(),
        authoritative_loadout: EvaluationLoadout::Both,
        expected_subset_loadouts: EvaluationLoadout::all(),
        completeness: RouteCompletenessRecord::CompleteFiniteVocabulary,
        overall_easiest_known_witness_id: any.then(|| witness_id(source, target, EvaluationLoadout::Both)),
        overall_pareto_front_witness_ids: if any { vec![witness_id(source, target, EvaluationLoadout::Both)] } else { Vec::new() },
        loadouts,
        positive_bypasses,
    }
}

fn routes() -> Vec<DirectedControllerRouteRecord> {
    let mut routes = Vec::new();
    for s in doors() {
        for t in doors() {
            if s != t {
                routes.push(route(&s, &t));
            }
        }
    }
    routes
}

fn source(door: &str) -> SourceAuditRecord {
    let targets = doors().into_iter().filter(|d| d != door).collect::<Vec<_>>();
    SourceAuditRecord {
        source_door_id: door.to_owned(),
        target_door_ids: targets.clone(),
        authoritative_loadout: EvaluationLoadout::Both,
        expected_subset_loadouts: EvaluationLoadout::all(),
        shared_loadout_audits: EvaluationLoadout::all()
            .into_iter()
            .map(|loadout| {
                let (raw, retained) = targets
                    .iter()
                    .map(|t| positives(door, t, loadout))
                    .fold((0, 0), |(a, b), (c, d)| (a + c, b + d));
                SharedLoadoutAuditRecord {
                    loadout,
                    status: COMPLETE,
                    target_count: targets.len(),
                    raw_positive_witnesses: raw,
                    retained_semantic_witnesses: retained,
                    operational_cost_ref: format!("cost-{door}-{loadout:?}"),
                }
            })
            .collect(),
    }
}

fn sources() -> Vec<SourceAuditRecord> {
    doors().iter().map(|d| source(d)).collect()
}

#[test]
fn canonical_direct_evidence_is_accepted() {
    assert_eq!(check(&doors(), &sources(), &routes()), Ok(()));
}

#[test]
fn door_universe_checks_come_first() {
    let unordered = vec!["B".to_owned(), "A".to_owned(), "C".to_owned()];
    assert_eq!(
        check(&unordered, &sources(), &routes()),
        Err(invalid(ArtifactViolation::DoorOrder))
    );
    assert_eq!(
        check(&["A".to_owned()], &[], &[]),
        Err(invalid(ArtifactViolation::TooFewDoors))
    );
    let mut s = sources();
    s.pop();
    assert_eq!(
        check(&doors(), &s, &routes()),
        Err(invalid(ArtifactViolation::SourceAuditCount { found: 2, expected: 3 }))
    );
}

#[test]
fn source_audits_must_follow_the_doors() {
    let mut s = sources();
    s.swap(0, 1);
    assert_eq!(
        check(&doors(), &s, &routes()),
        Err(invalid(ArtifactViolation::SourceAuditIdentity))
    );
    let mut s = sources();
    s[1].target_door_ids.reverse();
    assert_eq!(
        check(&doors(), &s, &routes()),
        Err(invalid(ArtifactViolation::SourceTargetOrder))
    );
    let mut s = sources();
    s[2].shared_loadout_audits[0].target_count = 3;
    assert_eq!(
        check(&doors(), &s, &routes()),
        Err(invalid(ArtifactViolation::SharedAuditCounts))
    );
    let mut s = sources();
    s[0].shared_loadout_audits.swap(0, 1);
    assert_eq!(
        check(&doors(), &s, &routes()),
        Err(invalid(ArtifactViolation::LoadoutOrder))
    );
}

#[test]
fn routes_must_cover_every_ordered_pair_in_order() {
    let mut r = routes();
    r.pop();
    assert_eq!(
        check(&doors(), &sources(), &r),
        Err(invalid(ArtifactViolation::DirectRouteCount { found: 5, expected: 6 }))
    );
    let mut r = routes();
    r.swap(2, 3);
    assert_eq!(
        check(&doors(), &sources(), &r),
        Err(invalid(ArtifactViolation::DirectRouteIdentity))
    );
}

#[test]
fn route_loadouts_must_agree_with_their_counts_and_sources() {
    let mut r = routes();
    r[0].overall_easiest_known_witness_id = None;
    assert_eq!(
        check(&doors(), &sources(), &r),
        Err(invalid(ArtifactViolation::OverallPositiveAvailability))
    );
    let mut r = routes();
    r[0].loadouts[3].easiest_known_witness_id = None;
    assert_eq!(
        check(&doors(), &sources(), &r),
        Err(invalid(ArtifactViolation::LoadoutWitnessCounts))
    );
    let mut r = routes();
    let bounded = LoadoutControllerAuditStatus::BoundedIncomplete { limit: AbilityPromotionBudgetLimitV2::SimulatedTicks };
    r[4].loadouts[2].status = bounded;
    r[4].completeness = RouteCompletenessRecord::BoundedIncomplete {
        incomplete_loadouts: vec![downwards_research::checks::BoundedLoadoutRecord {
            loadout: EvaluationLoadout::Dash,
            limit: AbilityPromotionBudgetLimitV2::SimulatedTicks,
        }],
    };
    assert_eq!(
        check(&doors(), &sources(), &r),
        Err(invalid(ArtifactViolation::StatusDiffersFromSource))
    );
    let mut r = routes();
    r[4].loadouts[2].status = bounded;
    assert_eq!(
        check(&doors(), &sources(), &r),
        Err(invalid(ArtifactViolation::CompletenessMismatch))
    );
}

#[test]
fn witness_references_are_checked_overall_then_per_loadout() {
    let mut r = routes();
    r[0].overall_pareto_front_witness_ids.clear();
    r[0].loadouts[3].easiest_known_witness_id = None;
    assert_eq!(check(&doors(), &sources(), &r), Err(invalid(ArtifactViolation::EasiestParetoAvailability)));
    let mut r = routes();
    r[0].loadouts[1].pareto_front_witness_ids.push(witness_id("A", "B", EvaluationLoadout::Both));
    assert_eq!(check(&doors(), &sources(), &r), Err(invalid(ArtifactViolation::WitnessBinding)));
    let mut r = routes();
    r[0].overall_pareto_front_witness_ids.push("ABDash".to_owned());
    assert_eq!(check(&doors(), &sources(), &r), Err(invalid(ArtifactViolation::AbsentWitness)));
    let mut ws = witnesses();
    ws[0].room_id = "other".to_owned();
    assert_eq!(
        validate_direct_controller_evidence(&"room".to_owned(), &doors(), &sources(), &routes(), &ws),
        Err(invalid(ArtifactViolation::WitnessBinding))
    );
}

#[test]
fn bypasses_and_shared_sums_are_recomputed() {
    let mut r = routes();
    r[0].positive_bypasses.clear();
    assert_eq!(
        check(&doors(), &sources(), &r),
        Err(invalid(ArtifactViolation::PositiveBypassDiffers))
    );
    let mut r = routes();
    r[0].positive_bypasses.push(PositiveBypassRecord {
        loadout: EvaluationLoadout::Baseline,
        retained_semantic_witnesses: 1,
    });
    assert_eq!(
        check(&doors(), &sources(), &r),
        Err(invalid(ArtifactViolation::PositiveBypassOrder))
    );
    let mut s = sources();
    s[0].shared_loadout_audits[3].raw_positive_witnesses = 1;
    assert_eq!(
        check(&doors(), &s, &routes()),
        Err(invalid(ArtifactViolation::SharedWitnessSums))
    );
}

#[test]
fn cells_read_status_and_retained_witnesses() {
    let cells = route_cells(&routes());
    assert_eq!(cells.len(), 6);
    assert_eq!(
        cells[0][3],
        ControllerLoadoutCell { loadout: EvaluationLoadout::Both, status: COMPLETE, retained_semantic_witnesses: 1 }
    );
    let cells = source_cells(&sources());
    assert_eq!(cells[0][1].retained_semantic_witnesses, 1);
    assert_eq!(cells[2][1].retained_semantic_witnesses, 0);
}
