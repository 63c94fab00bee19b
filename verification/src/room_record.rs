//! A retained room record checked as a whole: its identities and generation
//! key, its direct-controller evidence with the witness references it makes,
//! its operational costs, canonical routes, terrain evidence and metric
//! aggregates, in that order.
use vstd::prelude::*;

use crate::ability_promotion::EvaluationLoadout;
use crate::analysis_config::CORPUS_ROOM_ANALYSIS_VERSION;
use crate::canonical_routes::{
    CanonicalRouteDifficultyRecord, CanonicalRoutePolicy, canonical_routes_result, validate_canonical_routes,
};
use crate::checks::{ArtifactViolation, CorpusAnalysisArtifactError};
use crate::direct_aggregates::{has_cell, rows_view};
use crate::landing::{all_samples, selected_landings};
use crate::metric_aggregates::{MetricAggregatesRecord, metric_aggregates_result, validate_metric_aggregates};
use crate::operational_cost::{
    LoadoutSlugs, OperationalCostSummaryRecord, operational_cost_result, validate_operational_cost,
};
use crate::room_evidence::{
    DirectedControllerRouteRecord, SourceAuditRecord, evidence_result, lemma_evidence_cells, route_cells,
    route_cells_of, shared_cells, source_cells, validate_direct_controller_evidence, witness_total,
};
use crate::terrain::{TerrainPositiveEvidenceRecord, terrain_result, total_controllers, validate_terrain};
use crate::witness_refs::WitnessBindingRecord;

verus! {

/// Version of the complete deep-analysis artifact schema and validation policy.
pub const CORPUS_ANALYSIS_ARTIFACT_VERSION: u32 = 3;

/// How the generation layer reads a room's generation key.
#[derive(Clone, Copy, Debug, PartialEq, Eq, Structural)]
pub enum GenerationKeyStatus {
    /// The key names a known strategy and intent and is in canonical form.
    Canonical,
    UnknownStrategy,
    UnknownIntent,
    NotCanonical,
}

/// What the room checks read of a room's generation key.
#[derive(Clone, Copy, Debug, PartialEq, Eq, Structural)]
pub struct GenerationKeySummary {
    pub seed: u64,
    pub status: GenerationKeyStatus,
}

/// A room's retained direct-controller evidence.
#[derive(Clone, Debug, PartialEq, Eq)]
pub struct DirectControllerEvidenceRecord {
    pub source_audits: Vec<SourceAuditRecord>,
    pub directed_routes: Vec<DirectedControllerRouteRecord>,
}

/// One retained room of a deep-analysis artifact.
#[derive(Clone, Debug, PartialEq, Eq)]
pub struct RoomRecord {
    pub row_version: u32,
    pub room_id: String,
    pub generation_key: GenerationKeySummary,
    pub analysis_version: u32,
    pub metric_summary_version: u32,
    pub door_ids: Vec<String>,
    pub direct_controller_evidence: DirectControllerEvidenceRecord,
    pub canonical_route_difficulty: CanonicalRouteDifficultyRecord,
    pub terrain_positive_evidence: TerrainPositiveEvidenceRecord,
    pub metric_aggregates: MetricAggregatesRecord,
    pub operational_cost: OperationalCostSummaryRecord,
}

/// The identities of the other layers that a room record must carry.
pub struct RoomPolicy {
    pub metric_summary_version: u32,
    pub terrain_audit_version: u32,
    pub canonical: CanonicalRoutePolicy,
    pub slugs: LoadoutSlugs,
}

/// The outcome of the generation layer's reading of the key.
pub open spec fn key_result(status: GenerationKeyStatus) -> Result<(), CorpusAnalysisArtifactError> {
    match status {
        GenerationKeyStatus::Canonical => Ok(()),
        GenerationKeyStatus::UnknownStrategy => Err(
            CorpusAnalysisArtifactError::Invalid(ArtifactViolation::UnknownGenerationStrategy),
        ),
        GenerationKeyStatus::UnknownIntent => Err(
            CorpusAnalysisArtifactError::Invalid(ArtifactViolation::UnknownGenerationIntent),
        ),
        GenerationKeyStatus::NotCanonical => Err(
            CorpusAnalysisArtifactError::Invalid(ArtifactViolation::NonCanonicalGenerationKey),
        ),
    }
}

/// The number of ordered pairs of distinct doors.
pub open spec fn directed_routes(doors: Seq<String>) -> usize {
    (doors.len() * (doors.len() - 1)) as usize
}

/// The outcome of checking the room's doors and direct-controller evidence,
/// with its witness references, against the retained witnesses `ws`.
#[verifier::opaque]
pub open spec fn direct_step(room: RoomRecord, ws: Seq<WitnessBindingRecord>) -> Result<(), CorpusAnalysisArtifactError> {
    evidence_result(
        room.room_id,
        room.door_ids@,
        room.direct_controller_evidence.source_audits@,
        room.direct_controller_evidence.directed_routes@,
        ws,
    )
}

/// The outcome of checking the room's operational costs.
#[verifier::opaque]
pub open spec fn operational_step(room: RoomRecord, policy: RoomPolicy) -> Result<(), CorpusAnalysisArtifactError> {
    operational_cost_result(room.operational_cost, room.direct_controller_evidence.source_audits@, policy.slugs)
}

/// The outcome of checking the room's canonical routes.
#[verifier::opaque]
pub open spec fn canonical_step(room: RoomRecord, policy: RoomPolicy) -> Result<(), CorpusAnalysisArtifactError> {
    canonical_routes_result(
        room.canonical_route_difficulty,
        room.door_ids@,
        room.operational_cost.canonical_positive_routes@,
        room.metric_aggregates.canonical_routes,
        directed_routes(room.door_ids@),
        policy.canonical,
    )
}

/// The outcome of checking the room's terrain evidence.
#[verifier::opaque]
pub open spec fn terrain_step(room: RoomRecord, policy: RoomPolicy) -> Result<(), CorpusAnalysisArtifactError> {
    terrain_result(room.terrain_positive_evidence, room.metric_aggregates.terrain, policy.terrain_audit_version)
}

/// The outcome of checking the room's metric aggregates.
#[verifier::opaque]
pub open spec fn metric_step(room: RoomRecord) -> Result<(), CorpusAnalysisArtifactError> {
    metric_aggregates_result(
        room.metric_aggregates,
        room.canonical_route_difficulty.routes@,
        room.direct_controller_evidence.source_audits@.map_values(
            |s: SourceAuditRecord| shared_cells(s.shared_loadout_audits@),
        ),
        room.direct_controller_evidence.directed_routes@.map_values(
            |d: DirectedControllerRouteRecord| route_cells_of(d.loadouts@),
        ),
        room.door_ids@,
        directed_routes(room.door_ids@),
    )
}

/// The room's row, analysis and metric versions and its key's seed are current.
pub open spec fn identity_ok(seed: u64, room: RoomRecord, policy: RoomPolicy) -> bool {
    &&& room.row_version == CORPUS_ANALYSIS_ARTIFACT_VERSION
    &&& room.analysis_version == CORPUS_ROOM_ANALYSIS_VERSION
    &&& room.metric_summary_version == policy.metric_summary_version
    &&& room.generation_key.seed == seed
}

/// The outcome of checking room `room` of seed `seed` against the retained
/// witnesses `ws` and the policy in force: the first failing step of
/// identity, key, direct evidence, operational cost, canonical routes,
/// terrain and metric aggregates.
pub open spec fn room_result(
    seed: u64,
    room: RoomRecord,
    ws: Seq<WitnessBindingRecord>,
    policy: RoomPolicy,
) -> Result<(), CorpusAnalysisArtifactError> {
    if !identity_ok(seed, room, policy) {
        Err(CorpusAnalysisArtifactError::Invalid(ArtifactViolation::RoomIdentity))
    } else if key_result(room.generation_key.status) is Err {
        key_result(room.generation_key.status)
    } else if direct_step(room, ws) is Err {
        direct_step(room, ws)
    } else if operational_step(room, policy) is Err {
        operational_step(room, policy)
    } else if canonical_step(room, policy) is Err {
        canonical_step(room, policy)
    } else if terrain_step(room, policy) is Err {
        terrain_step(room, policy)
    } else {
        metric_step(room)
    }
}

/// The rows of cells that the direct aggregates read: every loadout present.
pub open spec fn rows_complete(room: RoomRecord) -> bool {
    let sources = room.direct_controller_evidence.source_audits@;
    let routes = room.direct_controller_evidence.directed_routes@;
    &&& forall|i: int, l: EvaluationLoadout|
        0 <= i < sources.len() ==> #[trigger] has_cell(shared_cells(sources[i].shared_loadout_audits@), l)
    &&& forall|i: int, l: EvaluationLoadout|
        0 <= i < routes.len() ==> #[trigger] has_cell(route_cells_of(routes[i].loadouts@), l)
}

fn check_direct(room: &RoomRecord, ws: &[WitnessBindingRecord]) -> (r: Result<(), CorpusAnalysisArtifactError>)
    requires
        witness_total(room.direct_controller_evidence.directed_routes@) <= usize::MAX,
    ensures
        r == direct_step(*room, ws@),
        r is Ok ==> room.door_ids@.len() >= 2 && room.door_ids@.len() * (room.door_ids@.len() - 1) <= usize::MAX
            && rows_complete(*room),
{
    proof {
        reveal(direct_step);
    }
    let r = validate_direct_controller_evidence(
        &room.room_id,
        room.door_ids.as_slice(),
        room.direct_controller_evidence.source_audits.as_slice(),
        room.direct_controller_evidence.directed_routes.as_slice(),
        ws,
    );
    if r.is_ok() {
        proof {
            lemma_evidence_cells(
                room.room_id,
                room.door_ids@,
                room.direct_controller_evidence.source_audits@,
                room.direct_controller_evidence.directed_routes@,
                ws@,
            );
        }
    }
    r
}

fn check_operational(room: &RoomRecord, policy: &RoomPolicy) -> (r: Result<(), CorpusAnalysisArtifactError>)
    ensures
        r == operational_step(*room, *policy),
{
    proof {
        reveal(operational_step);
    }
    validate_operational_cost(&room.operational_cost, room.direct_controller_evidence.source_audits.as_slice(), &policy.slugs)
}

fn check_canonical(room: &RoomRecord, policy: &RoomPolicy, directed_route_count: usize) -> (r: Result<
    (),
    CorpusAnalysisArtifactError,
>)
    requires
        directed_route_count == directed_routes(room.door_ids@),
    ensures
        r == canonical_step(*room, *policy),
{
    proof {
        reveal(canonical_step);
    }
    validate_canonical_routes(
        &room.canonical_route_difficulty,
        room.door_ids.as_slice(),
        room.operational_cost.canonical_positive_routes.as_slice(),
        &room.metric_aggregates.canonical_routes,
        directed_route_count,
        &policy.canonical,
    )
}

fn check_terrain(room: &RoomRecord, policy: &RoomPolicy) -> (r: Result<(), CorpusAnalysisArtifactError>)
    requires
        total_controllers(room.metric_aggregates.terrain.ablations@) <= usize::MAX,
    ensures
        r == terrain_step(*room, *policy),
{
    proof {
        reveal(terrain_step);
    }
    validate_terrain(&room.terrain_positive_evidence, &room.metric_aggregates.terrain, policy.terrain_audit_version)
}

fn check_metrics(room: &RoomRecord, directed_route_count: usize) -> (r: Result<(), CorpusAnalysisArtifactError>)
    requires
        room.door_ids@.len() > 0,
        directed_route_count == directed_routes(room.door_ids@),
        rows_complete(*room),
        all_samples(selected_landings(room.canonical_route_difficulty.routes@, None)).len() <= usize::MAX,
    ensures
        r == metric_step(*room),
{
    proof {
        reveal(metric_step);
    }
    let sources = room.direct_controller_evidence.source_audits.as_slice();
    let routes = room.direct_controller_evidence.directed_routes.as_slice();
    let source_rows = source_cells(sources);
    let route_rows = route_cells(routes);
    assert forall|i: int, l: EvaluationLoadout| 0 <= i < source_rows@.len() implies #[trigger] has_cell(
        source_rows@[i]@,
        l,
    ) by {
        assert(rows_view(source_rows@)[i] == source_rows@[i]@);
        assert(has_cell(shared_cells(sources@[i].shared_loadout_audits@), l));
    }
    assert forall|i: int, l: EvaluationLoadout| 0 <= i < route_rows@.len() implies #[trigger] has_cell(
        route_rows@[i]@,
        l,
    ) by {
        assert(rows_view(route_rows@)[i] == route_rows@[i]@);
        assert(has_cell(route_cells_of(routes@[i].loadouts@), l));
    }
    validate_metric_aggregates(
        &room.metric_aggregates,
        room.canonical_route_difficulty.routes.as_slice(),
        source_rows.as_slice(),
        route_rows.as_slice(),
        room.door_ids.as_slice(),
        directed_route_count,
    )
}

/// Check one retained room of seed `seed`: its row, analysis and metric
/// versions and key seed, the generation layer's reading of its key, its
/// doors and direct-controller evidence with every witness reference sound
/// against the retained witnesses `ws`, its operational costs, its canonical
/// routes, its terrain evidence, and its metric aggregates.
pub fn validate_room_record(
    seed: u64,
    room: &RoomRecord,
    ws: &[WitnessBindingRecord],
    policy: &RoomPolicy,
) -> (r: Result<(), CorpusAnalysisArtifactError>)
    requires
        witness_total(room.direct_controller_evidence.directed_routes@) <= usize::MAX,
        total_controllers(room.metric_aggregates.terrain.ablations@) <= usize::MAX,
        all_samples(selected_landings(room.canonical_route_difficulty.routes@, None)).len() <= usize::MAX,
    ensures
        r == room_result(seed, *room, ws@, *policy),
{
    if room.row_version != CORPUS_ANALYSIS_ARTIFACT_VERSION || room.analysis_version != CORPUS_ROOM_ANALYSIS_VERSION
        || room.metric_summary_version != policy.metric_summary_version || room.generation_key.seed != seed {
        return Err(CorpusAnalysisArtifactError::Invalid(ArtifactViolation::RoomIdentity));
    }
    match room.generation_key.status {
        GenerationKeyStatus::Canonical => {},
        GenerationKeyStatus::UnknownStrategy => {
            return Err(CorpusAnalysisArtifactError::Invalid(ArtifactViolation::UnknownGenerationStrategy));
        },
        GenerationKeyStatus::UnknownIntent => {
            return Err(CorpusAnalysisArtifactError::Invalid(ArtifactViolation::UnknownGenerationIntent));
        },
        GenerationKeyStatus::NotCanonical => {
            return Err(CorpusAnalysisArtifactError::Invalid(ArtifactViolation::NonCanonicalGenerationKey));
        },
    }
    let direct = check_direct(room, ws);
    if direct.is_err() {
        return direct;
    }
    let n = room.door_ids.len();
    let directed_route_count = n * (n - 1);
    let operational = check_operational(room, policy);
    if operational.is_err() {
        return operational;
    }
    let canonical = check_canonical(room, policy, directed_route_count);
    if canonical.is_err() {
        return canonical;
    }
    let terrain = check_terrain(room, policy);
    if terrain.is_err() {
        return terrain;
    }
    check_metrics(room, directed_route_count)
}

} // verus!
