//! A decoded deep-analysis artifact checked as a whole: its manifest
//! identity, configuration fingerprint and solver configuration, its record
//! counts and orders, every retained witness, every room with the witness
//! references it makes, and no unreferenced witness.
use vstd::prelude::*;

use crate::asymmetry_rows::{text_less, text_lt};
use crate::checks::{ArtifactViolation, CorpusAnalysisArtifactError};
use crate::identity::{byte_hash, byte_hash_text};
use crate::landing::{all_samples, selected_landings};
use crate::room_evidence::witness_total;
use crate::room_record::{RoomPolicy, RoomRecord, room_result, validate_room_record};
use crate::terrain::total_controllers;
use crate::witness_record::{
    ControllerWitnessRecord, SolverConfigRecord, bindings, solver_config_result, validate_solver_config,
    validate_witness_record, witness_bindings, witness_result,
};
use crate::witness_refs::{orphan_result, validate_no_orphan_witnesses};
use vstd::string::StringExecFns;

verus! {

/// What the artifact checks read of a deep-analysis manifest.
pub struct AnalysisManifestSummary {
    pub artifact_schema: String,
    pub artifact_version: u32,
    pub status: String,
    pub seed: u64,
    pub room_count: usize,
    pub retained_controller_witness_count: usize,
    pub canonical_route_vector_count: usize,
    /// The manifest's policy identities equal those of the layers in force.
    pub policies_current: bool,
    /// The manifest's disclaimers equal the current ones.
    pub disclaimers_current: bool,
    pub direct_controller_solver: SolverConfigRecord,
    pub config_fingerprint: String,
}

/// Canonical encodings that the artifact's identities hash: the manifest's
/// analysis configuration, and each witness's identity preimage in witness
/// order.
pub struct ArtifactEncodings {
    pub config: Vec<u8>,
    pub witness_preimages: Vec<Vec<u8>>,
}

/// Total canonical route vectors over the rooms.
pub open spec fn canonical_total(rooms: Seq<RoomRecord>) -> nat
    decreases rooms.len(),
{
    if rooms.len() == 0 {
        0
    } else {
        canonical_total(rooms.drop_last()) + rooms.last().canonical_route_difficulty.routes@.len()
    }
}

/// Room identifiers in strictly ascending order.
pub open spec fn rooms_strict(rooms: Seq<RoomRecord>) -> bool {
    forall|i: int| 0 < i < rooms.len() ==> text_lt(#[trigger] rooms[i - 1].room_id@, rooms[i].room_id@)
}

/// Witness identifiers in strictly ascending order.
pub open spec fn witnesses_strict(ws: Seq<ControllerWitnessRecord>) -> bool {
    forall|i: int| 0 < i < ws.len() ==> text_lt(#[trigger] ws[i - 1].witness_id@, ws[i].witness_id@)
}

/// The first failing witness's outcome, from position `k` on.
pub open spec fn witnesses_from(
    ws: Seq<ControllerWitnessRecord>,
    preimages: Seq<Vec<u8>>,
    solver: SolverConfigRecord,
    k: int,
) -> Result<(), CorpusAnalysisArtifactError>
    decreases ws.len() - k,
{
    if k < 0 || k >= ws.len() {
        Ok(())
    } else {
        match witness_result(ws[k], solver, preimages[k]@) {
            Err(e) => Err(e),
            Ok(()) => witnesses_from(ws, preimages, solver, k + 1),
        }
    }
}

/// The first failing room's outcome, from position `k` on.
pub open spec fn rooms_from(
    rooms: Seq<RoomRecord>,
    seed: u64,
    ws: Seq<ControllerWitnessRecord>,
    policy: RoomPolicy,
    k: int,
) -> Result<(), CorpusAnalysisArtifactError>
    decreases rooms.len() - k,
{
    if k < 0 || k >= rooms.len() {
        Ok(())
    } else {
        match room_result(seed, rooms[k], bindings(ws), policy) {
            Err(e) => Err(e),
            Ok(()) => rooms_from(rooms, seed, ws, policy, k + 1),
        }
    }
}

/// Each room is within the machine limits its checks count under.
pub open spec fn rooms_countable(rooms: Seq<RoomRecord>) -> bool {
    forall|k: int|
        0 <= k < rooms.len() ==> {
            let room = #[trigger] rooms[k];
            &&& witness_total(room.direct_controller_evidence.directed_routes@) <= usize::MAX
            &&& total_controllers(room.metric_aggregates.terrain.ablations@) <= usize::MAX
            &&& all_samples(selected_landings(room.canonical_route_difficulty.routes@, None)).len() <= usize::MAX
        }
}

/// The outcome of the checks from record order on.
pub open spec fn order_on(
    manifest: AnalysisManifestSummary,
    rooms: Seq<RoomRecord>,
    ws: Seq<ControllerWitnessRecord>,
    encodings: ArtifactEncodings,
    policy: RoomPolicy,
) -> Result<(), CorpusAnalysisArtifactError> {
    if !rooms_strict(rooms) {
        Err(CorpusAnalysisArtifactError::Invalid(ArtifactViolation::RoomOrder))
    } else if !witnesses_strict(ws) {
        Err(CorpusAnalysisArtifactError::Invalid(ArtifactViolation::WitnessOrder))
    } else if witnesses_from(ws, encodings.witness_preimages@, manifest.direct_controller_solver, 0) is Err {
        witnesses_from(ws, encodings.witness_preimages@, manifest.direct_controller_solver, 0)
    } else if rooms_from(rooms, manifest.seed, ws, policy, 0) is Err {
        rooms_from(rooms, manifest.seed, ws, policy, 0)
    } else {
        orphan_result(bindings(ws), rooms)
    }
}

/// The outcome of checking a decoded artifact.
pub open spec fn decoded_result(
    manifest: AnalysisManifestSummary,
    rooms: Seq<RoomRecord>,
    ws: Seq<ControllerWitnessRecord>,
    encodings: ArtifactEncodings,
    policy: RoomPolicy,
) -> Result<(), CorpusAnalysisArtifactError> {
    let solver = manifest.direct_controller_solver;
    if manifest.artifact_schema@ != "downwards-corpus-per-seed-deep-analysis"@ || manifest.artifact_version != 3
        || manifest.status@ != "deep_analysis"@ {
        Err(CorpusAnalysisArtifactError::Invalid(ArtifactViolation::ArtifactIdentity))
    } else if !manifest.policies_current {
        Err(CorpusAnalysisArtifactError::Invalid(ArtifactViolation::PolicyIdentity))
    } else if !manifest.disclaimers_current {
        Err(CorpusAnalysisArtifactError::Invalid(ArtifactViolation::DisclaimerIdentity))
    } else if manifest.config_fingerprint@ != byte_hash_text(encodings.config@) {
        Err(CorpusAnalysisArtifactError::Invalid(ArtifactViolation::ConfigFingerprint))
    } else if solver_config_result(solver) is Err {
        solver_config_result(solver)
    } else if manifest.room_count != rooms.len() || manifest.retained_controller_witness_count != ws.len() {
        Err(CorpusAnalysisArtifactError::Invalid(ArtifactViolation::ManifestCounts))
    } else if manifest.canonical_route_vector_count != canonical_total(rooms) {
        Err(CorpusAnalysisArtifactError::Invalid(ArtifactViolation::CanonicalVectorCount))
    } else {
        order_on(manifest, rooms, ws, encodings, policy)
    }
}

proof fn lemma_canonical_total_prefix(rooms: Seq<RoomRecord>, k: int)
    requires
        0 <= k <= rooms.len(),
    ensures
        canonical_total(rooms.take(k)) <= canonical_total(rooms),
    decreases rooms.len() - k,
{
    if k < rooms.len() {
        lemma_canonical_total_prefix(rooms, k + 1);
        assert(rooms.take(k + 1).drop_last() =~= rooms.take(k));
    } else {
        assert(rooms.take(k) =~= rooms);
    }
}

fn canonical_vectors(rooms: &[RoomRecord]) -> (r: usize)
    requires
        canonical_total(rooms@) <= usize::MAX,
    ensures
        r == canonical_total(rooms@),
{
    let mut total: usize = 0;
    let mut k: usize = 0;
    while k < rooms.len()
        invariant
            k <= rooms.len(),
            canonical_total(rooms@) <= usize::MAX,
            total == canonical_total(rooms@.take(k as int)),
        decreases rooms.len() - k,
    {
        proof {
            assert(rooms@.take(k + 1).drop_last() =~= rooms@.take(k as int));
            lemma_canonical_total_prefix(rooms@, k + 1);
        }
        total = total + rooms[k].canonical_route_difficulty.routes.len();
        k = k + 1;
    }
    assert(rooms@.take(k as int) =~= rooms@);
    total
}

/// Check a decoded deep-analysis artifact of one seed: the manifest's schema,
/// version, status, policy identities, disclaimers and configuration
/// fingerprint; the solver configuration; the room and witness counts and
/// the canonical vector count; strictly ordered room and witness
/// identifiers; every witness; every room against the witnesses; and no
/// witness left unreferenced.
pub fn validate_decoded_artifact(
    manifest: &AnalysisManifestSummary,
    rooms: &[RoomRecord],
    ws: &[ControllerWitnessRecord],
    encodings: &ArtifactEncodings,
    policy: &RoomPolicy,
) -> (r: Result<(), CorpusAnalysisArtifactError>)
    requires
        encodings.witness_preimages@.len() == ws@.len(),
        canonical_total(rooms@) <= usize::MAX,
        rooms_countable(rooms@),
    ensures
        r == decoded_result(*manifest, rooms@, ws@, *encodings, *policy),
{
    let schema = String::from_str("downwards-corpus-per-seed-deep-analysis");
    let status = String::from_str("deep_analysis");
    if manifest.artifact_schema != schema || manifest.artifact_version != 3 || manifest.status != status {
        return Err(CorpusAnalysisArtifactError::Invalid(ArtifactViolation::ArtifactIdentity));
    }
    if !manifest.policies_current {
        return Err(CorpusAnalysisArtifactError::Invalid(ArtifactViolation::PolicyIdentity));
    }
    if !manifest.disclaimers_current {
        return Err(CorpusAnalysisArtifactError::Invalid(ArtifactViolation::DisclaimerIdentity));
    }
    let fingerprint = byte_hash(encodings.config.as_slice());
    if manifest.config_fingerprint != fingerprint {
        return Err(CorpusAnalysisArtifactError::Invalid(ArtifactViolation::ConfigFingerprint));
    }
    let solver = validate_solver_config(&manifest.direct_controller_solver);
    if solver.is_err() {
        return solver;
    }
    if manifest.room_count != rooms.len() || manifest.retained_controller_witness_count != ws.len() {
        return Err(CorpusAnalysisArtifactError::Invalid(ArtifactViolation::ManifestCounts));
    }
    if manifest.canonical_route_vector_count != canonical_vectors(rooms) {
        return Err(CorpusAnalysisArtifactError::Invalid(ArtifactViolation::CanonicalVectorCount));
    }
    let mut k: usize = 1;
    while k < rooms.len()
        invariant
            1 <= k,
            decoded_result(*manifest, rooms@, ws@, *encodings, *policy) == order_on(*manifest, rooms@, ws@, *encodings, *policy),
            forall|i: int| 0 < i < k && i < rooms@.len() ==> text_lt(#[trigger] rooms@[i - 1].room_id@, rooms@[i].room_id@),
        decreases rooms.len() - k,
    {
        if !text_less(rooms[k - 1].room_id.as_str(), rooms[k].room_id.as_str()) {
            return Err(CorpusAnalysisArtifactError::Invalid(ArtifactViolation::RoomOrder));
        }
        k = k + 1;
    }
    let mut k: usize = 1;
    while k < ws.len()
        invariant
            1 <= k,
            decoded_result(*manifest, rooms@, ws@, *encodings, *policy) == order_on(*manifest, rooms@, ws@, *encodings, *policy),
            rooms_strict(rooms@),
            forall|i: int| 0 < i < k && i < ws@.len() ==> text_lt(#[trigger] ws@[i - 1].witness_id@, ws@[i].witness_id@),
        decreases ws.len() - k,
    {
        if !text_less(ws[k - 1].witness_id.as_str(), ws[k].witness_id.as_str()) {
            return Err(CorpusAnalysisArtifactError::Invalid(ArtifactViolation::WitnessOrder));
        }
        k = k + 1;
    }
    let mut j: usize = 0;
    while j < ws.len()
        invariant
            j <= ws.len(),
            encodings.witness_preimages@.len() == ws@.len(),
            decoded_result(*manifest, rooms@, ws@, *encodings, *policy) == order_on(*manifest, rooms@, ws@, *encodings, *policy),
            rooms_strict(rooms@),
            witnesses_strict(ws@),
            witnesses_from(ws@, encodings.witness_preimages@, manifest.direct_controller_solver, 0) == witnesses_from(
                ws@,
                encodings.witness_preimages@,
                manifest.direct_controller_solver,
                j as int,
            ),
        decreases ws.len() - j,
    {
        let checked = validate_witness_record(
            &ws[j],
            &manifest.direct_controller_solver,
            encodings.witness_preimages[j].as_slice(),
        );
        if checked.is_err() {
            return checked;
        }
        j = j + 1;
    }
    let bound = witness_bindings(ws);
    let mut m: usize = 0;
    while m < rooms.len()
        invariant
            m <= rooms.len(),
            decoded_result(*manifest, rooms@, ws@, *encodings, *policy) == order_on(*manifest, rooms@, ws@, *encodings, *policy),
            rooms_strict(rooms@),
            witnesses_strict(ws@),
            witnesses_from(ws@, encodings.witness_preimages@, manifest.direct_controller_solver, 0) is Ok,
            bound@ == bindings(ws@),
            rooms_countable(rooms@),
            rooms_from(rooms@, manifest.seed, ws@, *policy, 0) == rooms_from(
                rooms@,
                manifest.seed,
                ws@,
                *policy,
                m as int,
            ),
        decreases rooms.len() - m,
    {
        assert(rooms_countable(rooms@) ==> witness_total(rooms@[m as int].direct_controller_evidence.directed_routes@)
            <= usize::MAX);
        let checked = validate_room_record(manifest.seed, &rooms[m], bound.as_slice(), policy);
        if checked.is_err() {
            return checked;
        }
        m = m + 1;
    }
    validate_no_orphan_witnesses(bound.as_slice(), rooms)
}

} // verus!
