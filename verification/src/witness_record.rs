//! Retained controller witnesses and the solver configuration they were
//! found under: structural validity of the configuration, and each
//! witness's content identity, digests, tick counts and demand coordinates.
use vstd::prelude::*;
use vstd::utf8::encode_utf8;

use crate::ability_promotion::EvaluationLoadout;
use crate::actions::{ActionSpanRecord, checked_action_ticks, span_check};
use crate::checks::{ArtifactViolation, CorpusAnalysisArtifactError, digest_canonical, validate_digest};
use crate::demand::{
    ControllerDemandCoordinatesRecord, ControllerDemandRecord, coordinates_from_demand, demand_coordinates,
};
use crate::identity::{fingerprint_bytes, fnv1a, hex_id, hex_identity};
use crate::witness_refs::WitnessBindingRecord;

verus! {

/// A named action sequence the solver may apply.
#[derive(Clone, Debug, PartialEq, Eq)]
pub struct SolverMacroRecord {
    pub name: String,
    pub actions: Vec<ActionSpanRecord>,
}

/// The direct-controller solver configuration of an analysis.
#[derive(Clone, Debug, PartialEq, Eq)]
pub struct SolverConfigRecord {
    pub max_expanded_nodes: usize,
    pub max_simulated_ticks: usize,
    pub max_ticks_per_path: usize,
    pub beam_width: usize,
    pub position_quantum: i32,
    pub velocity_quantum: i32,
    pub probe_direct_routes: bool,
    pub baseline_preview_max_expanded_nodes: usize,
    pub baseline_preview_max_simulated_ticks: usize,
    pub macros: Vec<SolverMacroRecord>,
}

/// One retained controller witness.
#[derive(Clone, Debug, PartialEq, Eq)]
pub struct ControllerWitnessRecord {
    pub witness_id: String,
    pub room_id: String,
    pub source_door_id: String,
    pub target_door_id: String,
    pub loadout: EvaluationLoadout,
    pub initial_state_digest: String,
    pub terminal_state_digest: String,
    pub terminal_event_digest: Option<String>,
    pub total_ticks: usize,
    pub demand: ControllerDemandRecord,
    pub coordinates: ControllerDemandCoordinatesRecord,
    pub actions: Vec<ActionSpanRecord>,
}

/// The outcome of checking the macros from position `k` on: each has a name
/// and a nonempty canonical action sequence.
pub open spec fn macros_from(ms: Seq<SolverMacroRecord>, k: int) -> Result<(), CorpusAnalysisArtifactError>
    decreases ms.len() - k,
{
    if k < 0 || k >= ms.len() {
        Ok(())
    } else if ms[k].name@.len() == 0 || ms[k].actions@.len() == 0 {
        Err(CorpusAnalysisArtifactError::Invalid(ArtifactViolation::SolverMacroEmpty { index: k as usize }))
    } else {
        match span_check(ms[k].actions@) {
            Err(v) => Err(CorpusAnalysisArtifactError::Invalid(v)),
            Ok(_) => macros_from(ms, k + 1),
        }
    }
}

/// The outcome of checking a solver configuration's structure.
pub open spec fn solver_config_result(c: SolverConfigRecord) -> Result<(), CorpusAnalysisArtifactError> {
    if c.max_ticks_per_path == 0 || c.beam_width == 0 || c.position_quantum <= 0 || c.velocity_quantum <= 0
        || c.macros@.len() == 0 {
        Err(CorpusAnalysisArtifactError::Invalid(ArtifactViolation::SolverConfigInvalid))
    } else {
        macros_from(c.macros@, 0)
    }
}

/// Check a solver configuration: positive path horizon, beam width and
/// quanta, and at least one macro, each named with a nonempty canonical
/// action sequence.
pub fn validate_solver_config(c: &SolverConfigRecord) -> (r: Result<(), CorpusAnalysisArtifactError>)
    ensures
        r == solver_config_result(*c),
{
    if c.max_ticks_per_path == 0 || c.beam_width == 0 || c.position_quantum <= 0 || c.velocity_quantum <= 0
        || c.macros.len() == 0 {
        return Err(CorpusAnalysisArtifactError::Invalid(ArtifactViolation::SolverConfigInvalid));
    }
    let empty = String::new();
    let mut k: usize = 0;
    while k < c.macros.len()
        invariant
            k <= c.macros.len(),
            empty@ == Seq::<char>::empty(),
            solver_config_result(*c) == macros_from(c.macros@, 0),
            macros_from(c.macros@, 0) == macros_from(c.macros@, k as int),
        decreases c.macros.len() - k,
    {
        let m = &c.macros[k];
        assert(m.name@.len() == 0 ==> m.name@ =~= Seq::<char>::empty());
        if m.name == empty || m.actions.len() == 0 {
            return Err(CorpusAnalysisArtifactError::Invalid(ArtifactViolation::SolverMacroEmpty { index: k }));
        }
        let ticks = checked_action_ticks(m.actions.as_slice());
        match ticks {
            Err(e) => {
                return Err(e);
            },
            Ok(_) => {},
        }
        k = k + 1;
    }
    Ok(())
}

/// The content identity of a witness whose identity preimage encodes to `preimage`.
pub open spec fn witness_id_text(preimage: Seq<u8>) -> Seq<char> {
    hex_identity("downwards-controller-witness-v1"@, fnv1a(preimage))
}

/// The content identity of a witness: the witness prefix and the FNV-1a hash
/// of the canonical encoding `preimage` of its identity preimage (encoding
/// version, room, doors, loadout, digests, ticks, demand, coordinates and
/// actions).
pub fn controller_witness_id(preimage: &[u8]) -> (r: String)
    ensures
        r@ == witness_id_text(preimage@),
{
    hex_id("downwards-controller-witness-v1", fingerprint_bytes(preimage))
}

/// The witness's digests are canonical.
pub open spec fn digests_ok(w: ControllerWitnessRecord) -> bool {
    &&& digest_canonical(encode_utf8(w.initial_state_digest@))
    &&& digest_canonical(encode_utf8(w.terminal_state_digest@))
    &&& match w.terminal_event_digest {
        Some(d) => digest_canonical(encode_utf8(d@)),
        None => true,
    }
}

/// The outcome of checking a witness against the solver configuration, given
/// the encoding `preimage` of its identity preimage.
pub open spec fn witness_result(
    w: ControllerWitnessRecord,
    solver: SolverConfigRecord,
    preimage: Seq<u8>,
) -> Result<(), CorpusAnalysisArtifactError> {
    if w.witness_id@ != witness_id_text(preimage) {
        Err(CorpusAnalysisArtifactError::Invalid(ArtifactViolation::WitnessIdentity))
    } else if !digests_ok(w) {
        Err(CorpusAnalysisArtifactError::Invalid(ArtifactViolation::NonCanonicalDigest))
    } else {
        match span_check(w.actions@) {
            Err(v) => Err(CorpusAnalysisArtifactError::Invalid(v)),
            Ok(t) => if t == 0 || t != w.total_ticks || t != w.demand.duration_ticks || t > solver.max_ticks_per_path {
                Err(CorpusAnalysisArtifactError::Invalid(ArtifactViolation::WitnessTicks))
            } else if w.coordinates != demand_coordinates(w.demand) {
                Err(CorpusAnalysisArtifactError::Invalid(ArtifactViolation::WitnessCoordinates))
            } else {
                Ok(())
            },
        }
    }
}

/// Check a retained witness: its identity is the content identity of
/// `preimage`, its digests are canonical, its actions are canonical spans
/// whose positive tick total equals its recorded ticks and demand duration
/// within the solver's path horizon, and its coordinates are those of its
/// demand.
pub fn validate_witness_record(
    w: &ControllerWitnessRecord,
    solver: &SolverConfigRecord,
    preimage: &[u8],
) -> (r: Result<(), CorpusAnalysisArtifactError>)
    ensures
        r == witness_result(*w, *solver, preimage@),
{
    let id = controller_witness_id(preimage);
    if w.witness_id != id {
        return Err(CorpusAnalysisArtifactError::Invalid(ArtifactViolation::WitnessIdentity));
    }
    let initial = validate_digest(w.initial_state_digest.as_str());
    if initial.is_err() {
        return initial;
    }
    let terminal = validate_digest(w.terminal_state_digest.as_str());
    if terminal.is_err() {
        return terminal;
    }
    match &w.terminal_event_digest {
        Some(d) => {
            let event = validate_digest(d.as_str());
            if event.is_err() {
                return event;
            }
        },
        None => {},
    }
    let ticks = match checked_action_ticks(w.actions.as_slice()) {
        Ok(t) => t,
        Err(e) => {
            return Err(e);
        },
    };
    if ticks == 0 || ticks != w.total_ticks || ticks != w.demand.duration_ticks || ticks > solver.max_ticks_per_path {
        return Err(CorpusAnalysisArtifactError::Invalid(ArtifactViolation::WitnessTicks));
    }
    if w.coordinates != coordinates_from_demand(w.demand) {
        return Err(CorpusAnalysisArtifactError::Invalid(ArtifactViolation::WitnessCoordinates));
    }
    Ok(())
}

/// What a route's references read of a witness.
pub open spec fn binding_of(w: ControllerWitnessRecord) -> WitnessBindingRecord {
    WitnessBindingRecord {
        witness_id: w.witness_id,
        room_id: w.room_id,
        source_door_id: w.source_door_id,
        target_door_id: w.target_door_id,
        loadout: w.loadout,
        coordinates: w.coordinates,
    }
}

/// The bindings of the witnesses, in order.
pub open spec fn bindings(ws: Seq<ControllerWitnessRecord>) -> Seq<WitnessBindingRecord> {
    ws.map_values(|w: ControllerWitnessRecord| binding_of(w))
}

/// The bindings of the witnesses, in order.
pub fn witness_bindings(ws: &[ControllerWitnessRecord]) -> (r: Vec<WitnessBindingRecord>)
    ensures
        r@ == bindings(ws@),
{
    let mut r: Vec<WitnessBindingRecord> = Vec::new();
    let mut k: usize = 0;
    while k < ws.len()
        invariant
            k <= ws.len(),
            r@ == ws@.take(k as int).map_values(|w: ControllerWitnessRecord| binding_of(w)),
        decreases ws.len() - k,
    {
        let w = &ws[k];
        r.push(
            WitnessBindingRecord {
                witness_id: w.witness_id.clone(),
                room_id: w.room_id.clone(),
                source_door_id: w.source_door_id.clone(),
                target_door_id: w.target_door_id.clone(),
                loadout: w.loadout,
                coordinates: w.coordinates,
            },
        );
        assert(r@ =~= ws@.take(k + 1).map_values(|w: ControllerWitnessRecord| binding_of(w)));
        k = k + 1;
    }
    assert(ws@.take(k as int) =~= ws@);
    r
}

} // verus!
