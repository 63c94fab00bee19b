//! Consistency of a room's canonical route vectors: the claim they carry
//! (measurements of canonical witnesses, not easiest-known routes),
//! their order, each route's measurement identity, vector policy and landing
//! precision, a one-to-one cross-reference with the canonical operational
//! costs, and agreement with the canonical metric counts.
use vstd::prelude::*;
use vstd::string::StringExecFns;
use vstd::utf8::encode_utf8;

use crate::ability_promotion::EvaluationLoadout;
use crate::asymmetry_rows::{text_less, text_lt};
use crate::canonical_aggregates::CanonicalRouteAggregateRecord;
use crate::checks::{ArtifactViolation, CorpusAnalysisArtifactError};
use crate::landing::LandingPrecisionRecord;
use crate::landing_checks::{LandingPrecisionPolicy, landing_precision_result, validate_landing_precision};
use crate::operational_cost::CanonicalRouteCostUnitRecord;
use crate::room_evidence::{loadout_position, position};

verus! {

/// Why timing evidence is missing.
#[derive(Clone, Copy, Debug, PartialEq, Eq, Structural)]
pub enum MissingTimingEvidenceRecord {
    ShakyHandStudyNotProvided,
    CurveNotRecorded,
}

/// Availability of the shaky-hand timing study.
#[derive(Clone, Copy, Debug, PartialEq, Eq, Structural)]
pub enum ShakyHandStatusRecord {
    Missing { reason: MissingTimingEvidenceRecord },
}

/// What the checks read of a canonical route's difficulty vector. The
/// vector's floating-point coordinates are read through three verdicts that
/// the holder of the vector computes: whether its distance and pressure
/// coordinates are finite and nonnegative, whether its perfect-control
/// probabilities are each finite within `[0, 1]` with success and failure
/// summing to one within `f64::EPSILON`, and whether perfect-control success
/// is exactly one and failure exactly zero.
#[derive(Clone, Debug, PartialEq, Eq)]
pub struct RouteVectorSummary {
    pub version: u32,
    pub target_id: String,
    pub completion_ticks: usize,
    pub restart_presses: usize,
    pub distances_finite_nonnegative: bool,
    pub perfect_control_trials: usize,
    pub perfect_control_probabilities_valid: bool,
    pub perfect_control_exact: bool,
    pub shaky_hand: ShakyHandStatusRecord,
}

/// One canonical route's measurement.
#[derive(Clone, Debug, PartialEq, Eq)]
pub struct CanonicalRouteVectorRecord {
    pub measurement_version: u32,
    pub source_door_id: String,
    pub target_door_id: String,
    pub loadout: EvaluationLoadout,
    pub witness_fingerprint: String,
    pub landing_precision: LandingPrecisionRecord,
    pub vector: RouteVectorSummary,
    pub operational_cost_ref: String,
}

/// A room's canonical route measurements and the claim they carry.
#[derive(Clone, Debug, PartialEq, Eq)]
pub struct CanonicalRouteDifficultyRecord {
    pub claim: String,
    pub routes: Vec<CanonicalRouteVectorRecord>,
}

/// The measurement identities in force for canonical routes.
pub struct CanonicalRoutePolicy {
    pub measurement_version: u32,
    pub vector_version: u32,
    pub witness_fingerprint_prefix: String,
    pub landing: LandingPrecisionPolicy,
}

/// The outcome of checking a route vector's coordinates and timing policy.
pub open spec fn route_vector_result(v: RouteVectorSummary) -> Result<(), CorpusAnalysisArtifactError> {
    if !v.distances_finite_nonnegative || v.restart_presses != 0 || v.completion_ticks == 0 {
        Err(CorpusAnalysisArtifactError::Invalid(ArtifactViolation::RouteVectorCoordinates))
    } else if v.perfect_control_trials == 0 || !v.perfect_control_probabilities_valid {
        Err(CorpusAnalysisArtifactError::Invalid(ArtifactViolation::TimingProbabilities))
    } else if v.perfect_control_trials != 1 || !v.perfect_control_exact || v.shaky_hand != (ShakyHandStatusRecord::Missing {
        reason: MissingTimingEvidenceRecord::ShakyHandStudyNotProvided,
    }) {
        Err(CorpusAnalysisArtifactError::Invalid(ArtifactViolation::ExactControlPolicy))
    } else {
        Ok(())
    }
}

/// Check a route vector: finite nonnegative distances, no restarts, a
/// positive completion time, valid timing probabilities, and exact control
/// with no shaky-hand study.
pub fn validate_route_vector(v: &RouteVectorSummary) -> (r: Result<(), CorpusAnalysisArtifactError>)
    ensures
        r == route_vector_result(*v),
{
    if !v.distances_finite_nonnegative || v.restart_presses != 0 || v.completion_ticks == 0 {
        return Err(CorpusAnalysisArtifactError::Invalid(ArtifactViolation::RouteVectorCoordinates));
    }
    if v.perfect_control_trials == 0 || !v.perfect_control_probabilities_valid {
        return Err(CorpusAnalysisArtifactError::Invalid(ArtifactViolation::TimingProbabilities));
    }
    let not_provided = match v.shaky_hand {
        ShakyHandStatusRecord::Missing { reason: MissingTimingEvidenceRecord::ShakyHandStudyNotProvided } => true,
        ShakyHandStatusRecord::Missing { reason: MissingTimingEvidenceRecord::CurveNotRecorded } => false,
    };
    if v.perfect_control_trials != 1 || !v.perfect_control_exact || !not_provided {
        return Err(CorpusAnalysisArtifactError::Invalid(ArtifactViolation::ExactControlPolicy));
    }
    Ok(())
}

/// Strict order of canonical routes: by loadout, then source door, then target door.
pub open spec fn route_key_lt(a: CanonicalRouteVectorRecord, b: CanonicalRouteVectorRecord) -> bool {
    ||| loadout_position(a.loadout) < loadout_position(b.loadout)
    ||| a.loadout == b.loadout && text_lt(a.source_door_id@, b.source_door_id@)
    ||| a.loadout == b.loadout && a.source_door_id@ == b.source_door_id@ && text_lt(a.target_door_id@, b.target_door_id@)
}

/// Each route sorts strictly after the previous one.
pub open spec fn routes_strict(rs: Seq<CanonicalRouteVectorRecord>) -> bool {
    forall|i: int| 0 < i < rs.len() ==> route_key_lt(#[trigger] rs[i - 1], rs[i])
}

/// Door `d` is one of the room's doors.
pub open spec fn has_door(doors: Seq<String>, d: Seq<char>) -> bool {
    exists|j: int| 0 <= j < doors.len() && (#[trigger] doors[j])@ == d
}

/// The UTF-8 encoding of `p` is a prefix of that of `s`.
pub open spec fn starts_with(s: Seq<char>, p: Seq<char>) -> bool {
    encode_utf8(p).len() <= encode_utf8(s).len() && encode_utf8(s).take(encode_utf8(p).len() as int) == encode_utf8(p)
}

/// A route's measurement identity: current versions, distinct doors of the
/// room, a vector aimed at the route's target, and a witness fingerprint.
pub open spec fn identity_ok(r: CanonicalRouteVectorRecord, doors: Seq<String>, policy: CanonicalRoutePolicy) -> bool {
    &&& r.measurement_version == policy.measurement_version
    &&& r.source_door_id@ != r.target_door_id@
    &&& has_door(doors, r.source_door_id@)
    &&& has_door(doors, r.target_door_id@)
    &&& r.vector.version == policy.vector_version
    &&& r.vector.target_id@ == r.target_door_id@
    &&& starts_with(r.witness_fingerprint@, policy.witness_fingerprint_prefix@)
}

/// Position of the last cost unit with identifier `id`.
pub open spec fn last_unit(units: Seq<CanonicalRouteCostUnitRecord>, id: Seq<char>) -> Option<int>
    decreases units.len(),
{
    if units.len() == 0 {
        None
    } else if units.last().cost_id@ == id {
        Some(units.len() - 1)
    } else {
        last_unit(units.drop_last(), id)
    }
}

/// Some route before position `k` references cost `id`.
pub open spec fn referenced_before(rs: Seq<CanonicalRouteVectorRecord>, k: int, id: Seq<char>) -> bool {
    exists|j: int| 0 <= j < k && (#[trigger] rs[j]).operational_cost_ref@ == id
}

/// The outcome of checking route `k`.
pub open spec fn canonical_route_result(
    rs: Seq<CanonicalRouteVectorRecord>,
    k: int,
    doors: Seq<String>,
    units: Seq<CanonicalRouteCostUnitRecord>,
    policy: CanonicalRoutePolicy,
) -> Result<(), CorpusAnalysisArtifactError> {
    let r = rs[k];
    if !identity_ok(r, doors, policy) {
        Err(CorpusAnalysisArtifactError::Invalid(ArtifactViolation::CanonicalRouteIdentity))
    } else if route_vector_result(r.vector) is Err {
        route_vector_result(r.vector)
    } else if landing_precision_result(r.landing_precision, policy.landing, r.vector.completion_ticks) is Err {
        landing_precision_result(r.landing_precision, policy.landing, r.vector.completion_ticks)
    } else {
        match last_unit(units, r.operational_cost_ref@) {
            None => Err(CorpusAnalysisArtifactError::Invalid(ArtifactViolation::AbsentCanonicalCost)),
            Some(u) => if referenced_before(rs, k, r.operational_cost_ref@) || units[u].source_door_id@
                != r.source_door_id@ || units[u].target_door_id@ != r.target_door_id@ || units[u].loadout
                != r.loadout {
                Err(CorpusAnalysisArtifactError::Invalid(ArtifactViolation::CanonicalCostCrossReference))
            } else {
                Ok(())
            },
        }
    }
}

/// The first failing route's outcome, from position `k` on.
pub open spec fn canonical_routes_from(
    rs: Seq<CanonicalRouteVectorRecord>,
    k: int,
    doors: Seq<String>,
    units: Seq<CanonicalRouteCostUnitRecord>,
    policy: CanonicalRoutePolicy,
) -> Result<(), CorpusAnalysisArtifactError>
    decreases rs.len() - k,
{
    if k < 0 || k >= rs.len() {
        Ok(())
    } else {
        match canonical_route_result(rs, k, doors, units, policy) {
            Err(e) => Err(e),
            Ok(()) => canonical_routes_from(rs, k + 1, doors, units, policy),
        }
    }
}

/// The outcome of checking a room's canonical route measurements.
pub open spec fn canonical_routes_result(
    canonical: CanonicalRouteDifficultyRecord,
    doors: Seq<String>,
    units: Seq<CanonicalRouteCostUnitRecord>,
    aggregate: CanonicalRouteAggregateRecord,
    directed_route_count: usize,
    policy: CanonicalRoutePolicy,
) -> Result<(), CorpusAnalysisArtifactError> {
    let rs = canonical.routes@;
    if canonical.claim@ != "canonical_matrix_witness_measurement_not_easiest_known"@ {
        Err(CorpusAnalysisArtifactError::Invalid(ArtifactViolation::CanonicalClaim))
    } else if !routes_strict(rs) {
        Err(CorpusAnalysisArtifactError::Invalid(ArtifactViolation::CanonicalRouteOrder))
    } else if canonical_routes_from(rs, 0, doors, units, policy) is Err {
        canonical_routes_from(rs, 0, doors, units, policy)
    } else if exists|u: int| 0 <= u < units.len() && !referenced_before(rs, rs.len() as int, (#[trigger] units[u]).cost_id@) {
        Err(CorpusAnalysisArtifactError::Invalid(ArtifactViolation::OrphanCanonicalCost))
    } else if aggregate.directed_route_count != directed_route_count || aggregate.positive_route_count != rs.len() {
        Err(CorpusAnalysisArtifactError::Invalid(ArtifactViolation::CanonicalMetricCounts))
    } else {
        Ok(())
    }
}

fn route_less(a: &CanonicalRouteVectorRecord, b: &CanonicalRouteVectorRecord) -> (r: bool)
    ensures
        r == route_key_lt(*a, *b),
{
    let pa = position(a.loadout);
    let pb = position(b.loadout);
    if pa != pb {
        return pa < pb;
    }
    if text_less(a.source_door_id.as_str(), b.source_door_id.as_str()) {
        return true;
    }
    a.source_door_id == b.source_door_id && text_less(a.target_door_id.as_str(), b.target_door_id.as_str())
}

fn door_listed(doors: &[String], d: &String) -> (r: bool)
    ensures
        r == has_door(doors@, d@),
{
    let mut j: usize = 0;
    while j < doors.len()
        invariant
            j <= doors.len(),
            forall|t: int| 0 <= t < j ==> (#[trigger] doors@[t])@ != d@,
        decreases doors.len() - j,
    {
        if doors[j] == *d {
            return true;
        }
        j = j + 1;
    }
    false
}

fn has_prefix(s: &String, p: &String) -> (r: bool)
    ensures
        r == starts_with(s@, p@),
{
    let x = s.as_str().as_bytes();
    let y = p.as_str().as_bytes();
    assert(x@ == encode_utf8(s@) && y@ == encode_utf8(p@));
    if y.len() > x.len() {
        return false;
    }
    let mut i: usize = 0;
    while i < y.len()
        invariant
            x@ == encode_utf8(s@),
            y@ == encode_utf8(p@),
            y.len() <= x.len(),
            i <= y.len(),
            forall|t: int| 0 <= t < i ==> x@[t] == y@[t],
        decreases y.len() - i,
    {
        if x[i] != y[i] {
            assert(x@.take(y.len() as int)[i as int] != y@[i as int]);
            return false;
        }
        i = i + 1;
    }
    assert(x@.take(y.len() as int) =~= y@);
    true
}

fn identity_matches(r: &CanonicalRouteVectorRecord, doors: &[String], policy: &CanonicalRoutePolicy) -> (b: bool)
    ensures
        b == identity_ok(*r, doors@, *policy),
{
    r.measurement_version == policy.measurement_version && r.source_door_id != r.target_door_id && door_listed(
        doors,
        &r.source_door_id,
    ) && door_listed(doors, &r.target_door_id) && r.vector.version == policy.vector_version && r.vector.target_id
        == r.target_door_id && has_prefix(&r.witness_fingerprint, &policy.witness_fingerprint_prefix)
}

proof fn lemma_last_unit_bound(units: Seq<CanonicalRouteCostUnitRecord>, id: Seq<char>)
    ensures
        last_unit(units, id) matches Some(u) ==> 0 <= u < units.len() && units[u].cost_id@ == id,
    decreases units.len(),
{
    if units.len() > 0 {
        lemma_last_unit_bound(units.drop_last(), id);
    }
}

fn find_last_unit(units: &[CanonicalRouteCostUnitRecord], id: &String) -> (r: Option<usize>)
    ensures
        match r {
            Some(u) => last_unit(units@, id@) == Some(u as int) && u < units@.len(),
            None => last_unit(units@, id@) is None,
        },
{
    let mut found: Option<usize> = None;
    let mut j: usize = 0;
    while j < units.len()
        invariant
            j <= units.len(),
            match found {
                Some(u) => last_unit(units@.take(j as int), id@) == Some(u as int) && u < j,
                None => last_unit(units@.take(j as int), id@) is None,
            },
        decreases units.len() - j,
    {
        assert(units@.take(j + 1).drop_last() =~= units@.take(j as int));
        if units[j].cost_id == *id {
            found = Some(j);
        }
        j = j + 1;
    }
    assert(units@.take(j as int) =~= units@);
    found
}

fn cost_referenced(rs: &[CanonicalRouteVectorRecord], k: usize, id: &String) -> (r: bool)
    requires
        k <= rs.len(),
    ensures
        r == referenced_before(rs@, k as int, id@),
{
    let mut j: usize = 0;
    while j < k
        invariant
            j <= k,
            k <= rs.len(),
            forall|t: int| 0 <= t < j ==> (#[trigger] rs@[t]).operational_cost_ref@ != id@,
        decreases k - j,
    {
        if rs[j].operational_cost_ref == *id {
            return true;
        }
        j = j + 1;
    }
    false
}

fn check_canonical_route(
    rs: &[CanonicalRouteVectorRecord],
    k: usize,
    doors: &[String],
    units: &[CanonicalRouteCostUnitRecord],
    policy: &CanonicalRoutePolicy,
) -> (res: Result<(), CorpusAnalysisArtifactError>)
    requires
        k < rs.len(),
    ensures
        res == canonical_route_result(rs@, k as int, doors@, units@, *policy),
{
    let r = &rs[k];
    if !identity_matches(r, doors, policy) {
        return Err(CorpusAnalysisArtifactError::Invalid(ArtifactViolation::CanonicalRouteIdentity));
    }
    let vector = validate_route_vector(&r.vector);
    if vector.is_err() {
        return vector;
    }
    let landing = validate_landing_precision(&r.landing_precision, &policy.landing, r.vector.completion_ticks);
    if landing.is_err() {
        return landing;
    }
    match find_last_unit(units, &r.operational_cost_ref) {
        None => Err(CorpusAnalysisArtifactError::Invalid(ArtifactViolation::AbsentCanonicalCost)),
        Some(u) => {
            let unit = &units[u];
            if cost_referenced(rs, k, &r.operational_cost_ref) || unit.source_door_id != r.source_door_id
                || unit.target_door_id != r.target_door_id || unit.loadout != r.loadout {
                Err(CorpusAnalysisArtifactError::Invalid(ArtifactViolation::CanonicalCostCrossReference))
            } else {
                Ok(())
            }
        },
    }
}

/// Check a room's canonical route measurements: the claim they carry, strict
/// (loadout, source, target) order, each route's identity, vector policy and
/// landing precision, a one-to-one cross-reference with the canonical
/// operational cost units (every unit referenced once, by a route of the same
/// doors and loadout), and the canonical metric's route counts.
pub fn validate_canonical_routes(
    canonical: &CanonicalRouteDifficultyRecord,
    doors: &[String],
    units: &[CanonicalRouteCostUnitRecord],
    aggregate: &CanonicalRouteAggregateRecord,
    directed_route_count: usize,
    policy: &CanonicalRoutePolicy,
) -> (r: Result<(), CorpusAnalysisArtifactError>)
    ensures
        r == canonical_routes_result(*canonical, doors@, units@, *aggregate, directed_route_count, *policy),
{
    let claim = String::from_str("canonical_matrix_witness_measurement_not_easiest_known");
    if canonical.claim != claim {
        return Err(CorpusAnalysisArtifactError::Invalid(ArtifactViolation::CanonicalClaim));
    }
    let rs = canonical.routes.as_slice();
    let mut k: usize = 1;
    while k < rs.len()
        invariant
            1 <= k,
            rs@ == canonical.routes@,
            canonical.claim@ == "canonical_matrix_witness_measurement_not_easiest_known"@,
            forall|i: int| 0 < i < k && i < rs@.len() ==> route_key_lt(#[trigger] rs@[i - 1], rs@[i]),
        decreases rs.len() - k,
    {
        if !route_less(&rs[k - 1], &rs[k]) {
            return Err(CorpusAnalysisArtifactError::Invalid(ArtifactViolation::CanonicalRouteOrder));
        }
        k = k + 1;
    }
    let mut j: usize = 0;
    while j < rs.len()
        invariant
            j <= rs.len(),
            rs@ == canonical.routes@,
            canonical.claim@ == "canonical_matrix_witness_measurement_not_easiest_known"@,
            routes_strict(rs@),
            canonical_routes_from(rs@, 0, doors@, units@, *policy) == canonical_routes_from(
                rs@,
                j as int,
                doors@,
                units@,
                *policy,
            ),
        decreases rs.len() - j,
    {
        let checked = check_canonical_route(rs, j, doors, units, policy);
        if checked.is_err() {
            return checked;
        }
        j = j + 1;
    }
    let mut u: usize = 0;
    while u < units.len()
        invariant
            u <= units.len(),
            rs@ == canonical.routes@,
            canonical.claim@ == "canonical_matrix_witness_measurement_not_easiest_known"@,
            routes_strict(rs@),
            canonical_routes_from(rs@, 0, doors@, units@, *policy) is Ok,
            forall|t: int| 0 <= t < u ==> referenced_before(rs@, rs@.len() as int, (#[trigger] units@[t]).cost_id@),
        decreases units.len() - u,
    {
        if !cost_referenced(rs, rs.len(), &units[u].cost_id) {
            return Err(CorpusAnalysisArtifactError::Invalid(ArtifactViolation::OrphanCanonicalCost));
        }
        u = u + 1;
    }
    if aggregate.directed_route_count != directed_route_count || aggregate.positive_route_count != rs.len() {
        return Err(CorpusAnalysisArtifactError::Invalid(ArtifactViolation::CanonicalMetricCounts));
    }
    Ok(())
}

} // verus!
