//! Directional asymmetry rows of a room: one per unordered door pair and
//! loadout, in strict canonical order, each consistent with its evidence.
use vstd::prelude::*;
use vstd::utf8::encode_utf8;

use crate::ability_promotion::EvaluationLoadout;
use crate::checks::{ArtifactViolation, CorpusAnalysisArtifactError};
use crate::demand::{
    ControllerDemandCoordinatesRecord, ControllerDemandRecord, coordinates_from_demand, demand_coordinates,
};
use crate::direct_aggregates::MetricEvidenceRecord;
use crate::metrics::{DirectionalAsymmetryValuesRecord, asymmetry_result, validate_asymmetry_values};
use crate::promotion_gate::loadout_index;

verus! {

/// The easiest known controller of one direction under one loadout.
#[derive(Clone, Copy, Debug, PartialEq, Eq, Structural)]
pub struct EasiestKnownControllerRecord {
    pub successful_loadout: EvaluationLoadout,
    pub demand: ControllerDemandRecord,
    pub coordinates: ControllerDemandCoordinatesRecord,
}

/// Easiest controllers of both directions between two doors, and their comparison.
#[derive(Clone, Debug, PartialEq, Eq)]
pub struct DirectionalAsymmetryRecord {
    pub door_a: String,
    pub door_b: String,
    pub loadout: EvaluationLoadout,
    pub a_to_b: MetricEvidenceRecord<EasiestKnownControllerRecord>,
    pub b_to_a: MetricEvidenceRecord<EasiestKnownControllerRecord>,
    pub comparison: MetricEvidenceRecord<DirectionalAsymmetryValuesRecord>,
}

/// Lexicographic order on byte strings.
pub open spec fn bytes_lt(a: Seq<u8>, b: Seq<u8>) -> bool
    decreases a.len(),
{
    if a.len() == 0 {
        b.len() > 0
    } else if b.len() == 0 {
        false
    } else if a[0] != b[0] {
        a[0] < b[0]
    } else {
        bytes_lt(a.drop_first(), b.drop_first())
    }
}

/// Order of texts: lexicographic on their UTF-8 bytes.
pub open spec fn text_lt(a: Seq<char>, b: Seq<char>) -> bool {
    bytes_lt(encode_utf8(a), encode_utf8(b))
}

/// Whether `a` sorts strictly before `b`.
pub(crate) fn text_less(a: &str, b: &str) -> (r: bool)
    ensures
        r == text_lt(a@, b@),
{
    let x = a.as_bytes();
    let y = b.as_bytes();
    let mut i: usize = 0;
    assert(x@.skip(0) =~= x@);
    assert(y@.skip(0) =~= y@);
    while i < x.len() && i < y.len() && x[i] == y[i]
        invariant
            i <= x.len(),
            i <= y.len(),
            bytes_lt(x@, y@) == bytes_lt(x@.skip(i as int), y@.skip(i as int)),
        decreases x.len() - i,
    {
        assert(x@.skip(i as int).drop_first() =~= x@.skip(i + 1));
        assert(y@.skip(i as int).drop_first() =~= y@.skip(i + 1));
        i = i + 1;
    }
    if i == x.len() {
        i < y.len()
    } else if i == y.len() {
        false
    } else {
        assert(x@.skip(i as int)[0] == x@[i as int]);
        assert(y@.skip(i as int)[0] == y@[i as int]);
        x[i] < y[i]
    }
}

/// Strict canonical order of rows: by first door, second door, then loadout.
pub open spec fn row_lt(p: DirectionalAsymmetryRecord, q: DirectionalAsymmetryRecord) -> bool {
    ||| text_lt(p.door_a@, q.door_a@)
    ||| p.door_a@ == q.door_a@ && text_lt(p.door_b@, q.door_b@)
    ||| p.door_a@ == q.door_a@ && p.door_b@ == q.door_b@ && loadout_index(p.loadout) < loadout_index(q.loadout)
}

/// Each row sorts strictly after the previous one.
pub open spec fn rows_strict(rows: Seq<DirectionalAsymmetryRecord>) -> bool {
    forall|i: int| 0 < i < rows.len() ==> row_lt(#[trigger] rows[i - 1], rows[i])
}

/// `a * b`, or the largest `usize` when the product does not fit.
pub open spec fn saturating_product(a: usize, b: usize) -> usize {
    if a * b > usize::MAX {
        usize::MAX
    } else {
        (a * b) as usize
    }
}

/// The number of rows owed to `n` doors: one per unordered pair and loadout.
pub open spec fn expected_rows(n: usize) -> usize {
    saturating_product((saturating_product(n, (n - 1) as usize) / 2) as usize, 4)
}

fn saturating_times(a: usize, b: usize) -> (r: usize)
    ensures
        r == saturating_product(a, b),
{
    match a.checked_mul(b) {
        Some(v) => v,
        None => usize::MAX,
    }
}

/// The door list holds `door`.
pub open spec fn has_door(doors: Seq<String>, door: Seq<char>) -> bool {
    exists|i: int| 0 <= i < doors.len() && doors[i]@ == door
}

fn contains_door(doors: &[String], door: &String) -> (r: bool)
    ensures
        r == has_door(doors@, door@),
{
    let mut k: usize = 0;
    while k < doors.len()
        invariant
            k <= doors.len(),
            forall|i: int| 0 <= i < k ==> doors@[i]@ != door@,
        decreases doors.len() - k,
    {
        if doors[k] == *door {
            return true;
        }
        k = k + 1;
    }
    false
}

/// Observed easiest-controller evidence records the coordinates of its demand.
pub open spec fn easiest_consistent(e: MetricEvidenceRecord<EasiestKnownControllerRecord>) -> bool {
    match e {
        MetricEvidenceRecord::Observed { value } => value.coordinates == demand_coordinates(value.demand),
        _ => true,
    }
}

fn easiest_ok(e: &MetricEvidenceRecord<EasiestKnownControllerRecord>) -> (r: bool)
    ensures
        r == easiest_consistent(*e),
{
    match e {
        MetricEvidenceRecord::Observed { value } => value.coordinates == coordinates_from_demand(value.demand),
        _ => true,
    }
}

/// The outcome of checking one row against the room's doors.
pub open spec fn row_result(row: DirectionalAsymmetryRecord, doors: Seq<String>) -> Result<(), CorpusAnalysisArtifactError> {
    if !text_lt(row.door_a@, row.door_b@) || !has_door(doors, row.door_a@) || !has_door(doors, row.door_b@) {
        Err(CorpusAnalysisArtifactError::Invalid(ArtifactViolation::AsymmetryDoorIdentity))
    } else if !easiest_consistent(row.a_to_b) || !easiest_consistent(row.b_to_a) {
        Err(CorpusAnalysisArtifactError::Invalid(ArtifactViolation::EasiestCoordinatesDiffer))
    } else {
        match row.comparison {
            MetricEvidenceRecord::Observed { value } => asymmetry_result(value),
            _ => Ok(()),
        }
    }
}

/// The first failing row's outcome.
pub open spec fn rows_result(rows: Seq<DirectionalAsymmetryRecord>, doors: Seq<String>) -> Result<(), CorpusAnalysisArtifactError>
    decreases rows.len(),
{
    if rows.len() == 0 {
        Ok(())
    } else {
        match row_result(rows[0], doors) {
            Err(e) => Err(e),
            Ok(()) => rows_result(rows.drop_first(), doors),
        }
    }
}

/// The outcome of checking a room's asymmetry rows against its doors.
pub open spec fn asymmetry_rows_result(rows: Seq<DirectionalAsymmetryRecord>, doors: Seq<String>) -> Result<
    (),
    CorpusAnalysisArtifactError,
> {
    let expected = expected_rows(doors.len() as usize);
    if rows.len() != expected {
        Err(
            CorpusAnalysisArtifactError::Invalid(
                ArtifactViolation::AsymmetryRowCount { found: rows.len() as usize, expected },
            ),
        )
    } else if !rows_strict(rows) {
        Err(CorpusAnalysisArtifactError::Invalid(ArtifactViolation::AsymmetryRowOrder))
    } else {
        rows_result(rows, doors)
    }
}

fn row_less(p: &DirectionalAsymmetryRecord, q: &DirectionalAsymmetryRecord) -> (r: bool)
    ensures
        r == row_lt(*p, *q),
{
    if text_less(p.door_a.as_str(), q.door_a.as_str()) {
        return true;
    }
    if p.door_a != q.door_a {
        return false;
    }
    if text_less(p.door_b.as_str(), q.door_b.as_str()) {
        return true;
    }
    if p.door_b != q.door_b {
        return false;
    }
    let pi: u8 = match p.loadout {
        EvaluationLoadout::Baseline => 0,
        EvaluationLoadout::WallJump => 1,
        EvaluationLoadout::Dash => 2,
        EvaluationLoadout::Both => 3,
    };
    let qi: u8 = match q.loadout {
        EvaluationLoadout::Baseline => 0,
        EvaluationLoadout::WallJump => 1,
        EvaluationLoadout::Dash => 2,
        EvaluationLoadout::Both => 3,
    };
    pi < qi
}

fn check_row(row: &DirectionalAsymmetryRecord, doors: &[String]) -> (r: Result<(), CorpusAnalysisArtifactError>)
    ensures
        r == row_result(*row, doors@),
{
    if !text_less(row.door_a.as_str(), row.door_b.as_str()) || !contains_door(doors, &row.door_a)
        || !contains_door(doors, &row.door_b) {
        return Err(CorpusAnalysisArtifactError::Invalid(ArtifactViolation::AsymmetryDoorIdentity));
    }
    if !easiest_ok(&row.a_to_b) || !easiest_ok(&row.b_to_a) {
        return Err(CorpusAnalysisArtifactError::Invalid(ArtifactViolation::EasiestCoordinatesDiffer));
    }
    match &row.comparison {
        MetricEvidenceRecord::Observed { value } => validate_asymmetry_values(value),
        _ => Ok(()),
    }
}

/// Check a room's directional asymmetry rows against its door identifiers:
/// one row per unordered door pair and loadout, in strict canonical order,
/// each naming two of the room's doors in order, with easiest-controller
/// coordinates that match their demand and a consistent comparison.
pub fn validate_asymmetry_rows(rows: &[DirectionalAsymmetryRecord], doors: &[String]) -> (r: Result<
    (),
    CorpusAnalysisArtifactError,
>)
    requires
        doors.len() > 0,
    ensures
        r == asymmetry_rows_result(rows@, doors@),
{
    let n = doors.len();
    let expected = saturating_times(saturating_times(n, n - 1) / 2, 4);
    if rows.len() != expected {
        return Err(
            CorpusAnalysisArtifactError::Invalid(ArtifactViolation::AsymmetryRowCount { found: rows.len(), expected }),
        );
    }
    let mut k: usize = 1;
    while k < rows.len()
        invariant
            1 <= k,
            rows@.len() == expected_rows(doors@.len() as usize),
            forall|i: int| 0 < i < k && i < rows@.len() ==> row_lt(#[trigger] rows@[i - 1], rows@[i]),
        decreases rows.len() - k,
    {
        if !row_less(&rows[k - 1], &rows[k]) {
            assert(!row_lt(rows@[k - 1], rows@[k as int]));
            return Err(CorpusAnalysisArtifactError::Invalid(ArtifactViolation::AsymmetryRowOrder));
        }
        k = k + 1;
    }
    let mut j: usize = 0;
    assert(rows@.skip(0) =~= rows@);
    while j < rows.len()
        invariant
            j <= rows.len(),
            rows@.len() == expected_rows(doors@.len() as usize),
            rows_strict(rows@),
            rows_result(rows@, doors@) == rows_result(rows@.skip(j as int), doors@),
        decreases rows.len() - j,
    {
        let ghost rest = rows@.skip(j as int);
        assert(rest[0] == rows@[j as int]);
        assert(rest.drop_first() =~= rows@.skip(j + 1));
        let checked = check_row(&rows[j], doors);
        if checked.is_err() {
            return checked;
        }
        j = j + 1;
    }
    assert(rows@.skip(j as int) =~= Seq::<DirectionalAsymmetryRecord>::empty());
    Ok(())
}

} // verus!
