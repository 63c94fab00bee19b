//! A decoded shard checked against what its recorded seed configuration
//! regenerates: streams in strict key order, the attempt stream and
//! generation accounting exactly regenerated, every room record matching
//! its regenerated room, the door and pickup matrices exactly covering the
//! regenerated evidence sources with every positive row's witness verified,
//! each positive witness referenced by exactly one matrix row, and the
//! summary agreeing with the generation accounting.
use vstd::prelude::*;

use crate::ability_promotion::EvaluationLoadout;
use crate::analysis_config::CorpusRoomAnalysisConfigRecord;
use crate::artifact_summary::CorpusArtifactSummaryV3;
use crate::asymmetry_rows::{text_less, text_lt};
use crate::checks::{ArtifactViolation, CorpusArtifactV3Error};
use crate::positive_witness::{TargetEvidenceV3, TargetKindV3, TargetRowRecordV3};
use crate::target_rows::{
    EvidenceSourceTargetsV3, RoomTargetsV3, lemma_target_rows_same, same_room_targets, same_texts, target_rows_result,
    targets_agree, verify_target_rows_v3,
};
use crate::room_construction::{
    ConstructionPolicyV3, RegeneratedRoomV3, RegeneratedVariantV3, RoomConstructionRecordV3, fail, least_index,
    least_variant, lemma_least_index_bound, room_construction_result, sorted_arrangement, variants_match,
    verify_room_construction_v3,
};
use crate::room_evidence::loadout_position;

verus! {

/// The generation accounting of one seed block.
#[derive(Clone, Copy, Debug, PartialEq, Eq, Structural)]
pub struct GenerationSummaryV3 {
    pub attempted: usize,
    pub constructed: usize,
    pub rejected: usize,
    pub physical_rooms: usize,
    pub alias_candidates: usize,
}

/// The decoded streams of one shard, as the checks read them.
#[derive(Clone, Debug, PartialEq, Eq)]
pub struct RehydratedBundleV3 {
    /// Each attempt record's canonical encoding, led by its key's stable slug
    /// so that encodings order as their keys do.
    pub attempts: Vec<String>,
    pub rooms: Vec<RoomConstructionRecordV3>,
    pub routes: Vec<TargetRowRecordV3>,
    pub pickups: Vec<TargetRowRecordV3>,
    pub witness_ids: Vec<String>,
    pub generation: GenerationSummaryV3,
    pub summary: CorpusArtifactSummaryV3,
    pub ability_promotion_audit_config: CorpusRoomAnalysisConfigRecord,
}

/// What the recorded seed configuration regenerates.
#[derive(Clone, Debug, PartialEq, Eq)]
pub struct RegeneratedBundleV3 {
    /// Each construction record's canonical attempt encoding, in the
    /// generator's order.
    pub attempts: Vec<String>,
    pub summary: GenerationSummaryV3,
    pub rooms: Vec<RegeneratedRoomV3>,
}

/// Texts strictly ascending.
pub open spec fn texts_strict(s: Seq<String>) -> bool {
    forall|i: int| 0 < i < s.len() ==> text_lt(#[trigger] s[i - 1]@, s[i]@)
}

/// Room records strictly ascending by identifier.
pub open spec fn rooms_strict(s: Seq<RoomConstructionRecordV3>) -> bool {
    forall|i: int| 0 < i < s.len() ==> text_lt(#[trigger] s[i - 1].room_id@, s[i].room_id@)
}

/// Order of matrix cells: by room, source door, target, then loadout.
pub open spec fn row_lt(a: TargetRowRecordV3, b: TargetRowRecordV3) -> bool {
    ||| text_lt(a.room_id@, b.room_id@)
    ||| a.room_id@ == b.room_id@ && text_lt(a.source_door_id@, b.source_door_id@)
    ||| a.room_id@ == b.room_id@ && a.source_door_id@ == b.source_door_id@ && text_lt(a.target_id@, b.target_id@)
    ||| a.room_id@ == b.room_id@ && a.source_door_id@ == b.source_door_id@ && a.target_id@ == b.target_id@
        && loadout_position(a.loadout) < loadout_position(b.loadout)
}

/// Matrix rows strictly ascending by cell.
pub open spec fn rows_strict(s: Seq<TargetRowRecordV3>) -> bool {
    forall|i: int| 0 < i < s.len() ==> row_lt(#[trigger] s[i - 1], s[i])
}

/// Whether a row is positive evidence by the witness.
pub open spec fn cites(row: TargetRowRecordV3, id: Seq<char>) -> bool {
    match row.evidence {
        TargetEvidenceV3::PositiveReplay { witness_id } => witness_id@ == id,
        TargetEvidenceV3::BoundedInconclusive => false,
    }
}

/// Rows citing the witness.
pub open spec fn citations(rows: Seq<TargetRowRecordV3>, id: Seq<char>) -> nat
    decreases rows.len(),
{
    if rows.len() == 0 {
        0
    } else {
        citations(rows.drop_last(), id) + if cites(rows.last(), id) { 1nat } else { 0nat }
    }
}

/// The first room whose construction check fails, from position `k` on.
pub open spec fn rooms_from(
    b: RehydratedBundleV3,
    g: RegeneratedBundleV3,
    policy: ConstructionPolicyV3,
    k: int,
) -> Result<(), CorpusArtifactV3Error>
    decreases b.rooms.len() - k,
{
    if k < 0 || k >= b.rooms.len() || k >= g.rooms.len() {
        Ok(())
    } else if room_construction_result(b.rooms[k], g.rooms[k], b.ability_promotion_audit_config, policy) is Err {
        room_construction_result(b.rooms[k], g.rooms[k], b.ability_promotion_audit_config, policy)
    } else {
        rooms_from(b, g, policy, k + 1)
    }
}

/// The first witness not cited exactly once, from position `k` on.
pub open spec fn witnesses_from(b: RehydratedBundleV3, k: int) -> Result<(), CorpusArtifactV3Error>
    decreases b.witness_ids.len() - k,
{
    if k < 0 || k >= b.witness_ids.len() {
        Ok(())
    } else {
        let n = citations(b.routes@, b.witness_ids[k]@) + citations(b.pickups@, b.witness_ids[k]@);
        if n == 0 {
            fail(ArtifactViolation::OrphanPositiveWitness)
        } else if n > 1 {
            fail(ArtifactViolation::WitnessReferencedRepeatedly { count: if n > usize::MAX { usize::MAX } else { n as usize } })
        } else {
            witnesses_from(b, k + 1)
        }
    }
}

/// The evidence source of regenerated room `k`: its lexically least alias.
pub open spec fn evidence_source_of(g: RegeneratedBundleV3, k: int) -> RegeneratedVariantV3 {
    g.rooms[k].variants[least_index(g.rooms[k].variants@)]
}

/// The rooms as the matrices read them: each record's identifier with the
/// doors and pickups of its regenerated evidence source.
pub open spec fn bundle_targets(b: RehydratedBundleV3, g: RegeneratedBundleV3) -> Seq<RoomTargetsV3> {
    Seq::new(
        b.rooms@.len(),
        |k: int|
            RoomTargetsV3 {
                room_id: b.rooms[k].room_id,
                evidence_source: Some(
                    EvidenceSourceTargetsV3 {
                        door_ids: evidence_source_of(g, k).door_ids,
                        pickup_ids: evidence_source_of(g, k).pickup_ids,
                    },
                ),
            },
    )
}

/// The summary's counts agree with the generation accounting.
pub open spec fn summary_agrees(s: CorpusArtifactSummaryV3, g: GenerationSummaryV3) -> bool {
    &&& s.attempts == g.attempted
    &&& s.constructed_attempts == g.constructed
    &&& s.rejected_attempts == g.rejected
    &&& s.physical_rooms == g.physical_rooms
    &&& s.alias_candidates == g.alias_candidates
}

/// The outcome of checking a decoded shard against its regeneration: the
/// first failing check, in order.
pub open spec fn rehydrated_bundle_result(
    b: RehydratedBundleV3,
    g: RegeneratedBundleV3,
    policy: ConstructionPolicyV3,
    route_verdicts: Seq<Result<(), CorpusArtifactV3Error>>,
    pickup_verdicts: Seq<Result<(), CorpusArtifactV3Error>>,
) -> Result<(), CorpusArtifactV3Error> {
    if !texts_strict(b.attempts@) {
        fail(ArtifactViolation::AttemptOrder)
    } else if !rooms_strict(b.rooms@) {
        fail(ArtifactViolation::RoomOrder)
    } else if !rows_strict(b.routes@) {
        fail(ArtifactViolation::TargetRowOrder { pickups: false })
    } else if !rows_strict(b.pickups@) {
        fail(ArtifactViolation::TargetRowOrder { pickups: true })
    } else if !texts_strict(b.witness_ids@) {
        fail(ArtifactViolation::WitnessOrder)
    } else if !sorted_arrangement(b.attempts@, g.attempts@) {
        fail(ArtifactViolation::AttemptsDiffer)
    } else if b.generation != g.summary {
        fail(ArtifactViolation::GenerationDiffers)
    } else if b.rooms.len() != g.rooms.len() {
        fail(ArtifactViolation::RoomCountDiffers { found: b.rooms.len(), expected: g.rooms.len() })
    } else if rooms_from(b, g, policy, 0) is Err {
        rooms_from(b, g, policy, 0)
    } else if target_rows_result(TargetKindV3::Door, b.routes@, bundle_targets(b, g), b.witness_ids@, route_verdicts)
        is Err {
        target_rows_result(TargetKindV3::Door, b.routes@, bundle_targets(b, g), b.witness_ids@, route_verdicts)
    } else if target_rows_result(TargetKindV3::Pickup, b.pickups@, bundle_targets(b, g), b.witness_ids@, pickup_verdicts)
        is Err {
        target_rows_result(TargetKindV3::Pickup, b.pickups@, bundle_targets(b, g), b.witness_ids@, pickup_verdicts)
    } else if witnesses_from(b, 0) is Err {
        witnesses_from(b, 0)
    } else if !summary_agrees(b.summary, b.generation) {
        fail(ArtifactViolation::SummaryGenerationDisagree)
    } else {
        Ok(())
    }
}

fn texts_ascending(s: &Vec<String>) -> (r: bool)
    ensures
        r == texts_strict(s@),
{
    let mut i: usize = 1;
    while i < s.len()
        invariant
            1 <= i,
            forall|t: int| 0 < t < i && t < s.len() ==> text_lt(#[trigger] s@[t - 1]@, s@[t]@),
        decreases s.len() - i,
    {
        if !text_less(s[i - 1].as_str(), s[i].as_str()) {
            return false;
        }
        i = i + 1;
    }
    true
}

fn rooms_ascending(s: &Vec<RoomConstructionRecordV3>) -> (r: bool)
    ensures
        r == rooms_strict(s@),
{
    let mut i: usize = 1;
    while i < s.len()
        invariant
            1 <= i,
            forall|t: int| 0 < t < i && t < s.len() ==> text_lt(#[trigger] s@[t - 1].room_id@, s@[t].room_id@),
        decreases s.len() - i,
    {
        if !text_less(s[i - 1].room_id.as_str(), s[i].room_id.as_str()) {
            return false;
        }
        i = i + 1;
    }
    true
}

fn loadout_rank(l: EvaluationLoadout) -> (r: u8)
    ensures
        r == loadout_position(l),
{
    match l {
        EvaluationLoadout::Baseline => 0,
        EvaluationLoadout::WallJump => 1,
        EvaluationLoadout::Dash => 2,
        EvaluationLoadout::Both => 3,
    }
}

fn row_less(a: &TargetRowRecordV3, b: &TargetRowRecordV3) -> (r: bool)
    ensures
        r == row_lt(*a, *b),
{
    if text_less(a.room_id.as_str(), b.room_id.as_str()) {
        return true;
    }
    if a.room_id != b.room_id {
        return false;
    }
    if text_less(a.source_door_id.as_str(), b.source_door_id.as_str()) {
        return true;
    }
    if a.source_door_id != b.source_door_id {
        return false;
    }
    if text_less(a.target_id.as_str(), b.target_id.as_str()) {
        return true;
    }
    if a.target_id != b.target_id {
        return false;
    }
    loadout_rank(a.loadout) < loadout_rank(b.loadout)
}

fn rows_ascending(s: &Vec<TargetRowRecordV3>) -> (r: bool)
    ensures
        r == rows_strict(s@),
{
    let mut i: usize = 1;
    while i < s.len()
        invariant
            1 <= i,
            forall|t: int| 0 < t < i && t < s.len() ==> row_lt(#[trigger] s@[t - 1], s@[t]),
        decreases s.len() - i,
    {
        if !row_less(&s[i - 1], &s[i]) {
            return false;
        }
        i = i + 1;
    }
    true
}

fn cites_exec(row: &TargetRowRecordV3, id: &String) -> (r: bool)
    ensures
        r == cites(*row, id@),
{
    match &row.evidence {
        TargetEvidenceV3::PositiveReplay { witness_id } => *witness_id == *id,
        TargetEvidenceV3::BoundedInconclusive => false,
    }
}

proof fn lemma_citations_bound(rows: Seq<TargetRowRecordV3>, id: Seq<char>)
    ensures
        citations(rows, id) <= rows.len(),
    decreases rows.len(),
{
    if rows.len() > 0 {
        lemma_citations_bound(rows.drop_last(), id);
    }
}

fn citations_exec(rows: &Vec<TargetRowRecordV3>, id: &String) -> (c: usize)
    ensures
        c == citations(rows@, id@),
{
    let mut c: usize = 0;
    let mut k: usize = 0;
    while k < rows.len()
        invariant
            k <= rows.len(),
            c <= k,
            c == citations(rows@.take(k as int), id@),
        decreases rows.len() - k,
    {
        assert(rows@.take(k as int + 1).drop_last() =~= rows@.take(k as int));
        if cites_exec(&rows[k], id) {
            c = c + 1;
        }
        k = k + 1;
    }
    assert(rows@.take(k as int) =~= rows@);
    c
}

fn check_witness_citations(b: &RehydratedBundleV3) -> (r: Result<(), CorpusArtifactV3Error>)
    ensures
        r == witnesses_from(*b, 0),
{
    let mut k: usize = 0;
    while k < b.witness_ids.len()
        invariant
            k <= b.witness_ids.len(),
            witnesses_from(*b, 0) == witnesses_from(*b, k as int),
        decreases b.witness_ids.len() - k,
    {
        let a = citations_exec(&b.routes, &b.witness_ids[k]);
        let p = citations_exec(&b.pickups, &b.witness_ids[k]);
        let n = a.saturating_add(p);
        if a == 0 && p == 0 {
            return Err(CorpusArtifactV3Error::Invalid(ArtifactViolation::OrphanPositiveWitness));
        }
        if !((a == 1 && p == 0) || (a == 0 && p == 1)) {
            return Err(CorpusArtifactV3Error::Invalid(ArtifactViolation::WitnessReferencedRepeatedly { count: n }));
        }
        k = k + 1;
    }
    Ok(())
}

fn check_rooms(
    b: &RehydratedBundleV3,
    g: &RegeneratedBundleV3,
    policy: ConstructionPolicyV3,
) -> (r: Result<(), CorpusArtifactV3Error>)
    requires
        b.rooms.len() == g.rooms.len(),
    ensures
        r == rooms_from(*b, *g, policy, 0),
{
    let mut k: usize = 0;
    while k < b.rooms.len()
        invariant
            k <= b.rooms.len(),
            b.rooms.len() == g.rooms.len(),
            rooms_from(*b, *g, policy, 0) == rooms_from(*b, *g, policy, k as int),
        decreases b.rooms.len() - k,
    {
        let v = verify_room_construction_v3(&b.rooms[k], &g.rooms[k], &b.ability_promotion_audit_config, policy);
        if v.is_err() {
            return v;
        }
        k = k + 1;
    }
    Ok(())
}

proof fn lemma_rooms_ok(b: RehydratedBundleV3, g: RegeneratedBundleV3, policy: ConstructionPolicyV3, k: int)
    requires
        0 <= k,
        b.rooms.len() == g.rooms.len(),
        rooms_from(b, g, policy, k) is Ok,
    ensures
        forall|i: int| k <= i < b.rooms.len() ==> (#[trigger] room_construction_result(
            b.rooms[i],
            g.rooms[i],
            b.ability_promotion_audit_config,
            policy,
        )) is Ok,
    decreases b.rooms.len() - k,
{
    if k < b.rooms.len() {
        lemma_rooms_ok(b, g, policy, k + 1);
    }
}

fn copy_texts(v: &Vec<String>) -> (r: Vec<String>)
    ensures
        same_texts(r@, v@),
{
    let mut r: Vec<String> = Vec::new();
    let mut k: usize = 0;
    while k < v.len()
        invariant
            k <= v.len(),
            r@.len() == k,
            forall|j: int| 0 <= j < k ==> (#[trigger] r@[j])@ == v@[j]@,
        decreases v.len() - k,
    {
        r.push(v[k].clone());
        k = k + 1;
    }
    r
}

fn room_targets(b: &RehydratedBundleV3, g: &RegeneratedBundleV3) -> (r: Vec<RoomTargetsV3>)
    requires
        b.rooms.len() == g.rooms.len(),
        forall|k: int| 0 <= k < g.rooms.len() ==> (#[trigger] g.rooms[k]).variants.len() > 0,
    ensures
        same_room_targets(r@, bundle_targets(*b, *g)),
{
    let mut r: Vec<RoomTargetsV3> = Vec::new();
    let mut k: usize = 0;
    while k < b.rooms.len()
        invariant
            k <= b.rooms.len(),
            b.rooms.len() == g.rooms.len(),
            forall|j: int| 0 <= j < g.rooms.len() ==> (#[trigger] g.rooms[j]).variants.len() > 0,
            r@.len() == k,
            forall|j: int| 0 <= j < k ==> targets_agree(#[trigger] r@[j], bundle_targets(*b, *g)[j]),
        decreases b.rooms.len() - k,
    {
        assert(g.rooms[k as int].variants.len() > 0);
        let s = least_variant(&g.rooms[k].variants);
        let t = RoomTargetsV3 {
            room_id: b.rooms[k].room_id.clone(),
            evidence_source: Some(
                EvidenceSourceTargetsV3 {
                    door_ids: copy_texts(&g.rooms[k].variants[s].door_ids),
                    pickup_ids: copy_texts(&g.rooms[k].variants[s].pickup_ids),
                },
            ),
        };
        r.push(t);
        assert(targets_agree(r@[k as int], bundle_targets(*b, *g)[k as int]));
        k = k + 1;
    }
    r
}

/// Checks a decoded shard against what its recorded seed configuration
/// regenerates; the first failing check, in order, is the error.
pub fn check_rehydrated_bundle_v3(
    bundle: &RehydratedBundleV3,
    regenerated: &RegeneratedBundleV3,
    policy: ConstructionPolicyV3,
    route_verdicts: &[Result<(), CorpusArtifactV3Error>],
    pickup_verdicts: &[Result<(), CorpusArtifactV3Error>],
) -> (r: Result<(), CorpusArtifactV3Error>)
    requires
        route_verdicts@.len() == bundle.routes@.len(),
        pickup_verdicts@.len() == bundle.pickups@.len(),
    ensures
        r == rehydrated_bundle_result(*bundle, *regenerated, policy, route_verdicts@, pickup_verdicts@),
{
    if !texts_ascending(&bundle.attempts) {
        return Err(CorpusArtifactV3Error::Invalid(ArtifactViolation::AttemptOrder));
    }
    if !rooms_ascending(&bundle.rooms) {
        return Err(CorpusArtifactV3Error::Invalid(ArtifactViolation::RoomOrder));
    }
    if !rows_ascending(&bundle.routes) {
        return Err(CorpusArtifactV3Error::Invalid(ArtifactViolation::TargetRowOrder { pickups: false }));
    }
    if !rows_ascending(&bundle.pickups) {
        return Err(CorpusArtifactV3Error::Invalid(ArtifactViolation::TargetRowOrder { pickups: true }));
    }
    if !texts_ascending(&bundle.witness_ids) {
        return Err(CorpusArtifactV3Error::Invalid(ArtifactViolation::WitnessOrder));
    }
    if !crate::room_construction::sorted_arrangement_exec(&bundle.attempts, &regenerated.attempts) {
        return Err(CorpusArtifactV3Error::Invalid(ArtifactViolation::AttemptsDiffer));
    }
    if bundle.generation != regenerated.summary {
        return Err(CorpusArtifactV3Error::Invalid(ArtifactViolation::GenerationDiffers));
    }
    if bundle.rooms.len() != regenerated.rooms.len() {
        return Err(
            CorpusArtifactV3Error::Invalid(
                ArtifactViolation::RoomCountDiffers { found: bundle.rooms.len(), expected: regenerated.rooms.len() },
            ),
        );
    }
    let rooms = check_rooms(bundle, regenerated, policy);
    if rooms.is_err() {
        return rooms;
    }
    proof {
        lemma_rooms_ok(*bundle, *regenerated, policy, 0);
        assert forall|k: int| 0 <= k < regenerated.rooms.len() implies (#[trigger] regenerated.rooms[k]).variants.len()
            > 0 by {
            assert(room_construction_result(
                bundle.rooms[k],
                regenerated.rooms[k],
                bundle.ability_promotion_audit_config,
                policy,
            ) is Ok);
            assert(variants_match(bundle.rooms[k].variants@, regenerated.rooms[k].variants@));
        }
    }
    let targets = room_targets(bundle, regenerated);
    let doors = verify_target_rows_v3(
        TargetKindV3::Door,
        bundle.routes.as_slice(),
        targets.as_slice(),
        bundle.witness_ids.as_slice(),
        route_verdicts,
    );
    proof {
        lemma_target_rows_same(
            TargetKindV3::Door,
            bundle.routes@,
            targets@,
            bundle_targets(*bundle, *regenerated),
            bundle.witness_ids@,
            route_verdicts@,
        );
    }
    if doors.is_err() {
        return doors;
    }
    let pickups = verify_target_rows_v3(
        TargetKindV3::Pickup,
        bundle.pickups.as_slice(),
        targets.as_slice(),
        bundle.witness_ids.as_slice(),
        pickup_verdicts,
    );
    proof {
        lemma_target_rows_same(
            TargetKindV3::Pickup,
            bundle.pickups@,
            targets@,
            bundle_targets(*bundle, *regenerated),
            bundle.witness_ids@,
            pickup_verdicts@,
        );
    }
    if pickups.is_err() {
        return pickups;
    }
    let cited = check_witness_citations(bundle);
    if cited.is_err() {
        return cited;
    }
    let s = bundle.summary;
    let g = bundle.generation;
    if s.attempts != g.attempted || s.constructed_attempts != g.constructed || s.rejected_attempts != g.rejected
        || s.physical_rooms != g.physical_rooms || s.alias_candidates != g.alias_candidates {
        return Err(CorpusArtifactV3Error::Invalid(ArtifactViolation::SummaryGenerationDisagree));
    }
    Ok(())
}

} // verus!
