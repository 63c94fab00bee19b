//! Row counts of a verified corpus artifact shard.
use vstd::prelude::*;

use crate::ability_promotion::AbilityPromotionDecisionV2;
use crate::checks::{ArtifactViolation, CorpusArtifactV3Error};
use crate::promotion_gate::{VariantAbilityPromotionEvidenceV2, VariantAbilityPromotionGateV2};

verus! {

/// Why route-plan waypoint rescue evidence is absent from the artifact schema.
#[derive(Clone, Copy, Debug, PartialEq, Eq, Structural)]
pub enum WaypointRescueEvidencePolicyV3 {
    OmittedUntilProducerApiIsStable,
}

/// Counts over every record stream of one shard.
#[derive(Clone, Copy, Debug, PartialEq, Eq, Structural)]
pub struct CorpusArtifactSummaryV3 {
    pub attempts: usize,
    pub constructed_attempts: usize,
    pub rejected_attempts: usize,
    pub physical_rooms: usize,
    pub native_variants: usize,
    pub alias_candidates: usize,
    pub route_rows: usize,
    pub positive_route_rows: usize,
    pub inconclusive_route_rows: usize,
    pub pickup_rows: usize,
    pub positive_pickup_rows: usize,
    pub inconclusive_pickup_rows: usize,
    pub positive_witnesses: usize,
    pub passing_variant_construction_gates: usize,
    pub ability_aliases: usize,
    pub promoted_ability_aliases: usize,
    pub unpromoted_ability_aliases: usize,
    pub passing_complete_kit_rooms: usize,
    pub rooms_with_canonical_regeneration: usize,
}

/// What the summary reads of one physical room record.
#[derive(Clone, Debug, PartialEq, Eq)]
pub struct RoomSummaryInputV3 {
    /// Number of native variants of the room.
    pub variant_count: usize,
    /// Whether each variant construction gate passes.
    pub construction_gate_passes: Vec<bool>,
    /// The room's variant ability-promotion gates.
    pub promotion_gates: Vec<VariantAbilityPromotionGateV2>,
    /// Whether the room's complete-kit gate passes.
    pub complete_kit_passes: bool,
    /// Whether canonical regeneration selected a key for the room.
    pub has_canonical_regeneration: bool,
}

/// Number of `true` entries.
pub open spec fn count_true(s: Seq<bool>) -> nat
    decreases s.len(),
{
    if s.len() == 0 {
        0
    } else {
        count_true(s.drop_last()) + if s.last() { 1nat } else { 0nat }
    }
}

/// A gate carries ability evidence.
pub open spec fn is_ability_gate(g: VariantAbilityPromotionGateV2) -> bool {
    g.evidence is Ability
}

/// A gate's decision promotes its alias.
pub open spec fn is_promoted_gate(g: VariantAbilityPromotionGateV2) -> bool {
    g.decision is PromotedStructuralNoKnownBypass
}

/// Number of gates satisfying `p`.
pub open spec fn count_gates(s: Seq<VariantAbilityPromotionGateV2>, p: spec_fn(VariantAbilityPromotionGateV2) -> bool) -> nat
    decreases s.len(),
{
    if s.len() == 0 {
        0
    } else {
        count_gates(s.drop_last(), p) + if p(s.last()) { 1nat } else { 0nat }
    }
}

/// Sum of `f` over the rooms.
pub open spec fn room_sum(rooms: Seq<RoomSummaryInputV3>, f: spec_fn(RoomSummaryInputV3) -> nat) -> nat
    decreases rooms.len(),
{
    if rooms.len() == 0 {
        0
    } else {
        room_sum(rooms.drop_last(), f) + f(rooms.last())
    }
}

pub open spec fn variants_of() -> spec_fn(RoomSummaryInputV3) -> nat {
    |r: RoomSummaryInputV3| r.variant_count as nat
}

pub open spec fn construction_gates_of() -> spec_fn(RoomSummaryInputV3) -> nat {
    |r: RoomSummaryInputV3| r.construction_gate_passes@.len()
}

pub open spec fn passing_gates_of() -> spec_fn(RoomSummaryInputV3) -> nat {
    |r: RoomSummaryInputV3| count_true(r.construction_gate_passes@)
}

pub open spec fn promotion_gates_of() -> spec_fn(RoomSummaryInputV3) -> nat {
    |r: RoomSummaryInputV3| r.promotion_gates@.len()
}

pub open spec fn ability_gates_of() -> spec_fn(RoomSummaryInputV3) -> nat {
    |r: RoomSummaryInputV3| count_gates(r.promotion_gates@, |g: VariantAbilityPromotionGateV2| is_ability_gate(g))
}

pub open spec fn promoted_gates_of() -> spec_fn(RoomSummaryInputV3) -> nat {
    |r: RoomSummaryInputV3| count_gates(r.promotion_gates@, |g: VariantAbilityPromotionGateV2| is_promoted_gate(g))
}

pub open spec fn unpromoted_gates_of() -> spec_fn(RoomSummaryInputV3) -> nat {
    |r: RoomSummaryInputV3|
        count_gates(
            r.promotion_gates@,
            |g: VariantAbilityPromotionGateV2| is_ability_gate(g) && !is_promoted_gate(g),
        )
}

pub open spec fn complete_kit_of() -> spec_fn(RoomSummaryInputV3) -> nat {
    |r: RoomSummaryInputV3| if r.complete_kit_passes { 1nat } else { 0nat }
}

pub open spec fn regenerated_of() -> spec_fn(RoomSummaryInputV3) -> nat {
    |r: RoomSummaryInputV3| if r.has_canonical_regeneration { 1nat } else { 0nat }
}

/// `a - b`, or zero when `b` is larger.
pub open spec fn saturating_difference(a: nat, b: nat) -> nat {
    if a >= b { (a - b) as nat } else { 0 }
}

/// The summary of a shard whose positive rows match its witnesses.
pub open spec fn summary_of(
    attempts: Seq<bool>,
    rooms: Seq<RoomSummaryInputV3>,
    routes: Seq<bool>,
    pickups: Seq<bool>,
    witness_count: usize,
) -> CorpusArtifactSummaryV3 {
    let constructed = count_true(attempts);
    let variants = room_sum(rooms, variants_of());
    CorpusArtifactSummaryV3 {
        attempts: attempts.len() as usize,
        constructed_attempts: constructed as usize,
        rejected_attempts: saturating_difference(attempts.len(), constructed) as usize,
        physical_rooms: rooms.len() as usize,
        native_variants: variants as usize,
        alias_candidates: saturating_difference(variants, rooms.len()) as usize,
        route_rows: routes.len() as usize,
        positive_route_rows: count_true(routes) as usize,
        inconclusive_route_rows: saturating_difference(routes.len(), count_true(routes)) as usize,
        pickup_rows: pickups.len() as usize,
        positive_pickup_rows: count_true(pickups) as usize,
        inconclusive_pickup_rows: saturating_difference(pickups.len(), count_true(pickups)) as usize,
        positive_witnesses: witness_count,
        passing_variant_construction_gates: room_sum(rooms, passing_gates_of()) as usize,
        ability_aliases: room_sum(rooms, ability_gates_of()) as usize,
        promoted_ability_aliases: room_sum(rooms, promoted_gates_of()) as usize,
        unpromoted_ability_aliases: room_sum(rooms, unpromoted_gates_of()) as usize,
        passing_complete_kit_rooms: room_sum(rooms, complete_kit_of()) as usize,
        rooms_with_canonical_regeneration: room_sum(rooms, regenerated_of()) as usize,
    }
}

/// The summary, or why the positive rows disagree with the witness count.
pub open spec fn summary_result(
    attempts: Seq<bool>,
    rooms: Seq<RoomSummaryInputV3>,
    routes: Seq<bool>,
    pickups: Seq<bool>,
    witness_count: usize,
) -> Result<CorpusArtifactSummaryV3, CorpusArtifactV3Error> {
    let positive = count_true(routes) + count_true(pickups);
    if positive > usize::MAX {
        Err(CorpusArtifactV3Error::Invalid(ArtifactViolation::PositiveCountOverflow))
    } else if positive != witness_count {
        Err(
            CorpusArtifactV3Error::Invalid(
                ArtifactViolation::PositiveWitnessMismatch {
                    positive_rows: positive as usize,
                    witness_count,
                },
            ),
        )
    } else {
        Ok(summary_of(attempts, rooms, routes, pickups, witness_count))
    }
}

proof fn lemma_count_true_bound(s: Seq<bool>)
    ensures
        count_true(s) <= s.len(),
    decreases s.len(),
{
    if s.len() > 0 {
        lemma_count_true_bound(s.drop_last());
    }
}

proof fn lemma_count_gates_bound(s: Seq<VariantAbilityPromotionGateV2>, p: spec_fn(VariantAbilityPromotionGateV2) -> bool)
    ensures
        count_gates(s, p) <= s.len(),
    decreases s.len(),
{
    if s.len() > 0 {
        lemma_count_gates_bound(s.drop_last(), p);
    }
}

/// A sum over rooms bounded room by room is bounded by the bounding sum.
proof fn lemma_room_sum_le(
    rooms: Seq<RoomSummaryInputV3>,
    f: spec_fn(RoomSummaryInputV3) -> nat,
    g: spec_fn(RoomSummaryInputV3) -> nat,
)
    requires
        forall|r: RoomSummaryInputV3| #[trigger] f(r) <= g(r),
    ensures
        room_sum(rooms, f) <= room_sum(rooms, g),
    decreases rooms.len(),
{
    if rooms.len() > 0 {
        lemma_room_sum_le(rooms.drop_last(), f, g);
        assert(f(rooms.last()) <= g(rooms.last()));
    }
}

proof fn lemma_room_sum_prefix(rooms: Seq<RoomSummaryInputV3>, f: spec_fn(RoomSummaryInputV3) -> nat, k: int)
    requires
        0 <= k <= rooms.len(),
    ensures
        room_sum(rooms.take(k), f) <= room_sum(rooms, f),
    decreases rooms.len(),
{
    if k < rooms.len() {
        assert(rooms.drop_last().take(k) =~= rooms.take(k));
        lemma_room_sum_prefix(rooms.drop_last(), f, k);
    } else {
        assert(rooms.take(k) =~= rooms);
    }
}

/// Number of `true` entries, computed.
fn count_flags(s: &[bool]) -> (r: usize)
    ensures
        r == count_true(s@),
{
    let mut n: usize = 0;
    let mut k: usize = 0;
    while k < s.len()
        invariant
            k <= s.len(),
            n == count_true(s@.take(k as int)),
        decreases s.len() - k,
    {
        assert(s@.take(k + 1).drop_last() =~= s@.take(k as int));
        proof {
            lemma_count_true_bound(s@.take(k + 1));
        }
        if s[k] {
            n = n + 1;
        }
        k = k + 1;
    }
    assert(s@.take(k as int) =~= s@);
    n
}

/// Counts of ability, promoted, and unpromoted-ability gates.
fn count_promotion_gates(gates: &Vec<VariantAbilityPromotionGateV2>) -> (r: (usize, usize, usize))
    ensures
        r.0 == count_gates(gates@, |g: VariantAbilityPromotionGateV2| is_ability_gate(g)),
        r.1 == count_gates(gates@, |g: VariantAbilityPromotionGateV2| is_promoted_gate(g)),
        r.2 == count_gates(gates@, |g: VariantAbilityPromotionGateV2| is_ability_gate(g) && !is_promoted_gate(g)),
{
    let ghost pa = |g: VariantAbilityPromotionGateV2| is_ability_gate(g);
    let ghost pp = |g: VariantAbilityPromotionGateV2| is_promoted_gate(g);
    let ghost pu = |g: VariantAbilityPromotionGateV2| is_ability_gate(g) && !is_promoted_gate(g);
    let mut ability: usize = 0;
    let mut promoted: usize = 0;
    let mut unpromoted: usize = 0;
    let mut k: usize = 0;
    while k < gates.len()
        invariant
            k <= gates.len(),
            pa == |g: VariantAbilityPromotionGateV2| is_ability_gate(g),
            pp == |g: VariantAbilityPromotionGateV2| is_promoted_gate(g),
            pu == |g: VariantAbilityPromotionGateV2| is_ability_gate(g) && !is_promoted_gate(g),
            ability == count_gates(gates@.take(k as int), pa),
            promoted == count_gates(gates@.take(k as int), pp),
            unpromoted == count_gates(gates@.take(k as int), pu),
        decreases gates.len() - k,
    {
        let ghost t = gates@.take(k + 1);
        assert(t.drop_last() =~= gates@.take(k as int));
        assert(t.last() == gates@[k as int]);
        proof {
            lemma_count_gates_bound(t, pa);
            lemma_count_gates_bound(t, pp);
            lemma_count_gates_bound(t, pu);
        }
        let g = &gates[k];
        let is_ability = match g.evidence {
            VariantAbilityPromotionEvidenceV2::Ability { .. } => true,
            VariantAbilityPromotionEvidenceV2::NotApplicable => false,
        };
        let is_promoted = match g.decision {
            AbilityPromotionDecisionV2::PromotedStructuralNoKnownBypass => true,
            _ => false,
        };
        assert(is_ability == pa(gates@[k as int]));
        assert(is_promoted == pp(gates@[k as int]));
        assert((is_ability && !is_promoted) == pu(gates@[k as int]));
        assert(count_gates(t, pa) == ability + if is_ability { 1int } else { 0int });
        assert(count_gates(t, pu) == unpromoted + if is_ability && !is_promoted { 1int } else { 0int });
        if is_ability {
            ability = ability + 1;
        }
        if is_promoted {
            promoted = promoted + 1;
        }
        if is_ability && !is_promoted {
            unpromoted = unpromoted + 1;
        }
        k = k + 1;
    }
    assert(gates@.take(k as int) =~= gates@);
    (ability, promoted, unpromoted)
}

proof fn lemma_room_sum_unit(rooms: Seq<RoomSummaryInputV3>, f: spec_fn(RoomSummaryInputV3) -> nat)
    requires
        forall|r: RoomSummaryInputV3| #[trigger] f(r) <= 1,
    ensures
        room_sum(rooms, f) <= rooms.len(),
    decreases rooms.len(),
{
    if rooms.len() > 0 {
        lemma_room_sum_unit(rooms.drop_last(), f);
        assert(f(rooms.last()) <= 1);
    }
}

/// Every per-room count is bounded by the number of the room's gates, so its
/// total is bounded by the total number of gates.
proof fn lemma_room_totals(rooms: Seq<RoomSummaryInputV3>)
    ensures
        room_sum(rooms, passing_gates_of()) <= room_sum(rooms, construction_gates_of()),
        room_sum(rooms, ability_gates_of()) <= room_sum(rooms, promotion_gates_of()),
        room_sum(rooms, promoted_gates_of()) <= room_sum(rooms, promotion_gates_of()),
        room_sum(rooms, unpromoted_gates_of()) <= room_sum(rooms, promotion_gates_of()),
        room_sum(rooms, complete_kit_of()) <= rooms.len(),
        room_sum(rooms, regenerated_of()) <= rooms.len(),
{
    assert forall|r: RoomSummaryInputV3| #[trigger] passing_gates_of()(r) <= construction_gates_of()(r) by {
        lemma_count_true_bound(r.construction_gate_passes@);
    }
    lemma_room_sum_le(rooms, passing_gates_of(), construction_gates_of());
    assert forall|r: RoomSummaryInputV3| #[trigger] ability_gates_of()(r) <= promotion_gates_of()(r) by {
        lemma_count_gates_bound(r.promotion_gates@, |g: VariantAbilityPromotionGateV2| is_ability_gate(g));
    }
    lemma_room_sum_le(rooms, ability_gates_of(), promotion_gates_of());
    assert forall|r: RoomSummaryInputV3| #[trigger] promoted_gates_of()(r) <= promotion_gates_of()(r) by {
        lemma_count_gates_bound(r.promotion_gates@, |g: VariantAbilityPromotionGateV2| is_promoted_gate(g));
    }
    lemma_room_sum_le(rooms, promoted_gates_of(), promotion_gates_of());
    assert forall|r: RoomSummaryInputV3| #[trigger] unpromoted_gates_of()(r) <= promotion_gates_of()(r) by {
        lemma_count_gates_bound(
            r.promotion_gates@,
            |g: VariantAbilityPromotionGateV2| is_ability_gate(g) && !is_promoted_gate(g),
        );
    }
    lemma_room_sum_le(rooms, unpromoted_gates_of(), promotion_gates_of());
    lemma_room_sum_unit(rooms, complete_kit_of());
    lemma_room_sum_unit(rooms, regenerated_of());
}

/// Count every stream of a parsed shard, after checking that the positive
/// route and pickup rows match the retained witnesses one for one.
pub fn summarize_artifact_v3(
    attempts_constructed: &[bool],
    rooms: &[RoomSummaryInputV3],
    routes_positive: &[bool],
    pickups_positive: &[bool],
    witness_count: usize,
) -> (r: Result<CorpusArtifactSummaryV3, CorpusArtifactV3Error>)
    requires
        room_sum(rooms@, variants_of()) <= usize::MAX,
        room_sum(rooms@, construction_gates_of()) <= usize::MAX,
        room_sum(rooms@, promotion_gates_of()) <= usize::MAX,
    ensures
        r == summary_result(attempts_constructed@, rooms@, routes_positive@, pickups_positive@, witness_count),
{
    let constructed = count_flags(attempts_constructed);
    let positive_routes = count_flags(routes_positive);
    let positive_pickups = count_flags(pickups_positive);
    proof {
        lemma_count_true_bound(attempts_constructed@);
        lemma_count_true_bound(routes_positive@);
        lemma_count_true_bound(pickups_positive@);
    }
    let positive = match positive_routes.checked_add(positive_pickups) {
        Some(p) => p,
        None => {
            return Err(CorpusArtifactV3Error::Invalid(ArtifactViolation::PositiveCountOverflow));
        },
    };
    if positive != witness_count {
        return Err(
            CorpusArtifactV3Error::Invalid(
                ArtifactViolation::PositiveWitnessMismatch { positive_rows: positive, witness_count },
            ),
        );
    }
    let mut variants: usize = 0;
    let mut passing_gates: usize = 0;
    let mut ability: usize = 0;
    let mut promoted: usize = 0;
    let mut unpromoted: usize = 0;
    let mut complete_kit: usize = 0;
    let mut regenerated: usize = 0;
    let mut k: usize = 0;
    while k < rooms.len()
        invariant
            k <= rooms.len(),
            room_sum(rooms@, variants_of()) <= usize::MAX,
            room_sum(rooms@, construction_gates_of()) <= usize::MAX,
            room_sum(rooms@, promotion_gates_of()) <= usize::MAX,
            variants == room_sum(rooms@.take(k as int), variants_of()),
            passing_gates == room_sum(rooms@.take(k as int), passing_gates_of()),
            ability == room_sum(rooms@.take(k as int), ability_gates_of()),
            promoted == room_sum(rooms@.take(k as int), promoted_gates_of()),
            unpromoted == room_sum(rooms@.take(k as int), unpromoted_gates_of()),
            complete_kit == room_sum(rooms@.take(k as int), complete_kit_of()),
            regenerated == room_sum(rooms@.take(k as int), regenerated_of()),
        decreases rooms.len() - k,
    {
        let ghost t = rooms@.take(k + 1);
        proof {
            assert(t.drop_last() =~= rooms@.take(k as int));
            assert(t.last() == rooms@[k as int]);
            lemma_room_totals(t);
            lemma_room_sum_prefix(rooms@, variants_of(), k + 1);
            lemma_room_sum_prefix(rooms@, construction_gates_of(), k + 1);
            lemma_room_sum_prefix(rooms@, promotion_gates_of(), k + 1);
        }
        let room = &rooms[k];
        let passing = count_flags(room.construction_gate_passes.as_slice());
        let (a, p, u) = count_promotion_gates(&room.promotion_gates);
        variants = variants + room.variant_count;
        passing_gates = passing_gates + passing;
        ability = ability + a;
        promoted = promoted + p;
        unpromoted = unpromoted + u;
        if room.complete_kit_passes {
            complete_kit = complete_kit + 1;
        }
        if room.has_canonical_regeneration {
            regenerated = regenerated + 1;
        }
        k = k + 1;
    }
    assert(rooms@.take(k as int) =~= rooms@);
    Ok(CorpusArtifactSummaryV3 {
        attempts: attempts_constructed.len(),
        constructed_attempts: constructed,
        rejected_attempts: attempts_constructed.len() - constructed,
        physical_rooms: rooms.len(),
        native_variants: variants,
        alias_candidates: variants.saturating_sub(rooms.len()),
        route_rows: routes_positive.len(),
        positive_route_rows: positive_routes,
        inconclusive_route_rows: routes_positive.len() - positive_routes,
        pickup_rows: pickups_positive.len(),
        positive_pickup_rows: positive_pickups,
        inconclusive_pickup_rows: pickups_positive.len() - positive_pickups,
        positive_witnesses: witness_count,
        passing_variant_construction_gates: passing_gates,
        ability_aliases: ability,
        promoted_ability_aliases: promoted,
        unpromoted_ability_aliases: unpromoted,
        passing_complete_kit_rooms: complete_kit,
        rooms_with_canonical_regeneration: regenerated,
    })
}

/// A summary partitions its rows: every attempt is constructed or rejected,
/// every route and pickup row is positive or inconclusive, and the positive
/// rows are exactly the witnesses.
pub proof fn lemma_summary_partitions(
    attempts: Seq<bool>,
    rooms: Seq<RoomSummaryInputV3>,
    routes: Seq<bool>,
    pickups: Seq<bool>,
    witness_count: usize,
)
    requires
        attempts.len() <= usize::MAX,
        rooms.len() <= usize::MAX,
        routes.len() <= usize::MAX,
        pickups.len() <= usize::MAX,
        summary_result(attempts, rooms, routes, pickups, witness_count) is Ok,
    ensures
        ({
            let s = summary_result(attempts, rooms, routes, pickups, witness_count)->Ok_0;
            &&& s.constructed_attempts + s.rejected_attempts == s.attempts
            &&& s.positive_route_rows + s.inconclusive_route_rows == s.route_rows
            &&& s.positive_pickup_rows + s.inconclusive_pickup_rows == s.pickup_rows
            &&& s.positive_route_rows + s.positive_pickup_rows == s.positive_witnesses
        }),
{
    lemma_count_true_bound(attempts);
    lemma_count_true_bound(routes);
    lemma_count_true_bound(pickups);
}

} // verus!
