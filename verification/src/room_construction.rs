//! A room record checked against the room that its recorded seed
//! configuration regenerates: the same identity and exact physical
//! descriptor, the same native aliases in key order, the lexically least
//! alias as evidence source, per-loadout search effort over that source's
//! doors in canonical order with aggregates that sum their sources, ordered
//! gates aligned with the aliases, the shard's promotion-audit config, and
//! the supported gate and regeneration policy versions.
use vstd::prelude::*;

use crate::ability_promotion::{CORPUS_ABILITY_PROMOTION_GATE_VERSION, EvaluationLoadout, all_loadouts};
use crate::analysis_config::{
    CorpusRoomAnalysisConfigRecord, CurrentAnalysisPolicies, SolverMacroConfigV2, config_check, config_id_text,
};
use crate::asymmetry_rows::{text_less, text_lt};
use crate::checks::{ArtifactViolation, CorpusArtifactV3Error};

verus! {

/// A native alias as recorded: its candidate key (as its stable slug) and
/// the canonical encoding of its route graph, boundary ports and provenance.
#[derive(Clone, Debug, PartialEq, Eq)]
pub struct NativeVariantRecordV3 {
    pub key: String,
    pub encoding: String,
}

/// Search effort counters.
#[derive(Clone, Copy, Debug, PartialEq, Eq, Structural)]
pub struct SearchStatsRecordV3 {
    pub expanded_nodes: usize,
    pub generated_nodes: usize,
    pub simulated_ticks: usize,
    pub deepest_path_ticks: usize,
}

/// Search effort spent from one source door.
#[derive(Clone, Debug, PartialEq, Eq)]
pub struct SourceSearchEffortRecordV3 {
    pub source_door_id: String,
    pub search_effort: SearchStatsRecordV3,
}

/// Search effort of one loadout's matrix.
#[derive(Clone, Debug, PartialEq, Eq)]
pub struct MatrixSearchEffortRecordV3 {
    pub loadout: EvaluationLoadout,
    pub source_search_effort: Vec<SourceSearchEffortRecordV3>,
    pub aggregate_search_effort: SearchStatsRecordV3,
}

/// The key (as its stable slug) and version of a recorded gate.
#[derive(Clone, Debug, PartialEq, Eq)]
pub struct GateHeaderV3 {
    pub key: String,
    pub gate_version: u32,
}

/// What a room record states of its construction.
#[derive(Clone, Debug, PartialEq, Eq)]
pub struct RoomConstructionRecordV3 {
    pub room_id: String,
    /// Canonical encoding of the exact physical descriptor.
    pub physical_descriptor: String,
    pub physical_evidence_source_key: String,
    pub variants: Vec<NativeVariantRecordV3>,
    pub matrix_search_effort: Vec<MatrixSearchEffortRecordV3>,
    pub variant_construction_gates: Vec<GateHeaderV3>,
    pub ability_promotion_audit_config: CorpusRoomAnalysisConfigRecord,
    pub variant_ability_promotion_gates: Vec<GateHeaderV3>,
    pub canonical_regeneration_policy_version: u32,
}

/// One regenerated alias.
#[derive(Clone, Debug, PartialEq, Eq)]
pub struct RegeneratedVariantV3 {
    /// Its exact key, as its stable slug.
    pub key: String,
    /// The record it should appear as.
    pub record: NativeVariantRecordV3,
    /// Canonical encoding of its own physical descriptor.
    pub physical_descriptor: String,
    /// The identifiers of its room's doors, in the generator's order.
    pub door_ids: Vec<String>,
    /// The identifiers of its room's pickups.
    pub pickup_ids: Vec<String>,
}

/// A regenerated physical room.
#[derive(Clone, Debug, PartialEq, Eq)]
pub struct RegeneratedRoomV3 {
    pub id: String,
    /// The compact identifier that its exact descriptor derives.
    pub descriptor_room_id: String,
    pub physical_descriptor: String,
    pub variants: Vec<RegeneratedVariantV3>,
}

/// The versions this build supports, and the policies a room's
/// promotion-audit config must be current with.
#[derive(Clone, Copy, Debug, PartialEq, Eq, Structural)]
pub struct ConstructionPolicyV3 {
    pub feasibility_gate_version: u32,
    pub canonical_regeneration_policy_version: u32,
    pub current: CurrentAnalysisPolicies,
}

pub open spec fn fail(v: ArtifactViolation) -> Result<(), CorpusArtifactV3Error> {
    Err(CorpusArtifactV3Error::Invalid(v))
}

/// Two native-alias records are the same.
pub open spec fn same_variant(a: NativeVariantRecordV3, b: NativeVariantRecordV3) -> bool {
    a.key@ == b.key@ && a.encoding@ == b.encoding@
}

/// Native aliases strictly ascending by key.
pub open spec fn variants_strict(vs: Seq<NativeVariantRecordV3>) -> bool {
    forall|i: int| 0 < i < vs.len() ==> text_lt(#[trigger] vs[i - 1].key@, vs[i].key@)
}

/// Gates strictly ascending by key.
pub open spec fn gates_strict(gs: Seq<GateHeaderV3>) -> bool {
    forall|i: int| 0 < i < gs.len() ==> text_lt(#[trigger] gs[i - 1].key@, gs[i].key@)
}

/// The record is among the regenerated aliases' records.
pub open spec fn among_regenerated(v: NativeVariantRecordV3, regenerated: Seq<RegeneratedVariantV3>) -> bool {
    exists|j: int| 0 <= j < regenerated.len() && same_variant(v, #[trigger] regenerated[j].record)
}

/// The record is among the recorded aliases.
pub open spec fn among_recorded(record: Seq<NativeVariantRecordV3>, x: NativeVariantRecordV3) -> bool {
    exists|i: int| 0 <= i < record.len() && same_variant(#[trigger] record[i], x)
}

/// The recorded aliases are the regenerated ones: as many, and each found
/// among the others. With recorded aliases strictly ascending by key, this is
/// equality with the regenerated records sorted by key.
pub open spec fn variants_match(record: Seq<NativeVariantRecordV3>, regenerated: Seq<RegeneratedVariantV3>) -> bool {
    &&& record.len() == regenerated.len()
    &&& forall|i: int| 0 <= i < record.len() ==> among_regenerated(#[trigger] record[i], regenerated)
    &&& forall|j: int| 0 <= j < regenerated.len() ==> among_recorded(record, #[trigger] regenerated[j].record)
}

/// Every regenerated alias lies in the room's exact descriptor group.
pub open spec fn aliases_in_group(room: RegeneratedRoomV3) -> bool {
    forall|j: int| 0 <= j < room.variants.len() ==> (#[trigger] room.variants[j]).physical_descriptor@
        == room.physical_descriptor@
}

/// Position of the first alias with the lexically least key.
pub open spec fn least_index(vs: Seq<RegeneratedVariantV3>) -> int
    decreases vs.len(),
{
    if vs.len() <= 1 {
        0
    } else {
        let m = least_index(vs.drop_last());
        if text_lt(vs.last().key@, vs[m].key@) {
            vs.len() - 1
        } else {
            m
        }
    }
}

/// Some recorded alias has the key.
pub open spec fn has_variant_key(vs: Seq<NativeVariantRecordV3>, key: Seq<char>) -> bool {
    exists|i: int| 0 <= i < vs.len() && (#[trigger] vs[i]).key@ == key
}

/// Occurrences of a text.
pub open spec fn count_text(s: Seq<String>, x: Seq<char>) -> nat
    decreases s.len(),
{
    if s.len() == 0 {
        0
    } else {
        count_text(s.drop_last(), x) + if s.last()@ == x { 1nat } else { 0nat }
    }
}

/// `ids` is `of` in ascending order: non-decreasing, with every text as
/// often in one as in the other.
pub open spec fn sorted_arrangement(ids: Seq<String>, of: Seq<String>) -> bool {
    &&& forall|i: int| 0 < i < ids.len() ==> !text_lt(#[trigger] ids[i]@, ids[i - 1]@)
    &&& forall|x: Seq<char>| count_text(ids, x) == count_text(of, x)
}

/// The source doors of a matrix's effort records.
pub open spec fn effort_doors(s: Seq<SourceSearchEffortRecordV3>) -> Seq<String> {
    s.map_values(|e: SourceSearchEffortRecordV3| e.source_door_id)
}

pub open spec fn saturating(x: int) -> usize {
    if x > usize::MAX { usize::MAX } else { x as usize }
}

/// Adds a source's effort to an aggregate: saturating sums, and the
/// deepest path.
pub open spec fn accumulate(a: SearchStatsRecordV3, s: SearchStatsRecordV3) -> SearchStatsRecordV3 {
    SearchStatsRecordV3 {
        expanded_nodes: saturating(a.expanded_nodes + s.expanded_nodes),
        generated_nodes: saturating(a.generated_nodes + s.generated_nodes),
        simulated_ticks: saturating(a.simulated_ticks + s.simulated_ticks),
        deepest_path_ticks: if a.deepest_path_ticks >= s.deepest_path_ticks {
            a.deepest_path_ticks
        } else {
            s.deepest_path_ticks
        },
    }
}

pub open spec fn zero_stats() -> SearchStatsRecordV3 {
    SearchStatsRecordV3 { expanded_nodes: 0, generated_nodes: 0, simulated_ticks: 0, deepest_path_ticks: 0 }
}

/// The aggregate of sources' effort, accumulated in order from zero.
pub open spec fn aggregate_of(s: Seq<SourceSearchEffortRecordV3>) -> SearchStatsRecordV3
    decreases s.len(),
{
    if s.len() == 0 {
        zero_stats()
    } else {
        accumulate(aggregate_of(s.drop_last()), s.last().search_effort)
    }
}

/// The loadouts of the effort records.
pub open spec fn effort_loadouts(m: Seq<MatrixSearchEffortRecordV3>) -> Seq<EvaluationLoadout> {
    m.map_values(|e: MatrixSearchEffortRecordV3| e.loadout)
}

/// The outcome of checking matrix effort records from position `k` on.
pub open spec fn efforts_from(
    m: Seq<MatrixSearchEffortRecordV3>,
    doors: Seq<String>,
    k: int,
) -> Result<(), CorpusArtifactV3Error>
    decreases m.len() - k,
{
    if k < 0 || k >= m.len() {
        Ok(())
    } else if !sorted_arrangement(effort_doors(m[k].source_search_effort@), doors) {
        fail(ArtifactViolation::SourceEffortOrder { loadout: m[k].loadout })
    } else if m[k].aggregate_search_effort != aggregate_of(m[k].source_search_effort@) {
        fail(ArtifactViolation::AggregateEffortDiffers { loadout: m[k].loadout })
    } else {
        efforts_from(m, doors, k + 1)
    }
}

/// Two macro lists are the same.
pub open spec fn same_macros(a: Seq<SolverMacroConfigV2>, b: Seq<SolverMacroConfigV2>) -> bool {
    &&& a.len() == b.len()
    &&& forall|i: int| 0 <= i < a.len() ==> (#[trigger] a[i]).name@ == b[i].name@ && a[i].actions@ == b[i].actions@
}

/// Two promotion-audit configs are the same.
pub open spec fn same_config(a: CorpusRoomAnalysisConfigRecord, b: CorpusRoomAnalysisConfigRecord) -> bool {
    let (s, t) = (a.direct_controller_solver, b.direct_controller_solver);
    &&& a.config_id_version == b.config_id_version
    &&& a.analysis_policy_version == b.analysis_policy_version
    &&& a.solver_policy_version == b.solver_policy_version
    &&& a.route_controller_policy == b.route_controller_policy
    &&& a.config_id@ == b.config_id@
    &&& a.canonical_witness_difficulty == b.canonical_witness_difficulty
    &&& s.max_expanded_nodes == t.max_expanded_nodes
    &&& s.max_simulated_ticks == t.max_simulated_ticks
    &&& s.max_ticks_per_path == t.max_ticks_per_path
    &&& s.beam_width == t.beam_width
    &&& s.position_quantum == t.position_quantum
    &&& s.velocity_quantum == t.velocity_quantum
    &&& s.probe_direct_routes == t.probe_direct_routes
    &&& s.baseline_preview_max_expanded_nodes == t.baseline_preview_max_expanded_nodes
    &&& s.baseline_preview_max_simulated_ticks == t.baseline_preview_max_simulated_ticks
    &&& same_macros(s.macros@, t.macros@)
}

/// A promotion-audit config passes its own validation.
pub open spec fn config_valid(c: CorpusRoomAnalysisConfigRecord, current: CurrentAnalysisPolicies) -> bool {
    config_check(c, current) is None && c.config_id@ == config_id_text(c)
}

/// Promotion gates are one per native alias, key for key.
pub open spec fn gates_aligned(gs: Seq<GateHeaderV3>, vs: Seq<NativeVariantRecordV3>) -> bool {
    gs.len() == vs.len() && forall|i: int| 0 <= i < gs.len() ==> (#[trigger] gs[i]).key@ == vs[i].key@
}

/// Gate and regeneration-policy versions are the supported ones.
pub open spec fn versions_supported(r: RoomConstructionRecordV3, policy: ConstructionPolicyV3) -> bool {
    &&& forall|i: int| 0 <= i < r.variant_construction_gates.len()
        ==> (#[trigger] r.variant_construction_gates[i]).gate_version == policy.feasibility_gate_version
    &&& forall|i: int| 0 <= i < r.variant_ability_promotion_gates.len()
        ==> (#[trigger] r.variant_ability_promotion_gates[i]).gate_version == CORPUS_ABILITY_PROMOTION_GATE_VERSION
    &&& r.canonical_regeneration_policy_version == policy.canonical_regeneration_policy_version
}

/// The outcome of checking a room record against its regeneration: the
/// first failing check, in order.
pub open spec fn room_construction_result(
    r: RoomConstructionRecordV3,
    g: RegeneratedRoomV3,
    shard_config: CorpusRoomAnalysisConfigRecord,
    policy: ConstructionPolicyV3,
) -> Result<(), CorpusArtifactV3Error> {
    if r.room_id@ != g.id@ {
        fail(ArtifactViolation::RoomIdentityDiffers)
    } else if g.id@ != g.descriptor_room_id@ {
        fail(ArtifactViolation::RegeneratedIdInconsistent)
    } else if r.physical_descriptor@ != g.physical_descriptor@ {
        fail(ArtifactViolation::PhysicalDescriptorDiffers)
    } else if r.variants.len() == 0 {
        fail(ArtifactViolation::NoNativeVariants)
    } else if !variants_strict(r.variants@) {
        fail(ArtifactViolation::NativeVariantOrder)
    } else if !variants_match(r.variants@, g.variants@) {
        fail(ArtifactViolation::NativeVariantsDiffer)
    } else if !aliases_in_group(g) {
        fail(ArtifactViolation::AliasOutsideDescriptor)
    } else if r.physical_evidence_source_key@ != g.variants[least_index(g.variants@)].key@ {
        fail(ArtifactViolation::EvidenceSourcePolicy)
    } else if !has_variant_key(r.variants@, r.physical_evidence_source_key@) {
        fail(ArtifactViolation::EvidenceSourceNotNative)
    } else if effort_loadouts(r.matrix_search_effort@) != all_loadouts() {
        fail(ArtifactViolation::EffortLoadouts)
    } else if efforts_from(r.matrix_search_effort@, g.variants[least_index(g.variants@)].door_ids@, 0) is Err {
        efforts_from(r.matrix_search_effort@, g.variants[least_index(g.variants@)].door_ids@, 0)
    } else if !gates_strict(r.variant_construction_gates@) {
        fail(ArtifactViolation::ConstructionGateOrder)
    } else if !gates_strict(r.variant_ability_promotion_gates@) {
        fail(ArtifactViolation::PromotionGateOrder)
    } else if !config_valid(r.ability_promotion_audit_config, policy.current) {
        fail(ArtifactViolation::RoomAuditConfigInvalid)
    } else if !same_config(r.ability_promotion_audit_config, shard_config) {
        fail(ArtifactViolation::RoomAuditConfigDiffers)
    } else if !gates_aligned(r.variant_ability_promotion_gates@, r.variants@) {
        fail(ArtifactViolation::PromotionGatesMisaligned)
    } else if !versions_supported(r, policy) {
        fail(ArtifactViolation::UnsupportedGatePolicy)
    } else {
        Ok(())
    }
}

fn variants_ascending(vs: &Vec<NativeVariantRecordV3>) -> (r: bool)
    ensures
        r == variants_strict(vs@),
{
    let mut i: usize = 1;
    while i < vs.len()
        invariant
            1 <= i,
            forall|t: int| 0 < t < i && t < vs.len() ==> text_lt(#[trigger] vs@[t - 1].key@, vs@[t].key@),
        decreases vs.len() - i,
    {
        if !text_less(vs[i - 1].key.as_str(), vs[i].key.as_str()) {
            return false;
        }
        i = i + 1;
    }
    true
}

fn gates_ascending(gs: &Vec<GateHeaderV3>) -> (r: bool)
    ensures
        r == gates_strict(gs@),
{
    let mut i: usize = 1;
    while i < gs.len()
        invariant
            1 <= i,
            forall|t: int| 0 < t < i && t < gs.len() ==> text_lt(#[trigger] gs@[t - 1].key@, gs@[t].key@),
        decreases gs.len() - i,
    {
        if !text_less(gs[i - 1].key.as_str(), gs[i].key.as_str()) {
            return false;
        }
        i = i + 1;
    }
    true
}

fn same_variant_exec(a: &NativeVariantRecordV3, b: &NativeVariantRecordV3) -> (r: bool)
    ensures
        r == same_variant(*a, *b),
{
    a.key == b.key && a.encoding == b.encoding
}

fn regenerated_has(g: &Vec<RegeneratedVariantV3>, v: &NativeVariantRecordV3) -> (r: bool)
    ensures
        r == among_regenerated(*v, g@),
{
    let mut j: usize = 0;
    while j < g.len()
        invariant
            j <= g.len(),
            forall|t: int| 0 <= t < j ==> !same_variant(*v, #[trigger] g@[t].record),
        decreases g.len() - j,
    {
        if same_variant_exec(v, &g[j].record) {
            return true;
        }
        j = j + 1;
    }
    false
}

fn recorded_has(vs: &Vec<NativeVariantRecordV3>, x: &NativeVariantRecordV3) -> (r: bool)
    ensures
        r == among_recorded(vs@, *x),
{
    let mut i: usize = 0;
    while i < vs.len()
        invariant
            i <= vs.len(),
            forall|t: int| 0 <= t < i ==> !same_variant(#[trigger] vs@[t], *x),
        decreases vs.len() - i,
    {
        if same_variant_exec(&vs[i], x) {
            return true;
        }
        i = i + 1;
    }
    false
}

fn variants_match_exec(vs: &Vec<NativeVariantRecordV3>, g: &Vec<RegeneratedVariantV3>) -> (r: bool)
    ensures
        r == variants_match(vs@, g@),
{
    if vs.len() != g.len() {
        return false;
    }
    let mut i: usize = 0;
    while i < vs.len()
        invariant
            i <= vs.len(),
            forall|t: int| 0 <= t < i ==> among_regenerated(#[trigger] vs@[t], g@),
        decreases vs.len() - i,
    {
        if !regenerated_has(g, &vs[i]) {
            return false;
        }
        i = i + 1;
    }
    let mut j: usize = 0;
    while j < g.len()
        invariant
            j <= g.len(),
            vs.len() == g.len(),
            forall|t: int| 0 <= t < vs.len() ==> among_regenerated(#[trigger] vs@[t], g@),
            forall|t: int| 0 <= t < j ==> among_recorded(vs@, #[trigger] g@[t].record),
        decreases g.len() - j,
    {
        if !recorded_has(vs, &g[j].record) {
            return false;
        }
        j = j + 1;
    }
    true
}

fn aliases_in_group_exec(g: &RegeneratedRoomV3) -> (r: bool)
    ensures
        r == aliases_in_group(*g),
{
    let mut j: usize = 0;
    while j < g.variants.len()
        invariant
            j <= g.variants.len(),
            forall|t: int| 0 <= t < j ==> (#[trigger] g.variants@[t]).physical_descriptor@ == g.physical_descriptor@,
        decreases g.variants.len() - j,
    {
        if g.variants[j].physical_descriptor != g.physical_descriptor {
            return false;
        }
        j = j + 1;
    }
    true
}

pub(crate) proof fn lemma_least_index_bound(vs: Seq<RegeneratedVariantV3>)
    requires
        vs.len() > 0,
    ensures
        0 <= least_index(vs) < vs.len(),
    decreases vs.len(),
{
    if vs.len() > 1 {
        lemma_least_index_bound(vs.drop_last());
    }
}

pub(crate) fn least_variant(vs: &Vec<RegeneratedVariantV3>) -> (r: usize)
    requires
        vs.len() > 0,
    ensures
        r == least_index(vs@),
        r < vs.len(),
{
    let mut best: usize = 0;
    let mut k: usize = 1;
    assert(vs@.take(1).len() == 1);
    while k < vs.len()
        invariant
            1 <= k <= vs.len(),
            best < k,
            best as int == least_index(vs@.take(k as int)),
        decreases vs.len() - k,
    {
        let ghost pre = vs@.take(k as int);
        let ghost next = vs@.take(k as int + 1);
        assert(next.drop_last() =~= pre);
        assert(next.last() == vs@[k as int]);
        assert(next[best as int] == vs@[best as int]);
        if text_less(vs[k].key.as_str(), vs[best].key.as_str()) {
            best = k;
        }
        k = k + 1;
    }
    assert(vs@.take(k as int) =~= vs@);
    best
}

fn has_key_exec(vs: &Vec<NativeVariantRecordV3>, key: &String) -> (r: bool)
    ensures
        r == has_variant_key(vs@, key@),
{
    let mut i: usize = 0;
    while i < vs.len()
        invariant
            i <= vs.len(),
            forall|t: int| 0 <= t < i ==> (#[trigger] vs@[t]).key@ != key@,
        decreases vs.len() - i,
    {
        if vs[i].key == *key {
            return true;
        }
        i = i + 1;
    }
    false
}

proof fn lemma_count_absent(s: Seq<String>, x: Seq<char>)
    requires
        forall|i: int| 0 <= i < s.len() ==> (#[trigger] s[i])@ != x,
    ensures
        count_text(s, x) == 0,
    decreases s.len(),
{
    if s.len() > 0 {
        lemma_count_absent(s.drop_last(), x);
    }
}

fn count_exec(s: &Vec<String>, x: &String) -> (c: usize)
    ensures
        c == count_text(s@, x@),
{
    let mut c: usize = 0;
    let mut k: usize = 0;
    while k < s.len()
        invariant
            k <= s.len(),
            c <= k,
            c == count_text(s@.take(k as int), x@),
        decreases s.len() - k,
    {
        assert(s@.take(k as int + 1).drop_last() =~= s@.take(k as int));
        if s[k] == *x {
            c = c + 1;
        }
        k = k + 1;
    }
    assert(s@.take(k as int) =~= s@);
    c
}

pub(crate) fn sorted_arrangement_exec(ids: &Vec<String>, of: &Vec<String>) -> (r: bool)
    ensures
        r == sorted_arrangement(ids@, of@),
{
    let mut i: usize = 1;
    while i < ids.len()
        invariant
            1 <= i,
            forall|t: int| 0 < t < i && t < ids.len() ==> !text_lt(#[trigger] ids@[t]@, ids@[t - 1]@),
        decreases ids.len() - i,
    {
        if text_less(ids[i].as_str(), ids[i - 1].as_str()) {
            return false;
        }
        i = i + 1;
    }
    let mut a: usize = 0;
    while a < ids.len()
        invariant
            a <= ids.len(),
            forall|t: int| 0 <= t < a ==> count_text(ids@, (#[trigger] ids@[t])@) == count_text(of@, ids@[t]@),
        decreases ids.len() - a,
    {
        if count_exec(ids, &ids[a]) != count_exec(of, &ids[a]) {
            return false;
        }
        a = a + 1;
    }
    let mut b: usize = 0;
    while b < of.len()
        invariant
            b <= of.len(),
            forall|t: int| 0 <= t < b ==> count_text(ids@, (#[trigger] of@[t])@) == count_text(of@, of@[t]@),
        decreases of.len() - b,
    {
        if count_exec(ids, &of[b]) != count_exec(of, &of[b]) {
            return false;
        }
        b = b + 1;
    }
    assert forall|x: Seq<char>| count_text(ids@, x) == count_text(of@, x) by {
        if exists|t: int| 0 <= t < ids.len() && (#[trigger] ids@[t])@ == x {
            let t = choose|t: int| 0 <= t < ids.len() && (#[trigger] ids@[t])@ == x;
            assert(count_text(ids@, ids@[t]@) == count_text(of@, ids@[t]@));
        } else if exists|t: int| 0 <= t < of.len() && (#[trigger] of@[t])@ == x {
            let t = choose|t: int| 0 <= t < of.len() && (#[trigger] of@[t])@ == x;
            assert(count_text(ids@, of@[t]@) == count_text(of@, of@[t]@));
        } else {
            lemma_count_absent(ids@, x);
            lemma_count_absent(of@, x);
        }
    }
    true
}

fn accumulate_exec(a: SearchStatsRecordV3, s: SearchStatsRecordV3) -> (r: SearchStatsRecordV3)
    ensures
        r == accumulate(a, s),
{
    SearchStatsRecordV3 {
        expanded_nodes: a.expanded_nodes.saturating_add(s.expanded_nodes),
        generated_nodes: a.generated_nodes.saturating_add(s.generated_nodes),
        simulated_ticks: a.simulated_ticks.saturating_add(s.simulated_ticks),
        deepest_path_ticks: if a.deepest_path_ticks >= s.deepest_path_ticks {
            a.deepest_path_ticks
        } else {
            s.deepest_path_ticks
        },
    }
}

fn aggregate_exec(s: &Vec<SourceSearchEffortRecordV3>) -> (r: SearchStatsRecordV3)
    ensures
        r == aggregate_of(s@),
{
    let mut agg = SearchStatsRecordV3 { expanded_nodes: 0, generated_nodes: 0, simulated_ticks: 0, deepest_path_ticks: 0 };
    let mut k: usize = 0;
    while k < s.len()
        invariant
            k <= s.len(),
            agg == aggregate_of(s@.take(k as int)),
        decreases s.len() - k,
    {
        assert(s@.take(k as int + 1).drop_last() =~= s@.take(k as int));
        agg = accumulate_exec(agg, s[k].search_effort);
        k = k + 1;
    }
    assert(s@.take(k as int) =~= s@);
    agg
}

fn effort_doors_exec(s: &Vec<SourceSearchEffortRecordV3>) -> (r: Vec<String>)
    ensures
        r@.len() == s@.len(),
        forall|i: int| 0 <= i < s.len() ==> (#[trigger] r@[i])@ == s@[i].source_door_id@,
{
    let mut r: Vec<String> = Vec::new();
    let mut k: usize = 0;
    while k < s.len()
        invariant
            k <= s.len(),
            r@.len() == k,
            forall|i: int| 0 <= i < k ==> (#[trigger] r@[i])@ == s@[i].source_door_id@,
        decreases s.len() - k,
    {
        r.push(s[k].source_door_id.clone());
        k = k + 1;
    }
    r
}

proof fn lemma_count_views(a: Seq<String>, b: Seq<String>, x: Seq<char>)
    requires
        a.len() == b.len(),
        forall|i: int| 0 <= i < a.len() ==> (#[trigger] a[i])@ == b[i]@,
    ensures
        count_text(a, x) == count_text(b, x),
    decreases a.len(),
{
    if a.len() > 0 {
        lemma_count_views(a.drop_last(), b.drop_last(), x);
    }
}

proof fn lemma_arrangement_views(a: Seq<String>, b: Seq<String>, of: Seq<String>)
    requires
        a.len() == b.len(),
        forall|i: int| 0 <= i < a.len() ==> (#[trigger] a[i])@ == b[i]@,
    ensures
        sorted_arrangement(a, of) == sorted_arrangement(b, of),
{
    assert forall|x: Seq<char>| count_text(a, x) == count_text(b, x) by {
        lemma_count_views(a, b, x);
    }
    if sorted_arrangement(a, of) {
        assert forall|i: int| 0 < i < b.len() implies !text_lt(#[trigger] b[i]@, b[i - 1]@) by {
            assert(a[i]@ == b[i]@ && a[i - 1]@ == b[i - 1]@);
        }
    }
    if sorted_arrangement(b, of) {
        assert forall|i: int| 0 < i < a.len() implies !text_lt(#[trigger] a[i]@, a[i - 1]@) by {
            assert(a[i]@ == b[i]@ && a[i - 1]@ == b[i - 1]@);
        }
    }
}

fn check_efforts(m: &Vec<MatrixSearchEffortRecordV3>, doors: &Vec<String>) -> (r: Result<(), CorpusArtifactV3Error>)
    ensures
        r == efforts_from(m@, doors@, 0),
{
    let mut k: usize = 0;
    while k < m.len()
        invariant
            k <= m.len(),
            efforts_from(m@, doors@, 0) == efforts_from(m@, doors@, k as int),
        decreases m.len() - k,
    {
        let ids = effort_doors_exec(&m[k].source_search_effort);
        proof {
            lemma_arrangement_views(ids@, effort_doors(m@[k as int].source_search_effort@), doors@);
        }
        if !sorted_arrangement_exec(&ids, doors) {
            return Err(CorpusArtifactV3Error::Invalid(ArtifactViolation::SourceEffortOrder { loadout: m[k].loadout }));
        }
        let agg = aggregate_exec(&m[k].source_search_effort);
        if m[k].aggregate_search_effort != agg {
            return Err(CorpusArtifactV3Error::Invalid(ArtifactViolation::AggregateEffortDiffers { loadout: m[k].loadout }));
        }
        k = k + 1;
    }
    Ok(())
}

fn loadouts_canonical(m: &Vec<MatrixSearchEffortRecordV3>) -> (r: bool)
    ensures
        r == (effort_loadouts(m@) == all_loadouts()),
{
    let all = EvaluationLoadout::all();
    if m.len() != all.len() {
        assert(effort_loadouts(m@).len() != all_loadouts().len());
        return false;
    }
    let mut k: usize = 0;
    while k < m.len()
        invariant
            k <= m.len(),
            m.len() == all@.len(),
            all@ == all_loadouts(),
            forall|t: int| 0 <= t < k ==> (#[trigger] m@[t]).loadout == all@[t],
        decreases m.len() - k,
    {
        if m[k].loadout != all[k] {
            assert(effort_loadouts(m@)[k as int] != all_loadouts()[k as int]);
            return false;
        }
        k = k + 1;
    }
    assert(effort_loadouts(m@) =~= all_loadouts());
    true
}

fn same_macros_exec(a: &Vec<SolverMacroConfigV2>, b: &Vec<SolverMacroConfigV2>) -> (r: bool)
    ensures
        r == same_macros(a@, b@),
{
    if a.len() != b.len() {
        return false;
    }
    let mut i: usize = 0;
    while i < a.len()
        invariant
            i <= a.len(),
            a.len() == b.len(),
            forall|t: int| 0 <= t < i ==> (#[trigger] a@[t]).name@ == b@[t].name@ && a@[t].actions@ == b@[t].actions@,
        decreases a.len() - i,
    {
        if a[i].name != b[i].name {
            return false;
        }
        if a[i].actions.len() != b[i].actions.len() {
            return false;
        }
        let mut j: usize = 0;
        while j < a[i].actions.len()
            invariant
                i < a.len(),
                a.len() == b.len(),
                j <= a@[i as int].actions.len(),
                a@[i as int].actions.len() == b@[i as int].actions.len(),
                forall|t: int| 0 <= t < j ==> a@[i as int].actions@[t] == b@[i as int].actions@[t],
            decreases a@[i as int].actions.len() - j,
        {
            if a[i].actions[j] != b[i].actions[j] {
                return false;
            }
            j = j + 1;
        }
        assert(a@[i as int].actions@ =~= b@[i as int].actions@);
        i = i + 1;
    }
    true
}

fn same_config_exec(a: &CorpusRoomAnalysisConfigRecord, b: &CorpusRoomAnalysisConfigRecord) -> (r: bool)
    ensures
        r == same_config(*a, *b),
{
    let s = &a.direct_controller_solver;
    let t = &b.direct_controller_solver;
    a.config_id_version == b.config_id_version && a.analysis_policy_version == b.analysis_policy_version
        && a.solver_policy_version == b.solver_policy_version
        && a.route_controller_policy == b.route_controller_policy && a.config_id == b.config_id
        && a.canonical_witness_difficulty == b.canonical_witness_difficulty
        && s.max_expanded_nodes == t.max_expanded_nodes && s.max_simulated_ticks == t.max_simulated_ticks
        && s.max_ticks_per_path == t.max_ticks_per_path && s.beam_width == t.beam_width
        && s.position_quantum == t.position_quantum && s.velocity_quantum == t.velocity_quantum
        && s.probe_direct_routes == t.probe_direct_routes
        && s.baseline_preview_max_expanded_nodes == t.baseline_preview_max_expanded_nodes
        && s.baseline_preview_max_simulated_ticks == t.baseline_preview_max_simulated_ticks
        && same_macros_exec(&s.macros, &t.macros)
}

fn gates_aligned_exec(gs: &Vec<GateHeaderV3>, vs: &Vec<NativeVariantRecordV3>) -> (r: bool)
    ensures
        r == gates_aligned(gs@, vs@),
{
    if gs.len() != vs.len() {
        return false;
    }
    let mut i: usize = 0;
    while i < gs.len()
        invariant
            i <= gs.len(),
            gs.len() == vs.len(),
            forall|t: int| 0 <= t < i ==> (#[trigger] gs@[t]).key@ == vs@[t].key@,
        decreases gs.len() - i,
    {
        if gs[i].key != vs[i].key {
            return false;
        }
        i = i + 1;
    }
    true
}

fn versions_supported_exec(r: &RoomConstructionRecordV3, policy: ConstructionPolicyV3) -> (b: bool)
    ensures
        b == versions_supported(*r, policy),
{
    let mut i: usize = 0;
    while i < r.variant_construction_gates.len()
        invariant
            i <= r.variant_construction_gates.len(),
            forall|t: int| 0 <= t < i ==> (#[trigger] r.variant_construction_gates@[t]).gate_version
                == policy.feasibility_gate_version,
        decreases r.variant_construction_gates.len() - i,
    {
        if r.variant_construction_gates[i].gate_version != policy.feasibility_gate_version {
            return false;
        }
        i = i + 1;
    }
    let mut j: usize = 0;
    while j < r.variant_ability_promotion_gates.len()
        invariant
            j <= r.variant_ability_promotion_gates.len(),
            forall|t: int| 0 <= t < j ==> (#[trigger] r.variant_ability_promotion_gates@[t]).gate_version
                == CORPUS_ABILITY_PROMOTION_GATE_VERSION,
        decreases r.variant_ability_promotion_gates.len() - j,
    {
        if r.variant_ability_promotion_gates[j].gate_version != CORPUS_ABILITY_PROMOTION_GATE_VERSION {
            return false;
        }
        j = j + 1;
    }
    r.canonical_regeneration_policy_version == policy.canonical_regeneration_policy_version
}

/// Checks a room record against the room its seed configuration
/// regenerates, under the shard's promotion-audit config and this build's
/// supported versions; the first failing check, in order, is the error.
pub fn verify_room_construction_v3(
    record: &RoomConstructionRecordV3,
    expected: &RegeneratedRoomV3,
    shard_config: &CorpusRoomAnalysisConfigRecord,
    policy: ConstructionPolicyV3,
) -> (r: Result<(), CorpusArtifactV3Error>)
    ensures
        r == room_construction_result(*record, *expected, *shard_config, policy),
{
    let invalid = |v: ArtifactViolation| -> (e: Result<(), CorpusArtifactV3Error>)
        ensures
            e == fail(v),
    { Err(CorpusArtifactV3Error::Invalid(v)) };
    if record.room_id != expected.id {
        return invalid(ArtifactViolation::RoomIdentityDiffers);
    }
    if expected.id != expected.descriptor_room_id {
        return invalid(ArtifactViolation::RegeneratedIdInconsistent);
    }
    if record.physical_descriptor != expected.physical_descriptor {
        return invalid(ArtifactViolation::PhysicalDescriptorDiffers);
    }
    if record.variants.len() == 0 {
        return invalid(ArtifactViolation::NoNativeVariants);
    }
    if !variants_ascending(&record.variants) {
        return invalid(ArtifactViolation::NativeVariantOrder);
    }
    if !variants_match_exec(&record.variants, &expected.variants) {
        return invalid(ArtifactViolation::NativeVariantsDiffer);
    }
    if !aliases_in_group_exec(expected) {
        return invalid(ArtifactViolation::AliasOutsideDescriptor);
    }
    let source = least_variant(&expected.variants);
    if record.physical_evidence_source_key != expected.variants[source].key {
        return invalid(ArtifactViolation::EvidenceSourcePolicy);
    }
    if !has_key_exec(&record.variants, &record.physical_evidence_source_key) {
        return invalid(ArtifactViolation::EvidenceSourceNotNative);
    }
    if !loadouts_canonical(&record.matrix_search_effort) {
        return invalid(ArtifactViolation::EffortLoadouts);
    }
    let efforts = check_efforts(&record.matrix_search_effort, &expected.variants[source].door_ids);
    if efforts.is_err() {
        return efforts;
    }
    if !gates_ascending(&record.variant_construction_gates) {
        return invalid(ArtifactViolation::ConstructionGateOrder);
    }
    if !gates_ascending(&record.variant_ability_promotion_gates) {
        return invalid(ArtifactViolation::PromotionGateOrder);
    }
    if record.ability_promotion_audit_config.validate(policy.current).is_err() {
        return invalid(ArtifactViolation::RoomAuditConfigInvalid);
    }
    if !same_config_exec(&record.ability_promotion_audit_config, shard_config) {
        return invalid(ArtifactViolation::RoomAuditConfigDiffers);
    }
    if !gates_aligned_exec(&record.variant_ability_promotion_gates, &record.variants) {
        return invalid(ArtifactViolation::PromotionGatesMisaligned);
    }
    if !versions_supported_exec(record, policy) {
        return invalid(ArtifactViolation::UnsupportedGatePolicy);
    }
    Ok(())
}

} // verus!
