//! Operational-cost evidence of a room: solver work per shared source audit
//! and per canonical positive route, with stable identities, one-to-one
//! cross-references and recomputed totals.
use vstd::prelude::*;
use vstd::bytes::spec_u64_to_le_bytes;
use vstd::utf8::encode_utf8;

use crate::ability_promotion::{EvaluationLoadout, LoadoutControllerAuditStatus};
use crate::asymmetry_rows::{text_less, text_lt};
use crate::checks::{ArtifactViolation, CorpusAnalysisArtifactError};
use crate::identity::{binding_bytes, fnv1a, hex_identity, stable_binding_id};
use vstd::string::StringExecFns;
use crate::room_evidence::{SharedLoadoutAuditRecord, SourceAuditRecord, loadout_position};

verus! {

/// Solver work.
#[derive(Clone, Copy, Debug, PartialEq, Eq, Structural)]
pub struct OperationalCostRecord {
    pub expanded_nodes: usize,
    pub generated_nodes: usize,
    pub simulated_ticks: usize,
    pub deepest_path_ticks: usize,
}

/// Solver work of one source door's shared audit under one loadout.
#[derive(Clone, Debug, PartialEq, Eq)]
pub struct DirectControllerCostUnitRecord {
    pub cost_id: String,
    pub source_door_id: String,
    pub loadout: EvaluationLoadout,
    pub status: LoadoutControllerAuditStatus,
    pub cost: OperationalCostRecord,
}

/// Solver work of one canonical positive route.
#[derive(Clone, Debug, PartialEq, Eq)]
pub struct CanonicalRouteCostUnitRecord {
    pub cost_id: String,
    pub source_door_id: String,
    pub target_door_id: String,
    pub loadout: EvaluationLoadout,
    pub cost: OperationalCostRecord,
}

/// A room's operational-cost evidence.
#[derive(Clone, Debug, PartialEq, Eq)]
pub struct OperationalCostSummaryRecord {
    pub interpretation: String,
    pub direct_controller_reported_total: OperationalCostRecord,
    pub direct_controller_recomputed_total: OperationalCostRecord,
    pub direct_controller_audit_units: Vec<DirectControllerCostUnitRecord>,
    pub canonical_positive_route_total: OperationalCostRecord,
    pub canonical_positive_routes: Vec<CanonicalRouteCostUnitRecord>,
}

/// The slug of each loadout, as the evaluation layer names them.
pub struct LoadoutSlugs {
    pub baseline: String,
    pub wall_jump: String,
    pub dash: String,
    pub both: String,
}

/// The slug of `l`.
pub open spec fn slug_of(slugs: LoadoutSlugs, l: EvaluationLoadout) -> Seq<char> {
    match l {
        EvaluationLoadout::Baseline => slugs.baseline@,
        EvaluationLoadout::WallJump => slugs.wall_jump@,
        EvaluationLoadout::Dash => slugs.dash@,
        EvaluationLoadout::Both => slugs.both@,
    }
}

fn slug(slugs: &LoadoutSlugs, l: EvaluationLoadout) -> (r: &String)
    ensures
        r@ == slug_of(*slugs, l),
{
    match l {
        EvaluationLoadout::Baseline => &slugs.baseline,
        EvaluationLoadout::WallJump => &slugs.wall_jump,
        EvaluationLoadout::Dash => &slugs.dash,
        EvaluationLoadout::Both => &slugs.both,
    }
}

/// Length-prefixed UTF-8 bytes of one text field.
pub open spec fn field_bytes(t: Seq<char>) -> Seq<u8> {
    spec_u64_to_le_bytes(encode_utf8(t).len() as u64) + encode_utf8(t)
}

/// Identity of the direct cost unit of `source` under the loadout with slug `slug`.
pub open spec fn direct_cost_text(source: Seq<char>, slug: Seq<char>) -> Seq<char> {
    hex_identity("direct-cost-v1"@, fnv1a(field_bytes(source) + field_bytes(slug)))
}

/// Identity of the canonical cost unit of the route `source -> target` under the loadout with slug `slug`.
pub open spec fn canonical_cost_text(source: Seq<char>, target: Seq<char>, slug: Seq<char>) -> Seq<char> {
    hex_identity("canonical-cost-v1"@, fnv1a(field_bytes(source) + field_bytes(target) + field_bytes(slug)))
}

fn direct_cost_id(source: &String, slug: &String) -> (r: String)
    ensures
        r@ == direct_cost_text(source@, slug@),
{
    let a = source.as_str();
    let b = slug.as_str();
    let fields = [a, b];
    proof {
        let f = fields@;
        assert(f.drop_last() =~= seq![a]);
        assert(f.drop_last().drop_last() =~= Seq::<&str>::empty());
        assert(binding_bytes(f) =~= field_bytes(source@) + field_bytes(slug@)) by {
            reveal_with_fuel(binding_bytes, 3);
        }
    }
    stable_binding_id("direct-cost-v1", &fields)
}

fn canonical_cost_id(source: &String, target: &String, slug: &String) -> (r: String)
    ensures
        r@ == canonical_cost_text(source@, target@, slug@),
{
    let a = source.as_str();
    let b = target.as_str();
    let c = slug.as_str();
    let fields = [a, b, c];
    proof {
        let f = fields@;
        assert(f.drop_last() =~= seq![a, b]);
        assert(f.drop_last().drop_last() =~= seq![a]);
        assert(f.drop_last().drop_last().drop_last() =~= Seq::<&str>::empty());
        assert(binding_bytes(f) =~= field_bytes(source@) + field_bytes(target@) + field_bytes(slug@)) by {
            reveal_with_fuel(binding_bytes, 4);
        }
    }
    stable_binding_id("canonical-cost-v1", &fields)
}

/// `a + b`, or the largest `usize` when the sum does not fit.
pub open spec fn sat_add(a: usize, b: usize) -> usize {
    if a + b > usize::MAX {
        usize::MAX
    } else {
        (a + b) as usize
    }
}

/// Add `extra` to a running total: counts saturate, the deepest path is the maximum.
pub open spec fn add_cost(total: OperationalCostRecord, extra: OperationalCostRecord) -> OperationalCostRecord {
    OperationalCostRecord {
        expanded_nodes: sat_add(total.expanded_nodes, extra.expanded_nodes),
        generated_nodes: sat_add(total.generated_nodes, extra.generated_nodes),
        simulated_ticks: sat_add(total.simulated_ticks, extra.simulated_ticks),
        deepest_path_ticks: if total.deepest_path_ticks >= extra.deepest_path_ticks {
            total.deepest_path_ticks
        } else {
            extra.deepest_path_ticks
        },
    }
}

/// The zero cost.
pub open spec fn zero_cost() -> OperationalCostRecord {
    OperationalCostRecord { expanded_nodes: 0, generated_nodes: 0, simulated_ticks: 0, deepest_path_ticks: 0 }
}

/// The total of a sequence of costs, accumulated in order.
pub open spec fn total_cost(costs: Seq<OperationalCostRecord>) -> OperationalCostRecord
    decreases costs.len(),
{
    if costs.len() == 0 {
        zero_cost()
    } else {
        add_cost(total_cost(costs.drop_last()), costs.last())
    }
}

pub open spec fn direct_costs(units: Seq<DirectControllerCostUnitRecord>) -> Seq<OperationalCostRecord> {
    units.map_values(|u: DirectControllerCostUnitRecord| u.cost)
}

pub open spec fn canonical_costs(units: Seq<CanonicalRouteCostUnitRecord>) -> Seq<OperationalCostRecord> {
    units.map_values(|u: CanonicalRouteCostUnitRecord| u.cost)
}

/// Strict order of direct units: by source door, then loadout.
pub open spec fn direct_lt(a: DirectControllerCostUnitRecord, b: DirectControllerCostUnitRecord) -> bool {
    ||| text_lt(a.source_door_id@, b.source_door_id@)
    ||| a.source_door_id@ == b.source_door_id@ && loadout_position(a.loadout) < loadout_position(b.loadout)
}

/// Strict order of canonical units: by loadout, then source door, then target door.
pub open spec fn canonical_lt(a: CanonicalRouteCostUnitRecord, b: CanonicalRouteCostUnitRecord) -> bool {
    ||| loadout_position(a.loadout) < loadout_position(b.loadout)
    ||| a.loadout == b.loadout && text_lt(a.source_door_id@, b.source_door_id@)
    ||| a.loadout == b.loadout && a.source_door_id@ == b.source_door_id@ && text_lt(a.target_door_id@, b.target_door_id@)
}

pub open spec fn direct_strict(u: Seq<DirectControllerCostUnitRecord>) -> bool {
    forall|i: int| 0 < i < u.len() ==> direct_lt(#[trigger] u[i - 1], u[i])
}

pub open spec fn canonical_strict(u: Seq<CanonicalRouteCostUnitRecord>) -> bool {
    forall|i: int| 0 < i < u.len() ==> canonical_lt(#[trigger] u[i - 1], u[i])
}

/// Every direct unit carries the identity of its source and loadout, and no identity repeats.
pub open spec fn direct_ids_ok(u: Seq<DirectControllerCostUnitRecord>, slugs: LoadoutSlugs) -> bool {
    &&& forall|i: int| 0 <= i < u.len() ==> (#[trigger] u[i]).cost_id@ == direct_cost_text(
        u[i].source_door_id@,
        slug_of(slugs, u[i].loadout),
    )
    &&& forall|i: int, j: int| 0 <= j < i < u.len() ==> u[j].cost_id@ != u[i].cost_id@
}

/// Every canonical unit carries the identity of its route and loadout, and no identity repeats.
pub open spec fn canonical_ids_ok(u: Seq<CanonicalRouteCostUnitRecord>, slugs: LoadoutSlugs) -> bool {
    &&& forall|i: int| 0 <= i < u.len() ==> (#[trigger] u[i]).cost_id@ == canonical_cost_text(
        u[i].source_door_id@,
        u[i].target_door_id@,
        slug_of(slugs, u[i].loadout),
    )
    &&& forall|i: int, j: int| 0 <= j < i < u.len() ==> u[j].cost_id@ != u[i].cost_id@
}

/// Positions `(source, audit)` of the shared audits of the first `m` sources, in order.
pub open spec fn ref_positions(sources: Seq<SourceAuditRecord>, m: int) -> Seq<(int, int)>
    decreases m,
{
    if m <= 0 {
        Seq::empty()
    } else {
        ref_positions(sources, m - 1) + Seq::new(
            sources[m - 1].shared_loadout_audits@.len(),
            |q: int| (m - 1, q),
        )
    }
}

/// Each shared audit of each source, with its source door, in order.
pub open spec fn shared_refs(sources: Seq<SourceAuditRecord>) -> Seq<(Seq<char>, SharedLoadoutAuditRecord)> {
    ref_positions(sources, sources.len() as int).map_values(
        |p: (int, int)| (sources[p.0].source_door_id@, sources[p.0].shared_loadout_audits@[p.1]),
    )
}

/// Position of the first direct unit with identity `id`.
pub open spec fn find_unit(u: Seq<DirectControllerCostUnitRecord>, id: Seq<char>) -> Option<int>
    decreases u.len(),
{
    if u.len() == 0 {
        None
    } else {
        match find_unit(u.drop_last(), id) {
            Some(i) => Some(i),
            None => if u.last().cost_id@ == id {
                Some(u.len() - 1)
            } else {
                None
            },
        }
    }
}

/// The outcome of checking shared-audit reference `k` against the direct units.
pub open spec fn ref_result(
    refs: Seq<(Seq<char>, SharedLoadoutAuditRecord)>,
    k: int,
    u: Seq<DirectControllerCostUnitRecord>,
) -> Result<(), CorpusAnalysisArtifactError> {
    let (source, audit) = refs[k];
    match find_unit(u, audit.operational_cost_ref@) {
        None => Err(CorpusAnalysisArtifactError::Invalid(ArtifactViolation::AbsentDirectCost)),
        Some(i) => if (exists|j: int| 0 <= j < k && (#[trigger] refs[j]).1.operational_cost_ref@ == audit.operational_cost_ref@)
            || u[i].source_door_id@ != source || u[i].loadout != audit.loadout || u[i].status != audit.status {
            Err(CorpusAnalysisArtifactError::Invalid(ArtifactViolation::DirectCostCrossReference))
        } else {
            Ok(())
        },
    }
}

/// The first failing reference's outcome, from position `k` on.
pub open spec fn refs_from(
    refs: Seq<(Seq<char>, SharedLoadoutAuditRecord)>,
    k: int,
    u: Seq<DirectControllerCostUnitRecord>,
) -> Result<(), CorpusAnalysisArtifactError>
    decreases refs.len() - k,
{
    if k < 0 || k >= refs.len() {
        Ok(())
    } else {
        match ref_result(refs, k, u) {
            Err(e) => Err(e),
            Ok(()) => refs_from(refs, k + 1, u),
        }
    }
}

/// The outcome of checking a room's operational-cost evidence against its source audits.
pub open spec fn operational_cost_result(
    o: OperationalCostSummaryRecord,
    sources: Seq<SourceAuditRecord>,
    slugs: LoadoutSlugs,
) -> Result<(), CorpusAnalysisArtifactError> {
    let u = o.direct_controller_audit_units@;
    let c = o.canonical_positive_routes@;
    let refs = shared_refs(sources);
    if o.interpretation@ != "solver_capacity_evidence_not_player_difficulty"@ {
        Err(CorpusAnalysisArtifactError::Invalid(ArtifactViolation::OperationalInterpretation))
    } else if !direct_strict(u) {
        Err(CorpusAnalysisArtifactError::Invalid(ArtifactViolation::DirectCostOrder))
    } else if !canonical_strict(c) {
        Err(CorpusAnalysisArtifactError::Invalid(ArtifactViolation::CanonicalCostOrder))
    } else if !direct_ids_ok(u, slugs) {
        Err(CorpusAnalysisArtifactError::Invalid(ArtifactViolation::DirectCostIdentity))
    } else if refs_from(refs, 0, u) is Err {
        refs_from(refs, 0, u)
    } else if refs.len() != u.len() {
        Err(CorpusAnalysisArtifactError::Invalid(ArtifactViolation::OrphanDirectCost))
    } else if total_cost(direct_costs(u)) != o.direct_controller_recomputed_total || total_cost(direct_costs(u))
        != o.direct_controller_reported_total {
        Err(CorpusAnalysisArtifactError::Invalid(ArtifactViolation::DirectCostTotals))
    } else if !canonical_ids_ok(c, slugs) {
        Err(CorpusAnalysisArtifactError::Invalid(ArtifactViolation::CanonicalCostIdentity))
    } else if total_cost(canonical_costs(c)) != o.canonical_positive_route_total {
        Err(CorpusAnalysisArtifactError::Invalid(ArtifactViolation::CanonicalCostTotal))
    } else {
        Ok(())
    }
}

fn rank(l: EvaluationLoadout) -> (r: u8)
    ensures
        r == loadout_position(l),
{
    match l {
        EvaluationLoadout::Baseline => 0,
        EvaluationLoadout::WallJump => 1,
        EvaluationLoadout::Dash => 2,
        EvaluationLoadout::Both => 3,
    }
}

fn direct_less(a: &DirectControllerCostUnitRecord, b: &DirectControllerCostUnitRecord) -> (r: bool)
    ensures
        r == direct_lt(*a, *b),
{
    if text_less(a.source_door_id.as_str(), b.source_door_id.as_str()) {
        return true;
    }
    a.source_door_id == b.source_door_id && rank(a.loadout) < rank(b.loadout)
}

fn canonical_less(a: &CanonicalRouteCostUnitRecord, b: &CanonicalRouteCostUnitRecord) -> (r: bool)
    ensures
        r == canonical_lt(*a, *b),
{
    if rank(a.loadout) != rank(b.loadout) {
        return rank(a.loadout) < rank(b.loadout);
    }
    if text_less(a.source_door_id.as_str(), b.source_door_id.as_str()) {
        return true;
    }
    a.source_door_id == b.source_door_id && text_less(a.target_door_id.as_str(), b.target_door_id.as_str())
}

fn direct_in_order(u: &Vec<DirectControllerCostUnitRecord>) -> (r: bool)
    ensures
        r == direct_strict(u@),
{
    let mut k: usize = 1;
    while k < u.len()
        invariant
            1 <= k,
            forall|i: int| 0 < i < k && i < u@.len() ==> direct_lt(#[trigger] u@[i - 1], u@[i]),
        decreases u.len() - k,
    {
        if !direct_less(&u[k - 1], &u[k]) {
            assert(!direct_lt(u@[k - 1], u@[k as int]));
            return false;
        }
        k = k + 1;
    }
    true
}

fn canonical_in_order(u: &Vec<CanonicalRouteCostUnitRecord>) -> (r: bool)
    ensures
        r == canonical_strict(u@),
{
    let mut k: usize = 1;
    while k < u.len()
        invariant
            1 <= k,
            forall|i: int| 0 < i < k && i < u@.len() ==> canonical_lt(#[trigger] u@[i - 1], u@[i]),
        decreases u.len() - k,
    {
        if !canonical_less(&u[k - 1], &u[k]) {
            assert(!canonical_lt(u@[k - 1], u@[k as int]));
            return false;
        }
        k = k + 1;
    }
    true
}

fn direct_ids_valid(u: &Vec<DirectControllerCostUnitRecord>, slugs: &LoadoutSlugs) -> (r: bool)
    ensures
        r == direct_ids_ok(u@, *slugs),
{
    let mut i: usize = 0;
    while i < u.len()
        invariant
            i <= u.len(),
            forall|a: int| 0 <= a < i ==> (#[trigger] u@[a]).cost_id@ == direct_cost_text(
                u@[a].source_door_id@,
                slug_of(*slugs, u@[a].loadout),
            ),
            forall|a: int, j: int| 0 <= j < a < i ==> u@[j].cost_id@ != u@[a].cost_id@,
        decreases u.len() - i,
    {
        let id = direct_cost_id(&u[i].source_door_id, slug(slugs, u[i].loadout));
        if u[i].cost_id != id {
            return false;
        }
        let mut j: usize = 0;
        while j < i
            invariant
                j <= i,
                i < u.len(),
                forall|b: int| 0 <= b < j ==> u@[b].cost_id@ != u@[i as int].cost_id@,
            decreases i - j,
        {
            if u[j].cost_id == u[i].cost_id {
                return false;
            }
            j = j + 1;
        }
        i = i + 1;
    }
    true
}

fn canonical_ids_valid(u: &Vec<CanonicalRouteCostUnitRecord>, slugs: &LoadoutSlugs) -> (r: bool)
    ensures
        r == canonical_ids_ok(u@, *slugs),
{
    let mut i: usize = 0;
    while i < u.len()
        invariant
            i <= u.len(),
            forall|a: int| 0 <= a < i ==> (#[trigger] u@[a]).cost_id@ == canonical_cost_text(
                u@[a].source_door_id@,
                u@[a].target_door_id@,
                slug_of(*slugs, u@[a].loadout),
            ),
            forall|a: int, j: int| 0 <= j < a < i ==> u@[j].cost_id@ != u@[a].cost_id@,
        decreases u.len() - i,
    {
        let id = canonical_cost_id(&u[i].source_door_id, &u[i].target_door_id, slug(slugs, u[i].loadout));
        if u[i].cost_id != id {
            return false;
        }
        let mut j: usize = 0;
        while j < i
            invariant
                j <= i,
                i < u.len(),
                forall|b: int| 0 <= b < j ==> u@[b].cost_id@ != u@[i as int].cost_id@,
            decreases i - j,
        {
            if u[j].cost_id == u[i].cost_id {
                return false;
            }
            j = j + 1;
        }
        i = i + 1;
    }
    true
}

fn accumulate(total: OperationalCostRecord, extra: OperationalCostRecord) -> (r: OperationalCostRecord)
    ensures
        r == add_cost(total, extra),
{
    OperationalCostRecord {
        expanded_nodes: total.expanded_nodes.saturating_add(extra.expanded_nodes),
        generated_nodes: total.generated_nodes.saturating_add(extra.generated_nodes),
        simulated_ticks: total.simulated_ticks.saturating_add(extra.simulated_ticks),
        deepest_path_ticks: if total.deepest_path_ticks >= extra.deepest_path_ticks {
            total.deepest_path_ticks
        } else {
            extra.deepest_path_ticks
        },
    }
}

fn direct_total(u: &Vec<DirectControllerCostUnitRecord>) -> (r: OperationalCostRecord)
    ensures
        r == total_cost(direct_costs(u@)),
{
    let mut t = OperationalCostRecord { expanded_nodes: 0, generated_nodes: 0, simulated_ticks: 0, deepest_path_ticks: 0 };
    let mut k: usize = 0;
    while k < u.len()
        invariant
            k <= u.len(),
            t == total_cost(direct_costs(u@).take(k as int)),
        decreases u.len() - k,
    {
        assert(direct_costs(u@).take(k + 1).drop_last() =~= direct_costs(u@).take(k as int));
        t = accumulate(t, u[k].cost);
        k = k + 1;
    }
    assert(direct_costs(u@).take(k as int) =~= direct_costs(u@));
    t
}

fn canonical_total(u: &Vec<CanonicalRouteCostUnitRecord>) -> (r: OperationalCostRecord)
    ensures
        r == total_cost(canonical_costs(u@)),
{
    let mut t = OperationalCostRecord { expanded_nodes: 0, generated_nodes: 0, simulated_ticks: 0, deepest_path_ticks: 0 };
    let mut k: usize = 0;
    while k < u.len()
        invariant
            k <= u.len(),
            t == total_cost(canonical_costs(u@).take(k as int)),
        decreases u.len() - k,
    {
        assert(canonical_costs(u@).take(k + 1).drop_last() =~= canonical_costs(u@).take(k as int));
        t = accumulate(t, u[k].cost);
        k = k + 1;
    }
    assert(canonical_costs(u@).take(k as int) =~= canonical_costs(u@));
    t
}

fn find_unit_at(u: &Vec<DirectControllerCostUnitRecord>, id: &String) -> (r: Option<usize>)
    ensures
        match r {
            Some(i) => find_unit(u@, id@) == Some(i as int),
            None => find_unit(u@, id@) is None,
        },
{
    let mut k: usize = 0;
    while k < u.len()
        invariant
            k <= u.len(),
            find_unit(u@.take(k as int), id@) is None,
        decreases u.len() - k,
    {
        assert(u@.take(k + 1).drop_last() =~= u@.take(k as int));
        if u[k].cost_id == *id {
            proof {
                lemma_find_unit_prefix(u@, id@, k as int + 1);
            }
            return Some(k);
        }
        proof {
            lemma_find_unit_prefix(u@, id@, k as int + 1);
        }
        k = k + 1;
    }
    assert(u@.take(k as int) =~= u@);
    None
}

/// A first match in a prefix is the first match of the whole.
proof fn lemma_find_unit_prefix(u: Seq<DirectControllerCostUnitRecord>, id: Seq<char>, k: int)
    requires
        0 <= k <= u.len(),
    ensures
        find_unit(u.take(k), id) matches Some(i) ==> find_unit(u, id) == Some(i),
    decreases u.len(),
{
    if k < u.len() {
        assert(u.drop_last().take(k) =~= u.take(k));
        lemma_find_unit_prefix(u.drop_last(), id, k);
    } else {
        assert(u.take(k) =~= u);
    }
}

proof fn lemma_ref_positions(sources: Seq<SourceAuditRecord>, m: int)
    requires
        0 <= m <= sources.len(),
    ensures
        forall|k: int| 0 <= k < ref_positions(sources, m).len() ==> {
            let p = #[trigger] ref_positions(sources, m)[k];
            0 <= p.0 < m && 0 <= p.1 < sources[p.0].shared_loadout_audits@.len()
        },
    decreases m,
{
    if m > 0 {
        lemma_ref_positions(sources, m - 1);
        let a = ref_positions(sources, m - 1);
        let b = Seq::new(sources[m - 1].shared_loadout_audits@.len(), |q: int| (m - 1, q));
        assert forall|k: int| 0 <= k < ref_positions(sources, m).len() implies {
            let p = #[trigger] ref_positions(sources, m)[k];
            0 <= p.0 < m && 0 <= p.1 < sources[p.0].shared_loadout_audits@.len()
        } by {
            if k < a.len() {
                assert(ref_positions(sources, m)[k] == a[k]);
            } else {
                assert(ref_positions(sources, m)[k] == b[k - a.len()]);
            }
        }
    }
}

/// Positions of every shared audit, by source then audit.
fn audit_positions(sources: &[SourceAuditRecord]) -> (r: Vec<(usize, usize)>)
    ensures
        r@.map_values(|p: (usize, usize)| (p.0 as int, p.1 as int)) == ref_positions(sources@, sources@.len() as int),
{
    let mut r: Vec<(usize, usize)> = Vec::new();
    let mut i: usize = 0;
    while i < sources.len()
        invariant
            i <= sources.len(),
            r@.map_values(|p: (usize, usize)| (p.0 as int, p.1 as int)) == ref_positions(sources@, i as int),
        decreases sources.len() - i,
    {
        let ghost base = ref_positions(sources@, i as int);
        let n = sources[i].shared_loadout_audits.len();
        let mut q: usize = 0;
        while q < n
            invariant
                q <= n,
                i < sources.len(),
                n == sources@[i as int].shared_loadout_audits@.len(),
                r@.map_values(|p: (usize, usize)| (p.0 as int, p.1 as int)) == base + Seq::new(
                    q as nat,
                    |t: int| (i as int, t),
                ),
            decreases n - q,
        {
            let ghost old_r = r@;
            r.push((i, q));
            assert(r@.map_values(|p: (usize, usize)| (p.0 as int, p.1 as int)) =~= old_r.map_values(
                |p: (usize, usize)| (p.0 as int, p.1 as int),
            ).push((i as int, q as int)));
            assert(base + Seq::new((q + 1) as nat, |t: int| (i as int, t)) =~= (base + Seq::new(
                q as nat,
                |t: int| (i as int, t),
            )).push((i as int, q as int)));
            q = q + 1;
        }
        assert(ref_positions(sources@, i + 1) =~= base + Seq::new(n as nat, |t: int| (i as int, t)));
        i = i + 1;
    }
    r
}

/// Check a room's operational-cost evidence against its source audits and
/// the evaluation layer's loadout slugs: interpretation, strict unit order,
/// unit identities, a one-to-one correspondence between shared audits and
/// direct units, and recomputed totals.
pub fn validate_operational_cost(
    operational: &OperationalCostSummaryRecord,
    sources: &[SourceAuditRecord],
    slugs: &LoadoutSlugs,
) -> (r: Result<(), CorpusAnalysisArtifactError>)
    ensures
        r == operational_cost_result(*operational, sources@, *slugs),
{
    let u = &operational.direct_controller_audit_units;
    let c = &operational.canonical_positive_routes;
    let expected_interpretation = String::from_str("solver_capacity_evidence_not_player_difficulty");
    if operational.interpretation != expected_interpretation {
        return Err(CorpusAnalysisArtifactError::Invalid(ArtifactViolation::OperationalInterpretation));
    }
    if !direct_in_order(u) {
        return Err(CorpusAnalysisArtifactError::Invalid(ArtifactViolation::DirectCostOrder));
    }
    if !canonical_in_order(c) {
        return Err(CorpusAnalysisArtifactError::Invalid(ArtifactViolation::CanonicalCostOrder));
    }
    if !direct_ids_valid(u, slugs) {
        return Err(CorpusAnalysisArtifactError::Invalid(ArtifactViolation::DirectCostIdentity));
    }
    let positions = audit_positions(sources);
    let ghost ps = ref_positions(sources@, sources@.len() as int);
    let ghost refs = shared_refs(sources@);
    proof {
        lemma_ref_positions(sources@, sources@.len() as int);
    }
    let mut k: usize = 0;
    while k < positions.len()
        invariant
            k <= positions.len(),
            positions@.map_values(|p: (usize, usize)| (p.0 as int, p.1 as int)) == ps,
            ps == ref_positions(sources@, sources@.len() as int),
            refs == shared_refs(sources@),
            forall|j: int| 0 <= j < ps.len() ==> {
                let p = #[trigger] ps[j];
                0 <= p.0 < sources@.len() && 0 <= p.1 < sources@[p.0].shared_loadout_audits@.len()
            },
            u == &operational.direct_controller_audit_units,
            operational_cost_result(*operational, sources@, *slugs) == (if refs_from(refs, 0, u@) is Err {
                refs_from(refs, 0, u@)
            } else if refs.len() != u@.len() {
                Err(CorpusAnalysisArtifactError::Invalid(ArtifactViolation::OrphanDirectCost))
            } else if total_cost(direct_costs(u@)) != operational.direct_controller_recomputed_total || total_cost(
                direct_costs(u@),
            ) != operational.direct_controller_reported_total {
                Err(CorpusAnalysisArtifactError::Invalid(ArtifactViolation::DirectCostTotals))
            } else if !canonical_ids_ok(operational.canonical_positive_routes@, *slugs) {
                Err(CorpusAnalysisArtifactError::Invalid(ArtifactViolation::CanonicalCostIdentity))
            } else if total_cost(canonical_costs(operational.canonical_positive_routes@))
                != operational.canonical_positive_route_total {
                Err(CorpusAnalysisArtifactError::Invalid(ArtifactViolation::CanonicalCostTotal))
            } else {
                Ok(())
            }),
            refs_from(refs, 0, u@) == refs_from(refs, k as int, u@),
        decreases positions.len() - k,
    {
        let (i, q) = positions[k];
        assert(ps[k as int] == (i as int, q as int));
        let source = &sources[i];
        let audit = &source.shared_loadout_audits[q];
        assert(refs[k as int] == (source.source_door_id@, *audit));
        let found = find_unit_at(u, &audit.operational_cost_ref);
        let unit_index = match found {
            None => {
                return Err(CorpusAnalysisArtifactError::Invalid(ArtifactViolation::AbsentDirectCost));
            },
            Some(x) => x,
        };
        proof {
            lemma_find_unit_bound(u@, audit.operational_cost_ref@);
        }
        let mut repeated = false;
        let mut j: usize = 0;
        while j < k
            invariant
                j <= k,
                k < positions.len(),
                positions@.map_values(|p: (usize, usize)| (p.0 as int, p.1 as int)) == ps,
                ps == ref_positions(sources@, sources@.len() as int),
                refs == shared_refs(sources@),
                forall|t: int| 0 <= t < ps.len() ==> {
                    let p = #[trigger] ps[t];
                    0 <= p.0 < sources@.len() && 0 <= p.1 < sources@[p.0].shared_loadout_audits@.len()
                },
                repeated == exists|t: int| 0 <= t < j && (#[trigger] refs[t]).1.operational_cost_ref@ == audit.operational_cost_ref@,
            decreases k - j,
        {
            let (a, b) = positions[j];
            assert(ps[j as int] == (a as int, b as int));
            assert(refs[j as int] == (sources@[a as int].source_door_id@, sources@[a as int].shared_loadout_audits@[b as int]));
            if sources[a].shared_loadout_audits[b].operational_cost_ref == audit.operational_cost_ref {
                repeated = true;
            }
            j = j + 1;
        }
        let unit = &u[unit_index];
        if repeated || unit.source_door_id != source.source_door_id || unit.loadout != audit.loadout
            || unit.status != audit.status {
            return Err(CorpusAnalysisArtifactError::Invalid(ArtifactViolation::DirectCostCrossReference));
        }
        k = k + 1;
    }
    if positions.len() != u.len() {
        return Err(CorpusAnalysisArtifactError::Invalid(ArtifactViolation::OrphanDirectCost));
    }
    let direct = direct_total(u);
    if direct != operational.direct_controller_recomputed_total || direct != operational.direct_controller_reported_total {
        return Err(CorpusAnalysisArtifactError::Invalid(ArtifactViolation::DirectCostTotals));
    }
    if !canonical_ids_valid(c, slugs) {
        return Err(CorpusAnalysisArtifactError::Invalid(ArtifactViolation::CanonicalCostIdentity));
    }
    if canonical_total(c) != operational.canonical_positive_route_total {
        return Err(CorpusAnalysisArtifactError::Invalid(ArtifactViolation::CanonicalCostTotal));
    }
    Ok(())
}

proof fn lemma_find_unit_bound(u: Seq<DirectControllerCostUnitRecord>, id: Seq<char>)
    ensures
        find_unit(u, id) matches Some(i) ==> 0 <= i < u.len() && u[i].cost_id@ == id,
    decreases u.len(),
{
    if u.len() > 0 {
        lemma_find_unit_bound(u.drop_last(), id);
    }
}

} // verus!
