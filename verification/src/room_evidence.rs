//! Structure of a room's retained direct-controller evidence: canonical door
//! order, one shared audit per source door, one route per ordered door pair,
//! per-loadout witness counts consistent between routes and sources, and
//! every route's references to retained witnesses sound.
use vstd::prelude::*;

use crate::ability_promotion::{
    EvaluationLoadout, LoadoutControllerAudit, LoadoutControllerAuditStatus, all_loadouts, same_loadouts,
};
use crate::asymmetry_rows::text_lt;
use crate::checks::{
    ArtifactViolation, CorpusAnalysisArtifactError, RouteCompletenessRecord, completeness_matches,
    require_exact_loadout_order, validate_route_completeness,
};
use crate::direct_aggregates::{ControllerLoadoutCell, has_cell, rows_view};
use crate::witness_refs::{ReferencingRoute, WitnessBindingRecord, validate_witness_refs, witness_refs_result};

verus! {

/// One loadout's audit shared by all targets of a source door.
#[derive(Clone, Debug, PartialEq, Eq)]
pub struct SharedLoadoutAuditRecord {
    pub loadout: EvaluationLoadout,
    pub status: LoadoutControllerAuditStatus,
    pub target_count: usize,
    pub raw_positive_witnesses: usize,
    pub retained_semantic_witnesses: usize,
    pub operational_cost_ref: String,
}

/// The direct-controller audit of one source door toward every other door.
#[derive(Clone, Debug, PartialEq, Eq)]
pub struct SourceAuditRecord {
    pub source_door_id: String,
    pub target_door_ids: Vec<String>,
    pub authoritative_loadout: EvaluationLoadout,
    pub expected_subset_loadouts: Vec<EvaluationLoadout>,
    pub shared_loadout_audits: Vec<SharedLoadoutAuditRecord>,
}

/// One loadout's outcome on a directed route.
#[derive(Clone, Debug, PartialEq, Eq)]
pub struct DirectedControllerLoadoutRecord {
    pub loadout: EvaluationLoadout,
    pub status: LoadoutControllerAuditStatus,
    pub raw_positive_witnesses: usize,
    pub retained_semantic_witnesses: usize,
    pub easiest_known_witness_id: Option<String>,
    pub pareto_front_witness_ids: Vec<String>,
}

/// A lower loadout that also reaches the target.
#[derive(Clone, Copy, Debug, PartialEq, Eq, Structural)]
pub struct PositiveBypassRecord {
    pub loadout: EvaluationLoadout,
    pub retained_semantic_witnesses: usize,
}

/// The retained direct-controller evidence of one directed route.
#[derive(Clone, Debug, PartialEq, Eq)]
pub struct DirectedControllerRouteRecord {
    pub source_door_id: String,
    pub target_door_id: String,
    pub authoritative_loadout: EvaluationLoadout,
    pub expected_subset_loadouts: Vec<EvaluationLoadout>,
    pub completeness: RouteCompletenessRecord,
    pub overall_easiest_known_witness_id: Option<String>,
    pub overall_pareto_front_witness_ids: Vec<String>,
    pub loadouts: Vec<DirectedControllerLoadoutRecord>,
    pub positive_bypasses: Vec<PositiveBypassRecord>,
}

/// Door identifiers in strictly ascending order.
pub open spec fn doors_strict(doors: Seq<String>) -> bool {
    forall|i: int| 0 < i < doors.len() ==> text_lt(#[trigger] doors[i - 1]@, doors[i]@)
}

/// The texts of a list of strings.
pub open spec fn texts(s: Seq<String>) -> Seq<Seq<char>> {
    s.map_values(|x: String| x@)
}

/// The loadouts of shared audits, in order.
pub open spec fn shared_loadouts(s: Seq<SharedLoadoutAuditRecord>) -> Seq<EvaluationLoadout> {
    s.map_values(|a: SharedLoadoutAuditRecord| a.loadout)
}

/// The outcome of checking source audit `s` as the audit of door `i`.
pub open spec fn source_result(s: SourceAuditRecord, doors: Seq<String>, i: int) -> Result<(), CorpusAnalysisArtifactError> {
    if s.source_door_id@ != doors[i]@ || s.authoritative_loadout != EvaluationLoadout::Both
        || s.expected_subset_loadouts@ != all_loadouts() {
        Err(CorpusAnalysisArtifactError::Invalid(ArtifactViolation::SourceAuditIdentity))
    } else if texts(s.target_door_ids@) != texts(doors).remove(i) {
        Err(CorpusAnalysisArtifactError::Invalid(ArtifactViolation::SourceTargetOrder))
    } else if shared_loadouts(s.shared_loadout_audits@) != all_loadouts() {
        Err(CorpusAnalysisArtifactError::Invalid(ArtifactViolation::LoadoutOrder))
    } else if !(forall|q: int|
        0 <= q < s.shared_loadout_audits@.len() ==> (#[trigger] s.shared_loadout_audits@[q]).target_count == doors.len()
            - 1 && s.shared_loadout_audits@[q].raw_positive_witnesses
            >= s.shared_loadout_audits@[q].retained_semantic_witnesses) {
        Err(CorpusAnalysisArtifactError::Invalid(ArtifactViolation::SharedAuditCounts))
    } else {
        Ok(())
    }
}

/// The first failing source audit's outcome, from position `k` on.
pub open spec fn sources_from(sources: Seq<SourceAuditRecord>, doors: Seq<String>, k: int) -> Result<
    (),
    CorpusAnalysisArtifactError,
>
    decreases sources.len() - k,
{
    if k < 0 || k >= sources.len() {
        Ok(())
    } else {
        match source_result(sources[k], doors, k) {
            Err(e) => Err(e),
            Ok(()) => sources_from(sources, doors, k + 1),
        }
    }
}

fn same_texts(a: &Vec<String>, b: &Vec<String>) -> (r: bool)
    ensures
        r == (texts(a@) == texts(b@)),
{
    if a.len() != b.len() {
        return false;
    }
    let mut k: usize = 0;
    while k < a.len()
        invariant
            a.len() == b.len(),
            k <= a.len(),
            forall|t: int| 0 <= t < k ==> a@[t]@ == b@[t]@,
        decreases a.len() - k,
    {
        if a[k] != b[k] {
            assert(texts(a@)[k as int] != texts(b@)[k as int]);
            return false;
        }
        k = k + 1;
    }
    assert(texts(a@) =~= texts(b@));
    true
}

/// The doors other than door `i`, in order.
fn other_doors(doors: &[String], i: usize) -> (r: Vec<String>)
    requires
        i < doors.len(),
    ensures
        texts(r@) == texts(doors@).remove(i as int),
{
    let mut r: Vec<String> = Vec::new();
    let mut k: usize = 0;
    while k < doors.len()
        invariant
            k <= doors.len(),
            i < doors.len(),
            texts(r@) == (if k <= i {
                texts(doors@).take(k as int)
            } else {
                texts(doors@).remove(i as int).take(k - 1)
            }),
        decreases doors.len() - k,
    {
        if k != i {
            let ghost old_r = r@;
            let d = doors[k].clone();
            r.push(d);
            proof {
                assert(texts(r@) =~= texts(old_r).push(doors@[k as int]@));
                if k < i {
                    assert(texts(r@) =~= texts(doors@).take(k + 1));
                } else {
                    assert(texts(r@) =~= texts(doors@).remove(i as int).take(k as int));
                }
            }
        } else {
            assert(texts(r@) =~= texts(doors@).remove(i as int).take(k as int));
        }
        k = k + 1;
    }
    assert(texts(doors@).remove(i as int).take(doors.len() - 1) =~= texts(doors@).remove(i as int));
    r
}

fn check_source(s: &SourceAuditRecord, doors: &[String], i: usize) -> (r: Result<(), CorpusAnalysisArtifactError>)
    requires
        i < doors.len(),
    ensures
        r == source_result(*s, doors@, i as int),
{
    let all = EvaluationLoadout::all();
    let mut same_subset = s.expected_subset_loadouts.len() == all.len();
    let mut k: usize = 0;
    while same_subset && k < all.len()
        invariant
            all@ == all_loadouts(),
            k <= all.len(),
            same_subset ==> s.expected_subset_loadouts.len() == all.len(),
            same_subset ==> forall|t: int| 0 <= t < k ==> s.expected_subset_loadouts@[t] == all@[t],
            !same_subset ==> s.expected_subset_loadouts@ != all_loadouts(),
        decreases all.len() - k,
    {
        if s.expected_subset_loadouts[k] != all[k] {
            same_subset = false;
        }
        k = k + 1;
    }
    if same_subset {
        assert(s.expected_subset_loadouts@ =~= all_loadouts());
    }
    if s.source_door_id != doors[i] || s.authoritative_loadout != EvaluationLoadout::Both || !same_subset {
        return Err(CorpusAnalysisArtifactError::Invalid(ArtifactViolation::SourceAuditIdentity));
    }
    let expected_targets = other_doors(doors, i);
    if !same_texts(&s.target_door_ids, &expected_targets) {
        return Err(CorpusAnalysisArtifactError::Invalid(ArtifactViolation::SourceTargetOrder));
    }
    let mut loadouts: Vec<EvaluationLoadout> = Vec::new();
    let mut q: usize = 0;
    while q < s.shared_loadout_audits.len()
        invariant
            q <= s.shared_loadout_audits.len(),
            loadouts@ == shared_loadouts(s.shared_loadout_audits@).take(q as int),
        decreases s.shared_loadout_audits.len() - q,
    {
        loadouts.push(s.shared_loadout_audits[q].loadout);
        assert(loadouts@ =~= shared_loadouts(s.shared_loadout_audits@).take(q + 1));
        q = q + 1;
    }
    assert(shared_loadouts(s.shared_loadout_audits@).take(q as int) =~= shared_loadouts(s.shared_loadout_audits@));
    let ordered = require_exact_loadout_order(loadouts.as_slice());
    if ordered.is_err() {
        return ordered;
    }
    let targets = doors.len() - 1;
    let mut a: usize = 0;
    while a < s.shared_loadout_audits.len()
        invariant
            a <= s.shared_loadout_audits.len(),
            i < doors.len(),
            targets == doors.len() - 1,
            s.source_door_id@ == doors@[i as int]@,
            s.authoritative_loadout == EvaluationLoadout::Both,
            s.expected_subset_loadouts@ == all_loadouts(),
            texts(s.target_door_ids@) == texts(doors@).remove(i as int),
            shared_loadouts(s.shared_loadout_audits@) == all_loadouts(),
            forall|t: int|
                0 <= t < a ==> (#[trigger] s.shared_loadout_audits@[t]).target_count == targets
                    && s.shared_loadout_audits@[t].raw_positive_witnesses
                    >= s.shared_loadout_audits@[t].retained_semantic_witnesses,
        decreases s.shared_loadout_audits.len() - a,
    {
        let audit = &s.shared_loadout_audits[a];
        if audit.target_count != targets || audit.raw_positive_witnesses < audit.retained_semantic_witnesses {
            return Err(CorpusAnalysisArtifactError::Invalid(ArtifactViolation::SharedAuditCounts));
        }
        a = a + 1;
    }
    Ok(())
}

/// The pairs `(i, j)` with `j < t` and `j != i`, in order.
pub open spec fn targets_upto(i: int, t: int) -> Seq<(int, int)>
    decreases t,
{
    if t <= 0 {
        Seq::empty()
    } else {
        let p = targets_upto(i, t - 1);
        if t - 1 == i {
            p
        } else {
            p.push((i, t - 1))
        }
    }
}

/// The ordered door-index pairs of the first `m` source doors of `n`, by
/// source then target.
pub open spec fn pairs_upto(n: int, m: int) -> Seq<(int, int)>
    decreases m,
{
    if m <= 0 {
        Seq::empty()
    } else {
        pairs_upto(n, m - 1) + targets_upto(m - 1, n)
    }
}

/// The loadouts of a route's loadout records, in order.
pub open spec fn route_loadouts(s: Seq<DirectedControllerLoadoutRecord>) -> Seq<EvaluationLoadout> {
    s.map_values(|l: DirectedControllerLoadoutRecord| l.loadout)
}

/// A route's loadout records as audits.
pub open spec fn route_audits(s: Seq<DirectedControllerLoadoutRecord>) -> Seq<LoadoutControllerAudit> {
    s.map_values(
        |l: DirectedControllerLoadoutRecord|
            LoadoutControllerAudit {
                loadout: l.loadout,
                status: l.status,
                raw_positive_witnesses: l.raw_positive_witnesses,
                retained_semantic_witnesses: l.retained_semantic_witnesses,
            },
    )
}

/// Some loadout of the route retains a witness.
pub open spec fn any_retained(s: Seq<DirectedControllerLoadoutRecord>) -> bool {
    exists|q: int| 0 <= q < s.len() && (#[trigger] s[q]).retained_semantic_witnesses > 0
}

/// The positive bypasses owed to a route: each loadout other than `Both`
/// that retains a witness, with its count, in order.
pub open spec fn expected_bypasses(s: Seq<DirectedControllerLoadoutRecord>) -> Seq<PositiveBypassRecord>
    decreases s.len(),
{
    if s.len() == 0 {
        Seq::empty()
    } else {
        let p = expected_bypasses(s.drop_last());
        let l = s.last();
        if l.loadout != EvaluationLoadout::Both && l.retained_semantic_witnesses > 0 {
            p.push(PositiveBypassRecord { loadout: l.loadout, retained_semantic_witnesses: l.retained_semantic_witnesses })
        } else {
            p
        }
    }
}

/// Each bypass loadout comes strictly after the previous one.
pub open spec fn bypasses_strict(s: Seq<PositiveBypassRecord>) -> bool {
    forall|i: int| 0 < i < s.len() ==> loadout_position(#[trigger] s[i - 1].loadout) < loadout_position(s[i].loadout)
}

/// Position of a loadout in canonical order.
pub open spec fn loadout_position(l: EvaluationLoadout) -> int {
    match l {
        EvaluationLoadout::Baseline => 0,
        EvaluationLoadout::WallJump => 1,
        EvaluationLoadout::Dash => 2,
        EvaluationLoadout::Both => 3,
    }
}

/// A bypass is of a lower loadout, retains a witness, and matches that
/// loadout's first record on the route.
pub open spec fn bypass_valid(b: PositiveBypassRecord, s: Seq<DirectedControllerLoadoutRecord>) -> bool {
    &&& b.loadout != EvaluationLoadout::Both
    &&& b.retained_semantic_witnesses != 0
    &&& exists|q: int|
        0 <= q < s.len() && (#[trigger] s[q]).loadout == b.loadout && s[q].retained_semantic_witnesses
            == b.retained_semantic_witnesses && forall|p: int| 0 <= p < q ==> s[p].loadout != b.loadout
}

/// The route that the references of route `r` of room `room_id` are bound
/// to: for one loadout, or overall (`None`).
pub open spec fn route_ref(room_id: String, r: DirectedControllerRouteRecord, loadout: Option<EvaluationLoadout>) -> ReferencingRoute {
    ReferencingRoute { room_id, source_door_id: r.source_door_id, target_door_id: r.target_door_id, loadout }
}

/// The outcome of checking one loadout record of route `r` against the
/// matching shared audit of its source door and the retained witnesses.
pub open spec fn route_loadout_result(
    l: DirectedControllerLoadoutRecord,
    shared: SharedLoadoutAuditRecord,
    room_id: String,
    r: DirectedControllerRouteRecord,
    ws: Seq<WitnessBindingRecord>,
) -> Result<(), CorpusAnalysisArtifactError> {
    if l.raw_positive_witnesses < l.retained_semantic_witnesses || (l.retained_semantic_witnesses == 0)
        != (l.easiest_known_witness_id is None) {
        Err(CorpusAnalysisArtifactError::Invalid(ArtifactViolation::LoadoutWitnessCounts))
    } else if l.status != shared.status {
        Err(CorpusAnalysisArtifactError::Invalid(ArtifactViolation::StatusDiffersFromSource))
    } else {
        witness_refs_result(
            route_ref(room_id, r, Some(l.loadout)),
            l.easiest_known_witness_id,
            l.pareto_front_witness_ids@,
            ws,
        )
    }
}

/// The first failing loadout record's outcome, from position `q` on.
pub open spec fn route_loadouts_from(
    s: Seq<DirectedControllerLoadoutRecord>,
    shared: Seq<SharedLoadoutAuditRecord>,
    room_id: String,
    r: DirectedControllerRouteRecord,
    ws: Seq<WitnessBindingRecord>,
    q: int,
) -> Result<(), CorpusAnalysisArtifactError>
    decreases s.len() - q,
{
    if q < 0 || q >= s.len() {
        Ok(())
    } else {
        match route_loadout_result(s[q], shared[q], room_id, r, ws) {
            Err(e) => Err(e),
            Ok(()) => route_loadouts_from(s, shared, room_id, r, ws, q + 1),
        }
    }
}

/// The outcome of checking route `r` of room `room_id` as the route between
/// doors `pair`, whose source door's audit is `source`, against the retained
/// witnesses `ws`.
pub open spec fn route_result(
    r: DirectedControllerRouteRecord,
    doors: Seq<String>,
    pair: (int, int),
    source: SourceAuditRecord,
    room_id: String,
    ws: Seq<WitnessBindingRecord>,
) -> Result<(), CorpusAnalysisArtifactError> {
    let ls = r.loadouts@;
    if r.source_door_id@ != doors[pair.0]@ || r.target_door_id@ != doors[pair.1]@ || r.authoritative_loadout
        != EvaluationLoadout::Both || r.expected_subset_loadouts@ != all_loadouts() {
        Err(CorpusAnalysisArtifactError::Invalid(ArtifactViolation::DirectRouteIdentity))
    } else if route_loadouts(ls) != all_loadouts() {
        Err(CorpusAnalysisArtifactError::Invalid(ArtifactViolation::LoadoutOrder))
    } else if !completeness_matches(route_audits(ls), r.completeness) {
        Err(CorpusAnalysisArtifactError::Invalid(ArtifactViolation::CompletenessMismatch))
    } else if (r.overall_easiest_known_witness_id is Some) != any_retained(ls) {
        Err(CorpusAnalysisArtifactError::Invalid(ArtifactViolation::OverallPositiveAvailability))
    } else if overall_refs_result(r, room_id, ws) is Err {
        overall_refs_result(r, room_id, ws)
    } else if route_loadouts_from(ls, source.shared_loadout_audits@, room_id, r, ws, 0) is Err {
        route_loadouts_from(ls, source.shared_loadout_audits@, room_id, r, ws, 0)
    } else {
        bypass_result(r)
    }
}

/// The outcome of checking a route's overall witness references.
pub open spec fn overall_refs_result(
    r: DirectedControllerRouteRecord,
    room_id: String,
    ws: Seq<WitnessBindingRecord>,
) -> Result<(), CorpusAnalysisArtifactError> {
    witness_refs_result(
        route_ref(room_id, r, None),
        r.overall_easiest_known_witness_id,
        r.overall_pareto_front_witness_ids@,
        ws,
    )
}

/// The outcome of checking a route's positive bypasses.
pub open spec fn bypass_result(r: DirectedControllerRouteRecord) -> Result<(), CorpusAnalysisArtifactError> {
    let ls = r.loadouts@;
    if !bypasses_strict(r.positive_bypasses@) {
        Err(CorpusAnalysisArtifactError::Invalid(ArtifactViolation::PositiveBypassOrder))
    } else if r.positive_bypasses@ != expected_bypasses(ls) {
        Err(CorpusAnalysisArtifactError::Invalid(ArtifactViolation::PositiveBypassDiffers))
    } else if !(forall|b: int| 0 <= b < r.positive_bypasses@.len() ==> bypass_valid(#[trigger] r.positive_bypasses@[b], ls)) {
        Err(CorpusAnalysisArtifactError::Invalid(ArtifactViolation::InvalidPositiveBypass))
    } else {
        Ok(())
    }
}

pub(crate) fn position(l: EvaluationLoadout) -> (r: u8)
    ensures
        r == loadout_position(l),
{
    match l {
        EvaluationLoadout::Baseline => 0,
        EvaluationLoadout::WallJump => 1,
        EvaluationLoadout::Dash => 2,
        EvaluationLoadout::Both => 3,
    }
}

fn bypasses_in_order(s: &Vec<PositiveBypassRecord>) -> (r: bool)
    ensures
        r == bypasses_strict(s@),
{
    let mut k: usize = 1;
    while k < s.len()
        invariant
            1 <= k,
            forall|i: int| 0 < i < k && i < s@.len() ==> loadout_position(#[trigger] s@[i - 1].loadout)
                < loadout_position(s@[i].loadout),
        decreases s.len() - k,
    {
        if position(s[k - 1].loadout) >= position(s[k].loadout) {
            assert(!(loadout_position(s@[k - 1].loadout) < loadout_position(s@[k as int].loadout)));
            return false;
        }
        k = k + 1;
    }
    true
}

fn bypasses_owed(ls: &Vec<DirectedControllerLoadoutRecord>) -> (r: Vec<PositiveBypassRecord>)
    ensures
        r@ == expected_bypasses(ls@),
{
    let mut r: Vec<PositiveBypassRecord> = Vec::new();
    let mut q: usize = 0;
    while q < ls.len()
        invariant
            q <= ls.len(),
            r@ == expected_bypasses(ls@.take(q as int)),
        decreases ls.len() - q,
    {
        assert(ls@.take(q + 1).drop_last() =~= ls@.take(q as int));
        assert(ls@.take(q + 1).last() == ls@[q as int]);
        let l = &ls[q];
        let is_both = match l.loadout {
            EvaluationLoadout::Both => true,
            _ => false,
        };
        if !is_both && l.retained_semantic_witnesses > 0 {
            r.push(PositiveBypassRecord { loadout: l.loadout, retained_semantic_witnesses: l.retained_semantic_witnesses });
        }
        q = q + 1;
    }
    assert(ls@.take(q as int) =~= ls@);
    r
}

fn same_bypasses(a: &Vec<PositiveBypassRecord>, b: &Vec<PositiveBypassRecord>) -> (r: bool)
    ensures
        r == (a@ == b@),
{
    if a.len() != b.len() {
        return false;
    }
    let mut k: usize = 0;
    while k < a.len()
        invariant
            a.len() == b.len(),
            k <= a.len(),
            forall|t: int| 0 <= t < k ==> a@[t] == b@[t],
        decreases a.len() - k,
    {
        if a[k] != b[k] {
            return false;
        }
        k = k + 1;
    }
    assert(a@ =~= b@);
    true
}

fn bypass_ok(b: &PositiveBypassRecord, ls: &Vec<DirectedControllerLoadoutRecord>) -> (r: bool)
    ensures
        r == bypass_valid(*b, ls@),
{
    let is_both = match b.loadout {
        EvaluationLoadout::Both => true,
        _ => false,
    };
    if is_both || b.retained_semantic_witnesses == 0 {
        return false;
    }
    let mut q: usize = 0;
    while q < ls.len()
        invariant
            q <= ls.len(),
            b.loadout != EvaluationLoadout::Both,
            b.retained_semantic_witnesses != 0,
            forall|p: int| 0 <= p < q ==> ls@[p].loadout != b.loadout,
        decreases ls.len() - q,
    {
        if ls[q].loadout == b.loadout {
            proof {
                if bypass_valid(*b, ls@) {
                    let w = choose|w: int|
                        0 <= w < ls@.len() && (#[trigger] ls@[w]).loadout == b.loadout && ls@[w].retained_semantic_witnesses
                            == b.retained_semantic_witnesses && forall|p: int| 0 <= p < w ==> ls@[p].loadout != b.loadout;
                    assert(w == q);
                }
                if ls@[q as int].retained_semantic_witnesses == b.retained_semantic_witnesses {
                    assert(ls@[q as int].loadout == b.loadout);
                }
            }
            return ls[q].retained_semantic_witnesses == b.retained_semantic_witnesses;
        }
        q = q + 1;
    }
    false
}

fn check_route(
    r: &DirectedControllerRouteRecord,
    doors: &[String],
    source_index: usize,
    target_index: usize,
    source: &SourceAuditRecord,
    room_id: &String,
    ws: &[WitnessBindingRecord],
) -> (res: Result<(), CorpusAnalysisArtifactError>)
    requires
        source_index < doors.len(),
        target_index < doors.len(),
        shared_loadouts(source.shared_loadout_audits@) == all_loadouts(),
    ensures
        res == route_result(*r, doors@, (source_index as int, target_index as int), *source, *room_id, ws@),
{
    let all = EvaluationLoadout::all();
    if r.source_door_id != doors[source_index] || r.target_door_id != doors[target_index]
        || r.authoritative_loadout != EvaluationLoadout::Both || !same_loadouts(&r.expected_subset_loadouts, &all) {
        return Err(CorpusAnalysisArtifactError::Invalid(ArtifactViolation::DirectRouteIdentity));
    }
    let ls = &r.loadouts;
    let mut loadouts: Vec<EvaluationLoadout> = Vec::new();
    let mut audits: Vec<LoadoutControllerAudit> = Vec::new();
    let mut any = false;
    let mut q: usize = 0;
    while q < ls.len()
        invariant
            q <= ls.len(),
            loadouts@ == route_loadouts(ls@).take(q as int),
            audits@ == route_audits(ls@).take(q as int),
            any == exists|p: int| 0 <= p < q && (#[trigger] ls@[p]).retained_semantic_witnesses > 0,
        decreases ls.len() - q,
    {
        loadouts.push(ls[q].loadout);
        audits.push(
            LoadoutControllerAudit {
                loadout: ls[q].loadout,
                status: ls[q].status,
                raw_positive_witnesses: ls[q].raw_positive_witnesses,
                retained_semantic_witnesses: ls[q].retained_semantic_witnesses,
            },
        );
        if ls[q].retained_semantic_witnesses > 0 {
            any = true;
        }
        assert(loadouts@ =~= route_loadouts(ls@).take(q + 1));
        assert(audits@ =~= route_audits(ls@).take(q + 1));
        q = q + 1;
    }
    assert(route_loadouts(ls@).take(q as int) =~= route_loadouts(ls@));
    assert(route_audits(ls@).take(q as int) =~= route_audits(ls@));
    let ordered = require_exact_loadout_order(loadouts.as_slice());
    if ordered.is_err() {
        return ordered;
    }
    let complete = validate_route_completeness(audits.as_slice(), &r.completeness);
    if complete.is_err() {
        return complete;
    }
    if r.overall_easiest_known_witness_id.is_some() != any {
        return Err(CorpusAnalysisArtifactError::Invalid(ArtifactViolation::OverallPositiveAvailability));
    }
    let overall = ReferencingRoute {
        room_id: room_id.clone(),
        source_door_id: r.source_door_id.clone(),
        target_door_id: r.target_door_id.clone(),
        loadout: None,
    };
    assert(overall == route_ref(*room_id, *r, None));
    let refs = validate_witness_refs(&overall, &r.overall_easiest_known_witness_id, &r.overall_pareto_front_witness_ids, ws);
    if refs.is_err() {
        return refs;
    }
    let shared = &source.shared_loadout_audits;
    assert(ls@.len() == 4 && shared@.len() == 4) by {
        assert(route_loadouts(ls@).len() == all_loadouts().len());
        assert(shared_loadouts(shared@).len() == all_loadouts().len());
    }
    assert(route_result(*r, doors@, (source_index as int, target_index as int), *source, *room_id, ws@) == (
    if route_loadouts_from(ls@, shared@, *room_id, *r, ws@, 0) is Err {
        route_loadouts_from(ls@, shared@, *room_id, *r, ws@, 0)
    } else {
        bypass_result(*r)
    }));
    let mut j: usize = 0;
    while j < ls.len()
        invariant
            j <= ls.len(),
            ls@.len() == 4,
            shared@.len() == 4,
            ls == &r.loadouts,
            shared == &source.shared_loadout_audits,
            route_result(*r, doors@, (source_index as int, target_index as int), *source, *room_id, ws@) == (
            if route_loadouts_from(ls@, shared@, *room_id, *r, ws@, 0) is Err {
                route_loadouts_from(ls@, shared@, *room_id, *r, ws@, 0)
            } else {
                bypass_result(*r)
            }),
            route_loadouts_from(ls@, shared@, *room_id, *r, ws@, 0) == route_loadouts_from(
                ls@,
                shared@,
                *room_id,
                *r,
                ws@,
                j as int,
            ),
        decreases ls.len() - j,
    {
        let l = &ls[j];
        if l.raw_positive_witnesses < l.retained_semantic_witnesses || (l.retained_semantic_witnesses == 0)
            != l.easiest_known_witness_id.is_none() {
            return Err(CorpusAnalysisArtifactError::Invalid(ArtifactViolation::LoadoutWitnessCounts));
        }
        if l.status != shared[j].status {
            return Err(CorpusAnalysisArtifactError::Invalid(ArtifactViolation::StatusDiffersFromSource));
        }
        let bound_to = ReferencingRoute {
            room_id: room_id.clone(),
            source_door_id: r.source_door_id.clone(),
            target_door_id: r.target_door_id.clone(),
            loadout: Some(l.loadout),
        };
        assert(bound_to == route_ref(*room_id, *r, Some(l.loadout)));
        let refs = validate_witness_refs(&bound_to, &l.easiest_known_witness_id, &l.pareto_front_witness_ids, ws);
        if refs.is_err() {
            return refs;
        }
        j = j + 1;
    }
    if !bypasses_in_order(&r.positive_bypasses) {
        return Err(CorpusAnalysisArtifactError::Invalid(ArtifactViolation::PositiveBypassOrder));
    }
    let owed = bypasses_owed(ls);
    if !same_bypasses(&r.positive_bypasses, &owed) {
        return Err(CorpusAnalysisArtifactError::Invalid(ArtifactViolation::PositiveBypassDiffers));
    }
    assert(route_result(*r, doors@, (source_index as int, target_index as int), *source, *room_id, ws@) == bypass_result(
        *r,
    ));
    let mut b: usize = 0;
    while b < r.positive_bypasses.len()
        invariant
            b <= r.positive_bypasses.len(),
            ls == &r.loadouts,
            route_result(*r, doors@, (source_index as int, target_index as int), *source, *room_id, ws@)
                == bypass_result(*r),
            bypasses_strict(r.positive_bypasses@),
            r.positive_bypasses@ == expected_bypasses(ls@),
            forall|t: int| 0 <= t < b ==> bypass_valid(#[trigger] r.positive_bypasses@[t], ls@),
        decreases r.positive_bypasses.len() - b,
    {
        if !bypass_ok(&r.positive_bypasses[b], ls) {
            return Err(CorpusAnalysisArtifactError::Invalid(ArtifactViolation::InvalidPositiveBypass));
        }
        b = b + 1;
    }
    Ok(())
}

/// The first failing route's outcome, from position `k` on; route `k`
/// joins the doors of `pairs[k]` and is audited by the source audit of its
/// source door.
pub open spec fn routes_from(
    routes: Seq<DirectedControllerRouteRecord>,
    sources: Seq<SourceAuditRecord>,
    doors: Seq<String>,
    pairs: Seq<(int, int)>,
    room_id: String,
    ws: Seq<WitnessBindingRecord>,
    k: int,
) -> Result<(), CorpusAnalysisArtifactError>
    decreases routes.len() - k,
{
    if k < 0 || k >= routes.len() {
        Ok(())
    } else {
        match route_result(routes[k], doors, pairs[k], sources[pairs[k].0], room_id, ws) {
            Err(e) => Err(e),
            Ok(()) => routes_from(routes, sources, doors, pairs, room_id, ws, k + 1),
        }
    }
}

/// Sum of `f` over the loadout records at position `q` of the routes from door `source`.
pub open spec fn source_sum(
    routes: Seq<DirectedControllerRouteRecord>,
    source: Seq<char>,
    q: int,
    f: spec_fn(DirectedControllerLoadoutRecord) -> nat,
) -> nat
    decreases routes.len(),
{
    if routes.len() == 0 {
        0
    } else {
        source_sum(routes.drop_last(), source, q, f) + if routes.last().source_door_id@ == source {
            f(routes.last().loadouts@[q])
        } else {
            0
        }
    }
}

pub open spec fn raw_of() -> spec_fn(DirectedControllerLoadoutRecord) -> nat {
    |l: DirectedControllerLoadoutRecord| l.raw_positive_witnesses as nat
}

pub open spec fn retained_of() -> spec_fn(DirectedControllerLoadoutRecord) -> nat {
    |l: DirectedControllerLoadoutRecord| l.retained_semantic_witnesses as nat
}

/// Every shared audit's witness counts equal the sums over its source's routes.
pub open spec fn sums_match(sources: Seq<SourceAuditRecord>, routes: Seq<DirectedControllerRouteRecord>) -> bool {
    forall|i: int, q: int|
        0 <= i < sources.len() && 0 <= q < sources[i].shared_loadout_audits@.len() ==> {
            let shared = #[trigger] sources[i].shared_loadout_audits@[q];
            &&& shared.raw_positive_witnesses == source_sum(routes, sources[i].source_door_id@, q, raw_of())
            &&& shared.retained_semantic_witnesses == source_sum(
                routes,
                sources[i].source_door_id@,
                q,
                retained_of(),
            )
        }
}

/// Sum of the raw and retained witness counts of every loadout record of the routes.
pub open spec fn witness_total(routes: Seq<DirectedControllerRouteRecord>) -> nat
    decreases routes.len(),
{
    if routes.len() == 0 {
        0
    } else {
        witness_total(routes.drop_last()) + loadout_total(routes.last().loadouts@)
    }
}

/// Sum of the raw and retained witness counts of loadout records.
pub open spec fn loadout_total(ls: Seq<DirectedControllerLoadoutRecord>) -> nat
    decreases ls.len(),
{
    if ls.len() == 0 {
        0
    } else {
        loadout_total(ls.drop_last()) + ls.last().raw_positive_witnesses as nat + ls.last().retained_semantic_witnesses as nat
    }
}

/// The outcome of checking room `room_id`'s direct-controller evidence
/// against its doors and the retained witnesses `ws`.
pub open spec fn evidence_result(
    room_id: String,
    doors: Seq<String>,
    sources: Seq<SourceAuditRecord>,
    routes: Seq<DirectedControllerRouteRecord>,
    ws: Seq<WitnessBindingRecord>,
) -> Result<(), CorpusAnalysisArtifactError> {
    let n = doors.len();
    if !doors_strict(doors) {
        Err(CorpusAnalysisArtifactError::Invalid(ArtifactViolation::DoorOrder))
    } else if n < 2 {
        Err(CorpusAnalysisArtifactError::Invalid(ArtifactViolation::TooFewDoors))
    } else if n * (n - 1) > usize::MAX {
        Err(CorpusAnalysisArtifactError::Invalid(ArtifactViolation::RouteCountOverflow))
    } else if sources.len() != n {
        Err(
            CorpusAnalysisArtifactError::Invalid(
                ArtifactViolation::SourceAuditCount { found: sources.len() as usize, expected: n as usize },
            ),
        )
    } else if sources_from(sources, doors, 0) is Err {
        sources_from(sources, doors, 0)
    } else if routes.len() != n * (n - 1) {
        Err(
            CorpusAnalysisArtifactError::Invalid(
                ArtifactViolation::DirectRouteCount {
                    found: routes.len() as usize,
                    expected: (n * (n - 1)) as usize,
                },
            ),
        )
    } else if routes_from(routes, sources, doors, pairs_upto(n as int, n as int), room_id, ws, 0) is Err {
        routes_from(routes, sources, doors, pairs_upto(n as int, n as int), room_id, ws, 0)
    } else if !sums_match(sources, routes) {
        Err(CorpusAnalysisArtifactError::Invalid(ArtifactViolation::SharedWitnessSums))
    } else {
        Ok(())
    }
}

proof fn lemma_targets_upto(i: int, t: int)
    requires
        0 <= t,
    ensures
        targets_upto(i, t).len() == if 0 <= i < t { t - 1 } else { t },
        forall|k: int| 0 <= k < targets_upto(i, t).len() ==> (#[trigger] targets_upto(i, t)[k]).0 == i && 0
            <= targets_upto(i, t)[k].1 < t && targets_upto(i, t)[k].1 != i,
    decreases t,
{
    if t > 0 {
        lemma_targets_upto(i, t - 1);
    }
}

proof fn lemma_pairs_upto(n: int, m: int)
    requires
        2 <= n,
        0 <= m <= n,
    ensures
        pairs_upto(n, m).len() == m * (n - 1),
        forall|k: int| 0 <= k < pairs_upto(n, m).len() ==> 0 <= (#[trigger] pairs_upto(n, m)[k]).0 < m && 0
            <= pairs_upto(n, m)[k].1 < n,
    decreases m,
{
    if m == 0 {
        assert(m * (n - 1) == 0) by (nonlinear_arith)
            requires
                m == 0,
        ;
    } else {
        lemma_pairs_upto(n, m - 1);
        lemma_targets_upto(m - 1, n);
        assert(m * (n - 1) == (m - 1) * (n - 1) + (n - 1)) by (nonlinear_arith);
        let p = pairs_upto(n, m - 1);
        let t = targets_upto(m - 1, n);
        assert(pairs_upto(n, m) == p + t);
        assert(pairs_upto(n, m).len() == p.len() + t.len());
        assert forall|k: int| 0 <= k < pairs_upto(n, m).len() implies 0 <= (#[trigger] pairs_upto(n, m)[k]).0 < m && 0
            <= pairs_upto(n, m)[k].1 < n by {
            if k < p.len() {
                assert(pairs_upto(n, m)[k] == p[k]);
            } else {
                assert(pairs_upto(n, m)[k] == t[k - p.len()]);
            }
        }
    }
}

proof fn lemma_sources_ok(sources: Seq<SourceAuditRecord>, doors: Seq<String>, j: int)
    requires
        0 <= j,
        sources_from(sources, doors, j) is Ok,
    ensures
        forall|k: int| j <= k < sources.len() ==> source_result(#[trigger] sources[k], doors, k) is Ok,
    decreases sources.len() - j,
{
    if j < sources.len() {
        lemma_sources_ok(sources, doors, j + 1);
    }
}

/// The views of index pairs.
pub open spec fn pair_view(s: Seq<(usize, usize)>) -> Seq<(int, int)> {
    s.map_values(|p: (usize, usize)| (p.0 as int, p.1 as int))
}

/// The ordered door-index pairs of `n` doors, by source then target.
fn door_pairs(n: usize) -> (r: Vec<(usize, usize)>)
    requires
        2 <= n,
        n * (n - 1) <= usize::MAX,
    ensures
        pair_view(r@) == pairs_upto(n as int, n as int),
{
    let mut r: Vec<(usize, usize)> = Vec::new();
    let mut i: usize = 0;
    while i < n
        invariant
            i <= n,
            pair_view(r@) == pairs_upto(n as int, i as int),
        decreases n - i,
    {
        let mut t: usize = 0;
        let ghost base = pairs_upto(n as int, i as int);
        while t < n
            invariant
                t <= n,
                i < n,
                pair_view(r@) == base + targets_upto(i as int, t as int),
            decreases n - t,
        {
            if t != i {
                let ghost old_r = r@;
                r.push((i, t));
                assert(pair_view(r@) =~= pair_view(old_r).push((i as int, t as int)));
                assert(base + targets_upto(i as int, t + 1) =~= (base + targets_upto(i as int, t as int)).push(
                    (i as int, t as int),
                ));
            }
            t = t + 1;
        }
        i = i + 1;
    }
    r
}

proof fn lemma_loadout_total_entry(ls: Seq<DirectedControllerLoadoutRecord>, q: int)
    requires
        0 <= q < ls.len(),
    ensures
        ls[q].raw_positive_witnesses + ls[q].retained_semantic_witnesses <= loadout_total(ls),
    decreases ls.len(),
{
    if q < ls.len() - 1 {
        lemma_loadout_total_entry(ls.drop_last(), q);
    }
}

proof fn lemma_source_sums_bound(routes: Seq<DirectedControllerRouteRecord>, source: Seq<char>, q: int)
    requires
        0 <= q,
        forall|k: int| 0 <= k < routes.len() ==> q < (#[trigger] routes[k]).loadouts@.len(),
    ensures
        source_sum(routes, source, q, raw_of()) + source_sum(routes, source, q, retained_of()) <= witness_total(routes),
    decreases routes.len(),
{
    if routes.len() > 0 {
        let init = routes.drop_last();
        assert forall|k: int| 0 <= k < init.len() implies q < (#[trigger] init[k]).loadouts@.len() by {
            assert(init[k] == routes[k]);
        }
        lemma_source_sums_bound(init, source, q);
        assert(q < routes[routes.len() - 1].loadouts@.len());
        lemma_loadout_total_entry(routes.last().loadouts@, q);
    }
}

proof fn lemma_witness_total_prefix(routes: Seq<DirectedControllerRouteRecord>, k: int)
    requires
        0 <= k <= routes.len(),
    ensures
        witness_total(routes.take(k)) <= witness_total(routes),
    decreases routes.len(),
{
    if k < routes.len() {
        assert(routes.drop_last().take(k) =~= routes.take(k));
        lemma_witness_total_prefix(routes.drop_last(), k);
    } else {
        assert(routes.take(k) =~= routes);
    }
}

/// Sums of raw and retained counts at loadout position `q` over the routes from door `source`.
fn source_sums(routes: &[DirectedControllerRouteRecord], source: &String, q: usize) -> (r: (usize, usize))
    requires
        forall|k: int| 0 <= k < routes@.len() ==> q < (#[trigger] routes@[k]).loadouts@.len(),
        witness_total(routes@) <= usize::MAX,
    ensures
        r.0 == source_sum(routes@, source@, q as int, raw_of()),
        r.1 == source_sum(routes@, source@, q as int, retained_of()),
{
    let mut raw: usize = 0;
    let mut retained: usize = 0;
    let mut k: usize = 0;
    while k < routes.len()
        invariant
            k <= routes.len(),
            forall|j: int| 0 <= j < routes@.len() ==> q < (#[trigger] routes@[j]).loadouts@.len(),
            witness_total(routes@) <= usize::MAX,
            raw == source_sum(routes@.take(k as int), source@, q as int, raw_of()),
            retained == source_sum(routes@.take(k as int), source@, q as int, retained_of()),
        decreases routes.len() - k,
    {
        let ghost t = routes@.take(k + 1);
        proof {
            assert(t.drop_last() =~= routes@.take(k as int));
            assert(t.last() == routes@[k as int]);
            assert forall|j: int| 0 <= j < t.len() implies q < (#[trigger] t[j]).loadouts@.len() by {
                assert(t[j] == routes@[j]);
            }
            lemma_source_sums_bound(t, source@, q as int);
            lemma_witness_total_prefix(routes@, k + 1);
        }
        if routes[k].source_door_id == *source {
            raw = raw + routes[k].loadouts[q].raw_positive_witnesses;
            retained = retained + routes[k].loadouts[q].retained_semantic_witnesses;
        }
        k = k + 1;
    }
    assert(routes@.take(k as int) =~= routes@);
    (raw, retained)
}

fn sums_ok(sources: &[SourceAuditRecord], routes: &[DirectedControllerRouteRecord]) -> (r: bool)
    requires
        forall|k: int| 0 <= k < routes@.len() ==> (#[trigger] routes@[k]).loadouts@.len() == 4,
        forall|i: int| 0 <= i < sources@.len() ==> (#[trigger] sources@[i]).shared_loadout_audits@.len() == 4,
        witness_total(routes@) <= usize::MAX,
    ensures
        r == sums_match(sources@, routes@),
{
    let mut i: usize = 0;
    while i < sources.len()
        invariant
            i <= sources.len(),
            forall|k: int| 0 <= k < routes@.len() ==> (#[trigger] routes@[k]).loadouts@.len() == 4,
            forall|j: int| 0 <= j < sources@.len() ==> (#[trigger] sources@[j]).shared_loadout_audits@.len() == 4,
            witness_total(routes@) <= usize::MAX,
            forall|a: int, q: int|
                0 <= a < i && 0 <= q < sources@[a].shared_loadout_audits@.len() ==> {
                    let shared = #[trigger] sources@[a].shared_loadout_audits@[q];
                    &&& shared.raw_positive_witnesses == source_sum(routes@, sources@[a].source_door_id@, q, raw_of())
                    &&& shared.retained_semantic_witnesses == source_sum(
                        routes@,
                        sources@[a].source_door_id@,
                        q,
                        retained_of(),
                    )
                },
        decreases sources.len() - i,
    {
        let shared = &sources[i].shared_loadout_audits;
        let mut q: usize = 0;
        while q < shared.len()
            invariant
                i < sources.len(),
                q <= shared.len(),
                shared == &sources@[i as int].shared_loadout_audits,
                shared@.len() == 4,
                forall|k: int| 0 <= k < routes@.len() ==> (#[trigger] routes@[k]).loadouts@.len() == 4,
                witness_total(routes@) <= usize::MAX,
                forall|p: int|
                    0 <= p < q ==> {
                        let s = #[trigger] shared@[p];
                        &&& s.raw_positive_witnesses == source_sum(routes@, sources@[i as int].source_door_id@, p, raw_of())
                        &&& s.retained_semantic_witnesses == source_sum(
                            routes@,
                            sources@[i as int].source_door_id@,
                            p,
                            retained_of(),
                        )
                    },
            decreases shared.len() - q,
        {
            let (raw, retained) = source_sums(routes, &sources[i].source_door_id, q);
            if shared[q].raw_positive_witnesses != raw || shared[q].retained_semantic_witnesses != retained {
                assert(!sums_match(sources@, routes@)) by {
                    assert(sources@[i as int].shared_loadout_audits@[q as int] == shared@[q as int]);
                }
                return false;
            }
            q = q + 1;
        }
        i = i + 1;
    }
    true
}

proof fn lemma_routes_ok(
    routes: Seq<DirectedControllerRouteRecord>,
    sources: Seq<SourceAuditRecord>,
    doors: Seq<String>,
    pairs: Seq<(int, int)>,
    room_id: String,
    ws: Seq<WitnessBindingRecord>,
    j: int,
)
    requires
        0 <= j,
        routes_from(routes, sources, doors, pairs, room_id, ws, j) is Ok,
    ensures
        forall|k: int|
            j <= k < routes.len() ==> route_result(#[trigger] routes[k], doors, pairs[k], sources[pairs[k].0], room_id, ws)
                is Ok,
    decreases routes.len() - j,
{
    if j < routes.len() {
        lemma_routes_ok(routes, sources, doors, pairs, room_id, ws, j + 1);
    }
}

/// Check a room's retained direct-controller evidence against its door
/// identifiers: doors in strict order, at least two of them, one source
/// audit per door in door order, one route per ordered door pair by source
/// then target, each route consistent with its source's shared audits and
/// its witness references (overall, then per loadout) sound against the
/// retained witnesses, and every shared audit's witness counts equal to the
/// sums over its routes.
pub fn validate_direct_controller_evidence(
    room_id: &String,
    doors: &[String],
    sources: &[SourceAuditRecord],
    routes: &[DirectedControllerRouteRecord],
    ws: &[WitnessBindingRecord],
) -> (r: Result<(), CorpusAnalysisArtifactError>)
    requires
        witness_total(routes@) <= usize::MAX,
    ensures
        r == evidence_result(*room_id, doors@, sources@, routes@, ws@),
{
    let mut k: usize = 1;
    while k < doors.len()
        invariant
            1 <= k,
            forall|i: int| 0 < i < k && i < doors@.len() ==> text_lt(#[trigger] doors@[i - 1]@, doors@[i]@),
        decreases doors.len() - k,
    {
        if !crate::asymmetry_rows::text_less(doors[k - 1].as_str(), doors[k].as_str()) {
            assert(!text_lt(doors@[k - 1]@, doors@[k as int]@));
            return Err(CorpusAnalysisArtifactError::Invalid(ArtifactViolation::DoorOrder));
        }
        k = k + 1;
    }
    let n = doors.len();
    if n < 2 {
        return Err(CorpusAnalysisArtifactError::Invalid(ArtifactViolation::TooFewDoors));
    }
    let route_count = match n.checked_mul(n - 1) {
        Some(c) => c,
        None => {
            return Err(CorpusAnalysisArtifactError::Invalid(ArtifactViolation::RouteCountOverflow));
        },
    };
    if sources.len() != n {
        return Err(
            CorpusAnalysisArtifactError::Invalid(ArtifactViolation::SourceAuditCount { found: sources.len(), expected: n }),
        );
    }
    let mut i: usize = 0;
    while i < sources.len()
        invariant
            i <= sources.len(),
            sources.len() == doors.len(),
            doors_strict(doors@),
            doors.len() >= 2,
            doors.len() * (doors.len() - 1) <= usize::MAX,
            sources_from(sources@, doors@, 0) == sources_from(sources@, doors@, i as int),
        decreases sources.len() - i,
    {
        let checked = check_source(&sources[i], doors, i);
        if checked.is_err() {
            return checked;
        }
        i = i + 1;
    }
    proof {
        lemma_sources_ok(sources@, doors@, 0);
    }
    if routes.len() != route_count {
        return Err(
            CorpusAnalysisArtifactError::Invalid(
                ArtifactViolation::DirectRouteCount { found: routes.len(), expected: route_count },
            ),
        );
    }
    let pairs = door_pairs(n);
    proof {
        lemma_pairs_upto(n as int, n as int);
    }
    let ghost ps = pairs_upto(n as int, n as int);
    let mut j: usize = 0;
    while j < routes.len()
        invariant
            j <= routes.len(),
            n == doors.len(),
            sources.len() == n,
            doors_strict(doors@),
            n >= 2,
            n * (n - 1) <= usize::MAX,
            routes.len() == n * (n - 1),
            sources_from(sources@, doors@, 0) is Ok,
            routes.len() == pairs.len(),
            pair_view(pairs@) == ps,
            ps == pairs_upto(n as int, n as int),
            forall|a: int| 0 <= a < ps.len() ==> 0 <= (#[trigger] ps[a]).0 < n && 0 <= ps[a].1 < n,
            forall|a: int| 0 <= a < sources@.len() ==> source_result(#[trigger] sources@[a], doors@, a) is Ok,
            routes_from(routes@, sources@, doors@, ps, *room_id, ws@, 0) == routes_from(
                routes@,
                sources@,
                doors@,
                ps,
                *room_id,
                ws@,
                j as int,
            ),
        decreases routes.len() - j,
    {
        let (s, t) = pairs[j];
        assert(ps[j as int] == (s as int, t as int));
        assert(source_result(sources@[s as int], doors@, s as int) is Ok);
        let checked = check_route(&routes[j], doors, s, t, &sources[s], room_id, ws);
        if checked.is_err() {
            return checked;
        }
        j = j + 1;
    }
    proof {
        lemma_routes_ok(routes@, sources@, doors@, ps, *room_id, ws@, 0);
        assert forall|a: int| 0 <= a < routes@.len() implies (#[trigger] routes@[a]).loadouts@.len() == 4 by {
            assert(route_result(routes@[a], doors@, ps[a], sources@[ps[a].0], *room_id, ws@) is Ok);
            assert(route_loadouts(routes@[a].loadouts@).len() == all_loadouts().len());
        }
        assert forall|a: int| 0 <= a < sources@.len() implies (#[trigger] sources@[a]).shared_loadout_audits@.len() == 4 by {
            assert(source_result(sources@[a], doors@, a) is Ok);
            assert(shared_loadouts(sources@[a].shared_loadout_audits@).len() == all_loadouts().len());
        }
    }
    if !sums_ok(sources, routes) {
        return Err(CorpusAnalysisArtifactError::Invalid(ArtifactViolation::SharedWitnessSums));
    }
    Ok(())
}

/// The loadouts of a row of cells, in order.
pub open spec fn cell_loadouts(cells: Seq<ControllerLoadoutCell>) -> Seq<EvaluationLoadout> {
    cells.map_values(|c: ControllerLoadoutCell| c.loadout)
}

proof fn lemma_all_loadouts_cells(cells: Seq<ControllerLoadoutCell>)
    requires
        cell_loadouts(cells) == all_loadouts(),
    ensures
        forall|l: EvaluationLoadout| #[trigger] has_cell(cells, l),
{
    assert(all_loadouts().len() == 4);
    assert(cells.len() == 4) by {
        assert(cell_loadouts(cells).len() == all_loadouts().len());
    }
    assert forall|l: EvaluationLoadout| #[trigger] has_cell(cells, l) by {
        let p = loadout_position(l);
        assert(cell_loadouts(cells)[p] == cells[p].loadout);
        match l {
            EvaluationLoadout::Baseline => assert(all_loadouts()[0] == l),
            EvaluationLoadout::WallJump => assert(all_loadouts()[1] == l),
            EvaluationLoadout::Dash => assert(all_loadouts()[2] == l),
            EvaluationLoadout::Both => assert(all_loadouts()[3] == l),
        }
        assert(cells[p].loadout == l);
    }
}

/// Evidence that checks out has at least two doors, a directed-route count
/// that fits, and a cell of every loadout in the row of each source audit
/// and of each route.
pub proof fn lemma_evidence_cells(
    room_id: String,
    doors: Seq<String>,
    sources: Seq<SourceAuditRecord>,
    routes: Seq<DirectedControllerRouteRecord>,
    ws: Seq<WitnessBindingRecord>,
)
    requires
        evidence_result(room_id, doors, sources, routes, ws) is Ok,
    ensures
        doors.len() >= 2,
        doors.len() * (doors.len() - 1) <= usize::MAX,
        forall|i: int, l: EvaluationLoadout|
            0 <= i < sources.len() ==> #[trigger] has_cell(shared_cells(sources[i].shared_loadout_audits@), l),
        forall|i: int, l: EvaluationLoadout|
            0 <= i < routes.len() ==> #[trigger] has_cell(route_cells_of(routes[i].loadouts@), l),
{
    let n = doors.len();
    let ps = pairs_upto(n as int, n as int);
    lemma_sources_ok(sources, doors, 0);
    lemma_routes_ok(routes, sources, doors, ps, room_id, ws, 0);
    assert forall|i: int, l: EvaluationLoadout|
        0 <= i < sources.len() implies #[trigger] has_cell(shared_cells(sources[i].shared_loadout_audits@), l) by {
        assert(source_result(sources[i], doors, i) is Ok);
        let cells = shared_cells(sources[i].shared_loadout_audits@);
        assert(cell_loadouts(cells) =~= shared_loadouts(sources[i].shared_loadout_audits@));
        lemma_all_loadouts_cells(cells);
    }
    assert forall|i: int, l: EvaluationLoadout|
        0 <= i < routes.len() implies #[trigger] has_cell(route_cells_of(routes[i].loadouts@), l) by {
        assert(route_result(routes[i], doors, ps[i], sources[ps[i].0], room_id, ws) is Ok);
        let cells = route_cells_of(routes[i].loadouts@);
        assert(cell_loadouts(cells) =~= route_loadouts(routes[i].loadouts@));
        lemma_all_loadouts_cells(cells);
    }
}

/// The cells of shared source audits.
pub open spec fn shared_cells(s: Seq<SharedLoadoutAuditRecord>) -> Seq<ControllerLoadoutCell> {
    s.map_values(
        |a: SharedLoadoutAuditRecord|
            ControllerLoadoutCell {
                loadout: a.loadout,
                status: a.status,
                retained_semantic_witnesses: a.retained_semantic_witnesses,
            },
    )
}

/// The cells of a route's loadout records.
pub open spec fn route_cells_of(s: Seq<DirectedControllerLoadoutRecord>) -> Seq<ControllerLoadoutCell> {
    s.map_values(
        |l: DirectedControllerLoadoutRecord|
            ControllerLoadoutCell {
                loadout: l.loadout,
                status: l.status,
                retained_semantic_witnesses: l.retained_semantic_witnesses,
            },
    )
}

/// The per-loadout cells of each source audit, as the direct aggregates read them.
pub fn source_cells(sources: &[SourceAuditRecord]) -> (r: Vec<Vec<ControllerLoadoutCell>>)
    ensures
        rows_view(r@) == sources@.map_values(|s: SourceAuditRecord| shared_cells(s.shared_loadout_audits@)),
{
    let mut r: Vec<Vec<ControllerLoadoutCell>> = Vec::new();
    let mut i: usize = 0;
    while i < sources.len()
        invariant
            i <= sources.len(),
            rows_view(r@) == sources@.take(i as int).map_values(
                |s: SourceAuditRecord| shared_cells(s.shared_loadout_audits@),
            ),
        decreases sources.len() - i,
    {
        let shared = &sources[i].shared_loadout_audits;
        let mut row: Vec<ControllerLoadoutCell> = Vec::new();
        let mut q: usize = 0;
        while q < shared.len()
            invariant
                q <= shared.len(),
                row@ == shared_cells(shared@).take(q as int),
            decreases shared.len() - q,
        {
            row.push(
                ControllerLoadoutCell {
                    loadout: shared[q].loadout,
                    status: shared[q].status,
                    retained_semantic_witnesses: shared[q].retained_semantic_witnesses,
                },
            );
            assert(row@ =~= shared_cells(shared@).take(q + 1));
            q = q + 1;
        }
        assert(shared_cells(shared@).take(q as int) =~= shared_cells(shared@));
        let ghost old_r = r@;
        r.push(row);
        assert(rows_view(r@) =~= rows_view(old_r).push(shared_cells(shared@)));
        assert(rows_view(r@) =~= sources@.take(i + 1).map_values(
            |s: SourceAuditRecord| shared_cells(s.shared_loadout_audits@),
        ));
        i = i + 1;
    }
    assert(sources@.take(i as int) =~= sources@);
    r
}

/// The per-loadout cells of each directed route, as the direct aggregates read them.
pub fn route_cells(routes: &[DirectedControllerRouteRecord]) -> (r: Vec<Vec<ControllerLoadoutCell>>)
    ensures
        rows_view(r@) == routes@.map_values(|d: DirectedControllerRouteRecord| route_cells_of(d.loadouts@)),
{
    let mut r: Vec<Vec<ControllerLoadoutCell>> = Vec::new();
    let mut i: usize = 0;
    while i < routes.len()
        invariant
            i <= routes.len(),
            rows_view(r@) == routes@.take(i as int).map_values(
                |d: DirectedControllerRouteRecord| route_cells_of(d.loadouts@),
            ),
        decreases routes.len() - i,
    {
        let ls = &routes[i].loadouts;
        let mut row: Vec<ControllerLoadoutCell> = Vec::new();
        let mut q: usize = 0;
        while q < ls.len()
            invariant
                q <= ls.len(),
                row@ == route_cells_of(ls@).take(q as int),
            decreases ls.len() - q,
        {
            row.push(
                ControllerLoadoutCell {
                    loadout: ls[q].loadout,
                    status: ls[q].status,
                    retained_semantic_witnesses: ls[q].retained_semantic_witnesses,
                },
            );
            assert(row@ =~= route_cells_of(ls@).take(q + 1));
            q = q + 1;
        }
        assert(route_cells_of(ls@).take(q as int) =~= route_cells_of(ls@));
        let ghost old_r = r@;
        r.push(row);
        assert(rows_view(r@) =~= rows_view(old_r).push(route_cells_of(ls@)));
        assert(rows_view(r@) =~= routes@.take(i + 1).map_values(
            |d: DirectedControllerRouteRecord| route_cells_of(d.loadouts@),
        ));
        i = i + 1;
    }
    assert(routes@.take(i as int) =~= routes@);
    r
}

} // verus!
