//! Deriving a variant's ability-promotion gate from retained evidence.
//!
//! Derivation alternates decisions with replays of recorded routes, which
//! only the caller can run. It is a small state machine: each step takes the
//! pending state and the observation of the last requested replay, and either
//! finishes or requests the next replay.
use vstd::prelude::*;

use crate::ability_promotion::{
    AbilityContractViolation, AbilityPromotionClaimV2, AbilityPromotionDecisionV2,
    AbilityPromotionGateV2Error, AbilityPromotionIntendedEvidenceSourceV2,
    AbilityPromotionIntendedStateV2, AbilityPromotionMatrixStateV2,
    AbilityPromotionMissingLoadoutEvidenceV2, CORPUS_ABILITY_PROMOTION_GATE_VERSION, DoorRouteRow,
    EvaluationLoadout, LoadoutControllerAudit, LoadoutControllerAuditStatus, LoadoutRouteMatrix,
    RouteControllerAssessment, RouteControllerAssessmentPolicy, assessment_canonical, audit_loadouts,
    audit_state, decide, direct_audit_state, door_row, matching_rows, missing_loadouts, promotion_decision,
    row_state, total_rows, validate_direct_assessment, witness_counts_consistent, all_loadouts,
};

verus! {

/// The ability claim of a variant: the claimed ability and the advertised
/// source and sink doors.
#[derive(Clone, Debug, PartialEq, Eq)]
pub struct AbilityContract {
    pub claim: AbilityPromotionClaimV2,
    pub source_door_id: String,
    pub sink_door_id: String,
}

/// Versions of the generator's ability rewrite, embedding contract and generation.
#[derive(Clone, Copy, Debug, PartialEq, Eq, Structural)]
pub struct GateVersions {
    pub edge_rewrite_version: u32,
    pub gate_embedding_contract_version: u32,
    pub generation_version: u32,
}

#[derive(Clone, Debug, PartialEq, Eq)]
pub enum VariantAbilityPromotionEvidenceV2 {
    NotApplicable,
    Ability {
        claim: AbilityPromotionClaimV2,
        source_door_id: String,
        sink_door_id: String,
        edge_rewrite_version: u32,
        gate_embedding_contract_version: u32,
        generation_version: u32,
        alias_room_compatible: bool,
        intended_route: Option<AbilityPromotionIntendedStateV2>,
        intended_evidence_source: Option<AbilityPromotionIntendedEvidenceSourceV2>,
        baseline_reverse: Option<AbilityPromotionMatrixStateV2>,
        missing_ability_loadouts: Vec<AbilityPromotionMissingLoadoutEvidenceV2>,
        /// Exact advertised-pair finite audit; absent only for a refused
        /// room-incompatible alias.
        direct_route_assessment: Option<RouteControllerAssessment>,
    },
}

/// A variant's promotion gate: its evidence and the decision it supports.
#[derive(Clone, Debug, PartialEq, Eq)]
pub struct VariantAbilityPromotionGateV2 {
    pub gate_version: u32,
    /// The variant's exact candidate key, as its stable slug.
    pub key: String,
    pub evidence: VariantAbilityPromotionEvidenceV2,
    pub decision: AbilityPromotionDecisionV2,
}

/// What the caller observed replaying a recorded route.
#[derive(Clone, Debug, PartialEq, Eq)]
pub struct ReplayObservation {
    /// The exit door the replay reached.
    pub reached_exit_id: String,
    /// The replay's semantic actions include an accepted wall jump.
    pub wall_jump_event: bool,
    /// The replay's semantic actions include an accepted dash.
    pub dash_event: bool,
    /// The observed semantic actions equal the retained witness trace.
    pub matches_retained_trace: bool,
}

/// Which recorded route the intended-route state is replayed from.
#[derive(Clone, Copy, Debug, PartialEq, Eq, Structural)]
pub enum IntendedReplay {
    /// The retained easiest-first direct witness at this index.
    DirectWitness { witness_index: usize },
    /// The positive row of the construction-loadout matrix.
    CanonicalMatrix,
}

/// A gate whose derivation awaits a replay; its retained audit has been
/// validated.
#[derive(Debug, PartialEq, Eq)]
pub struct PendingGate {
    key: String,
    claim: AbilityPromotionClaimV2,
    source_door_id: String,
    sink_door_id: String,
    construction: EvaluationLoadout,
    versions: GateVersions,
    assessment: RouteControllerAssessment,
    intended_route: AbilityPromotionIntendedStateV2,
    intended_evidence_source: Option<AbilityPromotionIntendedEvidenceSourceV2>,
}

impl PendingGate {
    /// The retained audit covers every loadout in canonical order.
    #[verifier::type_invariant]
    spec fn audits_canonical(&self) -> bool {
        audit_loadouts(self.assessment.audits@) == all_loadouts()
    }

    pub closed spec fn spec_key(&self) -> Seq<char> {
        self.key@
    }

    pub closed spec fn spec_claim(&self) -> AbilityPromotionClaimV2 {
        self.claim
    }

    pub closed spec fn spec_source(&self) -> Seq<char> {
        self.source_door_id@
    }

    pub closed spec fn spec_sink(&self) -> Seq<char> {
        self.sink_door_id@
    }

    pub closed spec fn spec_construction(&self) -> EvaluationLoadout {
        self.construction
    }

    pub closed spec fn spec_versions(&self) -> GateVersions {
        self.versions
    }

    pub closed spec fn spec_assessment(&self) -> RouteControllerAssessment {
        self.assessment
    }

    pub closed spec fn spec_intended(&self) -> AbilityPromotionIntendedStateV2 {
        self.intended_route
    }

    pub closed spec fn spec_intended_source(&self) -> Option<AbilityPromotionIntendedEvidenceSourceV2> {
        self.intended_evidence_source
    }

    /// The advertised source door.
    pub fn source_door_id(&self) -> (r: &String)
        ensures
            r@ == self.spec_source(),
    {
        &self.source_door_id
    }

    /// The advertised sink door.
    pub fn sink_door_id(&self) -> (r: &String)
        ensures
            r@ == self.spec_sink(),
    {
        &self.sink_door_id
    }

    /// The loadout the variant was constructed for.
    pub fn construction(&self) -> (r: EvaluationLoadout)
        ensures
            r == self.spec_construction(),
    {
        self.construction
    }

    /// The retained advertised-pair direct audit.
    pub fn assessment(&self) -> (r: &RouteControllerAssessment)
        ensures
            *r == self.spec_assessment(),
    {
        &self.assessment
    }
}

/// One step of gate derivation.
#[derive(Debug)]
pub enum GateStep {
    /// Derivation finished.
    Done(Result<VariantAbilityPromotionGateV2, AbilityPromotionGateV2Error>),
    /// Replay the intended route under the construction loadout from the
    /// source door, then call `after_intended_replay`.
    ReplayIntended { pending: PendingGate, replay: IntendedReplay },
    /// Replay the baseline matrix positive from the sink door back to the
    /// source door, then call `after_reverse_replay`.
    ReplayReverse { pending: PendingGate },
}

/// Mathematical value of a contract violation.
pub enum ViolationModel {
    Simple(AbilityContractViolation),
    DoorRowCount { loadout: EvaluationLoadout, rows: nat, source: Seq<char>, target: Seq<char> },
}

/// Mathematical value of a gate error.
pub open spec fn error_model(e: AbilityPromotionGateV2Error) -> ViolationModel {
    match e {
        AbilityPromotionGateV2Error::InvalidContract(v) => match v {
            AbilityContractViolation::DoorRowCount { loadout, rows, source_door_id, target_door_id } => ViolationModel::DoorRowCount {
                loadout,
                rows: rows as nat,
                source: source_door_id@,
                target: target_door_id@,
            },
            _ => ViolationModel::Simple(v),
        },
    }
}

/// The single row for `source -> target` of `loadout`'s matrices.
pub open spec fn row_for(
    ms: Seq<LoadoutRouteMatrix>,
    loadout: EvaluationLoadout,
    source: Seq<char>,
    target: Seq<char>,
) -> Result<DoorRouteRow, ViolationModel> {
    let rows = matching_rows(ms, loadout, source, target);
    if rows.len() == 1 {
        Ok(rows[0])
    } else {
        Err(ViolationModel::DoorRowCount { loadout, rows: rows.len(), source, target })
    }
}

/// The first audit of `loadout`.
pub open spec fn audit_for(audits: Seq<LoadoutControllerAudit>, loadout: EvaluationLoadout) -> LoadoutControllerAudit
    decreases audits.len(),
{
    if audits.len() <= 1 || audits[0].loadout == loadout {
        audits[0]
    } else {
        audit_for(audits.drop_first(), loadout)
    }
}

/// Index of the first retained witness of `loadout`.
pub open spec fn first_witness(ws: Seq<EvaluationLoadout>, loadout: EvaluationLoadout) -> Option<int>
    decreases ws.len(),
{
    if ws.len() == 0 {
        None
    } else if ws[0] == loadout {
        Some(0)
    } else {
        match first_witness(ws.drop_first(), loadout) {
            Some(i) => Some(i + 1),
            None => None,
        }
    }
}

/// How derivation starts.
pub enum StartModel {
    Fail(ViolationModel),
    NotApplicable,
    AliasMismatch,
    Replay(IntendedReplay),
    Known(AbilityPromotionIntendedStateV2),
}

/// The first stage of derivation: the contract, room compatibility and
/// retained audit decide whether a gate applies and how the intended route
/// is established.
pub open spec fn start_model(
    contract: Option<AbilityContract>,
    room_compatible: bool,
    construction: EvaluationLoadout,
    ms: Seq<LoadoutRouteMatrix>,
    assessment: Option<RouteControllerAssessment>,
    policy: RouteControllerAssessmentPolicy,
) -> StartModel {
    match contract {
        None => if assessment is Some {
            StartModel::Fail(ViolationModel::Simple(AbilityContractViolation::OrdinaryCandidateRetainedAudit))
        } else {
            StartModel::NotApplicable
        },
        Some(c) => if !room_compatible {
            if assessment is Some {
                StartModel::Fail(ViolationModel::Simple(AbilityContractViolation::IncompatibleAliasRetainedAudit))
            } else {
                StartModel::AliasMismatch
            }
        } else {
            match assessment {
                None => StartModel::Fail(ViolationModel::Simple(AbilityContractViolation::MissingDirectAudit)),
                Some(a) => if !assessment_canonical(a, c.source_door_id@, c.sink_door_id@, policy) {
                    StartModel::Fail(ViolationModel::Simple(AbilityContractViolation::StaleDirectAudit))
                } else if !witness_counts_consistent(a) {
                    StartModel::Fail(ViolationModel::Simple(AbilityContractViolation::InconsistentWitnessCounts))
                } else {
                    match row_for(ms, construction, c.source_door_id@, c.sink_door_id@) {
                        Err(v) => StartModel::Fail(v),
                        Ok(row) => {
                            let audit = audit_for(a.audits@, construction);
                            match audit.status {
                                LoadoutControllerAuditStatus::BoundedIncomplete { .. } => StartModel::Known(
                                    AbilityPromotionIntendedStateV2::BoundedInconclusive,
                                ),
                                LoadoutControllerAuditStatus::CompleteFiniteVocabulary => if audit.raw_positive_witnesses
                                    > 0 {
                                    match first_witness(a.easiest_first_witness_loadouts@, construction) {
                                        None => StartModel::Fail(
                                            ViolationModel::Simple(AbilityContractViolation::IntendedWitnessMissing),
                                        ),
                                        Some(i) => StartModel::Replay(
                                            IntendedReplay::DirectWitness { witness_index: i as usize },
                                        ),
                                    }
                                } else if row.positive {
                                    StartModel::Replay(IntendedReplay::CanonicalMatrix)
                                } else {
                                    StartModel::Known(AbilityPromotionIntendedStateV2::BoundedInconclusive)
                                },
                            }
                        },
                    }
                },
            }
        },
    }
}

/// Lower-loadout evidence for `ls`: each loadout's single matrix row and its
/// direct-audit state; the first missing or ambiguous row fails.
pub open spec fn evidence_for(
    ls: Seq<EvaluationLoadout>,
    ms: Seq<LoadoutRouteMatrix>,
    audits: Seq<LoadoutControllerAudit>,
    source: Seq<char>,
    sink: Seq<char>,
) -> Result<Seq<AbilityPromotionMissingLoadoutEvidenceV2>, ViolationModel>
    decreases ls.len(),
{
    if ls.len() == 0 {
        Ok(Seq::empty())
    } else {
        match evidence_for(ls.drop_last(), ms, audits, source, sink) {
            Err(v) => Err(v),
            Ok(prev) => match row_for(ms, ls.last(), source, sink) {
                Err(v) => Err(v),
                Ok(row) => Ok(
                    prev.push(
                        AbilityPromotionMissingLoadoutEvidenceV2 {
                            loadout: ls.last(),
                            matrix: row_state(row),
                            direct_audit: audit_state(audit_for(audits, ls.last())),
                        },
                    ),
                ),
            },
        }
    }
}

/// The pending state `p` carries these values.
pub open spec fn pending_is(
    p: PendingGate,
    key: Seq<char>,
    claim: AbilityPromotionClaimV2,
    source: Seq<char>,
    sink: Seq<char>,
    construction: EvaluationLoadout,
    versions: GateVersions,
    assessment: RouteControllerAssessment,
) -> bool {
    p.spec_key() == key && p.spec_claim() == claim && p.spec_source() == source && p.spec_sink() == sink && p.spec_construction()
        == construction && p.spec_versions() == versions && p.spec_assessment() == assessment
}

/// `g` is an ability gate with exactly these fields.
pub open spec fn ability_gate_is(
    g: VariantAbilityPromotionGateV2,
    key: Seq<char>,
    claim: AbilityPromotionClaimV2,
    source: Seq<char>,
    sink: Seq<char>,
    versions: GateVersions,
    compatible: bool,
    intended: Option<AbilityPromotionIntendedStateV2>,
    intended_source: Option<AbilityPromotionIntendedEvidenceSourceV2>,
    reverse: Option<AbilityPromotionMatrixStateV2>,
    missing: Seq<AbilityPromotionMissingLoadoutEvidenceV2>,
    assessment: Option<RouteControllerAssessment>,
    decision: AbilityPromotionDecisionV2,
) -> bool {
    &&& g.gate_version == CORPUS_ABILITY_PROMOTION_GATE_VERSION
    &&& g.key@ == key
    &&& g.decision == decision
    &&& match g.evidence {
        VariantAbilityPromotionEvidenceV2::Ability {
            claim: c,
            source_door_id: s,
            sink_door_id: t,
            edge_rewrite_version: ev,
            gate_embedding_contract_version: gv,
            generation_version: nv,
            alias_room_compatible: rc,
            intended_route: ir,
            intended_evidence_source: is,
            baseline_reverse: br,
            missing_ability_loadouts: ml,
            direct_route_assessment: da,
        } => c == claim && s@ == source && t@ == sink && ev == versions.edge_rewrite_version && gv
            == versions.gate_embedding_contract_version && nv == versions.generation_version && rc
            == compatible && ir == intended && is == intended_source && br == reverse && ml@ == missing
            && da == assessment,
        VariantAbilityPromotionEvidenceV2::NotApplicable => false,
    }
}

/// The finished gate of a pending derivation whose baseline reverse route
/// has state `reverse`.
pub open spec fn finish_holds(
    p: PendingGate,
    ms: Seq<LoadoutRouteMatrix>,
    reverse: AbilityPromotionMatrixStateV2,
    r: Result<VariantAbilityPromotionGateV2, AbilityPromotionGateV2Error>,
) -> bool {
    match evidence_for(
        missing_loadouts(p.spec_claim()),
        ms,
        p.spec_assessment().audits@,
        p.spec_source(),
        p.spec_sink(),
    ) {
        Err(v) => r matches Err(e) && error_model(e) == v,
        Ok(missing) => r matches Ok(g) && ability_gate_is(
            g,
            p.spec_key(),
            p.spec_claim(),
            p.spec_source(),
            p.spec_sink(),
            p.spec_versions(),
            true,
            Some(p.spec_intended()),
            p.spec_intended_source(),
            Some(reverse),
            missing,
            Some(p.spec_assessment()),
            decide(p.spec_intended(), reverse, missing),
        ),
    }
}

/// Derivation after the intended route is established: the baseline reverse
/// row decides whether a reverse replay is needed.
pub open spec fn after_intended_holds(p: PendingGate, ms: Seq<LoadoutRouteMatrix>, r: GateStep) -> bool {
    match row_for(ms, EvaluationLoadout::Baseline, p.spec_sink(), p.spec_source()) {
        Err(v) => r matches GateStep::Done(Err(e)) && error_model(e) == v,
        Ok(row) => if row.positive {
            r == GateStep::ReplayReverse { pending: p }
        } else {
            r matches GateStep::Done(res) && finish_holds(
                p,
                ms,
                AbilityPromotionMatrixStateV2::BoundedInconclusive,
                res,
            )
        },
    }
}

/// Position of a loadout in canonical order.
pub open spec fn loadout_index(loadout: EvaluationLoadout) -> int {
    match loadout {
        EvaluationLoadout::Baseline => 0,
        EvaluationLoadout::WallJump => 1,
        EvaluationLoadout::Dash => 2,
        EvaluationLoadout::Both => 3,
    }
}

/// In a canonical assessment the audit of a loadout sits at its canonical position.
proof fn lemma_audit_for(audits: Seq<LoadoutControllerAudit>, loadout: EvaluationLoadout)
    requires
        audit_loadouts(audits) == all_loadouts(),
    ensures
        audits.len() == 4,
        audit_for(audits, loadout) == audits[loadout_index(loadout)],
        audit_for(audits, loadout).loadout == loadout,
{
    assert(audit_loadouts(audits).len() == audits.len());
    assert(audit_loadouts(audits)[0] == audits[0].loadout);
    assert(audit_loadouts(audits)[1] == audits[1].loadout);
    assert(audit_loadouts(audits)[2] == audits[2].loadout);
    assert(audit_loadouts(audits)[3] == audits[3].loadout);
    let d1 = audits.drop_first();
    let d2 = d1.drop_first();
    let d3 = d2.drop_first();
    assert(d1[0] == audits[1]);
    assert(d2[0] == audits[2]);
    assert(d3[0] == audits[3]);
    assert(d3.len() == 1);
    reveal_with_fuel(audit_for, 4);
}

/// The audit of `loadout` in a canonical assessment.
fn find_audit(audits: &Vec<LoadoutControllerAudit>, loadout: EvaluationLoadout) -> (r: LoadoutControllerAudit)
    requires
        audit_loadouts(audits@) == all_loadouts(),
    ensures
        r == audit_for(audits@, loadout),
{
    proof {
        lemma_audit_for(audits@, loadout);
    }
    match loadout {
        EvaluationLoadout::Baseline => audits[0],
        EvaluationLoadout::WallJump => audits[1],
        EvaluationLoadout::Dash => audits[2],
        EvaluationLoadout::Both => audits[3],
    }
}

/// Index of the first retained witness of `loadout`.
fn find_witness(ws: &Vec<EvaluationLoadout>, loadout: EvaluationLoadout) -> (r: Option<usize>)
    ensures
        match r {
            Some(i) => first_witness(ws@, loadout) == Some(i as int),
            None => first_witness(ws@, loadout) is None,
        },
{
    let mut k: usize = 0;
    assert(ws@.skip(0) =~= ws@);
    while k < ws.len()
        invariant
            k <= ws.len(),
            match first_witness(ws@.skip(k as int), loadout) {
                Some(i) => first_witness(ws@, loadout) == Some(i + k),
                None => first_witness(ws@, loadout) is None,
            },
        decreases ws.len() - k,
    {
        assert(ws@.skip(k as int)[0] == ws@[k as int]);
        assert(ws@.skip(k as int).drop_first() =~= ws@.skip(k + 1));
        if ws[k] == loadout {
            return Some(k);
        }
        k = k + 1;
    }
    assert(ws@.skip(k as int).len() == 0);
    None
}

/// Lower-loadout evidence for every loadout lacking the claimed ability.
fn missing_loadout_evidence(
    claim: AbilityPromotionClaimV2,
    matrices: &[LoadoutRouteMatrix],
    audits: &Vec<LoadoutControllerAudit>,
    source_door_id: &String,
    sink_door_id: &String,
) -> (r: Result<Vec<AbilityPromotionMissingLoadoutEvidenceV2>, AbilityPromotionGateV2Error>)
    requires
        total_rows(matrices@) <= usize::MAX,
        audit_loadouts(audits@) == all_loadouts(),
    ensures
        match evidence_for(missing_loadouts(claim), matrices@, audits@, source_door_id@, sink_door_id@) {
            Ok(missing) => r matches Ok(v) && v@ == missing,
            Err(vm) => r matches Err(e) && error_model(e) == vm,
        },
{
    let loadouts = claim.missing_ability_loadouts();
    let ghost ls = loadouts@;
    let mut out: Vec<AbilityPromotionMissingLoadoutEvidenceV2> = Vec::new();
    let mut k: usize = 0;
    assert(ls.take(0) =~= Seq::<EvaluationLoadout>::empty());
    while k < loadouts.len()
        invariant
            k <= loadouts.len(),
            ls == loadouts@,
            ls == missing_loadouts(claim),
            total_rows(matrices@) <= usize::MAX,
            audit_loadouts(audits@) == all_loadouts(),
            evidence_for(ls.take(k as int), matrices@, audits@, source_door_id@, sink_door_id@)
                == Ok::<Seq<AbilityPromotionMissingLoadoutEvidenceV2>, ViolationModel>(out@),
        decreases loadouts.len() - k,
    {
        let loadout = loadouts[k];
        assert(ls.take(k + 1).drop_last() =~= ls.take(k as int));
        assert(ls.take(k + 1).last() == loadout);
        let row = match door_row(matrices, loadout, source_door_id, sink_door_id) {
            Ok(row) => row,
            Err(e) => {
                proof {
                    lemma_evidence_prefix_error(ls, matrices@, audits@, source_door_id@, sink_door_id@, k as int + 1);
                }
                return Err(e);
            },
        };
        let audit = find_audit(audits, loadout);
        out.push(
            AbilityPromotionMissingLoadoutEvidenceV2 {
                loadout,
                matrix: crate::ability_promotion::matrix_state(row),
                direct_audit: direct_audit_state(&audit),
            },
        );
        k = k + 1;
    }
    assert(ls.take(k as int) =~= ls);
    Ok(out)
}

proof fn lemma_evidence_prefix_error(
    ls: Seq<EvaluationLoadout>,
    ms: Seq<LoadoutRouteMatrix>,
    audits: Seq<LoadoutControllerAudit>,
    source: Seq<char>,
    sink: Seq<char>,
    n: int,
)
    requires
        0 <= n <= ls.len(),
        evidence_for(ls.take(n), ms, audits, source, sink) is Err,
    ensures
        evidence_for(ls, ms, audits, source, sink) == evidence_for(ls.take(n), ms, audits, source, sink),
    decreases ls.len() - n,
{
    if n < ls.len() {
        assert(ls.take(n + 1).drop_last() =~= ls.take(n));
        lemma_evidence_prefix_error(ls, ms, audits, source, sink, n + 1);
    } else {
        assert(ls.take(n) =~= ls);
    }
}

/// Finish a pending derivation whose baseline reverse route has state `reverse`.
fn finish_gate(
    pending: PendingGate,
    reverse: AbilityPromotionMatrixStateV2,
    matrices: &[LoadoutRouteMatrix],
) -> (r: Result<VariantAbilityPromotionGateV2, AbilityPromotionGateV2Error>)
    requires
        total_rows(matrices@) <= usize::MAX,
    ensures
        finish_holds(pending, matrices@, reverse, r),
{
    proof {
        use_type_invariant(&pending);
    }
    let missing = match missing_loadout_evidence(
        pending.claim,
        matrices,
        &pending.assessment.audits,
        &pending.source_door_id,
        &pending.sink_door_id,
    ) {
        Ok(m) => m,
        Err(e) => {
            return Err(e);
        },
    };
    let decision = promotion_decision(pending.intended_route, reverse, missing.as_slice());
    Ok(
        VariantAbilityPromotionGateV2 {
            gate_version: CORPUS_ABILITY_PROMOTION_GATE_VERSION,
            key: pending.key,
            evidence: VariantAbilityPromotionEvidenceV2::Ability {
                claim: pending.claim,
                source_door_id: pending.source_door_id,
                sink_door_id: pending.sink_door_id,
                edge_rewrite_version: pending.versions.edge_rewrite_version,
                gate_embedding_contract_version: pending.versions.gate_embedding_contract_version,
                generation_version: pending.versions.generation_version,
                alias_room_compatible: true,
                intended_route: Some(pending.intended_route),
                intended_evidence_source: pending.intended_evidence_source,
                baseline_reverse: Some(reverse),
                missing_ability_loadouts: missing,
                direct_route_assessment: Some(pending.assessment),
            },
            decision,
        },
    )
}

/// Continue once the intended route is established.
fn after_intended(pending: PendingGate, matrices: &[LoadoutRouteMatrix]) -> (r: GateStep)
    requires
        total_rows(matrices@) <= usize::MAX,
    ensures
        after_intended_holds(pending, matrices@, r),
{
    let positive = match door_row(
        matrices,
        EvaluationLoadout::Baseline,
        &pending.sink_door_id,
        &pending.source_door_id,
    ) {
        Ok(row) => row.positive,
        Err(e) => {
            return GateStep::Done(Err(e));
        },
    };
    if positive {
        GateStep::ReplayReverse { pending }
    } else {
        GateStep::Done(finish_gate(pending, AbilityPromotionMatrixStateV2::BoundedInconclusive, matrices))
    }
}

pub open spec fn not_applicable_gate(key: String) -> VariantAbilityPromotionGateV2 {
    VariantAbilityPromotionGateV2 {
        gate_version: CORPUS_ABILITY_PROMOTION_GATE_VERSION,
        key,
        evidence: VariantAbilityPromotionEvidenceV2::NotApplicable,
        decision: AbilityPromotionDecisionV2::NotApplicable,
    }
}

/// The first step of deriving a gate: what `begin_promotion_gate` returns
/// for these inputs.
pub open spec fn begin_holds(
    key: String,
    contract: Option<AbilityContract>,
    room_compatible: bool,
    construction: EvaluationLoadout,
    ms: Seq<LoadoutRouteMatrix>,
    assessment: Option<RouteControllerAssessment>,
    current_policy: RouteControllerAssessmentPolicy,
    versions: GateVersions,
    r: GateStep,
) -> bool {
    match start_model(contract, room_compatible, construction, ms, assessment, current_policy) {
        StartModel::Fail(v) => r matches GateStep::Done(Err(e)) && error_model(e) == v,
        StartModel::NotApplicable => r == GateStep::Done(
            Ok::<VariantAbilityPromotionGateV2, AbilityPromotionGateV2Error>(not_applicable_gate(key)),
        ),
        StartModel::AliasMismatch => r matches GateStep::Done(Ok(g)) && ability_gate_is(
            g,
            key@,
            contract->0.claim,
            contract->0.source_door_id@,
            contract->0.sink_door_id@,
            versions,
            false,
            None,
            None,
            None,
            Seq::empty(),
            None,
            AbilityPromotionDecisionV2::RefusedAliasRoomMismatch,
        ),
        StartModel::Replay(replay) => r matches GateStep::ReplayIntended { pending, replay: rp } && rp
            == replay && pending_is(
            pending,
            key@,
            contract->0.claim,
            contract->0.source_door_id@,
            contract->0.sink_door_id@,
            construction,
            versions,
            assessment->0,
        ),
        StartModel::Known(state) => exists|p: PendingGate|
            pending_is(
                p,
                key@,
                contract->0.claim,
                contract->0.source_door_id@,
                contract->0.sink_door_id@,
                construction,
                versions,
                assessment->0,
            ) && p.spec_intended() == state && p.spec_intended_source() is None
                && after_intended_holds(p, ms, r),
    }
}

/// Start deriving a gate from a variant's ability contract (`None` for an
/// ordinary candidate), whether its room equals the physical evidence
/// source's room, its construction loadout, the shared route matrices and
/// the retained advertised-pair direct audit.
pub fn begin_promotion_gate(
    key: String,
    contract: Option<AbilityContract>,
    room_compatible: bool,
    construction: EvaluationLoadout,
    matrices: &[LoadoutRouteMatrix],
    assessment: Option<RouteControllerAssessment>,
    current_policy: RouteControllerAssessmentPolicy,
    versions: GateVersions,
) -> (r: GateStep)
    requires
        total_rows(matrices@) <= usize::MAX,
    ensures
        begin_holds(key, contract, room_compatible, construction, matrices@, assessment, current_policy, versions, r),
{
    let c = match contract {
        None => {
            if assessment.is_some() {
                return GateStep::Done(
                    Err(
                        AbilityPromotionGateV2Error::InvalidContract(
                            AbilityContractViolation::OrdinaryCandidateRetainedAudit,
                        ),
                    ),
                );
            }
            return GateStep::Done(
                Ok(
                    VariantAbilityPromotionGateV2 {
                        gate_version: CORPUS_ABILITY_PROMOTION_GATE_VERSION,
                        key,
                        evidence: VariantAbilityPromotionEvidenceV2::NotApplicable,
                        decision: AbilityPromotionDecisionV2::NotApplicable,
                    },
                ),
            );
        },
        Some(c) => c,
    };
    if !room_compatible {
        if assessment.is_some() {
            return GateStep::Done(
                Err(
                    AbilityPromotionGateV2Error::InvalidContract(
                        AbilityContractViolation::IncompatibleAliasRetainedAudit,
                    ),
                ),
            );
        }
        return GateStep::Done(
            Ok(
                VariantAbilityPromotionGateV2 {
                    gate_version: CORPUS_ABILITY_PROMOTION_GATE_VERSION,
                    key,
                    evidence: VariantAbilityPromotionEvidenceV2::Ability {
                        claim: c.claim,
                        source_door_id: c.source_door_id,
                        sink_door_id: c.sink_door_id,
                        edge_rewrite_version: versions.edge_rewrite_version,
                        gate_embedding_contract_version: versions.gate_embedding_contract_version,
                        generation_version: versions.generation_version,
                        alias_room_compatible: false,
                        intended_route: None,
                        intended_evidence_source: None,
                        baseline_reverse: None,
                        missing_ability_loadouts: Vec::new(),
                        direct_route_assessment: None,
                    },
                    decision: AbilityPromotionDecisionV2::RefusedAliasRoomMismatch,
                },
            ),
        );
    }
    let a = match assessment {
        None => {
            return GateStep::Done(
                Err(AbilityPromotionGateV2Error::InvalidContract(AbilityContractViolation::MissingDirectAudit)),
            );
        },
        Some(a) => a,
    };
    match validate_direct_assessment(&a, &c.source_door_id, &c.sink_door_id, current_policy) {
        Ok(()) => {},
        Err(e) => {
            return GateStep::Done(Err(e));
        },
    }
    let row_positive = match door_row(matrices, construction, &c.source_door_id, &c.sink_door_id) {
        Ok(row) => row.positive,
        Err(e) => {
            return GateStep::Done(Err(e));
        },
    };
    let audit = find_audit(&a.audits, construction);
    let known = match audit.status {
        LoadoutControllerAuditStatus::BoundedIncomplete { .. } => AbilityPromotionIntendedStateV2::BoundedInconclusive,
        LoadoutControllerAuditStatus::CompleteFiniteVocabulary => {
            if audit.raw_positive_witnesses > 0 {
                match find_witness(&a.easiest_first_witness_loadouts, construction) {
                    None => {
                        return GateStep::Done(
                            Err(
                                AbilityPromotionGateV2Error::InvalidContract(
                                    AbilityContractViolation::IntendedWitnessMissing,
                                ),
                            ),
                        );
                    },
                    Some(i) => {
                        let pending = PendingGate {
                            key,
                            claim: c.claim,
                            source_door_id: c.source_door_id,
                            sink_door_id: c.sink_door_id,
                            construction,
                            versions,
                            assessment: a,
                            intended_route: AbilityPromotionIntendedStateV2::BoundedInconclusive,
                            intended_evidence_source: None,
                        };
                        return GateStep::ReplayIntended {
                            pending,
                            replay: IntendedReplay::DirectWitness { witness_index: i },
                        };
                    },
                }
            } else if row_positive {
                let pending = PendingGate {
                    key,
                    claim: c.claim,
                    source_door_id: c.source_door_id,
                    sink_door_id: c.sink_door_id,
                    construction,
                    versions,
                    assessment: a,
                    intended_route: AbilityPromotionIntendedStateV2::BoundedInconclusive,
                    intended_evidence_source: None,
                };
                return GateStep::ReplayIntended { pending, replay: IntendedReplay::CanonicalMatrix };
            } else {
                AbilityPromotionIntendedStateV2::BoundedInconclusive
            }
        },
    };
    let pending = PendingGate {
        key,
        claim: c.claim,
        source_door_id: c.source_door_id,
        sink_door_id: c.sink_door_id,
        construction,
        versions,
        assessment: a,
        intended_route: known,
        intended_evidence_source: None,
    };
    let ghost p = pending;
    let r = after_intended(pending, matrices);
    assert(after_intended_holds(p, matrices@, r));
    r
}

/// The intended-route state an intended replay certifies.
pub open spec fn intended_replay_state(
    claim: AbilityPromotionClaimV2,
    sink: Seq<char>,
    replay: IntendedReplay,
    observation: Option<ReplayObservation>,
) -> Result<AbilityPromotionIntendedStateV2, AbilityContractViolation> {
    match observation {
        None => Err(AbilityContractViolation::ReplayUnavailable),
        Some(o) => if o.reached_exit_id@ != sink {
            Err(AbilityContractViolation::IntendedReplayWrongExit)
        } else if replay is DirectWitness && !o.matches_retained_trace {
            Err(AbilityContractViolation::RetainedTraceMismatch)
        } else if (match claim {
            AbilityPromotionClaimV2::WallJump => o.wall_jump_event,
            AbilityPromotionClaimV2::Dash => o.dash_event,
        }) {
            Ok(AbilityPromotionIntendedStateV2::ReplayCertifiedRequiredEventAccepted)
        } else {
            Ok(AbilityPromotionIntendedStateV2::ReplayCertifiedRequiredEventMissing)
        },
    }
}

/// Provenance of the intended-route state established by `replay`.
pub open spec fn replay_source(replay: IntendedReplay) -> AbilityPromotionIntendedEvidenceSourceV2 {
    match replay {
        IntendedReplay::DirectWitness { witness_index } => AbilityPromotionIntendedEvidenceSourceV2::DirectController {
            witness_index,
        },
        IntendedReplay::CanonicalMatrix => AbilityPromotionIntendedEvidenceSourceV2::CanonicalMatrix,
    }
}

/// Continue after the requested intended replay was observed (`None` when
/// it could not be run).
pub fn after_intended_replay(
    pending: PendingGate,
    replay: IntendedReplay,
    observation: Option<ReplayObservation>,
    matrices: &[LoadoutRouteMatrix],
) -> (r: GateStep)
    requires
        total_rows(matrices@) <= usize::MAX,
    ensures
        match intended_replay_state(pending.spec_claim(), pending.spec_sink(), replay, observation) {
            Err(v) => r == GateStep::Done(
                Err::<VariantAbilityPromotionGateV2, AbilityPromotionGateV2Error>(
                    AbilityPromotionGateV2Error::InvalidContract(v),
                ),
            ),
            Ok(state) => exists|p: PendingGate|
                pending_is(
                    p,
                    pending.spec_key(),
                    pending.spec_claim(),
                    pending.spec_source(),
                    pending.spec_sink(),
                    pending.spec_construction(),
                    pending.spec_versions(),
                    pending.spec_assessment(),
                ) && p.spec_intended() == state && p.spec_intended_source() == Some(replay_source(replay))
                    && after_intended_holds(p, matrices@, r),
        },
{
    proof {
        use_type_invariant(&pending);
    }
    let o = match observation {
        None => {
            return GateStep::Done(
                Err(AbilityPromotionGateV2Error::InvalidContract(AbilityContractViolation::ReplayUnavailable)),
            );
        },
        Some(o) => o,
    };
    if o.reached_exit_id != pending.sink_door_id {
        return GateStep::Done(
            Err(AbilityPromotionGateV2Error::InvalidContract(AbilityContractViolation::IntendedReplayWrongExit)),
        );
    }
    let direct = match replay {
        IntendedReplay::DirectWitness { .. } => true,
        IntendedReplay::CanonicalMatrix => false,
    };
    if direct && !o.matches_retained_trace {
        return GateStep::Done(
            Err(AbilityPromotionGateV2Error::InvalidContract(AbilityContractViolation::RetainedTraceMismatch)),
        );
    }
    let accepted = match pending.claim {
        AbilityPromotionClaimV2::WallJump => o.wall_jump_event,
        AbilityPromotionClaimV2::Dash => o.dash_event,
    };
    let state = if accepted {
        AbilityPromotionIntendedStateV2::ReplayCertifiedRequiredEventAccepted
    } else {
        AbilityPromotionIntendedStateV2::ReplayCertifiedRequiredEventMissing
    };
    let source = match replay {
        IntendedReplay::DirectWitness { witness_index } => AbilityPromotionIntendedEvidenceSourceV2::DirectController {
            witness_index,
        },
        IntendedReplay::CanonicalMatrix => AbilityPromotionIntendedEvidenceSourceV2::CanonicalMatrix,
    };
    let next = PendingGate { intended_route: state, intended_evidence_source: Some(source), ..pending };
    let ghost p = next;
    let r = after_intended(next, matrices);
    assert(after_intended_holds(p, matrices@, r));
    r
}

/// The reverse-route state a baseline reverse replay certifies.
pub open spec fn reverse_replay_state(source: Seq<char>, observation: Option<ReplayObservation>) -> Result<
    AbilityPromotionMatrixStateV2,
    AbilityContractViolation,
> {
    match observation {
        None => Err(AbilityContractViolation::ReplayUnavailable),
        Some(o) => if o.reached_exit_id@ != source {
            Err(AbilityContractViolation::ReverseReplayWrongExit)
        } else {
            Ok(AbilityPromotionMatrixStateV2::ReplayCertifiedPositive)
        },
    }
}

/// Finish after the requested baseline reverse replay was observed (`None`
/// when it could not be run).
pub fn after_reverse_replay(
    pending: PendingGate,
    observation: Option<ReplayObservation>,
    matrices: &[LoadoutRouteMatrix],
) -> (r: Result<VariantAbilityPromotionGateV2, AbilityPromotionGateV2Error>)
    requires
        total_rows(matrices@) <= usize::MAX,
    ensures
        match reverse_replay_state(pending.spec_source(), observation) {
            Err(v) => r == Err::<VariantAbilityPromotionGateV2, AbilityPromotionGateV2Error>(
                AbilityPromotionGateV2Error::InvalidContract(v),
            ),
            Ok(state) => finish_holds(pending, matrices@, state, r),
        },
{
    let o = match observation {
        None => {
            return Err(AbilityPromotionGateV2Error::InvalidContract(AbilityContractViolation::ReplayUnavailable));
        },
        Some(o) => o,
    };
    if o.reached_exit_id != pending.source_door_id {
        return Err(AbilityPromotionGateV2Error::InvalidContract(AbilityContractViolation::ReverseReplayWrongExit));
    }
    finish_gate(pending, AbilityPromotionMatrixStateV2::ReplayCertifiedPositive, matrices)
}

} // verus!
