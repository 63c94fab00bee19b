//! Variant-specific promotion evidence for constructed ability gates.
//!
//! A structural ability edge is not a gameplay claim by itself. Promotion
//! requires an accepted ability event on the advertised forward route, a
//! baseline-positive reverse route, no positive lower-loadout matrix bypass,
//! and a complete finite direct-controller audit with no lower-loadout
//! positive. Complete-no-positive remains finite-vocabulary evidence, never
//! an unreachability proof.
use vstd::prelude::*;

use crate::analysis_config::CorpusRoomAnalysisConfigError;

verus! {

/// Version of ability-promotion evidence and its canonical eligibility rule.
pub const CORPUS_ABILITY_PROMOTION_GATE_VERSION: u32 = 1;

/// Movement abilities granted to the player.
#[derive(Clone, Copy, Debug, PartialEq, Eq, Structural)]
pub struct AbilitySet {
    pub wall_jump: bool,
    pub dash: bool,
}

impl AbilitySet {
    pub fn new(wall_jump: bool, dash: bool) -> (r: Self)
        ensures
            r.wall_jump == wall_jump,
            r.dash == dash,
    {
        AbilitySet { wall_jump, dash }
    }
}

/// One of the four ability loadouts a room is evaluated under.
#[derive(Clone, Copy, Debug, PartialEq, Eq, Structural)]
pub enum EvaluationLoadout {
    Baseline,
    WallJump,
    Dash,
    Both,
}

/// The abilities granted by a loadout.
pub open spec fn loadout_abilities(loadout: EvaluationLoadout) -> AbilitySet {
    match loadout {
        EvaluationLoadout::Baseline => AbilitySet { wall_jump: false, dash: false },
        EvaluationLoadout::WallJump => AbilitySet { wall_jump: true, dash: false },
        EvaluationLoadout::Dash => AbilitySet { wall_jump: false, dash: true },
        EvaluationLoadout::Both => AbilitySet { wall_jump: true, dash: true },
    }
}

/// Every loadout, in canonical order.
pub open spec fn all_loadouts() -> Seq<EvaluationLoadout> {
    seq![
        EvaluationLoadout::Baseline,
        EvaluationLoadout::WallJump,
        EvaluationLoadout::Dash,
        EvaluationLoadout::Both,
    ]
}

impl EvaluationLoadout {
    /// The abilities this loadout grants.
    pub fn abilities(self) -> (r: AbilitySet)
        ensures
            r == loadout_abilities(self),
    {
        match self {
            EvaluationLoadout::Baseline => AbilitySet { wall_jump: false, dash: false },
            EvaluationLoadout::WallJump => AbilitySet { wall_jump: true, dash: false },
            EvaluationLoadout::Dash => AbilitySet { wall_jump: false, dash: true },
            EvaluationLoadout::Both => AbilitySet { wall_jump: true, dash: true },
        }
    }

    /// Every loadout, in canonical order.
    pub fn all() -> (r: Vec<EvaluationLoadout>)
        ensures
            r@ == all_loadouts(),
    {
        let mut r: Vec<EvaluationLoadout> = Vec::new();
        r.push(EvaluationLoadout::Baseline);
        r.push(EvaluationLoadout::WallJump);
        r.push(EvaluationLoadout::Dash);
        r.push(EvaluationLoadout::Both);
        assert(r@ =~= all_loadouts());
        r
    }
}

/// The single ability an ability gate claims to require.
#[derive(Clone, Copy, Debug, PartialEq, Eq, Structural)]
pub enum AbilityPromotionClaimV2 {
    WallJump,
    Dash,
}

/// The claimed ability is among `abilities`.
pub open spec fn claim_available(claim: AbilityPromotionClaimV2, abilities: AbilitySet) -> bool {
    match claim {
        AbilityPromotionClaimV2::WallJump => abilities.wall_jump,
        AbilityPromotionClaimV2::Dash => abilities.dash,
    }
}

/// Loadouts that lack the claimed ability, in canonical order.
pub open spec fn missing_loadouts(claim: AbilityPromotionClaimV2) -> Seq<EvaluationLoadout> {
    all_loadouts().filter(|l: EvaluationLoadout| !claim_available(claim, loadout_abilities(l)))
}

impl AbilityPromotionClaimV2 {
    pub fn is_available(self, abilities: AbilitySet) -> (r: bool)
        ensures
            r == claim_available(self, abilities),
    {
        match self {
            AbilityPromotionClaimV2::WallJump => abilities.wall_jump,
            AbilityPromotionClaimV2::Dash => abilities.dash,
        }
    }

    /// The loadouts that lack this ability, in canonical order.
    pub fn missing_ability_loadouts(self) -> (r: Vec<EvaluationLoadout>)
        ensures
            r@ == missing_loadouts(self),
    {
        proof {
            reveal_with_fuel(Seq::filter, 5);
            assert(all_loadouts().drop_last().drop_last().drop_last().drop_last() =~= Seq::<
                EvaluationLoadout,
            >::empty());
        }
        let mut r: Vec<EvaluationLoadout> = Vec::new();
        r.push(EvaluationLoadout::Baseline);
        match self {
            AbilityPromotionClaimV2::WallJump => r.push(EvaluationLoadout::Dash),
            AbilityPromotionClaimV2::Dash => r.push(EvaluationLoadout::WallJump),
        }
        assert(r@ =~= missing_loadouts(self));
        r
    }
}

#[derive(Clone, Copy, Debug, PartialEq, Eq, Structural)]
pub enum AbilityPromotionMatrixStateV2 {
    ReplayCertifiedPositive,
    BoundedInconclusive,
}

#[derive(Clone, Copy, Debug, PartialEq, Eq, Structural)]
pub enum AbilityPromotionIntendedStateV2 {
    ReplayCertifiedRequiredEventAccepted,
    ReplayCertifiedRequiredEventMissing,
    BoundedInconclusive,
}

/// Canonical provenance for the intended-route state. The direct-witness
/// index refers to the assessment's easiest-first witnesses.
#[derive(Clone, Copy, Debug, PartialEq, Eq, Structural)]
pub enum AbilityPromotionIntendedEvidenceSourceV2 {
    DirectController { witness_index: usize },
    CanonicalMatrix,
}

#[derive(Clone, Copy, Debug, PartialEq, Eq, Structural)]
pub enum AbilityPromotionBudgetLimitV2 {
    ExpandedNodes,
    SimulatedTicks,
}

#[derive(Clone, Copy, Debug, PartialEq, Eq, Structural)]
pub enum AbilityPromotionDirectAuditStateV2 {
    CompleteFiniteVocabularyNoPositive,
    PositiveBypass { raw_positive_witnesses: usize, retained_semantic_witnesses: usize },
    BoundedInconclusive { limit: AbilityPromotionBudgetLimitV2 },
}

#[derive(Clone, Copy, Debug, PartialEq, Eq, Structural)]
pub struct AbilityPromotionMissingLoadoutEvidenceV2 {
    pub loadout: EvaluationLoadout,
    pub matrix: AbilityPromotionMatrixStateV2,
    pub direct_audit: AbilityPromotionDirectAuditStateV2,
}

#[derive(Clone, Copy, Debug, PartialEq, Eq, Structural)]
pub enum AbilityPromotionDecisionV2 {
    NotApplicable,
    PromotedStructuralNoKnownBypass,
    RefusedAliasRoomMismatch,
    BoundedIntendedRoute,
    IntendedRouteMissingRequiredEvent,
    BoundedBaselineReverse,
    PositiveMatrixBypass { loadout: EvaluationLoadout },
    PositiveDirectBypass { loadout: EvaluationLoadout },
    BoundedDirectAudit { loadout: EvaluationLoadout, limit: AbilityPromotionBudgetLimitV2 },
}

/// Ordinary sources are eligible without making an ability claim; ability
/// sources are eligible only after full promotion.
pub open spec fn allows_selection(decision: AbilityPromotionDecisionV2) -> bool {
    decision is NotApplicable || decision is PromotedStructuralNoKnownBypass
}

impl AbilityPromotionDecisionV2 {
    /// Ordinary sources are eligible without making an ability claim;
    /// ability sources are eligible only after full promotion.
    pub fn allows_canonical_selection(self) -> (r: bool)
        ensures
            r == allows_selection(self),
    {
        match self {
            AbilityPromotionDecisionV2::NotApplicable => true,
            AbilityPromotionDecisionV2::PromotedStructuralNoKnownBypass => true,
            _ => false,
        }
    }
}

/// The loadout of the first lower-loadout row whose matrix evidence is positive.
pub open spec fn first_matrix_bypass(missing: Seq<AbilityPromotionMissingLoadoutEvidenceV2>) -> Option<
    EvaluationLoadout,
>
    decreases missing.len(),
{
    if missing.len() == 0 {
        None
    } else if missing[0].matrix == AbilityPromotionMatrixStateV2::ReplayCertifiedPositive {
        Some(missing[0].loadout)
    } else {
        first_matrix_bypass(missing.drop_first())
    }
}

/// The refusal owed to the first lower-loadout direct audit that is not
/// complete with no positive.
pub open spec fn first_direct_refusal(missing: Seq<AbilityPromotionMissingLoadoutEvidenceV2>) -> Option<
    AbilityPromotionDecisionV2,
>
    decreases missing.len(),
{
    if missing.len() == 0 {
        None
    } else {
        match missing[0].direct_audit {
            AbilityPromotionDirectAuditStateV2::PositiveBypass { .. } => Some(
                AbilityPromotionDecisionV2::PositiveDirectBypass { loadout: missing[0].loadout },
            ),
            AbilityPromotionDirectAuditStateV2::BoundedInconclusive { limit } => Some(
                AbilityPromotionDecisionV2::BoundedDirectAudit { loadout: missing[0].loadout, limit },
            ),
            AbilityPromotionDirectAuditStateV2::CompleteFiniteVocabularyNoPositive => first_direct_refusal(
                missing.drop_first(),
            ),
        }
    }
}

/// The promotion decision: the intended route first, then the baseline
/// reverse route, then any positive lower-loadout matrix row, then the first
/// lower-loadout direct audit that found a positive or stopped at its budget.
pub open spec fn decide(
    intended: AbilityPromotionIntendedStateV2,
    reverse: AbilityPromotionMatrixStateV2,
    missing: Seq<AbilityPromotionMissingLoadoutEvidenceV2>,
) -> AbilityPromotionDecisionV2 {
    match intended {
        AbilityPromotionIntendedStateV2::BoundedInconclusive => AbilityPromotionDecisionV2::BoundedIntendedRoute,
        AbilityPromotionIntendedStateV2::ReplayCertifiedRequiredEventMissing => AbilityPromotionDecisionV2::IntendedRouteMissingRequiredEvent,
        AbilityPromotionIntendedStateV2::ReplayCertifiedRequiredEventAccepted => {
            if reverse != AbilityPromotionMatrixStateV2::ReplayCertifiedPositive {
                AbilityPromotionDecisionV2::BoundedBaselineReverse
            } else {
                match first_matrix_bypass(missing) {
                    Some(loadout) => AbilityPromotionDecisionV2::PositiveMatrixBypass { loadout },
                    None => match first_direct_refusal(missing) {
                        Some(d) => d,
                        None => AbilityPromotionDecisionV2::PromotedStructuralNoKnownBypass,
                    },
                }
            }
        },
    }
}

/// Decide promotion from the intended-route state, the baseline reverse
/// route and the lower-loadout evidence.
pub fn promotion_decision(
    intended: AbilityPromotionIntendedStateV2,
    reverse: AbilityPromotionMatrixStateV2,
    missing: &[AbilityPromotionMissingLoadoutEvidenceV2],
) -> (r: AbilityPromotionDecisionV2)
    ensures
        r == decide(intended, reverse, missing@),
{
    match intended {
        AbilityPromotionIntendedStateV2::BoundedInconclusive => {
            return AbilityPromotionDecisionV2::BoundedIntendedRoute;
        },
        AbilityPromotionIntendedStateV2::ReplayCertifiedRequiredEventMissing => {
            return AbilityPromotionDecisionV2::IntendedRouteMissingRequiredEvent;
        },
        AbilityPromotionIntendedStateV2::ReplayCertifiedRequiredEventAccepted => {},
    }
    if reverse != AbilityPromotionMatrixStateV2::ReplayCertifiedPositive {
        return AbilityPromotionDecisionV2::BoundedBaselineReverse;
    }
    let mut k: usize = 0;
    assert(missing@.skip(0) =~= missing@);
    while k < missing.len()
        invariant
            k <= missing.len(),
            intended == AbilityPromotionIntendedStateV2::ReplayCertifiedRequiredEventAccepted,
            reverse == AbilityPromotionMatrixStateV2::ReplayCertifiedPositive,
            first_matrix_bypass(missing@) == first_matrix_bypass(missing@.skip(k as int)),
        decreases missing.len() - k,
    {
        assert(missing@.skip(k as int).drop_first() =~= missing@.skip(k + 1));
        assert(missing@.skip(k as int)[0] == missing@[k as int]);
        if missing[k].matrix == AbilityPromotionMatrixStateV2::ReplayCertifiedPositive {
            return AbilityPromotionDecisionV2::PositiveMatrixBypass { loadout: missing[k].loadout };
        }
        k = k + 1;
    }
    assert(missing@.skip(k as int) =~= Seq::<AbilityPromotionMissingLoadoutEvidenceV2>::empty());
    let mut j: usize = 0;
    assert(missing@.skip(0) =~= missing@);
    while j < missing.len()
        invariant
            j <= missing.len(),
            intended == AbilityPromotionIntendedStateV2::ReplayCertifiedRequiredEventAccepted,
            reverse == AbilityPromotionMatrixStateV2::ReplayCertifiedPositive,
            first_matrix_bypass(missing@) is None,
            first_direct_refusal(missing@) == first_direct_refusal(missing@.skip(j as int)),
        decreases missing.len() - j,
    {
        assert(missing@.skip(j as int).drop_first() =~= missing@.skip(j + 1));
        assert(missing@.skip(j as int)[0] == missing@[j as int]);
        match missing[j].direct_audit {
            AbilityPromotionDirectAuditStateV2::PositiveBypass { .. } => {
                return AbilityPromotionDecisionV2::PositiveDirectBypass { loadout: missing[j].loadout };
            },
            AbilityPromotionDirectAuditStateV2::BoundedInconclusive { limit } => {
                return AbilityPromotionDecisionV2::BoundedDirectAudit { loadout: missing[j].loadout, limit };
            },
            AbilityPromotionDirectAuditStateV2::CompleteFiniteVocabularyNoPositive => {},
        }
        j = j + 1;
    }
    assert(missing@.skip(j as int) =~= Seq::<AbilityPromotionMissingLoadoutEvidenceV2>::empty());
    AbilityPromotionDecisionV2::PromotedStructuralNoKnownBypass
}

/// Every lower-loadout row is matrix-inconclusive and complete with no
/// direct positive.
pub open spec fn no_known_bypass(missing: Seq<AbilityPromotionMissingLoadoutEvidenceV2>) -> bool {
    forall|k: int|
        0 <= k < missing.len() ==> (#[trigger] missing[k]).matrix
            == AbilityPromotionMatrixStateV2::BoundedInconclusive && missing[k].direct_audit
            == AbilityPromotionDirectAuditStateV2::CompleteFiniteVocabularyNoPositive
}

proof fn lemma_first_matrix_bypass_none(missing: Seq<AbilityPromotionMissingLoadoutEvidenceV2>)
    ensures
        first_matrix_bypass(missing) is None <==> forall|k: int|
            0 <= k < missing.len() ==> (#[trigger] missing[k]).matrix
                == AbilityPromotionMatrixStateV2::BoundedInconclusive,
    decreases missing.len(),
{
    if missing.len() > 0 {
        lemma_first_matrix_bypass_none(missing.drop_first());
        if first_matrix_bypass(missing) is None {
            assert forall|k: int| 0 <= k < missing.len() implies (#[trigger] missing[k]).matrix
                == AbilityPromotionMatrixStateV2::BoundedInconclusive by {
                if k > 0 {
                    assert(missing[k] == missing.drop_first()[k - 1]);
                }
            }
        } else if forall|k: int|
            0 <= k < missing.len() ==> (#[trigger] missing[k]).matrix
                == AbilityPromotionMatrixStateV2::BoundedInconclusive {
            assert(missing[0].matrix == AbilityPromotionMatrixStateV2::BoundedInconclusive);
            assert forall|k: int| 0 <= k < missing.drop_first().len() implies (
            #[trigger] missing.drop_first()[k]).matrix
                == AbilityPromotionMatrixStateV2::BoundedInconclusive by {
                assert(missing.drop_first()[k] == missing[k + 1]);
            }
        }
    }
}

proof fn lemma_first_direct_refusal_none(missing: Seq<AbilityPromotionMissingLoadoutEvidenceV2>)
    ensures
        first_direct_refusal(missing) is None <==> forall|k: int|
            0 <= k < missing.len() ==> (#[trigger] missing[k]).direct_audit
                == AbilityPromotionDirectAuditStateV2::CompleteFiniteVocabularyNoPositive,
        first_direct_refusal(missing) matches Some(d) ==> (d is PositiveDirectBypass
            || d is BoundedDirectAudit),
    decreases missing.len(),
{
    if missing.len() > 0 {
        lemma_first_direct_refusal_none(missing.drop_first());
        if first_direct_refusal(missing) is None {
            assert forall|k: int| 0 <= k < missing.len() implies (#[trigger] missing[k]).direct_audit
                == AbilityPromotionDirectAuditStateV2::CompleteFiniteVocabularyNoPositive by {
                if k > 0 {
                    assert(missing[k] == missing.drop_first()[k - 1]);
                }
            }
        } else if forall|k: int|
            0 <= k < missing.len() ==> (#[trigger] missing[k]).direct_audit
                == AbilityPromotionDirectAuditStateV2::CompleteFiniteVocabularyNoPositive {
            assert(missing[0].direct_audit
                == AbilityPromotionDirectAuditStateV2::CompleteFiniteVocabularyNoPositive);
            assert forall|k: int| 0 <= k < missing.drop_first().len() implies (
            #[trigger] missing.drop_first()[k]).direct_audit
                == AbilityPromotionDirectAuditStateV2::CompleteFiniteVocabularyNoPositive by {
                assert(missing.drop_first()[k] == missing[k + 1]);
            }
        }
    }
}

/// Promotion fails closed: an ability source is promoted exactly when its
/// intended route is replay-certified with the required event, its baseline
/// reverse route is replay-certified, and every lower loadout is
/// matrix-inconclusive with a complete, positive-free direct audit. Every
/// other combination of evidence is refused.
pub proof fn lemma_promotion_fails_closed(
    intended: AbilityPromotionIntendedStateV2,
    reverse: AbilityPromotionMatrixStateV2,
    missing: Seq<AbilityPromotionMissingLoadoutEvidenceV2>,
)
    ensures
        allows_selection(decide(intended, reverse, missing)) <==> (intended
            == AbilityPromotionIntendedStateV2::ReplayCertifiedRequiredEventAccepted && reverse
            == AbilityPromotionMatrixStateV2::ReplayCertifiedPositive && no_known_bypass(missing)),
        decide(intended, reverse, missing) != AbilityPromotionDecisionV2::NotApplicable,
        decide(intended, reverse, missing) != AbilityPromotionDecisionV2::RefusedAliasRoomMismatch,
{
    lemma_first_matrix_bypass_none(missing);
    lemma_first_direct_refusal_none(missing);
    let clean = first_matrix_bypass(missing) is None && first_direct_refusal(missing) is None;
    assert(clean <==> no_known_bypass(missing)) by {
        if no_known_bypass(missing) {
            assert forall|k: int| 0 <= k < missing.len() implies (#[trigger] missing[k]).matrix
                == AbilityPromotionMatrixStateV2::BoundedInconclusive by {}
            assert forall|k: int| 0 <= k < missing.len() implies (#[trigger] missing[k]).direct_audit
                == AbilityPromotionDirectAuditStateV2::CompleteFiniteVocabularyNoPositive by {}
        }
        if clean {
            assert forall|k: int| 0 <= k < missing.len() implies (#[trigger] missing[k]).matrix
                == AbilityPromotionMatrixStateV2::BoundedInconclusive && missing[k].direct_audit
                == AbilityPromotionDirectAuditStateV2::CompleteFiniteVocabularyNoPositive by {}
        }
    }
}

/// Versions of the route-controller assessment policy.
#[derive(Clone, Copy, Debug, PartialEq, Eq, Structural)]
pub struct RouteControllerAssessmentPolicy {
    pub assessment_version: u32,
    pub direct_probe_audit_version: u32,
    pub semantic_trace_version: u32,
    pub controller_demand_version: u32,
}

/// Whether one loadout's finite direct-controller audit ran to completion.
#[derive(Clone, Copy, Debug, PartialEq, Eq, Structural)]
pub enum LoadoutControllerAuditStatus {
    CompleteFiniteVocabulary,
    BoundedIncomplete { limit: AbilityPromotionBudgetLimitV2 },
}

/// One loadout's direct-controller audit counts.
#[derive(Clone, Copy, Debug, PartialEq, Eq, Structural)]
pub struct LoadoutControllerAudit {
    pub loadout: EvaluationLoadout,
    pub status: LoadoutControllerAuditStatus,
    pub raw_positive_witnesses: usize,
    pub retained_semantic_witnesses: usize,
}

/// The parts of an advertised-pair direct-controller assessment that
/// promotion reads.
#[derive(Clone, Debug, PartialEq, Eq)]
pub struct RouteControllerAssessment {
    pub policy: RouteControllerAssessmentPolicy,
    pub source_door_id: String,
    pub target_door_id: String,
    pub authoritative_loadout: EvaluationLoadout,
    pub expected_subset_loadouts: Vec<EvaluationLoadout>,
    pub audits: Vec<LoadoutControllerAudit>,
    /// Loadout of each retained easiest-first witness, in order.
    pub easiest_first_witness_loadouts: Vec<EvaluationLoadout>,
}

/// Why retained promotion evidence is not a valid contract.
#[derive(Clone, Debug, PartialEq, Eq)]
pub enum AbilityContractViolation {
    /// The direct audit has a stale policy or noncanonical coordinates/loadouts.
    StaleDirectAudit,
    /// The direct audit's positive witness counts are inconsistent.
    InconsistentWitnessCounts,
    /// A matrix has other than exactly one row for a directed door pair.
    DoorRowCount {
        loadout: EvaluationLoadout,
        rows: usize,
        source_door_id: String,
        target_door_id: String,
    },
    /// An ordinary candidate retained an ability audit.
    OrdinaryCandidateRetainedAudit,
    /// A room-incompatible alias retained an inherited direct audit.
    IncompatibleAliasRetainedAudit,
    /// A room-compatible alias is missing its advertised-pair direct audit.
    MissingDirectAudit,
    /// The intended-loadout audit reports raw positives but retains no witness.
    IntendedWitnessMissing,
    /// A replay could not enter its source door or be observed.
    ReplayUnavailable,
    /// The intended positive replay reached another exit than the sink door.
    IntendedReplayWrongExit,
    /// The retained direct witness trace differs from the replay observation.
    RetainedTraceMismatch,
    /// The baseline reverse replay reached another exit than the source door.
    ReverseReplayWrongExit,
    /// The promotion-audit configuration is invalid.
    InvalidAuditConfig(CorpusRoomAnalysisConfigError),
    /// A recorded gate disagrees with its retained evidence.
    StoredGateDiffers,
    /// A recorded gate disagrees with a fresh evaluation.
    RerunGateDiffers,
}

#[derive(Clone, Debug, PartialEq, Eq)]
pub enum AbilityPromotionGateV2Error {
    InvalidContract(AbilityContractViolation),
}

/// Loadouts of a sequence of audits.
pub open spec fn audit_loadouts(audits: Seq<LoadoutControllerAudit>) -> Seq<EvaluationLoadout> {
    audits.map_values(|a: LoadoutControllerAudit| a.loadout)
}

/// Number of occurrences of `loadout` in `ls`.
pub open spec fn count_loadout(ls: Seq<EvaluationLoadout>, loadout: EvaluationLoadout) -> nat
    decreases ls.len(),
{
    if ls.len() == 0 {
        0
    } else {
        count_loadout(ls.drop_last(), loadout) + if ls.last() == loadout {
            1nat
        } else {
            0nat
        }
    }
}

/// The assessment is for the advertised pair under the current policy, with
/// the complete kit authoritative and every loadout audited in canonical order.
pub open spec fn assessment_canonical(
    a: RouteControllerAssessment,
    source_door_id: Seq<char>,
    sink_door_id: Seq<char>,
    policy: RouteControllerAssessmentPolicy,
) -> bool {
    &&& a.policy == policy
    &&& a.source_door_id@ == source_door_id
    &&& a.target_door_id@ == sink_door_id
    &&& a.authoritative_loadout == EvaluationLoadout::Both
    &&& a.expected_subset_loadouts@ == all_loadouts()
    &&& audit_loadouts(a.audits@) == all_loadouts()
}

/// Each audit retains no more semantic witnesses than raw positives, and
/// exactly as many as the assessment lists for its loadout.
pub open spec fn witness_counts_consistent(a: RouteControllerAssessment) -> bool {
    forall|i: int|
        0 <= i < a.audits.len() ==> (#[trigger] a.audits@[i]).retained_semantic_witnesses
            <= a.audits@[i].raw_positive_witnesses && a.audits@[i].retained_semantic_witnesses
            == count_loadout(a.easiest_first_witness_loadouts@, a.audits@[i].loadout)
}

/// Whether two loadout sequences are equal.
pub(crate) fn same_loadouts(a: &Vec<EvaluationLoadout>, b: &Vec<EvaluationLoadout>) -> (r: bool)
    ensures
        r == (a@ == b@),
{
    if a.len() != b.len() {
        return false;
    }
    let mut k: usize = 0;
    while k < a.len()
        invariant
            a.len() == b.len(),
            k <= a.len(),
            forall|t: int| 0 <= t < k ==> a@[t] == b@[t],
        decreases a.len() - k,
    {
        if a[k] != b[k] {
            return false;
        }
        k = k + 1;
    }
    assert(a@ =~= b@);
    true
}

/// Number of retained witnesses for `loadout`.
fn witnesses_for(ws: &Vec<EvaluationLoadout>, loadout: EvaluationLoadout) -> (r: usize)
    ensures
        r == count_loadout(ws@, loadout),
{
    let mut n: usize = 0;
    let mut k: usize = 0;
    while k < ws.len()
        invariant
            k <= ws.len(),
            n == count_loadout(ws@.take(k as int), loadout),
            n <= k,
        decreases ws.len() - k,
    {
        assert(ws@.take(k + 1).drop_last() =~= ws@.take(k as int));
        if ws[k] == loadout {
            n = n + 1;
        }
        k = k + 1;
    }
    assert(ws@.take(k as int) =~= ws@);
    n
}

/// Check that a retained direct audit is for the advertised pair under the
/// current policy and that its witness counts are consistent.
pub fn validate_direct_assessment(
    assessment: &RouteControllerAssessment,
    source_door_id: &String,
    sink_door_id: &String,
    current_policy: RouteControllerAssessmentPolicy,
) -> (r: Result<(), AbilityPromotionGateV2Error>)
    ensures
        r is Ok <==> assessment_canonical(*assessment, source_door_id@, sink_door_id@, current_policy)
            && witness_counts_consistent(*assessment),
        !assessment_canonical(*assessment, source_door_id@, sink_door_id@, current_policy) ==> r
            == Err::<(), AbilityPromotionGateV2Error>(
            AbilityPromotionGateV2Error::InvalidContract(AbilityContractViolation::StaleDirectAudit),
        ),
        assessment_canonical(*assessment, source_door_id@, sink_door_id@, current_policy)
            && !witness_counts_consistent(*assessment) ==> r == Err::<(), AbilityPromotionGateV2Error>(
            AbilityPromotionGateV2Error::InvalidContract(
                AbilityContractViolation::InconsistentWitnessCounts,
            ),
        ),
{
    let all = EvaluationLoadout::all();
    let mut audit_order: Vec<EvaluationLoadout> = Vec::new();
    let mut k: usize = 0;
    while k < assessment.audits.len()
        invariant
            k <= assessment.audits.len(),
            audit_order@ == audit_loadouts(assessment.audits@).take(k as int),
        decreases assessment.audits.len() - k,
    {
        audit_order.push(assessment.audits[k].loadout);
        assert(audit_order@ =~= audit_loadouts(assessment.audits@).take(k + 1));
        k = k + 1;
    }
    assert(audit_order@ =~= audit_loadouts(assessment.audits@));
    if assessment.policy != current_policy || assessment.source_door_id != *source_door_id
        || assessment.target_door_id != *sink_door_id || assessment.authoritative_loadout
        != EvaluationLoadout::Both || !same_loadouts(&assessment.expected_subset_loadouts, &all)
        || !same_loadouts(&audit_order, &all) {
        return Err(
            AbilityPromotionGateV2Error::InvalidContract(AbilityContractViolation::StaleDirectAudit),
        );
    }
    let mut i: usize = 0;
    while i < assessment.audits.len()
        invariant
            i <= assessment.audits.len(),
            assessment_canonical(*assessment, source_door_id@, sink_door_id@, current_policy),
            forall|t: int|
                0 <= t < i ==> (#[trigger] assessment.audits@[t]).retained_semantic_witnesses
                    <= assessment.audits@[t].raw_positive_witnesses
                    && assessment.audits@[t].retained_semantic_witnesses == count_loadout(
                    assessment.easiest_first_witness_loadouts@,
                    assessment.audits@[t].loadout,
                ),
        decreases assessment.audits.len() - i,
    {
        let audit = assessment.audits[i];
        let retained = witnesses_for(&assessment.easiest_first_witness_loadouts, audit.loadout);
        if audit.raw_positive_witnesses < audit.retained_semantic_witnesses
            || audit.retained_semantic_witnesses != retained {
            return Err(
                AbilityPromotionGateV2Error::InvalidContract(
                    AbilityContractViolation::InconsistentWitnessCounts,
                ),
            );
        }
        i = i + 1;
    }
    Ok(())
}

/// The parts of one directed door-route matrix row that promotion reads.
#[derive(Clone, Debug, PartialEq, Eq)]
pub struct DoorRouteRow {
    pub source_door_id: String,
    pub target_door_id: String,
    /// The row carries a positive (solved) witness; otherwise it is bounded
    /// inconclusive.
    pub positive: bool,
}

/// The door routes of one loadout's route matrix.
#[derive(Clone, Debug, PartialEq, Eq)]
pub struct LoadoutRouteMatrix {
    pub loadout: EvaluationLoadout,
    pub door_routes: Vec<DoorRouteRow>,
}

/// Rows of `rows` for the directed pair `source -> target`, in order.
pub open spec fn pair_rows(rows: Seq<DoorRouteRow>, source: Seq<char>, target: Seq<char>) -> Seq<DoorRouteRow>
    decreases rows.len(),
{
    if rows.len() == 0 {
        Seq::empty()
    } else {
        let r = pair_rows(rows.drop_last(), source, target);
        if rows.last().source_door_id@ == source && rows.last().target_door_id@ == target {
            r.push(rows.last())
        } else {
            r
        }
    }
}

/// Rows for `source -> target` across the matrices of `loadout`, in order.
pub open spec fn matching_rows(
    ms: Seq<LoadoutRouteMatrix>,
    loadout: EvaluationLoadout,
    source: Seq<char>,
    target: Seq<char>,
) -> Seq<DoorRouteRow>
    decreases ms.len(),
{
    if ms.len() == 0 {
        Seq::empty()
    } else {
        matching_rows(ms.drop_last(), loadout, source, target) + if ms.last().loadout == loadout {
            pair_rows(ms.last().door_routes@, source, target)
        } else {
            Seq::empty()
        }
    }
}

/// Total number of door-route rows.
pub open spec fn total_rows(ms: Seq<LoadoutRouteMatrix>) -> nat
    decreases ms.len(),
{
    if ms.len() == 0 {
        0
    } else {
        total_rows(ms.drop_last()) + ms.last().door_routes@.len()
    }
}

proof fn lemma_pair_rows_len(rows: Seq<DoorRouteRow>, source: Seq<char>, target: Seq<char>)
    ensures
        pair_rows(rows, source, target).len() <= rows.len(),
    decreases rows.len(),
{
    if rows.len() > 0 {
        lemma_pair_rows_len(rows.drop_last(), source, target);
    }
}

proof fn lemma_matching_rows_len(
    ms: Seq<LoadoutRouteMatrix>,
    loadout: EvaluationLoadout,
    source: Seq<char>,
    target: Seq<char>,
)
    ensures
        matching_rows(ms, loadout, source, target).len() <= total_rows(ms),
    decreases ms.len(),
{
    if ms.len() > 0 {
        lemma_matching_rows_len(ms.drop_last(), loadout, source, target);
        lemma_pair_rows_len(ms.last().door_routes@, source, target);
    }
}

/// The single row of `loadout`'s matrices for `source -> target`.
pub fn door_row<'a>(
    matrices: &'a [LoadoutRouteMatrix],
    loadout: EvaluationLoadout,
    source_door_id: &String,
    target_door_id: &String,
) -> (r: Result<&'a DoorRouteRow, AbilityPromotionGateV2Error>)
    requires
        total_rows(matrices@) <= usize::MAX,
    ensures
        match r {
            Ok(row) => matching_rows(matrices@, loadout, source_door_id@, target_door_id@).len() == 1
                && *row == matching_rows(matrices@, loadout, source_door_id@, target_door_id@)[0],
            Err(e) => matching_rows(matrices@, loadout, source_door_id@, target_door_id@).len() != 1
                && (e matches AbilityPromotionGateV2Error::InvalidContract(
                AbilityContractViolation::DoorRowCount { loadout: l, rows, source_door_id: s, target_door_id: t },
            ) && l == loadout && rows == matching_rows(
                matrices@,
                loadout,
                source_door_id@,
                target_door_id@,
            ).len() && s@ == source_door_id@ && t@ == target_door_id@),
        },
{
    let ghost src = source_door_id@;
    let ghost tgt = target_door_id@;
    let mut count: usize = 0;
    let mut first: Option<&'a DoorRouteRow> = None;
    let mut m: usize = 0;
    assert(matrices@.take(0) =~= Seq::<LoadoutRouteMatrix>::empty());
    while m < matrices.len()
        invariant
            m <= matrices.len(),
            src == source_door_id@,
            tgt == target_door_id@,
            total_rows(matrices@) <= usize::MAX,
            count == matching_rows(matrices@.take(m as int), loadout, src, tgt).len(),
            count > 0 ==> (first matches Some(f) && *f == matching_rows(
                matrices@.take(m as int),
                loadout,
                src,
                tgt,
            )[0]),
            count <= total_rows(matrices@.take(m as int)),
            total_rows(matrices@.take(m as int)) <= total_rows(matrices@),
        decreases matrices.len() - m,
    {
        let ghost before = matching_rows(matrices@.take(m as int), loadout, src, tgt);
        assert(matrices@.take(m + 1).drop_last() =~= matrices@.take(m as int));
        proof {
            lemma_total_rows_prefix(matrices@, m as int + 1);
        }
        if matrices[m].loadout == loadout {
            let rows = &matrices[m].door_routes;
            let mut j: usize = 0;
            assert(rows@.take(0) =~= Seq::<DoorRouteRow>::empty());
            while j < rows.len()
                invariant
                    m < matrices.len(),
                    rows == &matrices@[m as int].door_routes,
                    j <= rows.len(),
                    src == source_door_id@,
                    tgt == target_door_id@,
                    count == before.len() + pair_rows(rows@.take(j as int), src, tgt).len(),
                    count > 0 ==> (first matches Some(f) && *f == (before + pair_rows(
                        rows@.take(j as int),
                        src,
                        tgt,
                    ))[0]),
                    count <= total_rows(matrices@.take(m as int)) + j,
                    total_rows(matrices@.take(m as int)) + rows.len() <= total_rows(matrices@),
                    total_rows(matrices@) <= usize::MAX,
                decreases rows.len() - j,
            {
                assert(rows@.take(j + 1).drop_last() =~= rows@.take(j as int));
                if rows[j].source_door_id == *source_door_id && rows[j].target_door_id == *target_door_id {
                    if count == 0 {
                        first = Some(&rows[j]);
                    }
                    count = count + 1;
                }
                j = j + 1;
            }
            assert(rows@.take(j as int) =~= rows@);
        }
        m = m + 1;
    }
    assert(matrices@.take(m as int) =~= matrices@);
    if count != 1 {
        return Err(
            AbilityPromotionGateV2Error::InvalidContract(
                AbilityContractViolation::DoorRowCount {
                    loadout,
                    rows: count,
                    source_door_id: source_door_id.clone(),
                    target_door_id: target_door_id.clone(),
                },
            ),
        );
    }
    match first {
        Some(f) => Ok(f),
        None => {
            assert(false);
            Err(
                AbilityPromotionGateV2Error::InvalidContract(
                    AbilityContractViolation::DoorRowCount {
                        loadout,
                        rows: count,
                        source_door_id: source_door_id.clone(),
                        target_door_id: target_door_id.clone(),
                    },
                ),
            )
        },
    }
}

proof fn lemma_total_rows_prefix(ms: Seq<LoadoutRouteMatrix>, n: int)
    requires
        0 <= n <= ms.len(),
    ensures
        total_rows(ms.take(n)) <= total_rows(ms),
        n > 0 ==> total_rows(ms.take(n)) == total_rows(ms.take(n - 1)) + ms[n - 1].door_routes.len(),
    decreases ms.len() - n,
{
    if n > 0 {
        assert(ms.take(n).drop_last() =~= ms.take(n - 1));
    }
    if n < ms.len() {
        lemma_total_rows_prefix(ms, n + 1);
        assert(ms.take(n + 1).drop_last() =~= ms.take(n));
    } else {
        assert(ms.take(n) =~= ms);
    }
}

/// Matrix state of a retained row.
pub open spec fn row_state(row: DoorRouteRow) -> AbilityPromotionMatrixStateV2 {
    if row.positive {
        AbilityPromotionMatrixStateV2::ReplayCertifiedPositive
    } else {
        AbilityPromotionMatrixStateV2::BoundedInconclusive
    }
}

/// The matrix state a row's evidence certifies.
pub fn matrix_state(row: &DoorRouteRow) -> (r: AbilityPromotionMatrixStateV2)
    ensures
        r == row_state(*row),
{
    if row.positive {
        AbilityPromotionMatrixStateV2::ReplayCertifiedPositive
    } else {
        AbilityPromotionMatrixStateV2::BoundedInconclusive
    }
}

/// Direct-audit evidence of a lower loadout: any raw positive is a bypass;
/// otherwise the audit is complete or stopped at its budget.
pub open spec fn audit_state(audit: LoadoutControllerAudit) -> AbilityPromotionDirectAuditStateV2 {
    if audit.raw_positive_witnesses > 0 {
        AbilityPromotionDirectAuditStateV2::PositiveBypass {
            raw_positive_witnesses: audit.raw_positive_witnesses,
            retained_semantic_witnesses: audit.retained_semantic_witnesses,
        }
    } else {
        match audit.status {
            LoadoutControllerAuditStatus::CompleteFiniteVocabulary => AbilityPromotionDirectAuditStateV2::CompleteFiniteVocabularyNoPositive,
            LoadoutControllerAuditStatus::BoundedIncomplete { limit } => AbilityPromotionDirectAuditStateV2::BoundedInconclusive { limit },
        }
    }
}

/// Direct-audit evidence of a lower loadout.
pub fn direct_audit_state(audit: &LoadoutControllerAudit) -> (r: AbilityPromotionDirectAuditStateV2)
    ensures
        r == audit_state(*audit),
{
    if audit.raw_positive_witnesses > 0 {
        AbilityPromotionDirectAuditStateV2::PositiveBypass {
            raw_positive_witnesses: audit.raw_positive_witnesses,
            retained_semantic_witnesses: audit.retained_semantic_witnesses,
        }
    } else {
        match audit.status {
            LoadoutControllerAuditStatus::CompleteFiniteVocabulary => AbilityPromotionDirectAuditStateV2::CompleteFiniteVocabularyNoPositive,
            LoadoutControllerAuditStatus::BoundedIncomplete { limit } => AbilityPromotionDirectAuditStateV2::BoundedInconclusive { limit },
        }
    }
}

} // verus!
