//! Promotion-gate evaluation under a checked audit configuration, and the
//! check of a recorded gate against its evidence.
use vstd::prelude::*;

use crate::ability_promotion::{
    AbilityContractViolation, AbilityPromotionGateV2Error, AbilityPromotionMissingLoadoutEvidenceV2,
    EvaluationLoadout, LoadoutControllerAudit, LoadoutRouteMatrix, RouteControllerAssessment,
    same_loadouts, total_rows,
};
use crate::analysis_config::{
    CorpusRoomAnalysisConfigError, CorpusRoomAnalysisConfigRecord, CurrentAnalysisPolicies,
    config_check, config_id_text, validation_holds,
};
use crate::promotion_gate::{
    AbilityContract, GateStep, GateVersions, VariantAbilityPromotionEvidenceV2,
    VariantAbilityPromotionGateV2, begin_holds, begin_promotion_gate,
};

verus! {

/// The configuration passes validation against the current policies.
pub open spec fn audit_config_valid(c: CorpusRoomAnalysisConfigRecord, current: CurrentAnalysisPolicies) -> bool {
    config_check(c, current) is None && c.config_id@ == config_id_text(c)
}

/// The direct audit a derivation reads: one is run only for a room-compatible
/// ability alias.
pub open spec fn audit_used(
    contract: Option<AbilityContract>,
    room_compatible: bool,
    direct_audit: Option<RouteControllerAssessment>,
) -> Option<RouteControllerAssessment> {
    if contract is Some && room_compatible {
        direct_audit
    } else {
        None
    }
}

/// Evaluate a variant's gate: validate the promotion-audit configuration,
/// then take the first derivation step with the variant's ability contract (`None`
/// for an ordinary candidate), whether its room equals the physical evidence
/// source's room, its construction loadout and the shared route matrices.
/// `direct_audit` is the advertised-pair direct audit the caller ran under
/// `audit_config` for a room-compatible ability alias; it is not consulted
/// for any other variant.
pub fn evaluate_variant_ability_promotion_gate_v2(
    key: String,
    audit_config: &CorpusRoomAnalysisConfigRecord,
    current: CurrentAnalysisPolicies,
    contract: Option<AbilityContract>,
    room_compatible: bool,
    construction: EvaluationLoadout,
    matrices: &[LoadoutRouteMatrix],
    direct_audit: Option<RouteControllerAssessment>,
    versions: GateVersions,
) -> (r: GateStep)
    requires
        total_rows(matrices@) <= usize::MAX,
    ensures
        !audit_config_valid(*audit_config, current) ==> (r matches GateStep::Done(
            Err(AbilityPromotionGateV2Error::InvalidContract(AbilityContractViolation::InvalidAuditConfig(e))),
        ) && validation_holds(*audit_config, current, Err(e))),
        audit_config_valid(*audit_config, current) ==> begin_holds(
            key,
            contract,
            room_compatible,
            construction,
            matrices@,
            audit_used(contract, room_compatible, direct_audit),
            current.route_controller_policy,
            versions,
            r,
        ),
{
    match audit_config.validate(current) {
        Err(e) => {
            return GateStep::Done(
                Err(AbilityPromotionGateV2Error::InvalidContract(AbilityContractViolation::InvalidAuditConfig(e))),
            );
        },
        Ok(()) => {},
    }
    let audit = if contract.is_some() && room_compatible {
        direct_audit
    } else {
        None
    };
    begin_promotion_gate(
        key,
        contract,
        room_compatible,
        construction,
        matrices,
        audit,
        current.route_controller_policy,
        versions,
    )
}

/// Two direct audits hold the same values.
pub open spec fn same_assessment(a: RouteControllerAssessment, b: RouteControllerAssessment) -> bool {
    &&& a.policy == b.policy
    &&& a.source_door_id@ == b.source_door_id@
    &&& a.target_door_id@ == b.target_door_id@
    &&& a.authoritative_loadout == b.authoritative_loadout
    &&& a.expected_subset_loadouts@ == b.expected_subset_loadouts@
    &&& a.audits@ == b.audits@
    &&& a.easiest_first_witness_loadouts@ == b.easiest_first_witness_loadouts@
}

/// Two gates hold the same values.
pub open spec fn same_gate(a: VariantAbilityPromotionGateV2, b: VariantAbilityPromotionGateV2) -> bool {
    &&& a.gate_version == b.gate_version
    &&& a.key@ == b.key@
    &&& a.decision == b.decision
    &&& match (a.evidence, b.evidence) {
        (VariantAbilityPromotionEvidenceV2::NotApplicable, VariantAbilityPromotionEvidenceV2::NotApplicable) => true,
        (
            VariantAbilityPromotionEvidenceV2::Ability {
                claim: c1,
                source_door_id: s1,
                sink_door_id: t1,
                edge_rewrite_version: e1,
                gate_embedding_contract_version: g1,
                generation_version: v1,
                alias_room_compatible: r1,
                intended_route: i1,
                intended_evidence_source: o1,
                baseline_reverse: b1,
                missing_ability_loadouts: m1,
                direct_route_assessment: d1,
            },
            VariantAbilityPromotionEvidenceV2::Ability {
                claim: c2,
                source_door_id: s2,
                sink_door_id: t2,
                edge_rewrite_version: e2,
                gate_embedding_contract_version: g2,
                generation_version: v2,
                alias_room_compatible: r2,
                intended_route: i2,
                intended_evidence_source: o2,
                baseline_reverse: b2,
                missing_ability_loadouts: m2,
                direct_route_assessment: d2,
            },
        ) => {
            &&& c1 == c2
            &&& s1@ == s2@
            &&& t1@ == t2@
            &&& e1 == e2
            &&& g1 == g2
            &&& v1 == v2
            &&& r1 == r2
            &&& i1 == i2
            &&& o1 == o2
            &&& b1 == b2
            &&& m1@ == m2@
            &&& match (d1, d2) {
                (None, None) => true,
                (Some(x), Some(y)) => same_assessment(x, y),
                _ => false,
            }
        },
        _ => false,
    }
}

fn same_audits(a: &Vec<LoadoutControllerAudit>, b: &Vec<LoadoutControllerAudit>) -> (r: bool)
    ensures
        r == (a@ == b@),
{
    if a.len() != b.len() {
        return false;
    }
    let mut k: usize = 0;
    while k < a.len()
        invariant
            a.len() == b.len(),
            k <= a.len(),
            forall|t: int| 0 <= t < k ==> a@[t] == b@[t],
        decreases a.len() - k,
    {
        if a[k] != b[k] {
            return false;
        }
        k = k + 1;
    }
    assert(a@ =~= b@);
    true
}

fn same_missing(a: &Vec<AbilityPromotionMissingLoadoutEvidenceV2>, b: &Vec<AbilityPromotionMissingLoadoutEvidenceV2>) -> (r: bool)
    ensures
        r == (a@ == b@),
{
    if a.len() != b.len() {
        return false;
    }
    let mut k: usize = 0;
    while k < a.len()
        invariant
            a.len() == b.len(),
            k <= a.len(),
            forall|t: int| 0 <= t < k ==> a@[t] == b@[t],
        decreases a.len() - k,
    {
        if a[k] != b[k] {
            return false;
        }
        k = k + 1;
    }
    assert(a@ =~= b@);
    true
}

fn assessments_equal(a: &RouteControllerAssessment, b: &RouteControllerAssessment) -> (r: bool)
    ensures
        r == same_assessment(*a, *b),
{
    a.policy == b.policy && a.source_door_id == b.source_door_id && a.target_door_id == b.target_door_id
        && a.authoritative_loadout == b.authoritative_loadout && same_loadouts(
        &a.expected_subset_loadouts,
        &b.expected_subset_loadouts,
    ) && same_audits(&a.audits, &b.audits) && same_loadouts(
        &a.easiest_first_witness_loadouts,
        &b.easiest_first_witness_loadouts,
    )
}

/// Whether two gates hold the same values.
fn gates_equal(a: &VariantAbilityPromotionGateV2, b: &VariantAbilityPromotionGateV2) -> (r: bool)
    ensures
        r == same_gate(*a, *b),
{
    if a.gate_version != b.gate_version || a.key != b.key || a.decision != b.decision {
        return false;
    }
    match (&a.evidence, &b.evidence) {
        (VariantAbilityPromotionEvidenceV2::NotApplicable, VariantAbilityPromotionEvidenceV2::NotApplicable) => true,
        (
            VariantAbilityPromotionEvidenceV2::Ability {
                claim: c1,
                source_door_id: s1,
                sink_door_id: t1,
                edge_rewrite_version: e1,
                gate_embedding_contract_version: g1,
                generation_version: v1,
                alias_room_compatible: r1,
                intended_route: i1,
                intended_evidence_source: o1,
                baseline_reverse: b1,
                missing_ability_loadouts: m1,
                direct_route_assessment: d1,
            },
            VariantAbilityPromotionEvidenceV2::Ability {
                claim: c2,
                source_door_id: s2,
                sink_door_id: t2,
                edge_rewrite_version: e2,
                gate_embedding_contract_version: g2,
                generation_version: v2,
                alias_room_compatible: r2,
                intended_route: i2,
                intended_evidence_source: o2,
                baseline_reverse: b2,
                missing_ability_loadouts: m2,
                direct_route_assessment: d2,
            },
        ) => {
            let scalars = *c1 == *c2 && *s1 == *s2 && *t1 == *t2 && *e1 == *e2 && *g1 == *g2 && *v1 == *v2
                && *r1 == *r2 && *i1 == *i2 && *o1 == *o2 && *b1 == *b2;
            if !scalars || !same_missing(m1, m2) {
                return false;
            }
            match (d1, d2) {
                (None, None) => true,
                (Some(x), Some(y)) => assessments_equal(x, y),
                _ => false,
            }
        },
        _ => false,
    }
}

/// The direct audit a stored gate retains: none for an ordinary gate.
pub open spec fn retained_audit(gate: VariantAbilityPromotionGateV2) -> Option<RouteControllerAssessment> {
    match gate.evidence {
        VariantAbilityPromotionEvidenceV2::NotApplicable => None,
        VariantAbilityPromotionEvidenceV2::Ability { direct_route_assessment, .. } => direct_route_assessment,
    }
}

/// The retained direct audit with which a stored gate is recomputed.
pub fn retained_direct_audit(gate: &VariantAbilityPromotionGateV2) -> (r: Option<RouteControllerAssessment>)
    ensures
        match (r, retained_audit(*gate)) {
            (None, None) => true,
            (Some(x), Some(y)) => same_assessment(x, y),
            _ => false,
        },
{
    match &gate.evidence {
        VariantAbilityPromotionEvidenceV2::NotApplicable => None,
        VariantAbilityPromotionEvidenceV2::Ability { direct_route_assessment, .. } => match direct_route_assessment {
            None => None,
            Some(a) => Some(
                RouteControllerAssessment {
                    policy: a.policy,
                    source_door_id: a.source_door_id.clone(),
                    target_door_id: a.target_door_id.clone(),
                    authoritative_loadout: a.authoritative_loadout,
                    expected_subset_loadouts: a.expected_subset_loadouts.clone(),
                    audits: a.audits.clone(),
                    easiest_first_witness_loadouts: a.easiest_first_witness_loadouts.clone(),
                },
            ),
        },
    }
}

/// The outcome of holding a stored gate to a derived one: the derivation's
/// error, `differs` when the gates disagree, or success.
pub open spec fn comparison_result(
    gate: VariantAbilityPromotionGateV2,
    derived: Result<VariantAbilityPromotionGateV2, AbilityPromotionGateV2Error>,
    differs: AbilityContractViolation,
) -> Result<(), AbilityPromotionGateV2Error> {
    match derived {
        Err(e) => Err(e),
        Ok(d) => if same_gate(gate, d) {
            Ok(())
        } else {
            Err(AbilityPromotionGateV2Error::InvalidContract(differs))
        },
    }
}

/// Require a recorded gate to equal `expected`, the outcome of computing its
/// promotion gate again with its retained matrix rows and its retained direct audit,
/// `retained_direct_audit(gate)`.
pub fn validate_variant_ability_promotion_gate_v2(
    gate: &VariantAbilityPromotionGateV2,
    derived: Result<VariantAbilityPromotionGateV2, AbilityPromotionGateV2Error>,
) -> (r: Result<(), AbilityPromotionGateV2Error>)
    ensures
        r == comparison_result(*gate, derived, AbilityContractViolation::StoredGateDiffers),
{
    match derived {
        Err(e) => Err(e),
        Ok(d) => if gates_equal(gate, &d) {
            Ok(())
        } else {
            Err(AbilityPromotionGateV2Error::InvalidContract(AbilityContractViolation::StoredGateDiffers))
        },
    }
}

/// Require a stored gate to equal a deterministic rerun of its evaluation
/// (`rerun`, the outcome of `evaluate_variant_ability_promotion_gate_v2`
/// with a freshly run direct audit).
pub fn rerun_validate_variant_ability_promotion_gate_v2(
    gate: &VariantAbilityPromotionGateV2,
    rerun: Result<VariantAbilityPromotionGateV2, AbilityPromotionGateV2Error>,
) -> (r: Result<(), AbilityPromotionGateV2Error>)
    ensures
        r == comparison_result(*gate, rerun, AbilityContractViolation::RerunGateDiffers),
{
    match rerun {
        Err(e) => Err(e),
        Ok(d) => if gates_equal(gate, &d) {
            Ok(())
        } else {
            Err(AbilityPromotionGateV2Error::InvalidContract(AbilityContractViolation::RerunGateDiffers))
        },
    }
}

/// A gate always passes validation against itself: a stored gate that is
/// exactly the derived (or rerun) gate is accepted, whichever check runs.
pub proof fn lemma_derived_gate_validates(gate: VariantAbilityPromotionGateV2, differs: AbilityContractViolation)
    ensures
        comparison_result(gate, Ok(gate), differs) == Ok::<(), AbilityPromotionGateV2Error>(()),
{
}

} // verus!
