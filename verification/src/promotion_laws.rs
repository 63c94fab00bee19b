//! How a lower-loadout direct-controller audit bears on promotion: a
//! positive direct witness is always a bypass, whether or not the audit ran
//! to completion, and an alias with one is never promoted.
use vstd::prelude::*;

use crate::ability_promotion::{
    AbilityPromotionDecisionV2, AbilityPromotionDirectAuditStateV2, AbilityPromotionGateV2Error,
    AbilityPromotionMatrixStateV2, EvaluationLoadout, LoadoutControllerAudit, LoadoutControllerAuditStatus,
    LoadoutRouteMatrix, allows_selection, lemma_promotion_fails_closed, missing_loadouts, no_known_bypass,
};
use crate::promotion_gate::{PendingGate, VariantAbilityPromotionGateV2, audit_for, evidence_for, finish_holds};

verus! {

/// What one lower loadout's direct audit says of a bypass: any raw positive
/// witness is a positive bypass carrying the audit's counts, whatever the
/// audit's completion status; otherwise a complete audit found no bypass
/// and a bounded one stopped at its limit.
pub open spec fn direct_audit_reflects(a: LoadoutControllerAudit, s: AbilityPromotionDirectAuditStateV2) -> bool {
    if a.raw_positive_witnesses > 0 {
        s == AbilityPromotionDirectAuditStateV2::PositiveBypass {
            raw_positive_witnesses: a.raw_positive_witnesses,
            retained_semantic_witnesses: a.retained_semantic_witnesses,
        }
    } else {
        match a.status {
            LoadoutControllerAuditStatus::CompleteFiniteVocabulary => s
                == AbilityPromotionDirectAuditStateV2::CompleteFiniteVocabularyNoPositive,
            LoadoutControllerAuditStatus::BoundedIncomplete { limit } => s
                == AbilityPromotionDirectAuditStateV2::BoundedInconclusive { limit },
        }
    }
}

/// The lower-loadout evidence lists each loadout in order, and each
/// loadout's direct-audit state reflects that loadout's audit: a raw
/// positive witness is a positive bypass with the audit's counts even when
/// the audit completed.
pub proof fn lemma_evidence_reflects_audits(
    ls: Seq<EvaluationLoadout>,
    ms: Seq<LoadoutRouteMatrix>,
    audits: Seq<LoadoutControllerAudit>,
    source: Seq<char>,
    sink: Seq<char>,
)
    requires
        evidence_for(ls, ms, audits, source, sink) is Ok,
    ensures
        ({
            let missing = evidence_for(ls, ms, audits, source, sink)->Ok_0;
            &&& missing.len() == ls.len()
            &&& forall|i: int| 0 <= i < ls.len() ==> (#[trigger] missing[i]).loadout == ls[i] && direct_audit_reflects(
                audit_for(audits, ls[i]),
                missing[i].direct_audit,
            )
        }),
    decreases ls.len(),
{
    if ls.len() > 0 {
        let d = ls.drop_last();
        lemma_evidence_reflects_audits(d, ms, audits, source, sink);
        let prev = evidence_for(d, ms, audits, source, sink)->Ok_0;
        let missing = evidence_for(ls, ms, audits, source, sink)->Ok_0;
        assert forall|i: int| 0 <= i < ls.len() implies (#[trigger] missing[i]).loadout == ls[i] && direct_audit_reflects(
            audit_for(audits, ls[i]),
            missing[i].direct_audit,
        ) by {
            if i < d.len() {
                assert(missing[i] == prev[i]);
                assert(d[i] == ls[i]);
            }
        }
    }
}

/// A gate whose lower-loadout direct audit for some missing loadout holds a
/// raw positive witness is never promoted, and its alias is not eligible
/// for canonical selection.
pub proof fn lemma_direct_positive_never_promoted(
    p: PendingGate,
    ms: Seq<LoadoutRouteMatrix>,
    reverse: AbilityPromotionMatrixStateV2,
    r: Result<VariantAbilityPromotionGateV2, AbilityPromotionGateV2Error>,
    i: int,
)
    requires
        finish_holds(p, ms, reverse, r),
        r is Ok,
        0 <= i < missing_loadouts(p.spec_claim()).len(),
        audit_for(p.spec_assessment().audits@, missing_loadouts(p.spec_claim())[i]).raw_positive_witnesses > 0,
    ensures
        r->Ok_0.decision != AbilityPromotionDecisionV2::PromotedStructuralNoKnownBypass,
        !allows_selection(r->Ok_0.decision),
{
    let ls = missing_loadouts(p.spec_claim());
    let audits = p.spec_assessment().audits@;
    let ev = evidence_for(ls, ms, audits, p.spec_source(), p.spec_sink());
    assert(ev is Ok);
    let missing = ev->Ok_0;
    lemma_evidence_reflects_audits(ls, ms, audits, p.spec_source(), p.spec_sink());
    assert(missing[i].direct_audit != AbilityPromotionDirectAuditStateV2::CompleteFiniteVocabularyNoPositive);
    assert(!no_known_bypass(missing));
    lemma_promotion_fails_closed(p.spec_intended(), reverse, missing);
    assert(r->Ok_0.decision == crate::ability_promotion::decide(p.spec_intended(), reverse, missing));
}

} // verus!
