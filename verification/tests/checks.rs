use downwards_research::ability_promotion::{
    AbilityPromotionBudgetLimitV2, EvaluationLoadout, LoadoutControllerAudit,
    LoadoutControllerAuditStatus,
};
use downwards_research::checks::{
    ArtifactViolation, BoundedLoadoutRecord, CorpusAnalysisArtifactError, ExactFractionRecord,
    RouteCompletenessRecord, require_exact_loadout_order, route_completeness, split_jsonl,
    validate_digest, validate_fraction, validate_route_completeness,
};

fn invalid(v: ArtifactViolation) -> CorpusAnalysisArtifactError {
    CorpusAnalysisArtifactError::Invalid(v)
}

#[test]
fn digests_are_sixteen_lowercase_hex_digits() {
    assert_eq!(validate_digest("0123456789abcdef"), Ok(()));
    assert_eq!(validate_digest("0123456789ABCDEF"), Err(invalid(ArtifactViolation::NonCanonicalDigest)));
    assert_eq!(validate_digest("0123456789abcde"), Err(invalid(ArtifactViolation::NonCanonicalDigest)));
    assert_eq!(validate_digest("0123456789abcdeg"), Err(invalid(ArtifactViolation::NonCanonicalDigest)));
}

#[test]
fn loadout_lists_must_be_exactly_canonical() {
    let (baseline, wall_jump, dash, both) = (
        EvaluationLoadout::Baseline,
        EvaluationLoadout::WallJump,
        EvaluationLoadout::Dash,
        EvaluationLoadout::Both,
    );
    assert_eq!(require_exact_loadout_order(&[baseline, wall_jump, dash, both]), Ok(()));
    assert_eq!(
        require_exact_loadout_order(&[baseline, dash, wall_jump, both]),
        Err(invalid(ArtifactViolation::LoadoutOrder))
    );
    assert_eq!(
        require_exact_loadout_order(&[baseline, wall_jump, dash]),
        Err(invalid(ArtifactViolation::LoadoutOrder))
    );
}

#[test]
fn fractions_lie_in_the_unit_interval() {
    assert_eq!(validate_fraction(ExactFractionRecord { numerator: 3, denominator: 3 }), Ok(()));
    assert_eq!(
        validate_fraction(ExactFractionRecord { numerator: 0, denominator: 0 }),
        Err(invalid(ArtifactViolation::InvalidFraction { numerator: 0, denominator: 0 }))
    );
    assert_eq!(
        validate_fraction(ExactFractionRecord { numerator: 4, denominator: 3 }),
        Err(invalid(ArtifactViolation::InvalidFraction { numerator: 4, denominator: 3 }))
    );
}

fn audit(loadout: EvaluationLoadout, status: LoadoutControllerAuditStatus) -> LoadoutControllerAudit {
    LoadoutControllerAudit {
        loadout,
        status,
        raw_positive_witnesses: 0,
        retained_semantic_witnesses: 0,
    }
}

#[test]
fn route_completeness_lists_bounded_loadouts_in_order() {
    let bounded = LoadoutControllerAuditStatus::BoundedIncomplete {
        limit: AbilityPromotionBudgetLimitV2::ExpandedNodes,
    };
    let complete = LoadoutControllerAuditStatus::CompleteFiniteVocabulary;
    let audits = vec![
        audit(EvaluationLoadout::Baseline, complete),
        audit(EvaluationLoadout::WallJump, bounded),
        audit(EvaluationLoadout::Dash, complete),
        audit(EvaluationLoadout::Both, bounded),
    ];
    let expected = RouteCompletenessRecord::BoundedIncomplete {
        incomplete_loadouts: vec![
            BoundedLoadoutRecord {
                loadout: EvaluationLoadout::WallJump,
                limit: AbilityPromotionBudgetLimitV2::ExpandedNodes,
            },
            BoundedLoadoutRecord {
                loadout: EvaluationLoadout::Both,
                limit: AbilityPromotionBudgetLimitV2::ExpandedNodes,
            },
        ],
    };
    assert_eq!(route_completeness(&audits), expected);
    assert_eq!(validate_route_completeness(&audits, &expected), Ok(()));
    assert_eq!(
        validate_route_completeness(&audits, &RouteCompletenessRecord::CompleteFiniteVocabulary),
        Err(invalid(ArtifactViolation::CompletenessMismatch))
    );
    let all_complete = vec![audit(EvaluationLoadout::Baseline, complete)];
    assert_eq!(
        route_completeness(&all_complete),
        RouteCompletenessRecord::CompleteFiniteVocabulary
    );
}

#[test]
fn jsonl_framing_splits_lines_and_rejects_malformed_files() {
    assert_eq!(split_jsonl(b""), Ok(vec![]));
    assert_eq!(
        split_jsonl(b"{\"a\":1}\n{}\n"),
        Ok(vec![b"{\"a\":1}".to_vec(), b"{}".to_vec()])
    );
    assert_eq!(split_jsonl(b"{}"), Err(invalid(ArtifactViolation::MissingFinalNewline)));
    assert_eq!(split_jsonl(b"{}\r\n"), Err(invalid(ArtifactViolation::CarriageReturn)));
    assert_eq!(split_jsonl(b"{}\n\n"), Err(invalid(ArtifactViolation::EmptyLine { line: 2 })));
    assert_eq!(split_jsonl(b"\n"), Err(invalid(ArtifactViolation::EmptyLine { line: 1 })));
}
