use downwards_research::actions::{
    Action, ActionSpanRecord, checked_action_ticks, decode_action_spans, encode_actions,
};
use downwards_research::checks::{ArtifactViolation, CorpusAnalysisArtifactError, CorpusArtifactV3Error};

fn action(move_x: i8, jump: bool) -> Action {
    Action { move_x, move_y: 0, jump, dash: false, restart: false }
}

fn span(ticks: usize, move_x: i8, jump: bool) -> ActionSpanRecord {
    ActionSpanRecord { ticks, move_x, move_y: 0, jump, dash: false }
}

#[test]
fn encoding_merges_runs_of_equal_actions() {
    let actions = vec![action(1, false), action(1, false), action(1, true), action(1, false)];
    let spans = encode_actions(&actions).unwrap();
    assert_eq!(spans, vec![span(2, 1, false), span(1, 1, true), span(1, 1, false)]);
    assert_eq!(checked_action_ticks(&spans), Ok(4));
    assert_eq!(decode_action_spans(4, &spans), Ok(actions));
}

#[test]
fn encoding_rejects_restart_and_unnormalized_movement() {
    let mut restart = action(0, false);
    restart.restart = true;
    assert_eq!(
        encode_actions(&[action(1, false), restart]),
        Err(CorpusAnalysisArtifactError::Invalid(ArtifactViolation::ForbiddenRestart))
    );
    assert_eq!(
        encode_actions(&[action(2, false)]),
        Err(CorpusAnalysisArtifactError::Invalid(ArtifactViolation::ActionNotNormalized {
            move_x: 2,
            move_y: 0
        }))
    );
    assert_eq!(encode_actions(&[]), Ok(vec![]));
}

#[test]
fn checked_ticks_reject_noncanonical_spans() {
    assert_eq!(
        checked_action_ticks(&[span(1, 0, false), span(0, 1, false)]),
        Err(CorpusAnalysisArtifactError::Invalid(ArtifactViolation::ZeroTickSpan { index: 1 }))
    );
    assert_eq!(
        checked_action_ticks(&[span(1, -2, false)]),
        Err(CorpusAnalysisArtifactError::Invalid(ArtifactViolation::SpanNotNormalized {
            index: 0,
            move_x: -2,
            move_y: 0
        }))
    );
    assert_eq!(
        checked_action_ticks(&[span(1, 1, false), span(3, 1, false)]),
        Err(CorpusAnalysisArtifactError::Invalid(ArtifactViolation::UnmergedSpans { index: 1 }))
    );
    assert_eq!(
        checked_action_ticks(&[span(usize::MAX, 1, false), span(1, 0, false)]),
        Err(CorpusAnalysisArtifactError::Invalid(ArtifactViolation::TickOverflow))
    );
}

#[test]
fn decoding_enforces_the_recorded_length_and_verifier_limit() {
    let spans = vec![span(2, 1, false)];
    assert_eq!(
        decode_action_spans(3, &spans),
        Err(CorpusArtifactV3Error::Invalid(ArtifactViolation::TickCountMismatch {
            total: 2,
            expected: 3
        }))
    );
    assert_eq!(
        decode_action_spans(10_001, &spans),
        Err(CorpusArtifactV3Error::Invalid(ArtifactViolation::TicksAboveVerifierLimit {
            ticks: 10_001
        }))
    );
    assert_eq!(decode_action_spans(0, &[]), Ok(vec![]));
}
