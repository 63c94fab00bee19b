//! A positive matrix row's witness: bound to its row, in the current action
//! encoding, within the verifier's length, with canonical spans totalling its
//! ticks; then, given what the authoritative replay observed, entered from
//! the source door in the recorded state, replayed without divergence, at
//! the row's target, under the identity the replay fingerprints.
use vstd::prelude::*;
use vstd::utf8::encode_utf8;

use crate::ability_promotion::EvaluationLoadout;
use crate::actions::{ActionSpanRecord, MAX_VERIFIABLE_WITNESS_TICKS_V3, normalized, same_span_action};
use crate::checks::{ArtifactViolation, CorpusArtifactV3Error, digest_canonical};

verus! {

/// Version of the run-length action encoding of positive witnesses.
pub const CORPUS_ARTIFACT_V3_ACTION_ENCODING_VERSION: u32 = 1;

/// Whether a matrix targets doors or pickups.
#[derive(Clone, Copy, Debug, PartialEq, Eq, Structural)]
pub enum TargetKindV3 {
    Door,
    Pickup,
}

/// Evidence recorded for one matrix cell.
#[derive(Clone, Debug, PartialEq, Eq)]
pub enum TargetEvidenceV3 {
    PositiveReplay { witness_id: String },
    BoundedInconclusive,
}

/// One cell of a door or pickup matrix.
#[derive(Clone, Debug, PartialEq, Eq)]
pub struct TargetRowRecordV3 {
    pub room_id: String,
    pub source_door_id: String,
    pub target_id: String,
    pub loadout: EvaluationLoadout,
    pub evidence: TargetEvidenceV3,
}

/// A retained positive witness.
#[derive(Clone, Debug, PartialEq, Eq)]
pub struct WitnessRecordV3 {
    pub witness_id: String,
    pub room_id: String,
    pub source_door_id: String,
    pub target_id: String,
    pub loadout: EvaluationLoadout,
    pub initial_digest: String,
    pub total_ticks: usize,
    pub action_encoding_version: u32,
    pub actions: Vec<ActionSpanRecord>,
}

/// What the authoritative replay of a witness's actions verified.
#[derive(Clone, Debug, PartialEq, Eq)]
pub struct ReplayVerificationV3 {
    pub reached_exit: Option<String>,
    pub collected_pickup_ids: Vec<String>,
    /// The identity of the replayed solution under the row's objective.
    pub solution_fingerprint: String,
}

/// What the authoritative replay observed.
#[derive(Clone, Debug, PartialEq, Eq)]
pub enum ReplayOutcomeV3 {
    /// Entering the room through the source door failed.
    EntryFailed,
    /// The room was entered in state `initial_digest`; the replay diverged
    /// (`None`) or verified.
    Entered { initial_digest: u64, verification: Option<ReplayVerificationV3> },
}

/// Value of a hexadecimal digit byte.
pub open spec fn hex_digit_value(b: u8) -> nat {
    if 48 <= b <= 57 {
        (b - 48) as nat
    } else {
        (b - 87) as nat
    }
}

/// Value of a sequence of hexadecimal digit bytes, most significant first.
pub open spec fn hex_value(bytes: Seq<u8>) -> nat
    decreases bytes.len(),
{
    if bytes.len() == 0 {
        0
    } else {
        hex_value(bytes.drop_last()) * 16 + hex_digit_value(bytes.last())
    }
}

/// `16` to the power `n`.
pub open spec fn pow16(n: nat) -> nat
    decreases n,
{
    if n == 0 {
        1
    } else {
        16 * pow16((n - 1) as nat)
    }
}

proof fn lemma_pow16_monotone(a: nat, b: nat)
    requires
        a <= b,
    ensures
        pow16(a) <= pow16(b),
    decreases b,
{
    if a < b {
        lemma_pow16_monotone(a, (b - 1) as nat);
    }
}

proof fn lemma_hex_value_bound(bytes: Seq<u8>)
    requires
        forall|i: int| 0 <= i < bytes.len() ==> (48 <= #[trigger] bytes[i] <= 57 || 97 <= bytes[i] <= 102),
    ensures
        hex_value(bytes) < pow16(bytes.len()),
    decreases bytes.len(),
{
    if bytes.len() > 0 {
        assert forall|i: int| 0 <= i < bytes.drop_last().len() implies (48 <= #[trigger] bytes.drop_last()[i] <= 57
            || 97 <= bytes.drop_last()[i] <= 102) by {
            assert(bytes.drop_last()[i] == bytes[i]);
        }
        lemma_hex_value_bound(bytes.drop_last());
        let p = pow16((bytes.len() - 1) as nat);
        let v = hex_value(bytes.drop_last());
        let d = hex_digit_value(bytes.last());
        assert(bytes.last() == bytes[bytes.len() - 1]);
        assert(d < 16);
        assert(v * 16 + d < p * 16) by (nonlinear_arith)
            requires
                v < p,
                d < 16,
        ;
    }
}

/// The outcome of parsing a state digest.
pub open spec fn digest_result(text: Seq<char>) -> Result<u64, CorpusArtifactV3Error> {
    if digest_canonical(encode_utf8(text)) {
        Ok(hex_value(encode_utf8(text)) as u64)
    } else {
        Err(CorpusArtifactV3Error::Invalid(ArtifactViolation::NonCanonicalDigest))
    }
}

/// Parse a state digest: exactly 16 lowercase hexadecimal digits.
pub fn parse_digest(text: &str) -> (r: Result<u64, CorpusArtifactV3Error>)
    ensures
        r == digest_result(text@),
{
    let bytes = text.as_bytes();
    if bytes.len() != 16 {
        return Err(CorpusArtifactV3Error::Invalid(ArtifactViolation::NonCanonicalDigest));
    }
    let mut value: u64 = 0;
    let mut k: usize = 0;
    while k < bytes.len()
        invariant
            k <= bytes.len(),
            bytes.len() == 16,
            bytes@ == encode_utf8(text@),
            forall|i: int| 0 <= i < k ==> (48 <= #[trigger] bytes@[i] <= 57 || 97 <= bytes@[i] <= 102),
            value == hex_value(bytes@.take(k as int)),
        decreases bytes.len() - k,
    {
        let b = bytes[k];
        if !((48 <= b && b <= 57) || (97 <= b && b <= 102)) {
            return Err(CorpusArtifactV3Error::Invalid(ArtifactViolation::NonCanonicalDigest));
        }
        proof {
            assert(bytes@.take(k + 1).drop_last() =~= bytes@.take(k as int));
            assert(bytes@.take(k + 1).last() == b);
            assert forall|i: int| 0 <= i < bytes@.take(k + 1).len() implies (48 <= #[trigger] bytes@.take(k + 1)[i]
                <= 57 || 97 <= bytes@.take(k + 1)[i] <= 102) by {
                assert(bytes@.take(k + 1)[i] == bytes@[i]);
            }
            lemma_hex_value_bound(bytes@.take(k + 1));
            lemma_pow16_monotone((k + 1) as nat, 16);
            reveal_with_fuel(pow16, 17);
            assert(pow16(16) == 0x1_0000_0000_0000_0000);
        }
        let digit: u64 = if b <= 57 {
            (b - 48) as u64
        } else {
            (b - 87) as u64
        };
        value = value * 16 + digit;
        k = k + 1;
    }
    assert(bytes@.take(16) =~= bytes@);
    Ok(value)
}

/// Checking a witness's spans in order: the first zero-tick, unnormalized,
/// overflowing or unmerged span, else the total tick count.
pub open spec fn witness_spans_check(spans: Seq<ActionSpanRecord>) -> Result<nat, ArtifactViolation>
    decreases spans.len(),
{
    if spans.len() == 0 {
        Ok(0)
    } else {
        match witness_spans_check(spans.drop_last()) {
            Err(e) => Err(e),
            Ok(total) => {
                let i = spans.len() - 1;
                let s = spans[i];
                if s.ticks == 0 {
                    Err(ArtifactViolation::ZeroTickSpan { index: i as usize })
                } else if !normalized(s.move_x) || !normalized(s.move_y) {
                    Err(ArtifactViolation::SpanNotNormalized { index: i as usize, move_x: s.move_x, move_y: s.move_y })
                } else if total + s.ticks > usize::MAX {
                    Err(ArtifactViolation::TickOverflow)
                } else if i > 0 && same_span_action(s, spans[i - 1]) {
                    Err(ArtifactViolation::UnmergedSpans { index: i as usize })
                } else {
                    Ok((total + s.ticks) as nat)
                }
            },
        }
    }
}

proof fn lemma_witness_spans_prefix(spans: Seq<ActionSpanRecord>, k: int)
    requires
        0 <= k <= spans.len(),
        witness_spans_check(spans.take(k)) is Err,
    ensures
        witness_spans_check(spans) == witness_spans_check(spans.take(k)),
    decreases spans.len() - k,
{
    if k < spans.len() {
        assert(spans.take(k + 1).drop_last() =~= spans.take(k));
        lemma_witness_spans_prefix(spans, k + 1);
    } else {
        assert(spans.take(k) =~= spans);
    }
}

/// The witness's checks that need no replay.
pub open spec fn witness_header_result(row: TargetRowRecordV3, w: WitnessRecordV3) -> Result<(), CorpusArtifactV3Error> {
    if w.room_id@ != row.room_id@ || w.source_door_id@ != row.source_door_id@ || w.target_id@ != row.target_id@
        || w.loadout != row.loadout {
        Err(CorpusArtifactV3Error::Invalid(ArtifactViolation::PositiveWitnessIdentity))
    } else if w.action_encoding_version != CORPUS_ARTIFACT_V3_ACTION_ENCODING_VERSION {
        Err(CorpusArtifactV3Error::Invalid(ArtifactViolation::UnsupportedActionEncoding))
    } else if w.total_ticks > MAX_VERIFIABLE_WITNESS_TICKS_V3 {
        Err(CorpusArtifactV3Error::Invalid(ArtifactViolation::TicksAboveVerifierLimit { ticks: w.total_ticks }))
    } else {
        match witness_spans_check(w.actions@) {
            Err(v) => Err(CorpusArtifactV3Error::Invalid(v)),
            Ok(total) => if total != w.total_ticks {
                Err(
                    CorpusArtifactV3Error::Invalid(
                        ArtifactViolation::TickCountMismatch { total: total as usize, expected: w.total_ticks },
                    ),
                )
            } else {
                Ok(())
            },
        }
    }
}

/// Check the parts of a positive witness that need no replay: bound to its
/// row, the current action encoding, within the verifier's length, and
/// canonical spans totalling its recorded ticks.
pub fn check_witness_header(row: &TargetRowRecordV3, w: &WitnessRecordV3) -> (r: Result<(), CorpusArtifactV3Error>)
    ensures
        r == witness_header_result(*row, *w),
{
    if w.room_id != row.room_id || w.source_door_id != row.source_door_id || w.target_id != row.target_id || w.loadout
        != row.loadout {
        return Err(CorpusArtifactV3Error::Invalid(ArtifactViolation::PositiveWitnessIdentity));
    }
    if w.action_encoding_version != CORPUS_ARTIFACT_V3_ACTION_ENCODING_VERSION {
        return Err(CorpusArtifactV3Error::Invalid(ArtifactViolation::UnsupportedActionEncoding));
    }
    if w.total_ticks > MAX_VERIFIABLE_WITNESS_TICKS_V3 {
        return Err(CorpusArtifactV3Error::Invalid(ArtifactViolation::TicksAboveVerifierLimit { ticks: w.total_ticks }));
    }
    let spans = w.actions.as_slice();
    let mut total: usize = 0;
    let mut k: usize = 0;
    while k < spans.len()
        invariant
            k <= spans.len(),
            spans@ == w.actions@,
            witness_header_result(*row, *w) == match witness_spans_check(spans@) {
                Err(v) => Err(CorpusArtifactV3Error::Invalid(v)),
                Ok(total) => if total != w.total_ticks {
                    Err(
                        CorpusArtifactV3Error::Invalid(
                            ArtifactViolation::TickCountMismatch { total: total as usize, expected: w.total_ticks },
                        ),
                    )
                } else {
                    Ok(())
                },
            },
            witness_spans_check(spans@.take(k as int)) == Ok::<nat, ArtifactViolation>(total as nat),
        decreases spans.len() - k,
    {
        let s = spans[k];
        assert(spans@.take(k + 1).drop_last() =~= spans@.take(k as int));
        assert(spans@.take(k + 1)[k as int] == s);
        assert(k > 0 ==> spans@.take(k + 1)[k - 1] == spans@[k - 1]);
        if s.ticks == 0 {
            proof {
                lemma_witness_spans_prefix(spans@, k as int + 1);
            }
            return Err(CorpusArtifactV3Error::Invalid(ArtifactViolation::ZeroTickSpan { index: k }));
        }
        if s.move_x < -1 || s.move_x > 1 || s.move_y < -1 || s.move_y > 1 {
            proof {
                lemma_witness_spans_prefix(spans@, k as int + 1);
            }
            return Err(
                CorpusArtifactV3Error::Invalid(
                    ArtifactViolation::SpanNotNormalized { index: k, move_x: s.move_x, move_y: s.move_y },
                ),
            );
        }
        let next = match total.checked_add(s.ticks) {
            Some(t) => t,
            None => {
                proof {
                    lemma_witness_spans_prefix(spans@, k as int + 1);
                }
                return Err(CorpusArtifactV3Error::Invalid(ArtifactViolation::TickOverflow));
            },
        };
        if k > 0 && s.same_action(spans[k - 1]) {
            proof {
                lemma_witness_spans_prefix(spans@, k as int + 1);
            }
            return Err(CorpusArtifactV3Error::Invalid(ArtifactViolation::UnmergedSpans { index: k }));
        }
        total = next;
        k = k + 1;
    }
    assert(spans@.take(k as int) =~= spans@);
    if total != w.total_ticks {
        return Err(
            CorpusArtifactV3Error::Invalid(ArtifactViolation::TickCountMismatch { total, expected: w.total_ticks }),
        );
    }
    Ok(())
}

/// Some collected pickup is `id`.
pub open spec fn collected(ids: Seq<String>, id: Seq<char>) -> bool {
    exists|j: int| 0 <= j < ids.len() && (#[trigger] ids[j])@ == id
}

/// The replay reached the row's target.
pub open spec fn reached_target(kind: TargetKindV3, row: TargetRowRecordV3, v: ReplayVerificationV3) -> bool {
    match kind {
        TargetKindV3::Door => v.reached_exit matches Some(e) && e@ == row.target_id@,
        TargetKindV3::Pickup => collected(v.collected_pickup_ids@, row.target_id@),
    }
}

/// The outcome of checking a positive witness against its row, given what
/// the authoritative replay observed.
pub open spec fn positive_witness_result(
    kind: TargetKindV3,
    row: TargetRowRecordV3,
    w: WitnessRecordV3,
    outcome: ReplayOutcomeV3,
) -> Result<(), CorpusArtifactV3Error> {
    if witness_header_result(row, w) is Err {
        witness_header_result(row, w)
    } else {
        match outcome {
            ReplayOutcomeV3::EntryFailed => Err(CorpusArtifactV3Error::Invalid(ArtifactViolation::SourceEntryFailed)),
            ReplayOutcomeV3::Entered { initial_digest, verification } => match digest_result(w.initial_digest@) {
                Err(e) => Err(e),
                Ok(recorded) => if initial_digest != recorded {
                    Err(CorpusArtifactV3Error::Invalid(ArtifactViolation::InitialDigestDiffers))
                } else {
                    match verification {
                        None => Err(CorpusArtifactV3Error::Invalid(ArtifactViolation::ReplayDiverged)),
                        Some(v) => if !reached_target(kind, row, v) {
                            Err(CorpusArtifactV3Error::Invalid(ArtifactViolation::TargetNotReached))
                        } else if w.witness_id@ != v.solution_fingerprint@ {
                            Err(CorpusArtifactV3Error::Invalid(ArtifactViolation::WitnessIdAfterReplay))
                        } else {
                            Ok(())
                        },
                    }
                },
            },
        }
    }
}

fn pickup_collected(ids: &Vec<String>, id: &String) -> (r: bool)
    ensures
        r == collected(ids@, id@),
{
    let mut j: usize = 0;
    while j < ids.len()
        invariant
            j <= ids.len(),
            forall|t: int| 0 <= t < j ==> (#[trigger] ids@[t])@ != id@,
        decreases ids.len() - j,
    {
        if ids[j] == *id {
            return true;
        }
        j = j + 1;
    }
    false
}

/// Check a positive witness against its matrix row, given what the
/// authoritative replay of its actions observed: the checks that need no
/// replay, then entry through the source door, the recorded initial digest,
/// a replay without divergence, the row's target reached (the door exited,
/// or the pickup collected), and the witness's identity equal to the
/// replayed solution's fingerprint.
pub fn verify_positive_witness_v3(
    kind: TargetKindV3,
    row: &TargetRowRecordV3,
    w: &WitnessRecordV3,
    outcome: &ReplayOutcomeV3,
) -> (r: Result<(), CorpusArtifactV3Error>)
    ensures
        r == positive_witness_result(kind, *row, *w, *outcome),
{
    let header = check_witness_header(row, w);
    if header.is_err() {
        return header;
    }
    match outcome {
        ReplayOutcomeV3::EntryFailed => Err(CorpusArtifactV3Error::Invalid(ArtifactViolation::SourceEntryFailed)),
        ReplayOutcomeV3::Entered { initial_digest, verification } => {
            let recorded = match parse_digest(w.initial_digest.as_str()) {
                Ok(d) => d,
                Err(e) => {
                    return Err(e);
                },
            };
            if *initial_digest != recorded {
                return Err(CorpusArtifactV3Error::Invalid(ArtifactViolation::InitialDigestDiffers));
            }
            match verification {
                None => Err(CorpusArtifactV3Error::Invalid(ArtifactViolation::ReplayDiverged)),
                Some(v) => {
                    let reached = match kind {
                        TargetKindV3::Door => match &v.reached_exit {
                            Some(e) => *e == row.target_id,
                            None => false,
                        },
                        TargetKindV3::Pickup => pickup_collected(&v.collected_pickup_ids, &row.target_id),
                    };
                    if !reached {
                        return Err(CorpusArtifactV3Error::Invalid(ArtifactViolation::TargetNotReached));
                    }
                    if w.witness_id != v.solution_fingerprint {
                        return Err(CorpusArtifactV3Error::Invalid(ArtifactViolation::WitnessIdAfterReplay));
                    }
                    Ok(())
                },
            }
        },
    }
}

} // verus!
