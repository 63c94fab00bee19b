//! Controller actions and their run-length encoding as action spans.
use vstd::prelude::*;

use crate::checks::{ArtifactViolation, CorpusAnalysisArtifactError, CorpusArtifactV3Error};

verus! {

/// One frame of controller input.
#[derive(Clone, Copy, Debug, PartialEq, Eq, Structural)]
pub struct Action {
    pub move_x: i8,
    pub move_y: i8,
    pub jump: bool,
    pub dash: bool,
    pub restart: bool,
}

/// A run of identical actions lasting `ticks` frames.
#[derive(Clone, Copy, Debug, PartialEq, Eq, Structural)]
pub struct ActionSpanRecord {
    pub ticks: usize,
    pub move_x: i8,
    pub move_y: i8,
    pub jump: bool,
    pub dash: bool,
}

/// The two spans hold the same action.
pub open spec fn same_span_action(a: ActionSpanRecord, b: ActionSpanRecord) -> bool {
    a.move_x == b.move_x && a.move_y == b.move_y && a.jump == b.jump && a.dash == b.dash
}

/// The action a span repeats.
pub open spec fn span_action(s: ActionSpanRecord) -> Action {
    Action { move_x: s.move_x, move_y: s.move_y, jump: s.jump, dash: s.dash, restart: false }
}

impl ActionSpanRecord {
    pub fn same_action(self, other: Self) -> (r: bool)
        ensures
            r == same_span_action(self, other),
    {
        self.move_x == other.move_x && self.move_y == other.move_y && self.jump == other.jump
            && self.dash == other.dash
    }

    pub fn action(self) -> (r: Action)
        ensures
            r == span_action(self),
    {
        Action { move_x: self.move_x, move_y: self.move_y, jump: self.jump, dash: self.dash, restart: false }
    }
}

/// A movement axis value is one of -1, 0, 1.
pub open spec fn normalized(x: i8) -> bool {
    -1 <= x <= 1
}

/// An action may be retained: no restart and normalized movement.
pub open spec fn action_ok(a: Action) -> bool {
    !a.restart && normalized(a.move_x) && normalized(a.move_y)
}

/// The one-tick span of an action.
pub open spec fn unit_span(a: Action) -> ActionSpanRecord {
    ActionSpanRecord { ticks: 1, move_x: a.move_x, move_y: a.move_y, jump: a.jump, dash: a.dash }
}

/// Run-length encoding of actions: each action extends the last span when it
/// repeats that span's action, else starts a new span.
pub open spec fn encode_spans(actions: Seq<Action>) -> Seq<ActionSpanRecord>
    decreases actions.len(),
{
    if actions.len() == 0 {
        Seq::empty()
    } else {
        let prev = encode_spans(actions.drop_last());
        let span = unit_span(actions.last());
        if prev.len() > 0 && same_span_action(prev.last(), span) {
            let l = prev.last();
            prev.update(
                prev.len() - 1,
                ActionSpanRecord {
                    ticks: (l.ticks + 1) as usize,
                    move_x: l.move_x,
                    move_y: l.move_y,
                    jump: l.jump,
                    dash: l.dash,
                },
            )
        } else {
            prev.push(span)
        }
    }
}

/// The actions a sequence of spans stands for, frame by frame.
pub open spec fn expand_spans(spans: Seq<ActionSpanRecord>) -> Seq<Action>
    decreases spans.len(),
{
    if spans.len() == 0 {
        Seq::empty()
    } else {
        expand_spans(spans.drop_last()) + Seq::new(spans.last().ticks as nat, |i: int| span_action(spans.last()))
    }
}

/// Sum of span ticks.
pub open spec fn total_ticks(spans: Seq<ActionSpanRecord>) -> nat
    decreases spans.len(),
{
    if spans.len() == 0 {
        0
    } else {
        (total_ticks(spans.drop_last()) + spans.last().ticks) as nat
    }
}

/// Spans are canonical: nonzero ticks, normalized movement, adjacent spans merged.
pub open spec fn spans_canonical(spans: Seq<ActionSpanRecord>) -> bool {
    &&& forall|i: int|
        0 <= i < spans.len() ==> (#[trigger] spans[i]).ticks > 0 && normalized(spans[i].move_x)
            && normalized(spans[i].move_y)
    &&& forall|i: int| 0 < i < spans.len() ==> !same_span_action(spans[i - 1], #[trigger] spans[i])
}

/// The violation for the first action that may not be retained.
pub open spec fn action_violation(a: Action) -> ArtifactViolation {
    if a.restart {
        ArtifactViolation::ForbiddenRestart
    } else {
        ArtifactViolation::ActionNotNormalized { move_x: a.move_x, move_y: a.move_y }
    }
}

proof fn lemma_encode_shape(actions: Seq<Action>)
    requires
        forall|i: int| 0 <= i < actions.len() ==> action_ok(#[trigger] actions[i]),
        actions.len() <= usize::MAX,
    ensures
        total_ticks(encode_spans(actions)) == actions.len(),
        spans_canonical(encode_spans(actions)),
        expand_spans(encode_spans(actions)) == actions,
        actions.len() > 0 ==> encode_spans(actions).len() > 0,
    decreases actions.len(),
{
    if actions.len() > 0 {
        let rest = actions.drop_last();
        assert forall|i: int| 0 <= i < rest.len() implies action_ok(#[trigger] rest[i]) by {
            assert(rest[i] == actions[i]);
        }
        lemma_encode_shape(rest);
        let prev = encode_spans(rest);
        let a = actions.last();
        assert(action_ok(actions[actions.len() - 1]));
        let span = unit_span(a);
        let e = encode_spans(actions);
        if prev.len() > 0 && same_span_action(prev.last(), span) {
            let l = prev.last();
            lemma_tick_bound(prev);
            assert(l.ticks <= total_ticks(prev));
            let nl = ActionSpanRecord {
                ticks: (l.ticks + 1) as usize,
                move_x: l.move_x,
                move_y: l.move_y,
                jump: l.jump,
                dash: l.dash,
            };
            assert(nl.ticks == l.ticks + 1);
            assert(e == prev.update(prev.len() - 1, nl));
            assert(e.drop_last() =~= prev.drop_last());
            assert(e.last() == nl);
            assert(total_ticks(e) == total_ticks(prev.drop_last()) + nl.ticks);
            assert(expand_spans(e) =~= expand_spans(prev).push(a)) by {
                assert(expand_spans(prev) == expand_spans(prev.drop_last()) + Seq::new(
                    l.ticks as nat,
                    |i: int| span_action(l),
                ));
                assert(span_action(nl) == span_action(l));
                assert(span_action(l) == a);
                assert(Seq::new(nl.ticks as nat, |i: int| span_action(nl)) =~= Seq::new(
                    l.ticks as nat,
                    |i: int| span_action(l),
                ).push(a));
            }
            assert(actions.drop_last().push(a) =~= actions);
            assert forall|i: int| 0 <= i < e.len() implies (#[trigger] e[i]).ticks > 0 && normalized(
                e[i].move_x,
            ) && normalized(e[i].move_y) by {
                if i < e.len() - 1 {
                    assert(e[i] == prev[i]);
                }
            }
            assert forall|i: int| 0 < i < e.len() implies !same_span_action(e[i - 1], #[trigger] e[i]) by {
                if i < e.len() - 1 {
                    assert(e[i] == prev[i]);
                    assert(e[i - 1] == prev[i - 1]);
                } else {
                    assert(e[i - 1] == prev[i - 1]);
                    assert(!same_span_action(prev[i - 1], prev[i]));
                }
            }
        } else {
            assert(e == prev.push(span));
            assert(e.drop_last() =~= prev);
            assert(span_action(span) == a);
            assert(Seq::new(span.ticks as nat, |i: int| span_action(span)) =~= seq![a]);
            assert(actions.drop_last().push(a) =~= actions);
            assert(expand_spans(e) =~= actions);
            assert forall|i: int| 0 <= i < e.len() implies (#[trigger] e[i]).ticks > 0 && normalized(
                e[i].move_x,
            ) && normalized(e[i].move_y) by {
                if i < e.len() - 1 {
                    assert(e[i] == prev[i]);
                }
            }
            assert forall|i: int| 0 < i < e.len() implies !same_span_action(e[i - 1], #[trigger] e[i]) by {
                if i < e.len() - 1 {
                    assert(e[i] == prev[i]);
                    assert(e[i - 1] == prev[i - 1]);
                }
            }
        }
    }
}

proof fn lemma_tick_bound(spans: Seq<ActionSpanRecord>)
    requires
        spans.len() > 0,
    ensures
        spans.last().ticks <= total_ticks(spans),
{
}

/// Run-length encode actions, rejecting restarts and unnormalized movement.
pub fn encode_actions(actions: &[Action]) -> (r: Result<Vec<ActionSpanRecord>, CorpusAnalysisArtifactError>)
    ensures
        match r {
            Ok(spans) => (forall|i: int| 0 <= i < actions@.len() ==> action_ok(#[trigger] actions@[i]))
                && spans@ == encode_spans(actions@),
            Err(e) => exists|i: int|
                0 <= i < actions@.len() && !action_ok(#[trigger] actions@[i]) && (forall|j: int|
                    0 <= j < i ==> action_ok(#[trigger] actions@[j])) && e
                    == CorpusAnalysisArtifactError::Invalid(action_violation(actions@[i])),
        },
{
    let mut spans: Vec<ActionSpanRecord> = Vec::new();
    let mut k: usize = 0;
    while k < actions.len()
        invariant
            k <= actions.len(),
            forall|j: int| 0 <= j < k ==> action_ok(#[trigger] actions@[j]),
            spans@ == encode_spans(actions@.take(k as int)),
        decreases actions.len() - k,
    {
        let a = actions[k];
        proof {
            assert forall|j: int| 0 <= j < k implies action_ok(#[trigger] actions@.take(k as int)[j]) by {
                assert(actions@.take(k as int)[j] == actions@[j]);
            }
            lemma_encode_shape(actions@.take(k as int));
        }
        if a.restart {
            return Err(CorpusAnalysisArtifactError::Invalid(ArtifactViolation::ForbiddenRestart));
        }
        if a.move_x < -1 || a.move_x > 1 || a.move_y < -1 || a.move_y > 1 {
            return Err(
                CorpusAnalysisArtifactError::Invalid(
                    ArtifactViolation::ActionNotNormalized { move_x: a.move_x, move_y: a.move_y },
                ),
            );
        }
        let span = ActionSpanRecord { ticks: 1, move_x: a.move_x, move_y: a.move_y, jump: a.jump, dash: a.dash };
        assert(actions@.take(k + 1).drop_last() =~= actions@.take(k as int));
        assert(actions@.take(k + 1).last() == a);
        let n = spans.len();
        if n > 0 && spans[n - 1].same_action(span) {
            let last = spans[n - 1];
            proof {
                lemma_tick_bound(spans@);
            }
            spans.set(
                n - 1,
                ActionSpanRecord {
                    ticks: last.ticks + 1,
                    move_x: last.move_x,
                    move_y: last.move_y,
                    jump: last.jump,
                    dash: last.dash,
                },
            );
        } else {
            spans.push(span);
        }
        k = k + 1;
    }
    assert(actions@.take(k as int) =~= actions@);
    Ok(spans)
}

/// Validation of spans: the first zero-tick, unnormalized or unmerged span,
/// else the total tick count (which must fit in `usize`).
pub open spec fn span_check(spans: Seq<ActionSpanRecord>) -> Result<nat, ArtifactViolation>
    decreases spans.len(),
{
    if spans.len() == 0 {
        Ok(0)
    } else {
        match span_check(spans.drop_last()) {
            Err(e) => Err(e),
            Ok(total) => {
                let i = spans.len() - 1;
                let s = spans[i];
                if s.ticks == 0 {
                    Err(ArtifactViolation::ZeroTickSpan { index: i as usize })
                } else if !normalized(s.move_x) || !normalized(s.move_y) {
                    Err(
                        ArtifactViolation::SpanNotNormalized {
                            index: i as usize,
                            move_x: s.move_x,
                            move_y: s.move_y,
                        },
                    )
                } else if i > 0 && same_span_action(s, spans[i - 1]) {
                    Err(ArtifactViolation::UnmergedSpans { index: i as usize })
                } else if total + s.ticks > usize::MAX {
                    Err(ArtifactViolation::TickOverflow)
                } else {
                    Ok((total + s.ticks) as nat)
                }
            },
        }
    }
}

/// Total ticks of canonical spans.
pub fn checked_action_ticks(spans: &[ActionSpanRecord]) -> (r: Result<usize, CorpusAnalysisArtifactError>)
    ensures
        match span_check(spans@) {
            Ok(total) => r == Ok::<usize, CorpusAnalysisArtifactError>(total as usize),
            Err(v) => r == Err::<usize, CorpusAnalysisArtifactError>(CorpusAnalysisArtifactError::Invalid(v)),
        },
{
    let mut total: usize = 0;
    let mut k: usize = 0;
    while k < spans.len()
        invariant
            k <= spans.len(),
            span_check(spans@.take(k as int)) == Ok::<nat, ArtifactViolation>(total as nat),
        decreases spans.len() - k,
    {
        let s = spans[k];
        assert(spans@.take(k + 1).drop_last() =~= spans@.take(k as int));
        assert(spans@.take(k + 1)[k as int] == s);
        assert(k > 0 ==> spans@.take(k + 1)[k - 1] == spans@[k - 1]);
        if s.ticks == 0 {
            proof {
                lemma_span_check_prefix(spans@, k as int + 1);
            }
            return Err(CorpusAnalysisArtifactError::Invalid(ArtifactViolation::ZeroTickSpan { index: k }));
        }
        if s.move_x < -1 || s.move_x > 1 || s.move_y < -1 || s.move_y > 1 {
            proof {
                lemma_span_check_prefix(spans@, k as int + 1);
            }
            return Err(
                CorpusAnalysisArtifactError::Invalid(
                    ArtifactViolation::SpanNotNormalized { index: k, move_x: s.move_x, move_y: s.move_y },
                ),
            );
        }
        if k > 0 && s.same_action(spans[k - 1]) {
            proof {
                lemma_span_check_prefix(spans@, k as int + 1);
            }
            return Err(CorpusAnalysisArtifactError::Invalid(ArtifactViolation::UnmergedSpans { index: k }));
        }
        match total.checked_add(s.ticks) {
            Some(t) => {
                total = t;
            },
            None => {
                proof {
                    lemma_span_check_prefix(spans@, k as int + 1);
                }
                return Err(CorpusAnalysisArtifactError::Invalid(ArtifactViolation::TickOverflow));
            },
        }
        k = k + 1;
    }
    assert(spans@.take(k as int) =~= spans@);
    Ok(total)
}

proof fn lemma_span_check_prefix(spans: Seq<ActionSpanRecord>, n: int)
    requires
        0 <= n <= spans.len(),
        span_check(spans.take(n)) is Err,
    ensures
        span_check(spans) == span_check(spans.take(n)),
    decreases spans.len() - n,
{
    if n < spans.len() {
        assert(spans.take(n + 1).drop_last() =~= spans.take(n));
        lemma_span_check_prefix(spans, n + 1);
    } else {
        assert(spans.take(n) =~= spans);
    }
}

proof fn lemma_canonical_check(spans: Seq<ActionSpanRecord>)
    requires
        spans_canonical(spans),
        total_ticks(spans) <= usize::MAX,
    ensures
        span_check(spans) == Ok::<nat, ArtifactViolation>(total_ticks(spans)),
    decreases spans.len(),
{
    if spans.len() > 0 {
        let rest = spans.drop_last();
        assert forall|i: int| 0 <= i < rest.len() implies (#[trigger] rest[i]).ticks > 0 && normalized(
            rest[i].move_x,
        ) && normalized(rest[i].move_y) by {
            assert(rest[i] == spans[i]);
        }
        assert forall|i: int| 0 < i < rest.len() implies !same_span_action(rest[i - 1], #[trigger] rest[i]) by {
            assert(rest[i] == spans[i]);
            assert(rest[i - 1] == spans[i - 1]);
        }
        lemma_canonical_check(rest);
        let i = spans.len() - 1;
        assert(spans[i].ticks > 0);
        if i > 0 {
            assert(!same_span_action(spans[i - 1], spans[i]));
        }
    }
}

/// Encoding is lossless and canonical: the spans of retainable actions pass
/// validation with exactly one tick per action, and expanding them gives the
/// actions back.
pub proof fn lemma_encoding_round_trip(actions: Seq<Action>)
    requires
        forall|i: int| 0 <= i < actions.len() ==> action_ok(#[trigger] actions[i]),
        actions.len() <= usize::MAX,
    ensures
        span_check(encode_spans(actions)) == Ok::<nat, ArtifactViolation>(actions.len()),
        expand_spans(encode_spans(actions)) == actions,
{
    lemma_encode_shape(actions);
    lemma_canonical_check(encode_spans(actions));
}

/// Largest witness length the verifier replays.
pub const MAX_VERIFIABLE_WITNESS_TICKS_V3: usize = 10_000;

/// Decoding recorded spans: the recorded length must be replayable, the
/// spans canonical, and their ticks must total the recorded length.
pub open spec fn decode_result(expected_ticks: usize, spans: Seq<ActionSpanRecord>) -> Result<
    Seq<Action>,
    ArtifactViolation,
> {
    if expected_ticks > MAX_VERIFIABLE_WITNESS_TICKS_V3 {
        Err(ArtifactViolation::TicksAboveVerifierLimit { ticks: expected_ticks })
    } else {
        match span_check(spans) {
            Err(v) => Err(v),
            Ok(total) => if total != expected_ticks {
                Err(ArtifactViolation::TickCountMismatch { total: total as usize, expected: expected_ticks })
            } else {
                Ok(expand_spans(spans))
            },
        }
    }
}

/// Expand recorded action spans into one action per tick.
pub fn decode_action_spans(expected_ticks: usize, spans: &[ActionSpanRecord]) -> (r: Result<
    Vec<Action>,
    CorpusArtifactV3Error,
>)
    ensures
        match decode_result(expected_ticks, spans@) {
            Ok(actions) => r matches Ok(v) && v@ == actions,
            Err(e) => r == Err::<Vec<Action>, CorpusArtifactV3Error>(CorpusArtifactV3Error::Invalid(e)),
        },
{
    if expected_ticks > MAX_VERIFIABLE_WITNESS_TICKS_V3 {
        return Err(
            CorpusArtifactV3Error::Invalid(ArtifactViolation::TicksAboveVerifierLimit { ticks: expected_ticks }),
        );
    }
    let mut total: usize = 0;
    let mut actions: Vec<Action> = Vec::new();
    let mut k: usize = 0;
    while k < spans.len()
        invariant
            k <= spans.len(),
            expected_ticks <= MAX_VERIFIABLE_WITNESS_TICKS_V3,
            span_check(spans@.take(k as int)) == Ok::<nat, ArtifactViolation>(total as nat),
            actions@ == expand_spans(spans@.take(k as int)),
        decreases spans.len() - k,
    {
        let s = spans[k];
        assert(spans@.take(k + 1).drop_last() =~= spans@.take(k as int));
        assert(spans@.take(k + 1)[k as int] == s);
        assert(k > 0 ==> spans@.take(k + 1)[k - 1] == spans@[k - 1]);
        if s.ticks == 0 {
            proof {
                lemma_span_check_prefix(spans@, k as int + 1);
            }
            return Err(CorpusArtifactV3Error::Invalid(ArtifactViolation::ZeroTickSpan { index: k }));
        }
        if s.move_x < -1 || s.move_x > 1 || s.move_y < -1 || s.move_y > 1 {
            proof {
                lemma_span_check_prefix(spans@, k as int + 1);
            }
            return Err(
                CorpusArtifactV3Error::Invalid(
                    ArtifactViolation::SpanNotNormalized { index: k, move_x: s.move_x, move_y: s.move_y },
                ),
            );
        }
        if k > 0 && s.same_action(spans[k - 1]) {
            proof {
                lemma_span_check_prefix(spans@, k as int + 1);
            }
            return Err(CorpusArtifactV3Error::Invalid(ArtifactViolation::UnmergedSpans { index: k }));
        }
        match total.checked_add(s.ticks) {
            Some(t) => {
                total = t;
            },
            None => {
                proof {
                    lemma_span_check_prefix(spans@, k as int + 1);
                }
                return Err(CorpusArtifactV3Error::Invalid(ArtifactViolation::TickOverflow));
            },
        }
        let action = s.action();
        let ghost before = actions@;
        let mut t: usize = 0;
        while t < s.ticks
            invariant
                t <= s.ticks,
                action == span_action(s),
                actions@ == before + Seq::new(t as nat, |i: int| span_action(s)),
            decreases s.ticks - t,
        {
            actions.push(action);
            assert(before + Seq::new((t + 1) as nat, |i: int| span_action(s)) =~= (before + Seq::new(
                t as nat,
                |i: int| span_action(s),
            )).push(action));
            t = t + 1;
        }
        assert(spans@.take(k + 1).last() == s);
        k = k + 1;
    }
    assert(spans@.take(k as int) =~= spans@);
    if total != expected_ticks {
        return Err(
            CorpusArtifactV3Error::Invalid(
                ArtifactViolation::TickCountMismatch { total, expected: expected_ticks },
            ),
        );
    }
    Ok(actions)
}

/// Decoding inverts encoding: the spans of retainable actions decode, under
/// their tick count, to exactly those actions.
pub proof fn lemma_decode_inverts_encode(actions: Seq<Action>)
    requires
        forall|i: int| 0 <= i < actions.len() ==> action_ok(#[trigger] actions[i]),
        actions.len() <= MAX_VERIFIABLE_WITNESS_TICKS_V3,
    ensures
        decode_result(actions.len() as usize, encode_spans(actions)) == Ok::<Seq<Action>, ArtifactViolation>(
            actions,
        ),
{
    lemma_encoding_round_trip(actions);
}

} // verus!
