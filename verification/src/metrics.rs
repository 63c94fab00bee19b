//! Integer summaries of controller-demand coordinates and their consistency checks.
use vstd::prelude::*;
use vstd::relations::{sorted_by, total_ordering};
use vstd::seq_lib::{lemma_sorted_unique, to_multiset_build, to_multiset_insert};

use crate::checks::{ArtifactViolation, CorpusAnalysisArtifactError};

verus! {

/// Order statistics of a nonempty sample of unsigned coordinates.
#[derive(Clone, Copy, Debug, PartialEq, Eq, Structural)]
pub struct IntegerCoordinateDistributionRecord {
    pub sample_count: usize,
    pub minimum: usize,
    pub median_lower: usize,
    pub median_upper: usize,
    pub maximum: usize,
    pub spread: usize,
}

/// Order statistics of a nonempty sample of signed coordinates.
#[derive(Clone, Copy, Debug, PartialEq, Eq, Structural)]
pub struct SignedIntegerCoordinateDistributionRecord {
    pub sample_count: usize,
    pub minimum: i32,
    pub median_lower: i32,
    pub median_upper: i32,
    pub maximum: i32,
    pub spread: u32,
}

/// Ascending order on unsigned coordinates.
pub open spec fn ascending_unsigned() -> spec_fn(usize, usize) -> bool {
    |a: usize, b: usize| a <= b
}

/// Ascending order on signed coordinates.
pub open spec fn ascending_signed() -> spec_fn(i32, i32) -> bool {
    |a: i32, b: i32| a <= b
}

/// The statistics read off an ascending sample.
pub open spec fn unsigned_statistics(s: Seq<usize>) -> IntegerCoordinateDistributionRecord {
    IntegerCoordinateDistributionRecord {
        sample_count: s.len() as usize,
        minimum: s[0],
        median_lower: s[(s.len() - 1) / 2],
        median_upper: s[(s.len() / 2) as int],
        maximum: s[s.len() - 1],
        spread: (s[s.len() - 1] - s[0]) as usize,
    }
}

/// The statistics read off an ascending signed sample.
pub open spec fn signed_statistics(s: Seq<i32>) -> SignedIntegerCoordinateDistributionRecord {
    SignedIntegerCoordinateDistributionRecord {
        sample_count: s.len() as usize,
        minimum: s[0],
        median_lower: s[(s.len() - 1) / 2],
        median_upper: s[(s.len() / 2) as int],
        maximum: s[s.len() - 1],
        spread: (s[s.len() - 1] - s[0]) as u32,
    }
}

/// The distribution of a sample: the statistics of its ascending arrangement.
pub open spec fn unsigned_distribution(values: Seq<usize>) -> IntegerCoordinateDistributionRecord {
    unsigned_statistics(values.sort_by(ascending_unsigned()))
}

/// The distribution of a signed sample.
pub open spec fn signed_distribution(values: Seq<i32>) -> SignedIntegerCoordinateDistributionRecord {
    signed_statistics(values.sort_by(ascending_signed()))
}

proof fn lemma_ascending_orders()
    ensures
        total_ordering(ascending_unsigned()),
        total_ordering(ascending_signed()),
{
}

/// Ascending arrangement of unsigned values.
fn sort_unsigned(values: &Vec<usize>) -> (r: Vec<usize>)
    ensures
        r@ == values@.sort_by(ascending_unsigned()),
        r@.len() == values@.len(),
        forall|a: int, b: int| 0 <= a < b < r@.len() ==> r@[a] <= r@[b],
{
    broadcast use vstd::seq_lib::group_to_multiset_ensures;

    let mut r: Vec<usize> = Vec::new();
    let mut k: usize = 0;
    while k < values.len()
        invariant
            k <= values.len(),
            forall|a: int, b: int| 0 <= a < b < r@.len() ==> r@[a] <= r@[b],
            r@.to_multiset() == values@.take(k as int).to_multiset(),
        decreases values.len() - k,
    {
        let x = values[k];
        let mut j: usize = 0;
        while j < r.len() && r[j] <= x
            invariant
                j <= r.len(),
                forall|i: int| 0 <= i < j ==> r@[i] <= x,
            decreases r.len() - j,
        {
            j = j + 1;
        }
        let ghost before = r@;
        r.insert(j, x);
        proof {
            assert(r@ == before.insert(j as int, x));
            assert(j < before.len() ==> x < before[j as int]);
            assert forall|a: int, b: int| 0 <= a < b < r@.len() implies r@[a] <= r@[b] by {
                if a == j {
                    assert(before[j as int] <= before[b - 1] || b - 1 == j);
                }
            }
            to_multiset_insert(before, j as int, x);
            assert(values@.take(k + 1) =~= values@.take(k as int).push(x));
            to_multiset_build(values@.take(k as int), x);
        }
        k = k + 1;
    }
    proof {
        assert(values@.take(k as int) =~= values@);
        assert(r@.len() == r@.to_multiset().len());
        assert(values@.len() == values@.to_multiset().len());
        lemma_ascending_orders();
        values@.lemma_sort_by_ensures(ascending_unsigned());
        assert(sorted_by(r@, ascending_unsigned()));
        lemma_sorted_unique(r@, values@.sort_by(ascending_unsigned()), ascending_unsigned());
    }
    r
}

/// The distribution of a nonempty sample of unsigned coordinates.
pub fn unsigned_distribution_record(values: Vec<usize>) -> (r: IntegerCoordinateDistributionRecord)
    requires
        values.len() > 0,
    ensures
        r == unsigned_distribution(values@),
{
    let sorted = sort_unsigned(&values);
    proof {
        assert(sorted@[0] <= sorted@[sorted@.len() - 1] || sorted@.len() == 1);
    }
    let n = sorted.len();
    let minimum = sorted[0];
    let maximum = sorted[n - 1];
    IntegerCoordinateDistributionRecord {
        sample_count: n,
        minimum,
        median_lower: sorted[(n - 1) / 2],
        median_upper: sorted[n / 2],
        maximum,
        spread: maximum - minimum,
    }
}

/// Ascending arrangement of signed values.
fn sort_signed(values: &Vec<i32>) -> (r: Vec<i32>)
    ensures
        r@ == values@.sort_by(ascending_signed()),
        r@.len() == values@.len(),
        forall|a: int, b: int| 0 <= a < b < r@.len() ==> r@[a] <= r@[b],
{
    broadcast use vstd::seq_lib::group_to_multiset_ensures;

    let mut r: Vec<i32> = Vec::new();
    let mut k: usize = 0;
    while k < values.len()
        invariant
            k <= values.len(),
            forall|a: int, b: int| 0 <= a < b < r@.len() ==> r@[a] <= r@[b],
            r@.to_multiset() == values@.take(k as int).to_multiset(),
        decreases values.len() - k,
    {
        let x = values[k];
        let mut j: usize = 0;
        while j < r.len() && r[j] <= x
            invariant
                j <= r.len(),
                forall|i: int| 0 <= i < j ==> r@[i] <= x,
            decreases r.len() - j,
        {
            j = j + 1;
        }
        let ghost before = r@;
        r.insert(j, x);
        proof {
            assert(r@ == before.insert(j as int, x));
            assert(j < before.len() ==> x < before[j as int]);
            assert forall|a: int, b: int| 0 <= a < b < r@.len() implies r@[a] <= r@[b] by {
                if a == j {
                    assert(before[j as int] <= before[b - 1] || b - 1 == j);
                }
            }
            to_multiset_insert(before, j as int, x);
            assert(values@.take(k + 1) =~= values@.take(k as int).push(x));
            to_multiset_build(values@.take(k as int), x);
        }
        k = k + 1;
    }
    proof {
        assert(values@.take(k as int) =~= values@);
        assert(r@.len() == r@.to_multiset().len());
        assert(values@.len() == values@.to_multiset().len());
        lemma_ascending_orders();
        values@.lemma_sort_by_ensures(ascending_signed());
        assert(sorted_by(r@, ascending_signed()));
        lemma_sorted_unique(r@, values@.sort_by(ascending_signed()), ascending_signed());
    }
    r
}

/// The distribution of a nonempty sample of signed coordinates.
pub fn signed_distribution_record(values: Vec<i32>) -> (r: SignedIntegerCoordinateDistributionRecord)
    requires
        values.len() > 0,
    ensures
        r == signed_distribution(values@),
{
    let sorted = sort_signed(&values);
    proof {
        assert(sorted@[0] <= sorted@[sorted@.len() - 1] || sorted@.len() == 1);
    }
    let n = sorted.len();
    let minimum = sorted[0];
    let maximum = sorted[n - 1];
    let spread = (maximum as i64 - minimum as i64) as u32;
    SignedIntegerCoordinateDistributionRecord {
        sample_count: n,
        minimum,
        median_lower: sorted[(n - 1) / 2],
        median_upper: sorted[n / 2],
        maximum,
        spread,
    }
}

/// The seven coordinate distributions of a set of easiest controllers.
#[derive(Clone, Copy, Debug, PartialEq, Eq, Structural)]
pub struct ControllerDemandCoordinateSummaryRecord {
    pub controller_class: IntegerCoordinateDistributionRecord,
    pub ability_events: IntegerCoordinateDistributionRecord,
    pub horizontal_reversals: IntegerCoordinateDistributionRecord,
    pub vertical_decisions: IntegerCoordinateDistributionRecord,
    pub semantic_spans: IntegerCoordinateDistributionRecord,
    pub semantic_transitions: IntegerCoordinateDistributionRecord,
    pub duration_ticks: IntegerCoordinateDistributionRecord,
}

/// A distribution over `sample_count` samples with ordered statistics and a matching spread.
pub open spec fn distribution_consistent(d: IntegerCoordinateDistributionRecord, sample_count: usize) -> bool {
    &&& d.sample_count == sample_count
    &&& d.minimum <= d.median_lower
    &&& d.median_lower <= d.median_upper
    &&& d.median_upper <= d.maximum
    &&& d.spread == d.maximum - d.minimum
}

/// The distributions of a summary, in field order.
pub open spec fn summary_distributions(s: ControllerDemandCoordinateSummaryRecord) -> Seq<IntegerCoordinateDistributionRecord> {
    seq![
        s.controller_class,
        s.ability_events,
        s.horizontal_reversals,
        s.vertical_decisions,
        s.semantic_spans,
        s.semantic_transitions,
        s.duration_ticks,
    ]
}

/// Every distribution of the summary is consistent over `sample_count` samples.
pub open spec fn summary_consistent(s: ControllerDemandCoordinateSummaryRecord, sample_count: usize) -> bool {
    forall|i: int| 0 <= i < 7 ==> distribution_consistent(#[trigger] summary_distributions(s)[i], sample_count)
}

fn distribution_ok(d: IntegerCoordinateDistributionRecord, sample_count: usize) -> (b: bool)
    ensures
        b == distribution_consistent(d, sample_count),
{
    d.sample_count == sample_count && d.minimum <= d.median_lower && d.median_lower <= d.median_upper
        && d.median_upper <= d.maximum && d.spread == d.maximum - d.minimum
}

/// Require every coordinate distribution to cover `sample_count` samples consistently.
pub fn validate_coordinate_summary(
    summary: &ControllerDemandCoordinateSummaryRecord,
    sample_count: usize,
) -> (r: Result<(), CorpusAnalysisArtifactError>)
    ensures
        r is Ok <==> summary_consistent(*summary, sample_count),
        r is Err ==> r == Err::<(), CorpusAnalysisArtifactError>(
            CorpusAnalysisArtifactError::Invalid(ArtifactViolation::CoordinateDistributionInconsistent),
        ),
{
    let ghost ds = summary_distributions(*summary);
    let ok = distribution_ok(summary.controller_class, sample_count)
        && distribution_ok(summary.ability_events, sample_count)
        && distribution_ok(summary.horizontal_reversals, sample_count)
        && distribution_ok(summary.vertical_decisions, sample_count)
        && distribution_ok(summary.semantic_spans, sample_count)
        && distribution_ok(summary.semantic_transitions, sample_count)
        && distribution_ok(summary.duration_ticks, sample_count);
    proof {
        if !ok {
            let i: int = choose|i: int| 0 <= i < 7 && !distribution_consistent(ds[i], sample_count);
            assert(!distribution_consistent(ds[i], sample_count)) by {
                assert(!distribution_consistent(ds[0], sample_count)
                    || !distribution_consistent(ds[1], sample_count)
                    || !distribution_consistent(ds[2], sample_count)
                    || !distribution_consistent(ds[3], sample_count)
                    || !distribution_consistent(ds[4], sample_count)
                    || !distribution_consistent(ds[5], sample_count)
                    || !distribution_consistent(ds[6], sample_count));
            }
        }
    }
    if !ok {
        return Err(
            CorpusAnalysisArtifactError::Invalid(ArtifactViolation::CoordinateDistributionInconsistent),
        );
    }
    Ok(())
}

/// The distribution recorded for a nonempty sample passes the consistency check for its size.
pub proof fn lemma_distribution_consistent(values: Seq<usize>)
    requires
        values.len() > 0,
        values.len() <= usize::MAX,
    ensures
        distribution_consistent(unsigned_distribution(values), values.len() as usize),
{
    broadcast use vstd::seq_lib::group_to_multiset_ensures;

    lemma_ascending_orders();
    values.lemma_sort_by_ensures(ascending_unsigned());
    let s = values.sort_by(ascending_unsigned());
    assert(s.len() == s.to_multiset().len());
    assert(values.len() == values.to_multiset().len());
    let n = s.len() as int;
    let lo = (n - 1) / 2;
    let hi = n / 2;
    assert(0 < lo || lo == 0);
    if 0 < lo {
        assert(ascending_unsigned()(s[0], s[lo]));
    }
    if lo < hi {
        assert(ascending_unsigned()(s[lo], s[hi]));
    }
    if hi < n - 1 {
        assert(ascending_unsigned()(s[hi], s[n - 1]));
    }
}

/// Aggregate completeness of a set of expected audits.
#[derive(Clone, Copy, Debug, PartialEq, Eq, Structural)]
pub enum AggregateAuditCompletenessRecord {
    CompleteFiniteVocabulary,
    BoundedIncomplete,
    Missing,
    NotApplicableNoAuditsExpected,
}

/// How many expected audits are complete, bounded or missing, and the resulting state.
#[derive(Clone, Copy, Debug, PartialEq, Eq, Structural)]
pub struct AuditCompletenessCountsRecord {
    pub expected: usize,
    pub complete_finite_vocabulary: usize,
    pub bounded_incomplete: usize,
    pub missing: usize,
    pub state: AggregateAuditCompletenessRecord,
}

/// The three counts summed, saturating at the largest `usize`.
pub open spec fn audit_total(c: AuditCompletenessCountsRecord) -> usize {
    c.complete_finite_vocabulary.saturating_add(c.bounded_incomplete).saturating_add(c.missing)
}

/// The state owed to counts over `expected` audits: missing audits dominate bounded ones.
pub open spec fn expected_audit_state(c: AuditCompletenessCountsRecord, expected: usize) -> AggregateAuditCompletenessRecord {
    if expected == 0 {
        AggregateAuditCompletenessRecord::NotApplicableNoAuditsExpected
    } else if c.missing > 0 {
        AggregateAuditCompletenessRecord::Missing
    } else if c.bounded_incomplete > 0 {
        AggregateAuditCompletenessRecord::BoundedIncomplete
    } else {
        AggregateAuditCompletenessRecord::CompleteFiniteVocabulary
    }
}

/// The outcome of checking audit counts against their denominator.
pub open spec fn audit_counts_result(c: AuditCompletenessCountsRecord, expected: usize) -> Result<(), CorpusAnalysisArtifactError> {
    if c.expected != expected || audit_total(c) != expected {
        Err(CorpusAnalysisArtifactError::Invalid(ArtifactViolation::AuditCountsMismatch))
    } else if c.state != expected_audit_state(c, expected) {
        Err(CorpusAnalysisArtifactError::Invalid(ArtifactViolation::AuditStateMismatch))
    } else {
        Ok(())
    }
}

/// Require the counts to sum to `expected` and the state to follow from them.
pub fn validate_audit_counts(counts: AuditCompletenessCountsRecord, expected: usize) -> (r: Result<(), CorpusAnalysisArtifactError>)
    ensures
        r == audit_counts_result(counts, expected),
{
    if counts.expected != expected
        || counts.complete_finite_vocabulary.saturating_add(counts.bounded_incomplete).saturating_add(counts.missing)
        != expected {
        return Err(CorpusAnalysisArtifactError::Invalid(ArtifactViolation::AuditCountsMismatch));
    }
    let expected_state = if expected == 0 {
        AggregateAuditCompletenessRecord::NotApplicableNoAuditsExpected
    } else if counts.missing > 0 {
        AggregateAuditCompletenessRecord::Missing
    } else if counts.bounded_incomplete > 0 {
        AggregateAuditCompletenessRecord::BoundedIncomplete
    } else {
        AggregateAuditCompletenessRecord::CompleteFiniteVocabulary
    };
    if counts.state != expected_state {
        return Err(CorpusAnalysisArtifactError::Invalid(ArtifactViolation::AuditStateMismatch));
    }
    Ok(())
}

/// Which direction of a door pair has the larger count.
#[derive(Clone, Copy, Debug, PartialEq, Eq, Structural)]
pub enum LargerDirectionRecord {
    Equal,
    AToB,
    BToA,
}

/// One count measured in both directions of a door pair.
#[derive(Clone, Copy, Debug, PartialEq, Eq, Structural)]
pub struct DirectionalCountDifferenceRecord {
    pub a_to_b: usize,
    pub b_to_a: usize,
    pub absolute_difference: usize,
    pub larger_direction: LargerDirectionRecord,
}

/// Ability events of one easiest controller.
#[derive(Clone, Copy, Debug, PartialEq, Eq, Structural)]
pub struct AbilityUseRecord {
    pub wall_jump_events: usize,
    pub dash_events: usize,
}

/// Ability use in both directions, and whether each ability is used in exactly one.
#[derive(Clone, Copy, Debug, PartialEq, Eq, Structural)]
pub struct DirectionalAbilityUseComparisonRecord {
    pub a_to_b: AbilityUseRecord,
    pub b_to_a: AbilityUseRecord,
    pub wall_jump_use_differs: bool,
    pub dash_use_differs: bool,
}

/// The compared values of a directional asymmetry.
#[derive(Clone, Copy, Debug, PartialEq, Eq, Structural)]
pub struct DirectionalAsymmetryValuesRecord {
    pub duration_ticks: DirectionalCountDifferenceRecord,
    pub semantic_spans: DirectionalCountDifferenceRecord,
    pub semantic_transitions: DirectionalCountDifferenceRecord,
    pub ability_events: DirectionalCountDifferenceRecord,
    pub ability_use: DirectionalAbilityUseComparisonRecord,
}

/// The direction whose count is larger, or `Equal`.
pub open spec fn larger_direction(a_to_b: usize, b_to_a: usize) -> LargerDirectionRecord {
    if a_to_b < b_to_a {
        LargerDirectionRecord::BToA
    } else if a_to_b == b_to_a {
        LargerDirectionRecord::Equal
    } else {
        LargerDirectionRecord::AToB
    }
}

/// The recorded difference and direction follow from the two counts.
pub open spec fn difference_consistent(d: DirectionalCountDifferenceRecord) -> bool {
    &&& d.absolute_difference == (if d.a_to_b < d.b_to_a { d.b_to_a - d.a_to_b } else { d.a_to_b - d.b_to_a })
    &&& d.larger_direction == larger_direction(d.a_to_b, d.b_to_a)
}

/// Each flag records whether exactly one direction uses that ability.
pub open spec fn ability_use_consistent(u: DirectionalAbilityUseComparisonRecord) -> bool {
    &&& u.wall_jump_use_differs == ((u.a_to_b.wall_jump_events > 0) != (u.b_to_a.wall_jump_events > 0))
    &&& u.dash_use_differs == ((u.a_to_b.dash_events > 0) != (u.b_to_a.dash_events > 0))
}

/// The outcome of checking an asymmetry: count differences first, then ability use.
pub open spec fn asymmetry_result(v: DirectionalAsymmetryValuesRecord) -> Result<(), CorpusAnalysisArtifactError> {
    if !(difference_consistent(v.duration_ticks) && difference_consistent(v.semantic_spans)
        && difference_consistent(v.semantic_transitions) && difference_consistent(v.ability_events)) {
        Err(CorpusAnalysisArtifactError::Invalid(ArtifactViolation::AsymmetryDifferenceInconsistent))
    } else if !ability_use_consistent(v.ability_use) {
        Err(CorpusAnalysisArtifactError::Invalid(ArtifactViolation::AsymmetryAbilityUseInconsistent))
    } else {
        Ok(())
    }
}

fn difference_ok(d: DirectionalCountDifferenceRecord) -> (b: bool)
    ensures
        b == difference_consistent(d),
{
    let (expected_direction, absolute) = if d.a_to_b < d.b_to_a {
        (LargerDirectionRecord::BToA, d.b_to_a - d.a_to_b)
    } else if d.a_to_b == d.b_to_a {
        (LargerDirectionRecord::Equal, 0)
    } else {
        (LargerDirectionRecord::AToB, d.a_to_b - d.b_to_a)
    };
    d.absolute_difference == absolute && d.larger_direction == expected_direction
}

/// Require each count difference and each ability-use flag to follow from its counts.
pub fn validate_asymmetry_values(values: &DirectionalAsymmetryValuesRecord) -> (r: Result<(), CorpusAnalysisArtifactError>)
    ensures
        r == asymmetry_result(*values),
{
    if !(difference_ok(values.duration_ticks) && difference_ok(values.semantic_spans)
        && difference_ok(values.semantic_transitions) && difference_ok(values.ability_events)) {
        return Err(CorpusAnalysisArtifactError::Invalid(ArtifactViolation::AsymmetryDifferenceInconsistent));
    }
    let ability = values.ability_use;
    if ability.wall_jump_use_differs != ((ability.a_to_b.wall_jump_events > 0) != (ability.b_to_a.wall_jump_events > 0))
        || ability.dash_use_differs != ((ability.a_to_b.dash_events > 0) != (ability.b_to_a.dash_events > 0)) {
        return Err(CorpusAnalysisArtifactError::Invalid(ArtifactViolation::AsymmetryAbilityUseInconsistent));
    }
    Ok(())
}

} // verus!
