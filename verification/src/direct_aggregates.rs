//! Consistency of a room's direct-controller metric aggregates with the
//! retained per-source and per-route audit detail they summarize.
use vstd::prelude::*;

use crate::ability_promotion::{EvaluationLoadout, LoadoutControllerAuditStatus, all_loadouts};
use crate::checks::{
    ArtifactViolation, CorpusAnalysisArtifactError, ExactFractionRecord, require_exact_loadout_order,
    validate_fraction,
};
use crate::promotion_gate::loadout_index;
use crate::metrics::{
    AuditCompletenessCountsRecord, ControllerDemandCoordinateSummaryRecord, audit_counts_result,
    summary_consistent, validate_audit_counts, validate_coordinate_summary,
};

verus! {

/// Why a metric is missing.
#[derive(Clone, Copy, Debug, PartialEq, Eq, Structural)]
pub enum MissingMetricReasonRecord {
    MissingDirectedRouteAssessment,
    MissingDirectControllerAudit,
    BoundedDirectControllerAuditWithoutPositive,
    NoPositiveTerrainController,
    ReverseDirectionsRequireTwoKnownPositiveControllers,
}

/// Why a metric does not apply.
#[derive(Clone, Copy, Debug, PartialEq, Eq, Structural)]
pub enum NotApplicableMetricReasonRecord {
    DirectedRoutes,
    KnownPositiveControllerInCompleteFiniteVocabulary,
    SuccessfulRoutesForLoadout,
    AmbiguousNondominatedFront,
    InteriorTerrainComponents,
    InteriorTerrainTiles,
    AblationVariants,
    ExactControllersForAblation,
}

/// A metric value, or why there is none.
#[derive(Clone, Copy, Debug, PartialEq, Eq)]
pub enum MetricEvidenceRecord<T> {
    Observed { value: T },
    Missing { reason: MissingMetricReasonRecord },
    NotApplicable { reason: NotApplicableMetricReasonRecord },
}

/// Controller-class fractions over the successful routes of one loadout.
#[derive(Clone, Copy, Debug, PartialEq, Eq, Structural)]
pub struct EasiestControllerFractionRecord {
    pub successful_route_count: usize,
    pub run_only_class_fraction: ExactFractionRecord,
    pub monotone_simple_class_fraction: ExactFractionRecord,
    pub other_controller_class_fraction: ExactFractionRecord,
    pub run_only_fraction: ExactFractionRecord,
    pub monotone_simple_fraction: ExactFractionRecord,
}

/// Direct-controller aggregate of one loadout over a room's routes and sources.
#[derive(Clone, Copy, Debug, PartialEq, Eq)]
pub struct DirectControllerLoadoutAggregateRecord {
    pub loadout: EvaluationLoadout,
    pub source_audit_completeness: AuditCompletenessCountsRecord,
    pub route_audit_completeness: AuditCompletenessCountsRecord,
    pub known_positive_directed_routes: usize,
    pub ambiguous_nondominated_front_directed_routes: usize,
    pub no_positive_in_complete_finite_vocabulary: usize,
    pub inconclusive_without_positive: usize,
    pub missing_route_or_audit: usize,
    pub easiest_controller_fractions: MetricEvidenceRecord<EasiestControllerFractionRecord>,
    pub demand_coordinates: MetricEvidenceRecord<ControllerDemandCoordinateSummaryRecord>,
}

/// One loadout's retained audit outcome for a source door or a directed route.
#[derive(Clone, Copy, Debug, PartialEq, Eq, Structural)]
pub struct ControllerLoadoutCell {
    pub loadout: EvaluationLoadout,
    pub status: LoadoutControllerAuditStatus,
    pub retained_semantic_witnesses: usize,
}

/// The retained cells of each source door or directed route.
pub open spec fn rows_view(rows: Seq<Vec<ControllerLoadoutCell>>) -> Seq<Seq<ControllerLoadoutCell>> {
    rows.map_values(|v: Vec<ControllerLoadoutCell>| v@)
}

/// The row holds a cell for `loadout`.
pub open spec fn has_cell(row: Seq<ControllerLoadoutCell>, loadout: EvaluationLoadout) -> bool {
    exists|i: int| 0 <= i < row.len() && row[i].loadout == loadout
}

/// The first cell of the row for `loadout`.
pub open spec fn cell_for(row: Seq<ControllerLoadoutCell>, loadout: EvaluationLoadout) -> ControllerLoadoutCell
    decreases row.len(),
{
    if row.len() <= 1 || row[0].loadout == loadout {
        row[0]
    } else {
        cell_for(row.drop_first(), loadout)
    }
}

/// Number of rows whose cell for `loadout` satisfies `p`.
pub open spec fn count_rows(
    rows: Seq<Seq<ControllerLoadoutCell>>,
    loadout: EvaluationLoadout,
    p: spec_fn(ControllerLoadoutCell) -> bool,
) -> nat
    decreases rows.len(),
{
    if rows.len() == 0 {
        0
    } else {
        count_rows(rows.drop_last(), loadout, p) + if p(cell_for(rows.last(), loadout)) { 1nat } else { 0nat }
    }
}

pub open spec fn is_complete() -> spec_fn(ControllerLoadoutCell) -> bool {
    |c: ControllerLoadoutCell| c.status is CompleteFiniteVocabulary
}

pub open spec fn has_positive() -> spec_fn(ControllerLoadoutCell) -> bool {
    |c: ControllerLoadoutCell| c.retained_semantic_witnesses > 0
}

pub open spec fn complete_without_positive() -> spec_fn(ControllerLoadoutCell) -> bool {
    |c: ControllerLoadoutCell| c.retained_semantic_witnesses == 0 && c.status is CompleteFiniteVocabulary
}

pub open spec fn bounded_without_positive() -> spec_fn(ControllerLoadoutCell) -> bool {
    |c: ControllerLoadoutCell| c.retained_semantic_witnesses == 0 && c.status is BoundedIncomplete
}

proof fn lemma_count_rows_bound(rows: Seq<Seq<ControllerLoadoutCell>>, loadout: EvaluationLoadout, p: spec_fn(ControllerLoadoutCell) -> bool)
    ensures
        count_rows(rows, loadout, p) <= rows.len(),
    decreases rows.len(),
{
    if rows.len() > 0 {
        lemma_count_rows_bound(rows.drop_last(), loadout, p);
    }
}

/// The cell of `row` for `loadout`, which it holds.
fn find_cell(row: &Vec<ControllerLoadoutCell>, loadout: EvaluationLoadout) -> (r: ControllerLoadoutCell)
    requires
        has_cell(row@, loadout),
    ensures
        r == cell_for(row@, loadout),
{
    let mut k: usize = 0;
    assert(row@.skip(0) =~= row@);
    while k < row.len()
        invariant
            k <= row.len(),
            has_cell(row@.skip(k as int), loadout),
            cell_for(row@, loadout) == cell_for(row@.skip(k as int), loadout),
        decreases row.len() - k,
    {
        let ghost rest = row@.skip(k as int);
        assert(rest[0] == row@[k as int]);
        if row[k].loadout == loadout {
            return row[k];
        }
        assert(rest.drop_first() =~= row@.skip(k + 1));
        proof {
            let i = choose|i: int| 0 <= i < rest.len() && rest[i].loadout == loadout;
            assert(i != 0);
            assert(rest.drop_first()[i - 1] == rest[i]);
            assert(rest.len() > 1);
        }
        k = k + 1;
    }
    proof {
        let i = choose|i: int| 0 <= i < row@.skip(k as int).len() && row@.skip(k as int)[i].loadout == loadout;
    }
    row[0]
}

/// Counts of the cells for `loadout` over `rows`: complete, with a retained
/// positive, complete without positive, and bounded without positive.
fn cell_counts(rows: &[Vec<ControllerLoadoutCell>], loadout: EvaluationLoadout) -> (r: (usize, usize, usize, usize))
    requires
        forall|i: int| 0 <= i < rows@.len() ==> has_cell(#[trigger] rows@[i]@, loadout),
    ensures
        r.0 == count_rows(rows_view(rows@), loadout, is_complete()),
        r.1 == count_rows(rows_view(rows@), loadout, has_positive()),
        r.2 == count_rows(rows_view(rows@), loadout, complete_without_positive()),
        r.3 == count_rows(rows_view(rows@), loadout, bounded_without_positive()),
{
    let mut complete: usize = 0;
    let mut positive: usize = 0;
    let mut complete_none: usize = 0;
    let mut bounded_none: usize = 0;
    let mut k: usize = 0;
    while k < rows.len()
        invariant
            k <= rows.len(),
            forall|i: int| 0 <= i < rows@.len() ==> has_cell(#[trigger] rows@[i]@, loadout),
            complete == count_rows(rows_view(rows@.take(k as int)), loadout, is_complete()),
            positive == count_rows(rows_view(rows@.take(k as int)), loadout, has_positive()),
            complete_none == count_rows(rows_view(rows@.take(k as int)), loadout, complete_without_positive()),
            bounded_none == count_rows(rows_view(rows@.take(k as int)), loadout, bounded_without_positive()),
        decreases rows.len() - k,
    {
        let ghost t = rows_view(rows@.take(k + 1));
        proof {
            assert(t.drop_last() =~= rows_view(rows@.take(k as int)));
            assert(t.last() == rows@[k as int]@);
            lemma_count_rows_bound(t, loadout, is_complete());
            lemma_count_rows_bound(t, loadout, has_positive());
            lemma_count_rows_bound(t, loadout, complete_without_positive());
            lemma_count_rows_bound(t, loadout, bounded_without_positive());
        }
        let cell = find_cell(&rows[k], loadout);
        let is_complete_cell = match cell.status {
            LoadoutControllerAuditStatus::CompleteFiniteVocabulary => true,
            LoadoutControllerAuditStatus::BoundedIncomplete { .. } => false,
        };
        if is_complete_cell {
            complete = complete + 1;
        }
        if cell.retained_semantic_witnesses > 0 {
            positive = positive + 1;
        } else if is_complete_cell {
            complete_none = complete_none + 1;
        } else {
            bounded_none = bounded_none + 1;
        }
        k = k + 1;
    }
    assert(rows@.take(k as int) =~= rows@);
    (complete, positive, complete_none, bounded_none)
}

/// The outcome of checking one fraction against the sample count `n`.
pub open spec fn fraction_result(f: ExactFractionRecord, n: usize) -> Result<(), CorpusAnalysisArtifactError> {
    if f.denominator == 0 || f.numerator > f.denominator {
        Err(
            CorpusAnalysisArtifactError::Invalid(
                ArtifactViolation::InvalidFraction { numerator: f.numerator, denominator: f.denominator },
            ),
        )
    } else if f.denominator != n {
        Err(CorpusAnalysisArtifactError::Invalid(ArtifactViolation::FractionDenominatorMismatch))
    } else {
        Ok(())
    }
}

/// The fractions of a record, in field order.
pub open spec fn fractions_of(v: EasiestControllerFractionRecord) -> Seq<ExactFractionRecord> {
    seq![
        v.run_only_class_fraction,
        v.monotone_simple_class_fraction,
        v.other_controller_class_fraction,
        v.run_only_fraction,
        v.monotone_simple_fraction,
    ]
}

/// The first failing fraction's outcome.
pub open spec fn fractions_result(fs: Seq<ExactFractionRecord>, n: usize) -> Result<(), CorpusAnalysisArtifactError>
    decreases fs.len(),
{
    if fs.len() == 0 {
        Ok(())
    } else {
        match fraction_result(fs[0], n) {
            Err(e) => Err(e),
            Ok(()) => fractions_result(fs.drop_first(), n),
        }
    }
}

/// The outcome of checking observed easiest-controller fractions over `known` successful routes.
pub open spec fn easiest_fractions_result(v: EasiestControllerFractionRecord, known: usize) -> Result<(), CorpusAnalysisArtifactError> {
    if v.successful_route_count != known {
        Err(CorpusAnalysisArtifactError::Invalid(ArtifactViolation::FractionSampleCountMismatch))
    } else {
        fractions_result(fractions_of(v), v.successful_route_count)
    }
}

fn check_fraction(f: ExactFractionRecord, n: usize) -> (r: Result<(), CorpusAnalysisArtifactError>)
    ensures
        r == fraction_result(f, n),
{
    match validate_fraction(f) {
        Err(e) => Err(e),
        Ok(()) => if f.denominator != n {
            Err(CorpusAnalysisArtifactError::Invalid(ArtifactViolation::FractionDenominatorMismatch))
        } else {
            Ok(())
        },
    }
}

fn check_easiest_fractions(v: &EasiestControllerFractionRecord, known: usize) -> (r: Result<(), CorpusAnalysisArtifactError>)
    ensures
        r == easiest_fractions_result(*v, known),
{
    let ghost fs = fractions_of(*v);
    let n = v.successful_route_count;
    if n != known {
        return Err(CorpusAnalysisArtifactError::Invalid(ArtifactViolation::FractionSampleCountMismatch));
    }
    proof {
        assert(fs.drop_first().drop_first().drop_first().drop_first().drop_first() =~= Seq::<ExactFractionRecord>::empty());
        reveal_with_fuel(fractions_result, 6);
    }
    let r0 = check_fraction(v.run_only_class_fraction, n);
    if r0.is_err() {
        return r0;
    }
    let r1 = check_fraction(v.monotone_simple_class_fraction, n);
    if r1.is_err() {
        return r1;
    }
    let r2 = check_fraction(v.other_controller_class_fraction, n);
    if r2.is_err() {
        return r2;
    }
    let r3 = check_fraction(v.run_only_fraction, n);
    if r3.is_err() {
        return r3;
    }
    check_fraction(v.monotone_simple_fraction, n)
}

/// Both fraction and demand evidence are explicitly not applicable because
/// of an ambiguous nondominated front.
pub open spec fn ambiguity_explicit(a: DirectControllerLoadoutAggregateRecord) -> bool {
    &&& a.easiest_controller_fractions matches MetricEvidenceRecord::NotApplicable { reason }
        && reason == NotApplicableMetricReasonRecord::AmbiguousNondominatedFront
    &&& a.demand_coordinates matches MetricEvidenceRecord::NotApplicable { reason }
        && reason == NotApplicableMetricReasonRecord::AmbiguousNondominatedFront
}

/// The aggregate's counts equal those of the retained cells.
pub open spec fn counts_match(
    a: DirectControllerLoadoutAggregateRecord,
    sources: Seq<Seq<ControllerLoadoutCell>>,
    routes: Seq<Seq<ControllerLoadoutCell>>,
) -> bool {
    let l = a.loadout;
    let source_complete = count_rows(sources, l, is_complete());
    let route_complete = count_rows(routes, l, is_complete());
    &&& a.source_audit_completeness.complete_finite_vocabulary == source_complete
    &&& a.source_audit_completeness.bounded_incomplete == sources.len() - source_complete
    &&& a.route_audit_completeness.complete_finite_vocabulary == route_complete
    &&& a.route_audit_completeness.bounded_incomplete == routes.len() - route_complete
    &&& a.known_positive_directed_routes == count_rows(routes, l, has_positive())
    &&& a.no_positive_in_complete_finite_vocabulary == count_rows(routes, l, complete_without_positive())
    &&& a.inconclusive_without_positive == count_rows(routes, l, bounded_without_positive())
    &&& a.missing_route_or_audit == 0
}

/// The four direct outcome counts, summed with saturation.
pub open spec fn outcome_total(a: DirectControllerLoadoutAggregateRecord) -> usize {
    a.known_positive_directed_routes.saturating_add(a.no_positive_in_complete_finite_vocabulary).saturating_add(
        a.inconclusive_without_positive,
    ).saturating_add(a.missing_route_or_audit)
}

/// The outcome of checking one loadout's direct aggregate against the
/// retained cells of the room's `sources` and `routes`, over `door_count`
/// source doors and `directed_route_count` directed routes.
pub open spec fn loadout_aggregate_result(
    a: DirectControllerLoadoutAggregateRecord,
    sources: Seq<Seq<ControllerLoadoutCell>>,
    routes: Seq<Seq<ControllerLoadoutCell>>,
    door_count: usize,
    directed_route_count: usize,
) -> Result<(), CorpusAnalysisArtifactError> {
    if !counts_match(a, sources, routes) {
        Err(CorpusAnalysisArtifactError::Invalid(ArtifactViolation::DirectAggregateDiffers { loadout: a.loadout }))
    } else if audit_counts_result(a.source_audit_completeness, door_count) is Err {
        audit_counts_result(a.source_audit_completeness, door_count)
    } else if audit_counts_result(a.route_audit_completeness, directed_route_count) is Err {
        audit_counts_result(a.route_audit_completeness, directed_route_count)
    } else if outcome_total(a) != directed_route_count {
        Err(CorpusAnalysisArtifactError::Invalid(ArtifactViolation::DirectOutcomeCountMismatch { loadout: a.loadout }))
    } else if a.ambiguous_nondominated_front_directed_routes > a.known_positive_directed_routes
        || (a.ambiguous_nondominated_front_directed_routes > 0) != ambiguity_explicit(a) {
        Err(CorpusAnalysisArtifactError::Invalid(ArtifactViolation::AmbiguousFrontNotPreserved))
    } else {
        let fractions = match a.easiest_controller_fractions {
            MetricEvidenceRecord::Observed { value } => easiest_fractions_result(value, a.known_positive_directed_routes),
            _ => Ok(()),
        };
        if fractions is Err {
            fractions
        } else {
            match a.demand_coordinates {
                MetricEvidenceRecord::Observed { value } => if summary_consistent(value, a.known_positive_directed_routes) {
                    Ok(())
                } else {
                    Err(CorpusAnalysisArtifactError::Invalid(ArtifactViolation::CoordinateDistributionInconsistent))
                },
                _ => Ok(()),
            }
        }
    }
}

/// Check one loadout's direct aggregate against the retained cells of the
/// room's source doors and directed routes; every row holds a cell for the
/// aggregate's loadout.
pub fn validate_direct_loadout_aggregate(
    aggregate: &DirectControllerLoadoutAggregateRecord,
    sources: &[Vec<ControllerLoadoutCell>],
    routes: &[Vec<ControllerLoadoutCell>],
    door_count: usize,
    directed_route_count: usize,
) -> (r: Result<(), CorpusAnalysisArtifactError>)
    requires
        forall|i: int| 0 <= i < sources@.len() ==> has_cell(#[trigger] sources@[i]@, aggregate.loadout),
        forall|i: int| 0 <= i < routes@.len() ==> has_cell(#[trigger] routes@[i]@, aggregate.loadout),
    ensures
        r == loadout_aggregate_result(*aggregate, rows_view(sources@), rows_view(routes@), door_count, directed_route_count),
{
    let l = aggregate.loadout;
    let (source_complete, _, _, _) = cell_counts(sources, l);
    let (route_complete, known_positive, complete_none, bounded_none) = cell_counts(routes, l);
    proof {
        lemma_count_rows_bound(rows_view(sources@), l, is_complete());
        lemma_count_rows_bound(rows_view(routes@), l, is_complete());
    }
    let source_bounded = sources.len() - source_complete;
    let route_bounded = routes.len() - route_complete;
    if aggregate.source_audit_completeness.complete_finite_vocabulary != source_complete
        || aggregate.source_audit_completeness.bounded_incomplete != source_bounded
        || aggregate.route_audit_completeness.complete_finite_vocabulary != route_complete
        || aggregate.route_audit_completeness.bounded_incomplete != route_bounded
        || aggregate.known_positive_directed_routes != known_positive
        || aggregate.no_positive_in_complete_finite_vocabulary != complete_none
        || aggregate.inconclusive_without_positive != bounded_none
        || aggregate.missing_route_or_audit != 0 {
        return Err(CorpusAnalysisArtifactError::Invalid(ArtifactViolation::DirectAggregateDiffers { loadout: l }));
    }
    let sources_checked = validate_audit_counts(aggregate.source_audit_completeness, door_count);
    if sources_checked.is_err() {
        return sources_checked;
    }
    let routes_checked = validate_audit_counts(aggregate.route_audit_completeness, directed_route_count);
    if routes_checked.is_err() {
        return routes_checked;
    }
    if aggregate.known_positive_directed_routes.saturating_add(aggregate.no_positive_in_complete_finite_vocabulary)
        .saturating_add(aggregate.inconclusive_without_positive).saturating_add(aggregate.missing_route_or_audit)
        != directed_route_count {
        return Err(CorpusAnalysisArtifactError::Invalid(ArtifactViolation::DirectOutcomeCountMismatch { loadout: l }));
    }
    let fractions_ambiguous = match aggregate.easiest_controller_fractions {
        MetricEvidenceRecord::NotApplicable { reason } => match reason {
            NotApplicableMetricReasonRecord::AmbiguousNondominatedFront => true,
            _ => false,
        },
        _ => false,
    };
    let demand_ambiguous = match aggregate.demand_coordinates {
        MetricEvidenceRecord::NotApplicable { reason } => match reason {
            NotApplicableMetricReasonRecord::AmbiguousNondominatedFront => true,
            _ => false,
        },
        _ => false,
    };
    let explicit = fractions_ambiguous && demand_ambiguous;
    if aggregate.ambiguous_nondominated_front_directed_routes > aggregate.known_positive_directed_routes
        || (aggregate.ambiguous_nondominated_front_directed_routes > 0) != explicit {
        return Err(CorpusAnalysisArtifactError::Invalid(ArtifactViolation::AmbiguousFrontNotPreserved));
    }
    match &aggregate.easiest_controller_fractions {
        MetricEvidenceRecord::Observed { value } => {
            let checked = check_easiest_fractions(value, aggregate.known_positive_directed_routes);
            if checked.is_err() {
                return checked;
            }
        },
        _ => {},
    }
    match &aggregate.demand_coordinates {
        MetricEvidenceRecord::Observed { value } => {
            let checked = validate_coordinate_summary(value, aggregate.known_positive_directed_routes);
            if checked.is_ok() {
                Ok(())
            } else {
                checked
            }
        },
        _ => Ok(()),
    }
}

/// Loadouts with a positive ability bypass, with their bypass counts.
#[derive(Clone, Copy, Debug, PartialEq, Eq, Structural)]
pub struct AbilityBypassLoadoutRecord {
    pub successful_loadout: EvaluationLoadout,
    pub directed_route_bypasses: usize,
    pub retained_semantic_witnesses: usize,
}

/// Ability-bypass counts of a room.
#[derive(Clone, Debug, PartialEq, Eq)]
pub struct AbilityBypassAggregateRecord {
    pub directed_routes_with_any_bypass: usize,
    pub directed_routes_with_wall_jump_bypass: usize,
    pub directed_routes_with_dash_bypass: usize,
    pub directed_route_loadout_bypasses: usize,
    pub retained_semantic_bypass_witnesses: usize,
    pub by_successful_loadout: Vec<AbilityBypassLoadoutRecord>,
}

/// Direct-controller aggregates of a room.
#[derive(Clone, Debug, PartialEq, Eq)]
pub struct DirectControllerAggregateRecord {
    pub directed_route_count: usize,
    pub by_loadout: Vec<DirectControllerLoadoutAggregateRecord>,
    pub ability_bypasses: AbilityBypassAggregateRecord,
}

/// The loadouts of the per-loadout aggregates, in order.
pub open spec fn aggregate_loadouts(s: Seq<DirectControllerLoadoutAggregateRecord>) -> Seq<EvaluationLoadout> {
    s.map_values(|a: DirectControllerLoadoutAggregateRecord| a.loadout)
}

/// The first failing per-loadout aggregate's outcome.
pub open spec fn loadouts_result(
    s: Seq<DirectControllerLoadoutAggregateRecord>,
    sources: Seq<Seq<ControllerLoadoutCell>>,
    routes: Seq<Seq<ControllerLoadoutCell>>,
    door_count: usize,
    directed_route_count: usize,
) -> Result<(), CorpusAnalysisArtifactError>
    decreases s.len(),
{
    if s.len() == 0 {
        Ok(())
    } else {
        match loadout_aggregate_result(s[0], sources, routes, door_count, directed_route_count) {
            Err(e) => Err(e),
            Ok(()) => loadouts_result(s.drop_first(), sources, routes, door_count, directed_route_count),
        }
    }
}

/// Each bypass loadout comes strictly after the previous one in canonical order.
pub open spec fn bypass_loadouts_strict(s: Seq<AbilityBypassLoadoutRecord>) -> bool {
    forall|i: int| 0 < i < s.len() ==> loadout_index(#[trigger] s[i - 1].successful_loadout) < loadout_index(
        s[i].successful_loadout,
    )
}

/// The outcome of checking the ability-bypass counts over `directed_route_count` routes.
pub open spec fn bypass_result(b: AbilityBypassAggregateRecord, directed_route_count: usize) -> Result<(), CorpusAnalysisArtifactError> {
    if b.directed_routes_with_any_bypass > directed_route_count || b.directed_routes_with_wall_jump_bypass
        > directed_route_count || b.directed_routes_with_dash_bypass > directed_route_count {
        Err(CorpusAnalysisArtifactError::Invalid(ArtifactViolation::BypassExceedsDenominator))
    } else if !bypass_loadouts_strict(b.by_successful_loadout@) {
        Err(CorpusAnalysisArtifactError::Invalid(ArtifactViolation::BypassLoadoutOrder))
    } else {
        Ok(())
    }
}

/// The outcome of checking a room's direct-controller aggregates.
pub open spec fn direct_aggregate_result(
    d: DirectControllerAggregateRecord,
    sources: Seq<Seq<ControllerLoadoutCell>>,
    routes: Seq<Seq<ControllerLoadoutCell>>,
    door_count: usize,
    directed_route_count: usize,
) -> Result<(), CorpusAnalysisArtifactError> {
    if d.directed_route_count != directed_route_count {
        Err(CorpusAnalysisArtifactError::Invalid(ArtifactViolation::DirectRouteDenominatorMismatch))
    } else if aggregate_loadouts(d.by_loadout@) != all_loadouts() {
        Err(CorpusAnalysisArtifactError::Invalid(ArtifactViolation::LoadoutOrder))
    } else {
        match loadouts_result(d.by_loadout@, sources, routes, door_count, directed_route_count) {
            Err(e) => Err(e),
            Ok(()) => bypass_result(d.ability_bypasses, directed_route_count),
        }
    }
}

fn loadout_rank(l: EvaluationLoadout) -> (r: u8)
    ensures
        r == loadout_index(l),
{
    match l {
        EvaluationLoadout::Baseline => 0,
        EvaluationLoadout::WallJump => 1,
        EvaluationLoadout::Dash => 2,
        EvaluationLoadout::Both => 3,
    }
}

fn check_bypasses(b: &AbilityBypassAggregateRecord, directed_route_count: usize) -> (r: Result<(), CorpusAnalysisArtifactError>)
    ensures
        r == bypass_result(*b, directed_route_count),
{
    if b.directed_routes_with_any_bypass > directed_route_count || b.directed_routes_with_wall_jump_bypass
        > directed_route_count || b.directed_routes_with_dash_bypass > directed_route_count {
        return Err(CorpusAnalysisArtifactError::Invalid(ArtifactViolation::BypassExceedsDenominator));
    }
    let s = &b.by_successful_loadout;
    let mut k: usize = 1;
    while k < s.len()
        invariant
            1 <= k,
            s == &b.by_successful_loadout,
            b.directed_routes_with_any_bypass <= directed_route_count,
            b.directed_routes_with_wall_jump_bypass <= directed_route_count,
            b.directed_routes_with_dash_bypass <= directed_route_count,
            forall|i: int| 0 < i < k && i < s@.len() ==> loadout_index(#[trigger] s@[i - 1].successful_loadout)
                < loadout_index(s@[i].successful_loadout),
        decreases s.len() - k,
    {
        if loadout_rank(s[k - 1].successful_loadout) >= loadout_rank(s[k].successful_loadout) {
            assert(!bypass_loadouts_strict(s@)) by {
                assert(!(loadout_index(s@[k - 1].successful_loadout) < loadout_index(s@[k as int].successful_loadout)));
            }
            return Err(CorpusAnalysisArtifactError::Invalid(ArtifactViolation::BypassLoadoutOrder));
        }
        k = k + 1;
    }
    Ok(())
}

/// Check a room's direct-controller aggregates against the retained cells of
/// its `door_count` source doors and `directed_route_count` directed routes;
/// every row holds a cell for every loadout.
pub fn validate_direct_controller_aggregate(
    direct: &DirectControllerAggregateRecord,
    sources: &[Vec<ControllerLoadoutCell>],
    routes: &[Vec<ControllerLoadoutCell>],
    door_count: usize,
    directed_route_count: usize,
) -> (r: Result<(), CorpusAnalysisArtifactError>)
    requires
        forall|i: int, l: EvaluationLoadout| 0 <= i < sources@.len() ==> #[trigger] has_cell(sources@[i]@, l),
        forall|i: int, l: EvaluationLoadout| 0 <= i < routes@.len() ==> #[trigger] has_cell(routes@[i]@, l),
    ensures
        r == direct_aggregate_result(*direct, rows_view(sources@), rows_view(routes@), door_count, directed_route_count),
{
    let ghost srcs = rows_view(sources@);
    let ghost rts = rows_view(routes@);
    if direct.directed_route_count != directed_route_count {
        return Err(CorpusAnalysisArtifactError::Invalid(ArtifactViolation::DirectRouteDenominatorMismatch));
    }
    let mut loadouts: Vec<EvaluationLoadout> = Vec::new();
    let mut k: usize = 0;
    while k < direct.by_loadout.len()
        invariant
            k <= direct.by_loadout.len(),
            loadouts@ == aggregate_loadouts(direct.by_loadout@).take(k as int),
        decreases direct.by_loadout.len() - k,
    {
        loadouts.push(direct.by_loadout[k].loadout);
        assert(loadouts@ =~= aggregate_loadouts(direct.by_loadout@).take(k + 1));
        k = k + 1;
    }
    assert(aggregate_loadouts(direct.by_loadout@).take(k as int) =~= aggregate_loadouts(direct.by_loadout@));
    let ordered = require_exact_loadout_order(loadouts.as_slice());
    if ordered.is_err() {
        return ordered;
    }
    let ghost all = direct.by_loadout@;
    let mut j: usize = 0;
    assert(all.skip(0) =~= all);
    while j < direct.by_loadout.len()
        invariant
            j <= direct.by_loadout.len(),
            all == direct.by_loadout@,
            direct.directed_route_count == directed_route_count,
            aggregate_loadouts(all) == all_loadouts(),
            srcs == rows_view(sources@),
            rts == rows_view(routes@),
            forall|i: int, l: EvaluationLoadout| 0 <= i < sources@.len() ==> #[trigger] has_cell(sources@[i]@, l),
            forall|i: int, l: EvaluationLoadout| 0 <= i < routes@.len() ==> #[trigger] has_cell(routes@[i]@, l),
            loadouts_result(all, srcs, rts, door_count, directed_route_count) == loadouts_result(
                all.skip(j as int),
                srcs,
                rts,
                door_count,
                directed_route_count,
            ),
        decreases direct.by_loadout.len() - j,
    {
        let ghost rest = all.skip(j as int);
        assert(rest[0] == all[j as int]);
        assert(rest.drop_first() =~= all.skip(j + 1));
        let checked = validate_direct_loadout_aggregate(
            &direct.by_loadout[j],
            sources,
            routes,
            door_count,
            directed_route_count,
        );
        if checked.is_err() {
            return checked;
        }
        j = j + 1;
    }
    assert(all.skip(j as int) =~= Seq::<DirectControllerLoadoutAggregateRecord>::empty());
    check_bypasses(&direct.ability_bypasses, directed_route_count)
}

} // verus!
