//! A room's metric aggregates checked as a whole against the retained
//! route, source and door detail they summarize.
use vstd::prelude::*;

use crate::ability_promotion::EvaluationLoadout;
use crate::asymmetry_rows::{DirectionalAsymmetryRecord, asymmetry_rows_result, validate_asymmetry_rows};
use crate::canonical_aggregates::{CanonicalRouteAggregateRecord, canonical_result, validate_canonical_aggregate};
use crate::checks::{ArtifactViolation, CorpusAnalysisArtifactError, ExactFractionRecord, validate_fraction};
use crate::direct_aggregates::{
    ControllerLoadoutCell, DirectControllerAggregateRecord, MetricEvidenceRecord, direct_aggregate_result,
    has_cell, rows_view, validate_direct_controller_aggregate,
};
use crate::canonical_routes::CanonicalRouteVectorRecord;
use crate::terrain::TerrainMetricAggregateRecord;
use crate::landing::{
    LandingPrecisionMetricRecord, all_samples, landing_metric_of,
    selected_landings, validate_landing_metric,
};

verus! {

/// Terrain coverage fractions of a room.
#[derive(Clone, Copy, Debug, PartialEq, Eq)]
pub struct TerrainCoverageFractionRecord {
    pub structurally_attributed_components: MetricEvidenceRecord<ExactFractionRecord>,
    pub structurally_attributed_tiles: MetricEvidenceRecord<ExactFractionRecord>,
    pub traversal_near_components: MetricEvidenceRecord<ExactFractionRecord>,
    pub traversal_near_tiles: MetricEvidenceRecord<ExactFractionRecord>,
    pub positively_corroborated_components: MetricEvidenceRecord<ExactFractionRecord>,
    pub positively_corroborated_tiles: MetricEvidenceRecord<ExactFractionRecord>,
}

/// A room's metric aggregates.
#[derive(Clone, Debug, PartialEq, Eq)]
pub struct MetricAggregatesRecord {
    pub canonical_routes: CanonicalRouteAggregateRecord,
    pub landing_precision: LandingPrecisionMetricRecord,
    pub direct_controllers: DirectControllerAggregateRecord,
    pub directional_asymmetry: Vec<DirectionalAsymmetryRecord>,
    pub terrain: TerrainMetricAggregateRecord,
}

/// The outcome of checking fraction evidence: an observed fraction must be valid.
pub open spec fn fraction_evidence_result(e: MetricEvidenceRecord<ExactFractionRecord>) -> Result<(), CorpusAnalysisArtifactError> {
    match e {
        MetricEvidenceRecord::Observed { value } => if value.denominator == 0 || value.numerator > value.denominator {
            Err(
                CorpusAnalysisArtifactError::Invalid(
                    ArtifactViolation::InvalidFraction { numerator: value.numerator, denominator: value.denominator },
                ),
            )
        } else {
            Ok(())
        },
        _ => Ok(()),
    }
}

/// The terrain fractions, in field order.
pub open spec fn terrain_fractions(t: TerrainMetricAggregateRecord) -> Seq<MetricEvidenceRecord<ExactFractionRecord>> {
    seq![
        t.coverage_fractions.structurally_attributed_components,
        t.coverage_fractions.structurally_attributed_tiles,
        t.coverage_fractions.traversal_near_components,
        t.coverage_fractions.traversal_near_tiles,
        t.coverage_fractions.positively_corroborated_components,
        t.coverage_fractions.positively_corroborated_tiles,
        t.aggregate_ablation_survival_fraction,
    ]
}

/// The first invalid terrain fraction's outcome.
pub open spec fn fractions_result(fs: Seq<MetricEvidenceRecord<ExactFractionRecord>>) -> Result<(), CorpusAnalysisArtifactError>
    decreases fs.len(),
{
    if fs.len() == 0 {
        Ok(())
    } else {
        match fraction_evidence_result(fs[0]) {
            Err(e) => Err(e),
            Ok(()) => fractions_result(fs.drop_first()),
        }
    }
}

/// Require observed fraction evidence to hold a valid fraction.
pub fn validate_fraction_evidence(e: &MetricEvidenceRecord<ExactFractionRecord>) -> (r: Result<(), CorpusAnalysisArtifactError>)
    ensures
        r == fraction_evidence_result(*e),
{
    match e {
        MetricEvidenceRecord::Observed { value } => {
            let checked = validate_fraction(*value);
            if checked.is_ok() {
                Ok(())
            } else {
                checked
            }
        },
        _ => Ok(()),
    }
}

/// The loadouts of the canonical routes, in order.
pub open spec fn route_loadouts(routes: Seq<CanonicalRouteVectorRecord>) -> Seq<EvaluationLoadout> {
    routes.map_values(|r: CanonicalRouteVectorRecord| r.loadout)
}

/// The outcome of checking a room's metric aggregates, in order: landing
/// precision, canonical routes, direct controllers, directional asymmetry,
/// then terrain fractions.
pub open spec fn metric_aggregates_result(
    m: MetricAggregatesRecord,
    canonical_routes: Seq<CanonicalRouteVectorRecord>,
    sources: Seq<Seq<ControllerLoadoutCell>>,
    routes: Seq<Seq<ControllerLoadoutCell>>,
    doors: Seq<String>,
    directed_route_count: usize,
) -> Result<(), CorpusAnalysisArtifactError> {
    if !landing_metric_of(m.landing_precision, canonical_routes) {
        Err(CorpusAnalysisArtifactError::Invalid(ArtifactViolation::LandingMetricDiffers))
    } else if canonical_result(m.canonical_routes, route_loadouts(canonical_routes), directed_route_count) is Err {
        canonical_result(m.canonical_routes, route_loadouts(canonical_routes), directed_route_count)
    } else if direct_aggregate_result(m.direct_controllers, sources, routes, doors.len() as usize, directed_route_count) is Err {
        direct_aggregate_result(m.direct_controllers, sources, routes, doors.len() as usize, directed_route_count)
    } else if asymmetry_rows_result(m.directional_asymmetry@, doors) is Err {
        asymmetry_rows_result(m.directional_asymmetry@, doors)
    } else {
        fractions_result(terrain_fractions(m.terrain))
    }
}

/// Check a room's metric aggregates against its canonical positive routes,
/// the retained direct-controller cells of its source doors and directed
/// routes, its door identifiers and its directed-route count.
pub fn validate_metric_aggregates(
    aggregates: &MetricAggregatesRecord,
    canonical_routes: &[CanonicalRouteVectorRecord],
    sources: &[Vec<ControllerLoadoutCell>],
    routes: &[Vec<ControllerLoadoutCell>],
    doors: &[String],
    directed_route_count: usize,
) -> (r: Result<(), CorpusAnalysisArtifactError>)
    requires
        doors.len() > 0,
        all_samples(selected_landings(canonical_routes@, None)).len() <= usize::MAX,
        forall|i: int, l: EvaluationLoadout| 0 <= i < sources@.len() ==> #[trigger] has_cell(sources@[i]@, l),
        forall|i: int, l: EvaluationLoadout| 0 <= i < routes@.len() ==> #[trigger] has_cell(routes@[i]@, l),
    ensures
        r == metric_aggregates_result(
            *aggregates,
            canonical_routes@,
            rows_view(sources@),
            rows_view(routes@),
            doors@,
            directed_route_count,
        ),
{
    let landing = validate_landing_metric(&aggregates.landing_precision, canonical_routes);
    if landing.is_err() {
        return landing;
    }
    let mut loadouts: Vec<EvaluationLoadout> = Vec::new();
    let mut k: usize = 0;
    while k < canonical_routes.len()
        invariant
            k <= canonical_routes.len(),
            loadouts@ == route_loadouts(canonical_routes@).take(k as int),
        decreases canonical_routes.len() - k,
    {
        loadouts.push(canonical_routes[k].loadout);
        assert(loadouts@ =~= route_loadouts(canonical_routes@).take(k + 1));
        k = k + 1;
    }
    assert(route_loadouts(canonical_routes@).take(k as int) =~= route_loadouts(canonical_routes@));
    let canonical = validate_canonical_aggregate(&aggregates.canonical_routes, loadouts.as_slice(), directed_route_count);
    if canonical.is_err() {
        return canonical;
    }
    let direct = validate_direct_controller_aggregate(
        &aggregates.direct_controllers,
        sources,
        routes,
        doors.len(),
        directed_route_count,
    );
    if direct.is_err() {
        return direct;
    }
    let asymmetry = validate_asymmetry_rows(aggregates.directional_asymmetry.as_slice(), doors);
    if asymmetry.is_err() {
        return asymmetry;
    }
    let t = &aggregates.terrain;
    proof {
        let fs = terrain_fractions(*t);
        assert(fs.drop_first().drop_first().drop_first().drop_first().drop_first().drop_first().drop_first()
            =~= Seq::<MetricEvidenceRecord<ExactFractionRecord>>::empty());
        reveal_with_fuel(fractions_result, 8);
    }
    let r0 = validate_fraction_evidence(&t.coverage_fractions.structurally_attributed_components);
    if r0.is_err() {
        return r0;
    }
    let r1 = validate_fraction_evidence(&t.coverage_fractions.structurally_attributed_tiles);
    if r1.is_err() {
        return r1;
    }
    let r2 = validate_fraction_evidence(&t.coverage_fractions.traversal_near_components);
    if r2.is_err() {
        return r2;
    }
    let r3 = validate_fraction_evidence(&t.coverage_fractions.traversal_near_tiles);
    if r3.is_err() {
        return r3;
    }
    let r4 = validate_fraction_evidence(&t.coverage_fractions.positively_corroborated_components);
    if r4.is_err() {
        return r4;
    }
    let r5 = validate_fraction_evidence(&t.coverage_fractions.positively_corroborated_tiles);
    if r5.is_err() {
        return r5;
    }
    validate_fraction_evidence(&t.aggregate_ablation_survival_fraction)
}

} // verus!
