//! Consistency of a room's positive-terrain evidence with its terrain metric
//! aggregate: audit identity and coverage bounds, ablation order and outcome
//! sums, per-ablation survival fractions, ablation utility, coverage
//! fractions and the aggregate survival fraction.
use vstd::prelude::*;

use crate::checks::{ArtifactViolation, CorpusAnalysisArtifactError, ExactFractionRecord};
use crate::direct_aggregates::{MetricEvidenceRecord, MissingMetricReasonRecord, NotApplicableMetricReasonRecord};
use crate::metric_aggregates::{TerrainCoverageFractionRecord, fraction_evidence_result, validate_fraction_evidence};

verus! {

/// The abilities of a loadout.
#[derive(Clone, Copy, Debug, PartialEq, Eq, Structural)]
pub struct AbilitySetRecord {
    pub wall_jump: bool,
    pub dash: bool,
}

/// Counts of a room's interior terrain and of what positive controllers touch.
#[derive(Clone, Copy, Debug, PartialEq, Eq, Structural)]
pub struct PositiveTerrainCoverageRecord {
    pub positive_controller_count: usize,
    pub interior_component_count: usize,
    pub interior_tile_count: usize,
    pub structurally_attributed_component_count: usize,
    pub structurally_attributed_tile_count: usize,
    pub traversal_near_component_count: usize,
    pub traversal_near_tile_count: usize,
    pub positively_corroborated_component_count: usize,
    pub positively_corroborated_tile_count: usize,
    pub uncorroborated_component_count: usize,
    pub uncorroborated_tile_count: usize,
}

/// What one ablation removed.
#[derive(Clone, Copy, Debug, PartialEq, Eq, Structural)]
pub enum RoomAblationKindRecord {
    InteriorTerrainComponent { component_index: usize, tile_count: usize },
    StaticHazardComponent { component_index: usize, tile_count: usize },
    TimedHazard { hazard_index: usize },
}

/// How the stored controllers fared under one ablation.
#[derive(Clone, Copy, Debug, PartialEq, Eq, Structural)]
pub struct AblationOutcomeRecord {
    pub kind: RoomAblationKindRecord,
    pub controller_count: usize,
    pub succeeded: usize,
    pub died: usize,
    pub wrong_target: usize,
    pub diverged: usize,
}

/// A room's positive-terrain evidence.
#[derive(Clone, Debug, PartialEq, Eq)]
pub struct TerrainPositiveEvidenceRecord {
    pub audit_version: u32,
    pub structural_descriptor_version: u32,
    pub room_ablation_version: u32,
    pub loadout: AbilitySetRecord,
    pub positive_door_controller_count: usize,
    pub positive_pickup_controller_count: usize,
    pub coverage: PositiveTerrainCoverageRecord,
    pub component_ablation_outcomes: Vec<AblationOutcomeRecord>,
}

/// One ablation as the metric aggregate records it.
#[derive(Clone, Copy, Debug, PartialEq, Eq)]
pub struct AblationSurvivalRecord {
    pub kind: RoomAblationKindRecord,
    pub outcomes: AblationOutcomeRecord,
    pub survival_fraction: MetricEvidenceRecord<ExactFractionRecord>,
}

/// How many ablations left every, some or no stored controller standing,
/// and the tiles they removed.
#[derive(Clone, Copy, Debug, PartialEq, Eq, Structural)]
pub struct AblationUtilityRecord {
    pub variant_count: usize,
    pub all_stored_controllers_survived: usize,
    pub at_least_one_stored_controller_affected: usize,
    pub no_stored_controllers: usize,
    pub removed_tiles_all_survived: usize,
    pub removed_tiles_some_affected: usize,
    pub removed_tiles_no_controllers: usize,
}

/// A room's terrain metric aggregate.
#[derive(Clone, Debug, PartialEq, Eq)]
pub struct TerrainMetricAggregateRecord {
    pub source_terrain_audit_version: u32,
    pub coverage: PositiveTerrainCoverageRecord,
    pub coverage_fractions: TerrainCoverageFractionRecord,
    pub ablations: Vec<AblationSurvivalRecord>,
    pub ablation_utility: AblationUtilityRecord,
    pub aggregate_ablation_survival_fraction: MetricEvidenceRecord<ExactFractionRecord>,
}

/// `a + b`, or the largest `usize` when the sum does not fit.
pub open spec fn sat_add(a: usize, b: usize) -> usize {
    if a + b > usize::MAX {
        usize::MAX
    } else {
        (a + b) as usize
    }
}

/// The audit identity and the coverage counts are consistent: the current
/// audit, the full loadout, positive controllers from doors and pickups, and
/// every part of the interior terrain bounded by the interior.
pub open spec fn coverage_ok(t: TerrainPositiveEvidenceRecord, audit_version: u32) -> bool {
    let c = t.coverage;
    &&& t.audit_version == audit_version
    &&& t.loadout == AbilitySetRecord { wall_jump: true, dash: true }
    &&& c.positive_controller_count == sat_add(t.positive_door_controller_count, t.positive_pickup_controller_count)
    &&& c.structurally_attributed_component_count <= c.interior_component_count
    &&& c.traversal_near_component_count <= c.interior_component_count
    &&& c.positively_corroborated_component_count <= c.interior_component_count
    &&& c.uncorroborated_component_count <= c.interior_component_count
    &&& c.structurally_attributed_tile_count <= c.interior_tile_count
    &&& c.traversal_near_tile_count <= c.interior_tile_count
    &&& c.positively_corroborated_tile_count <= c.interior_tile_count
    &&& c.uncorroborated_tile_count <= c.interior_tile_count
}

/// Position of an ablation kind's variant.
pub open spec fn kind_rank(k: RoomAblationKindRecord) -> int {
    match k {
        RoomAblationKindRecord::InteriorTerrainComponent { .. } => 0,
        RoomAblationKindRecord::StaticHazardComponent { .. } => 1,
        RoomAblationKindRecord::TimedHazard { .. } => 2,
    }
}

/// The order of ablation kinds: by variant, then by fields in declaration order.
pub open spec fn kind_lt(a: RoomAblationKindRecord, b: RoomAblationKindRecord) -> bool {
    if kind_rank(a) != kind_rank(b) {
        kind_rank(a) < kind_rank(b)
    } else {
        match (a, b) {
            (
                RoomAblationKindRecord::InteriorTerrainComponent { component_index: i, tile_count: t },
                RoomAblationKindRecord::InteriorTerrainComponent { component_index: j, tile_count: u },
            ) => i < j || (i == j && t < u),
            (
                RoomAblationKindRecord::StaticHazardComponent { component_index: i, tile_count: t },
                RoomAblationKindRecord::StaticHazardComponent { component_index: j, tile_count: u },
            ) => i < j || (i == j && t < u),
            (
                RoomAblationKindRecord::TimedHazard { hazard_index: i },
                RoomAblationKindRecord::TimedHazard { hazard_index: j },
            ) => i < j,
            _ => false,
        }
    }
}

/// Each ablation's kind sorts strictly after the previous one's.
pub open spec fn ablations_strict(os: Seq<AblationOutcomeRecord>) -> bool {
    forall|i: int| 0 < i < os.len() ==> kind_lt(#[trigger] os[i - 1].kind, os[i].kind)
}

/// An ablation's outcomes sum (saturating) to its controller count.
pub open spec fn outcomes_sum_ok(o: AblationOutcomeRecord) -> bool {
    sat_add(sat_add(sat_add(o.succeeded, o.died), o.wrong_target), o.diverged) == o.controller_count
}

/// An ablation's survival fraction: the survivors over the controllers, or
/// not applicable when there are none.
pub open spec fn survival_ok(e: MetricEvidenceRecord<ExactFractionRecord>, o: AblationOutcomeRecord) -> bool {
    match e {
        MetricEvidenceRecord::Observed { value } => value.numerator == o.succeeded && value.denominator
            == o.controller_count,
        MetricEvidenceRecord::NotApplicable { reason } => reason
            == NotApplicableMetricReasonRecord::ExactControllersForAblation && o.controller_count == 0,
        MetricEvidenceRecord::Missing { .. } => false,
    }
}

/// The outcome of checking metric ablation `k` against evidence ablation `k`.
pub open spec fn ablation_pair_result(m: AblationSurvivalRecord, o: AblationOutcomeRecord) -> Result<
    (),
    CorpusAnalysisArtifactError,
> {
    if m.kind != o.kind || m.outcomes != o {
        Err(CorpusAnalysisArtifactError::Invalid(ArtifactViolation::TerrainAblationDiffers))
    } else if fraction_evidence_result(m.survival_fraction) is Err {
        fraction_evidence_result(m.survival_fraction)
    } else if !survival_ok(m.survival_fraction, o) {
        Err(CorpusAnalysisArtifactError::Invalid(ArtifactViolation::AblationSurvivalDiffers))
    } else {
        Ok(())
    }
}

/// The first failing ablation pair's outcome, from position `k` on.
pub open spec fn ablation_pairs_from(
    ms: Seq<AblationSurvivalRecord>,
    os: Seq<AblationOutcomeRecord>,
    k: int,
) -> Result<(), CorpusAnalysisArtifactError>
    decreases ms.len() - k,
{
    if k < 0 || k >= ms.len() {
        Ok(())
    } else {
        match ablation_pair_result(ms[k], os[k]) {
            Err(e) => Err(e),
            Ok(()) => ablation_pairs_from(ms, os, k + 1),
        }
    }
}

/// The tiles an ablation removed.
pub open spec fn removed_tiles(k: RoomAblationKindRecord) -> usize {
    match k {
        RoomAblationKindRecord::InteriorTerrainComponent { tile_count, .. } => tile_count,
        RoomAblationKindRecord::StaticHazardComponent { tile_count, .. } => tile_count,
        RoomAblationKindRecord::TimedHazard { .. } => 0,
    }
}

/// How an ablation left the stored controllers: 0 none stored, 1 all
/// survived, 2 some affected.
pub open spec fn utility_class(o: AblationOutcomeRecord) -> int {
    if o.controller_count == 0 {
        0
    } else if o.succeeded == o.controller_count {
        1
    } else {
        2
    }
}

/// Number of ablations of utility class `c`.
pub open spec fn class_count(ms: Seq<AblationSurvivalRecord>, c: int) -> nat
    decreases ms.len(),
{
    if ms.len() == 0 {
        0
    } else {
        class_count(ms.drop_last(), c) + if utility_class(ms.last().outcomes) == c {
            1nat
        } else {
            0nat
        }
    }
}

/// Saturating total of the tiles removed by ablations of utility class `c`.
pub open spec fn class_tiles(ms: Seq<AblationSurvivalRecord>, c: int) -> usize
    decreases ms.len(),
{
    if ms.len() == 0 {
        0
    } else if utility_class(ms.last().outcomes) == c {
        sat_add(class_tiles(ms.drop_last(), c), removed_tiles(ms.last().kind))
    } else {
        class_tiles(ms.drop_last(), c)
    }
}

/// The recorded utility matches the ablations.
pub open spec fn utility_matches(u: AblationUtilityRecord, ms: Seq<AblationSurvivalRecord>) -> bool {
    &&& u.variant_count == ms.len()
    &&& u.all_stored_controllers_survived == class_count(ms, 1)
    &&& u.at_least_one_stored_controller_affected == class_count(ms, 2)
    &&& u.no_stored_controllers == class_count(ms, 0)
    &&& u.removed_tiles_all_survived == class_tiles(ms, 1)
    &&& u.removed_tiles_some_affected == class_tiles(ms, 2)
    &&& u.removed_tiles_no_controllers == class_tiles(ms, 0)
}

/// A coverage fraction: the count over its interior denominator, missing
/// when it needs a positive controller and there is none, not applicable
/// when the interior is empty.
pub open spec fn coverage_fraction_ok(
    e: MetricEvidenceRecord<ExactFractionRecord>,
    numerator: usize,
    denominator: usize,
    missing_without_positive_controller: bool,
) -> bool {
    match e {
        MetricEvidenceRecord::Observed { value } => denominator > 0 && !missing_without_positive_controller
            && value.numerator == numerator && value.denominator == denominator,
        MetricEvidenceRecord::Missing { reason } => reason == MissingMetricReasonRecord::NoPositiveTerrainController
            && denominator > 0 && missing_without_positive_controller,
        MetricEvidenceRecord::NotApplicable { reason } => (reason
            == NotApplicableMetricReasonRecord::InteriorTerrainComponents || reason
            == NotApplicableMetricReasonRecord::InteriorTerrainTiles) && denominator == 0,
    }
}

/// All six coverage fractions agree with the coverage counts.
pub open spec fn coverage_fractions_ok(f: TerrainCoverageFractionRecord, c: PositiveTerrainCoverageRecord) -> bool {
    let none = c.positive_controller_count == 0;
    &&& coverage_fraction_ok(
        f.structurally_attributed_components,
        c.structurally_attributed_component_count,
        c.interior_component_count,
        false,
    )
    &&& coverage_fraction_ok(
        f.structurally_attributed_tiles,
        c.structurally_attributed_tile_count,
        c.interior_tile_count,
        false,
    )
    &&& coverage_fraction_ok(f.traversal_near_components, c.traversal_near_component_count, c.interior_component_count, none)
    &&& coverage_fraction_ok(f.traversal_near_tiles, c.traversal_near_tile_count, c.interior_tile_count, none)
    &&& coverage_fraction_ok(
        f.positively_corroborated_components,
        c.positively_corroborated_component_count,
        c.interior_component_count,
        false,
    )
    &&& coverage_fraction_ok(
        f.positively_corroborated_tiles,
        c.positively_corroborated_tile_count,
        c.interior_tile_count,
        false,
    )
}

/// Total stored controllers over the ablations.
pub open spec fn total_controllers(ms: Seq<AblationSurvivalRecord>) -> nat
    decreases ms.len(),
{
    if ms.len() == 0 {
        0
    } else {
        total_controllers(ms.drop_last()) + ms.last().outcomes.controller_count as nat
    }
}

/// Total survivors over the ablations.
pub open spec fn total_succeeded(ms: Seq<AblationSurvivalRecord>) -> nat
    decreases ms.len(),
{
    if ms.len() == 0 {
        0
    } else {
        total_succeeded(ms.drop_last()) + ms.last().outcomes.succeeded as nat
    }
}

/// The aggregate survival fraction: all survivors over all controllers, not
/// applicable without ablations, or without controllers.
pub open spec fn aggregate_survival_ok(e: MetricEvidenceRecord<ExactFractionRecord>, ms: Seq<AblationSurvivalRecord>) -> bool {
    match e {
        MetricEvidenceRecord::Observed { value } => ms.len() > 0 && total_controllers(ms) > 0 && value.numerator
            == total_succeeded(ms) && value.denominator == total_controllers(ms),
        MetricEvidenceRecord::NotApplicable { reason } => (reason == NotApplicableMetricReasonRecord::AblationVariants
            && ms.len() == 0) || (reason == NotApplicableMetricReasonRecord::ExactControllersForAblation && ms.len()
            > 0 && total_controllers(ms) == 0),
        MetricEvidenceRecord::Missing { .. } => false,
    }
}

/// The outcome of checking a room's terrain evidence against its terrain
/// metric aggregate.
pub open spec fn terrain_result(
    t: TerrainPositiveEvidenceRecord,
    m: TerrainMetricAggregateRecord,
    audit_version: u32,
) -> Result<(), CorpusAnalysisArtifactError> {
    let os = t.component_ablation_outcomes@;
    let ms = m.ablations@;
    if !coverage_ok(t, audit_version) {
        Err(CorpusAnalysisArtifactError::Invalid(ArtifactViolation::TerrainCoverageInvalid))
    } else if !ablations_strict(os) {
        Err(CorpusAnalysisArtifactError::Invalid(ArtifactViolation::TerrainAblationOrder))
    } else if !(forall|i: int| 0 <= i < os.len() ==> outcomes_sum_ok(#[trigger] os[i])) {
        Err(CorpusAnalysisArtifactError::Invalid(ArtifactViolation::AblationOutcomeCounts))
    } else if m.source_terrain_audit_version != t.audit_version || m.coverage != t.coverage || ms.len() != os.len() {
        Err(CorpusAnalysisArtifactError::Invalid(ArtifactViolation::TerrainMetricDiffers))
    } else if ablation_pairs_from(ms, os, 0) is Err {
        ablation_pairs_from(ms, os, 0)
    } else if !utility_matches(m.ablation_utility, ms) {
        Err(CorpusAnalysisArtifactError::Invalid(ArtifactViolation::AblationUtilityDiffers))
    } else if fraction_evidence_result(m.aggregate_ablation_survival_fraction) is Err {
        fraction_evidence_result(m.aggregate_ablation_survival_fraction)
    } else if !coverage_fractions_ok(m.coverage_fractions, t.coverage) {
        Err(CorpusAnalysisArtifactError::Invalid(ArtifactViolation::CoverageFractionDiffers))
    } else if !aggregate_survival_ok(m.aggregate_ablation_survival_fraction, ms) {
        Err(CorpusAnalysisArtifactError::Invalid(ArtifactViolation::AggregateSurvivalDiffers))
    } else {
        Ok(())
    }
}

fn coverage_matches(t: &TerrainPositiveEvidenceRecord, audit_version: u32) -> (r: bool)
    ensures
        r == coverage_ok(*t, audit_version),
{
    let c = &t.coverage;
    t.audit_version == audit_version && t.loadout.wall_jump && t.loadout.dash && c.positive_controller_count
        == t.positive_door_controller_count.saturating_add(t.positive_pickup_controller_count)
        && c.structurally_attributed_component_count <= c.interior_component_count
        && c.traversal_near_component_count <= c.interior_component_count
        && c.positively_corroborated_component_count <= c.interior_component_count
        && c.uncorroborated_component_count <= c.interior_component_count
        && c.structurally_attributed_tile_count <= c.interior_tile_count && c.traversal_near_tile_count
        <= c.interior_tile_count && c.positively_corroborated_tile_count <= c.interior_tile_count
        && c.uncorroborated_tile_count <= c.interior_tile_count
}

fn rank(k: RoomAblationKindRecord) -> (r: u8)
    ensures
        r == kind_rank(k),
{
    match k {
        RoomAblationKindRecord::InteriorTerrainComponent { .. } => 0,
        RoomAblationKindRecord::StaticHazardComponent { .. } => 1,
        RoomAblationKindRecord::TimedHazard { .. } => 2,
    }
}

fn kind_less(a: RoomAblationKindRecord, b: RoomAblationKindRecord) -> (r: bool)
    ensures
        r == kind_lt(a, b),
{
    if rank(a) != rank(b) {
        return rank(a) < rank(b);
    }
    match (a, b) {
        (
            RoomAblationKindRecord::InteriorTerrainComponent { component_index: i, tile_count: t },
            RoomAblationKindRecord::InteriorTerrainComponent { component_index: j, tile_count: u },
        ) => i < j || (i == j && t < u),
        (
            RoomAblationKindRecord::StaticHazardComponent { component_index: i, tile_count: t },
            RoomAblationKindRecord::StaticHazardComponent { component_index: j, tile_count: u },
        ) => i < j || (i == j && t < u),
        (RoomAblationKindRecord::TimedHazard { hazard_index: i }, RoomAblationKindRecord::TimedHazard { hazard_index: j }) => i
            < j,
        _ => false,
    }
}

fn survival_matches(e: &MetricEvidenceRecord<ExactFractionRecord>, o: &AblationOutcomeRecord) -> (r: bool)
    ensures
        r == survival_ok(*e, *o),
{
    match e {
        MetricEvidenceRecord::Observed { value } => value.numerator == o.succeeded && value.denominator == o.controller_count,
        MetricEvidenceRecord::NotApplicable { reason } => match reason {
            NotApplicableMetricReasonRecord::ExactControllersForAblation => o.controller_count == 0,
            _ => false,
        },
        MetricEvidenceRecord::Missing { .. } => false,
    }
}

fn check_ablation_pair(m: &AblationSurvivalRecord, o: &AblationOutcomeRecord) -> (r: Result<(), CorpusAnalysisArtifactError>)
    ensures
        r == ablation_pair_result(*m, *o),
{
    if m.kind != o.kind || m.outcomes != *o {
        return Err(CorpusAnalysisArtifactError::Invalid(ArtifactViolation::TerrainAblationDiffers));
    }
    let fraction = validate_fraction_evidence(&m.survival_fraction);
    if fraction.is_err() {
        return fraction;
    }
    if !survival_matches(&m.survival_fraction, o) {
        return Err(CorpusAnalysisArtifactError::Invalid(ArtifactViolation::AblationSurvivalDiffers));
    }
    Ok(())
}

proof fn lemma_class_counts_bounded(ms: Seq<AblationSurvivalRecord>)
    ensures
        class_count(ms, 0) + class_count(ms, 1) + class_count(ms, 2) == ms.len(),
    decreases ms.len(),
{
    if ms.len() > 0 {
        lemma_class_counts_bounded(ms.drop_last());
    }
}

fn utility_of(ms: &[AblationSurvivalRecord]) -> (u: AblationUtilityRecord)
    ensures
        utility_matches(u, ms@),
{
    let mut u = AblationUtilityRecord {
        variant_count: ms.len(),
        all_stored_controllers_survived: 0,
        at_least_one_stored_controller_affected: 0,
        no_stored_controllers: 0,
        removed_tiles_all_survived: 0,
        removed_tiles_some_affected: 0,
        removed_tiles_no_controllers: 0,
    };
    let mut k: usize = 0;
    while k < ms.len()
        invariant
            k <= ms.len(),
            u.variant_count == ms@.len(),
            u.all_stored_controllers_survived == class_count(ms@.take(k as int), 1),
            u.at_least_one_stored_controller_affected == class_count(ms@.take(k as int), 2),
            u.no_stored_controllers == class_count(ms@.take(k as int), 0),
            u.removed_tiles_all_survived == class_tiles(ms@.take(k as int), 1),
            u.removed_tiles_some_affected == class_tiles(ms@.take(k as int), 2),
            u.removed_tiles_no_controllers == class_tiles(ms@.take(k as int), 0),
        decreases ms.len() - k,
    {
        proof {
            assert(ms@.take(k + 1).drop_last() =~= ms@.take(k as int));
            lemma_class_counts_bounded(ms@.take(k as int));
        }
        let o = &ms[k].outcomes;
        let tiles = match ms[k].kind {
            RoomAblationKindRecord::InteriorTerrainComponent { tile_count, .. } => tile_count,
            RoomAblationKindRecord::StaticHazardComponent { tile_count, .. } => tile_count,
            RoomAblationKindRecord::TimedHazard { .. } => 0,
        };
        if o.controller_count == 0 {
            u.no_stored_controllers = u.no_stored_controllers + 1;
            u.removed_tiles_no_controllers = u.removed_tiles_no_controllers.saturating_add(tiles);
        } else if o.succeeded == o.controller_count {
            u.all_stored_controllers_survived = u.all_stored_controllers_survived + 1;
            u.removed_tiles_all_survived = u.removed_tiles_all_survived.saturating_add(tiles);
        } else {
            u.at_least_one_stored_controller_affected = u.at_least_one_stored_controller_affected + 1;
            u.removed_tiles_some_affected = u.removed_tiles_some_affected.saturating_add(tiles);
        }
        k = k + 1;
    }
    assert(ms@.take(k as int) =~= ms@);
    u
}

fn coverage_fraction_matches(
    e: &MetricEvidenceRecord<ExactFractionRecord>,
    numerator: usize,
    denominator: usize,
    missing_without_positive_controller: bool,
) -> (r: bool)
    ensures
        r == coverage_fraction_ok(*e, numerator, denominator, missing_without_positive_controller),
{
    match e {
        MetricEvidenceRecord::Observed { value } => denominator > 0 && !missing_without_positive_controller
            && value.numerator == numerator && value.denominator == denominator,
        MetricEvidenceRecord::Missing { reason } => match reason {
            MissingMetricReasonRecord::NoPositiveTerrainController => denominator > 0 && missing_without_positive_controller,
            _ => false,
        },
        MetricEvidenceRecord::NotApplicable { reason } => match reason {
            NotApplicableMetricReasonRecord::InteriorTerrainComponents => denominator == 0,
            NotApplicableMetricReasonRecord::InteriorTerrainTiles => denominator == 0,
            _ => false,
        },
    }
}

fn coverage_fractions_match(f: &TerrainCoverageFractionRecord, c: &PositiveTerrainCoverageRecord) -> (r: bool)
    ensures
        r == coverage_fractions_ok(*f, *c),
{
    let none = c.positive_controller_count == 0;
    coverage_fraction_matches(
        &f.structurally_attributed_components,
        c.structurally_attributed_component_count,
        c.interior_component_count,
        false,
    ) && coverage_fraction_matches(
        &f.structurally_attributed_tiles,
        c.structurally_attributed_tile_count,
        c.interior_tile_count,
        false,
    ) && coverage_fraction_matches(
        &f.traversal_near_components,
        c.traversal_near_component_count,
        c.interior_component_count,
        none,
    ) && coverage_fraction_matches(&f.traversal_near_tiles, c.traversal_near_tile_count, c.interior_tile_count, none)
        && coverage_fraction_matches(
        &f.positively_corroborated_components,
        c.positively_corroborated_component_count,
        c.interior_component_count,
        false,
    ) && coverage_fraction_matches(
        &f.positively_corroborated_tiles,
        c.positively_corroborated_tile_count,
        c.interior_tile_count,
        false,
    )
}

proof fn lemma_totals_prefix(ms: Seq<AblationSurvivalRecord>, k: int)
    requires
        0 <= k <= ms.len(),
        forall|i: int| 0 <= i < ms.len() ==> (#[trigger] ms[i]).outcomes.succeeded <= ms[i].outcomes.controller_count,
    ensures
        total_controllers(ms.take(k)) <= total_controllers(ms),
        total_succeeded(ms.take(k)) <= total_controllers(ms.take(k)),
    decreases ms.len() - k,
{
    if k < ms.len() {
        lemma_totals_prefix(ms, k + 1);
        assert(ms.take(k + 1).drop_last() =~= ms.take(k));
    } else {
        assert(ms.take(k) =~= ms);
    }
    assert forall|i: int| 0 <= i < ms.take(k).len() implies (#[trigger] ms.take(k)[i]).outcomes.succeeded
        <= ms.take(k)[i].outcomes.controller_count by {
        assert(ms.take(k)[i] == ms[i]);
    }
    lemma_succeeded_bounded(ms.take(k));
}

proof fn lemma_succeeded_bounded(ms: Seq<AblationSurvivalRecord>)
    requires
        forall|i: int| 0 <= i < ms.len() ==> (#[trigger] ms[i]).outcomes.succeeded <= ms[i].outcomes.controller_count,
    ensures
        total_succeeded(ms) <= total_controllers(ms),
    decreases ms.len(),
{
    if ms.len() > 0 {
        assert forall|i: int| 0 <= i < ms.drop_last().len() implies (#[trigger] ms.drop_last()[i]).outcomes.succeeded
            <= ms.drop_last()[i].outcomes.controller_count by {
            assert(ms.drop_last()[i] == ms[i]);
        }
        lemma_succeeded_bounded(ms.drop_last());
        assert(ms.last() == ms[ms.len() - 1]);
    }
}

fn totals(ms: &[AblationSurvivalRecord]) -> (r: (usize, usize))
    requires
        total_controllers(ms@) <= usize::MAX,
        forall|i: int| 0 <= i < ms@.len() ==> (#[trigger] ms@[i]).outcomes.succeeded <= ms@[i].outcomes.controller_count,
    ensures
        r.0 == total_controllers(ms@),
        r.1 == total_succeeded(ms@),
{
    let mut controllers: usize = 0;
    let mut succeeded: usize = 0;
    let mut k: usize = 0;
    while k < ms.len()
        invariant
            k <= ms.len(),
            total_controllers(ms@) <= usize::MAX,
            forall|i: int| 0 <= i < ms@.len() ==> (#[trigger] ms@[i]).outcomes.succeeded <= ms@[i].outcomes.controller_count,
            controllers == total_controllers(ms@.take(k as int)),
            succeeded == total_succeeded(ms@.take(k as int)),
        decreases ms.len() - k,
    {
        proof {
            assert(ms@.take(k + 1).drop_last() =~= ms@.take(k as int));
            lemma_totals_prefix(ms@, k + 1);
        }
        controllers = controllers + ms[k].outcomes.controller_count;
        succeeded = succeeded + ms[k].outcomes.succeeded;
        k = k + 1;
    }
    assert(ms@.take(k as int) =~= ms@);
    (controllers, succeeded)
}

fn aggregate_survival_matches(
    e: &MetricEvidenceRecord<ExactFractionRecord>,
    ms: &[AblationSurvivalRecord],
) -> (r: bool)
    requires
        total_controllers(ms@) <= usize::MAX,
        forall|i: int| 0 <= i < ms@.len() ==> (#[trigger] ms@[i]).outcomes.succeeded <= ms@[i].outcomes.controller_count,
    ensures
        r == aggregate_survival_ok(*e, ms@),
{
    let (controllers, succeeded) = totals(ms);
    match e {
        MetricEvidenceRecord::Observed { value } => ms.len() > 0 && controllers > 0 && value.numerator == succeeded
            && value.denominator == controllers,
        MetricEvidenceRecord::NotApplicable { reason } => match reason {
            NotApplicableMetricReasonRecord::AblationVariants => ms.len() == 0,
            NotApplicableMetricReasonRecord::ExactControllersForAblation => ms.len() > 0 && controllers == 0,
            _ => false,
        },
        MetricEvidenceRecord::Missing { .. } => false,
    }
}

proof fn lemma_pairs_ok(ms: Seq<AblationSurvivalRecord>, os: Seq<AblationOutcomeRecord>, j: int)
    requires
        0 <= j,
        ablation_pairs_from(ms, os, j) is Ok,
    ensures
        forall|k: int| j <= k < ms.len() ==> ablation_pair_result(#[trigger] ms[k], os[k]) is Ok,
    decreases ms.len() - j,
{
    if j < ms.len() {
        lemma_pairs_ok(ms, os, j + 1);
    }
}

/// Check a room's positive-terrain evidence against its terrain metric
/// aggregate under terrain audit `audit_version`: the audit identity and
/// coverage bounds, strictly ordered ablations whose outcomes sum to their
/// controller counts, a metric that repeats the evidence with each
/// ablation's survival fraction, utility counts recomputed from the
/// ablations, coverage fractions over the interior counts, and the
/// aggregate survival fraction over all ablations.
pub fn validate_terrain(
    terrain: &TerrainPositiveEvidenceRecord,
    metric: &TerrainMetricAggregateRecord,
    audit_version: u32,
) -> (r: Result<(), CorpusAnalysisArtifactError>)
    requires
        total_controllers(metric.ablations@) <= usize::MAX,
    ensures
        r == terrain_result(*terrain, *metric, audit_version),
{
    if !coverage_matches(terrain, audit_version) {
        return Err(CorpusAnalysisArtifactError::Invalid(ArtifactViolation::TerrainCoverageInvalid));
    }
    let os = terrain.component_ablation_outcomes.as_slice();
    let mut k: usize = 1;
    while k < os.len()
        invariant
            1 <= k,
            os@ == terrain.component_ablation_outcomes@,
            coverage_ok(*terrain, audit_version),
            forall|i: int| 0 < i < k && i < os@.len() ==> kind_lt(#[trigger] os@[i - 1].kind, os@[i].kind),
        decreases os.len() - k,
    {
        if !kind_less(os[k - 1].kind, os[k].kind) {
            return Err(CorpusAnalysisArtifactError::Invalid(ArtifactViolation::TerrainAblationOrder));
        }
        k = k + 1;
    }
    let mut a: usize = 0;
    while a < os.len()
        invariant
            a <= os.len(),
            os@ == terrain.component_ablation_outcomes@,
            coverage_ok(*terrain, audit_version),
            ablations_strict(os@),
            forall|i: int| 0 <= i < a ==> outcomes_sum_ok(#[trigger] os@[i]),
        decreases os.len() - a,
    {
        let o = &os[a];
        if o.succeeded.saturating_add(o.died).saturating_add(o.wrong_target).saturating_add(o.diverged)
            != o.controller_count {
            assert(!outcomes_sum_ok(os@[a as int]));
            return Err(CorpusAnalysisArtifactError::Invalid(ArtifactViolation::AblationOutcomeCounts));
        }
        a = a + 1;
    }
    let ms = metric.ablations.as_slice();
    if metric.source_terrain_audit_version != terrain.audit_version || metric.coverage != terrain.coverage || ms.len()
        != os.len() {
        return Err(CorpusAnalysisArtifactError::Invalid(ArtifactViolation::TerrainMetricDiffers));
    }
    let mut j: usize = 0;
    while j < ms.len()
        invariant
            j <= ms.len(),
            ms.len() == os.len(),
            ms@ == metric.ablations@,
            os@ == terrain.component_ablation_outcomes@,
            coverage_ok(*terrain, audit_version),
            ablations_strict(os@),
            forall|i: int| 0 <= i < os@.len() ==> outcomes_sum_ok(#[trigger] os@[i]),
            metric.source_terrain_audit_version == terrain.audit_version,
            metric.coverage == terrain.coverage,
            ablation_pairs_from(ms@, os@, 0) == ablation_pairs_from(ms@, os@, j as int),
        decreases ms.len() - j,
    {
        let checked = check_ablation_pair(&ms[j], &os[j]);
        if checked.is_err() {
            return checked;
        }
        j = j + 1;
    }
    proof {
        lemma_pairs_ok(ms@, os@, 0);
        assert forall|i: int| 0 <= i < ms@.len() implies (#[trigger] ms@[i]).outcomes.succeeded
            <= ms@[i].outcomes.controller_count by {
            assert(ablation_pair_result(ms@[i], os@[i]) is Ok);
            assert(outcomes_sum_ok(os@[i]));
        }
    }
    let utility = utility_of(ms);
    if utility != metric.ablation_utility {
        return Err(CorpusAnalysisArtifactError::Invalid(ArtifactViolation::AblationUtilityDiffers));
    }
    let aggregate = validate_fraction_evidence(&metric.aggregate_ablation_survival_fraction);
    if aggregate.is_err() {
        return aggregate;
    }
    if !coverage_fractions_match(&metric.coverage_fractions, &terrain.coverage) {
        return Err(CorpusAnalysisArtifactError::Invalid(ArtifactViolation::CoverageFractionDiffers));
    }
    if !aggregate_survival_matches(&metric.aggregate_ablation_survival_fraction, ms) {
        return Err(CorpusAnalysisArtifactError::Invalid(ArtifactViolation::AggregateSurvivalDiffers));
    }
    Ok(())
}

} // verus!
