//! Structural checks of analysis-artifact records and their framing.
use vstd::prelude::*;
use vstd::utf8::encode_utf8;

use crate::ability_promotion::{
    AbilityPromotionBudgetLimitV2, EvaluationLoadout, LoadoutControllerAudit,
    LoadoutControllerAuditStatus, all_loadouts,
};

verus! {

/// Why an analysis artifact is invalid.
#[derive(Clone, Copy, Debug, PartialEq, Eq)]
pub enum ArtifactViolation {
    /// A retained action requests a restart.
    ForbiddenRestart,
    /// A retained action's movement is outside -1..=1.
    ActionNotNormalized { move_x: i8, move_y: i8 },
    /// An action span has zero ticks.
    ZeroTickSpan { index: usize },
    /// An action span's movement is outside -1..=1.
    SpanNotNormalized { index: usize, move_x: i8, move_y: i8 },
    /// Action spans `index - 1` and `index` hold the same action.
    UnmergedSpans { index: usize },
    /// The total tick count overflows.
    TickOverflow,
    /// A digest is not 16 lowercase hexadecimal digits.
    NonCanonicalDigest,
    /// A loadout list is not baseline, wall-jump, dash, both exactly once.
    LoadoutOrder,
    /// An exact fraction has a zero denominator or exceeds one.
    InvalidFraction { numerator: usize, denominator: usize },
    /// A route's aggregate completeness disagrees with its loadout audits.
    CompletenessMismatch,
    /// A JSON-lines file does not end in a newline.
    MissingFinalNewline,
    /// A JSON-lines file contains a carriage return.
    CarriageReturn,
    /// A JSON-lines file has an empty line (numbered from one).
    EmptyLine { line: usize },
    /// A witness records more ticks than the verifier replays.
    TicksAboveVerifierLimit { ticks: usize },
    /// Action spans total a different tick count than recorded.
    TickCountMismatch { total: usize, expected: usize },
    /// A checkpoint file holds other than exactly one record.
    CheckpointRecordCount { found: usize },
    /// A checkpoint has an unsupported version or is not complete.
    UnsupportedCheckpoint,
    /// The expected checkpoint configuration does not contain exactly one seed.
    CheckpointSeedCount,
    /// The checkpoint's seed or configuration identity differs from the expected one.
    CheckpointIdentityMismatch,
    /// The expected configuration differs from the artifact's run configuration.
    CheckpointConfigMismatch,
    /// The checkpoint's file hashes differ from the bundle.
    CheckpointHashMismatch,
    /// Audit completeness counts disagree with their denominator.
    AuditCountsMismatch,
    /// The aggregate audit completeness state disagrees with its counts.
    AuditStateMismatch,
    /// A controller-demand coordinate distribution is inconsistent.
    CoordinateDistributionInconsistent,
    /// A directional count difference is inconsistent.
    AsymmetryDifferenceInconsistent,
    /// Directional ability-use flags are inconsistent.
    AsymmetryAbilityUseInconsistent,
    /// The number of positive rows overflows.
    PositiveCountOverflow,
    /// The number of positive rows differs from the number of witnesses.
    PositiveWitnessMismatch { positive_rows: usize, witness_count: usize },
    /// A manifest file holds other than exactly one record.
    ManifestRecordCount { found: usize },
    /// The manifest's stream hashes differ from the streams.
    ManifestStreamHashMismatch,
    /// A loadout's direct aggregate differs from the retained route and source detail.
    DirectAggregateDiffers { loadout: EvaluationLoadout },
    /// A loadout's direct outcome counts do not sum to the route denominator.
    DirectOutcomeCountMismatch { loadout: EvaluationLoadout },
    /// Ambiguous fused fronts are not preserved in a direct aggregate.
    AmbiguousFrontNotPreserved,
    /// An easiest-controller fraction sample count differs from the known positives.
    FractionSampleCountMismatch,
    /// An easiest-controller fraction denominator differs from its sample count.
    FractionDenominatorMismatch,
    /// The direct aggregate's directed-route denominator differs.
    DirectRouteDenominatorMismatch,
    /// An ability-bypass count exceeds the route denominator.
    BypassExceedsDenominator,
    /// Ability-bypass loadouts are not in strict canonical order.
    BypassLoadoutOrder,
    /// A room has another number of asymmetry rows than door pairs times loadouts.
    AsymmetryRowCount { found: usize, expected: usize },
    /// Asymmetry rows are not in strict canonical order.
    AsymmetryRowOrder,
    /// An asymmetry row names doors out of order or not of the room.
    AsymmetryDoorIdentity,
    /// Observed easiest-controller coordinates differ from those of its demand.
    EasiestCoordinatesDiffer,
    /// A route-diversity class count exceeds its route count.
    DiversityClassCountExceeds,
    /// A route-diversity pairwise comparison count differs.
    DiversityComparisonCountDiffers,
    /// A route-diversity distance is present without a route pair.
    DiversityDistanceWithoutPair,
    /// A route-diversity distance is missing, non-finite, or outside `[0, 1]`.
    DiversityDistanceOutOfRange,
    /// The canonical loadout-cell count overflows.
    CanonicalCellOverflow,
    /// Canonical aggregate denominators or counts differ.
    CanonicalCountsDiffer,
    /// A loadout's canonical aggregate counts differ.
    CanonicalLoadoutCountsDiffer { loadout: EvaluationLoadout },
    /// Canonical per-loadout counts do not sum to the overall counts.
    CanonicalLoadoutSumsDiffer,
    /// The landing metric aggregate differs from the canonical route samples.
    LandingMetricDiffers,
    /// A landing-precision record's identity or counts differ.
    LandingIdentityDiffers,
    /// Landing samples are not in strict tick order.
    LandingSampleOrder,
    /// Unmeasured landing ticks are not in strict order.
    LandingUnmeasuredOrder,
    /// A landing tick is zero, beyond the inspected ticks, or repeated.
    LandingTicksInvalid,
    /// A landing sample's geometry is inconsistent.
    LandingGeometryDiffers,
    /// A landing-precision record's summaries differ from its samples.
    LandingSummariesDiffer,
    /// Room door identifiers are not in strict order.
    DoorOrder,
    /// A room retains fewer than two doors.
    TooFewDoors,
    /// The directed route count overflows.
    RouteCountOverflow,
    /// A room has another number of source audits than doors.
    SourceAuditCount { found: usize, expected: usize },
    /// A source audit has an invalid identity or loadout policy.
    SourceAuditIdentity,
    /// A source audit's targets are not the other doors in order.
    SourceTargetOrder,
    /// A shared source audit's counts are invalid.
    SharedAuditCounts,
    /// A room has another number of direct routes than ordered door pairs.
    DirectRouteCount { found: usize, expected: usize },
    /// A direct route's order, identity or loadout policy differs.
    DirectRouteIdentity,
    /// A route's overall and per-loadout positive availability differ.
    OverallPositiveAvailability,
    /// A route loadout's witness counts or witness option differ.
    LoadoutWitnessCounts,
    /// A route loadout's status differs from its shared source audit.
    StatusDiffersFromSource,
    /// A route's positive bypasses are not in strict loadout order.
    PositiveBypassOrder,
    /// A route's positive bypasses differ from its exact loadout positives.
    PositiveBypassDiffers,
    /// A route holds an invalid positive bypass.
    InvalidPositiveBypass,
    /// A shared source audit's witness counts differ from its routes' sums.
    SharedWitnessSums,
    /// The operational-cost interpretation differs.
    OperationalInterpretation,
    /// Direct operational-cost units are not in strict order.
    DirectCostOrder,
    /// Canonical operational-cost units are not in strict order.
    CanonicalCostOrder,
    /// A direct cost identity is invalid or repeated.
    DirectCostIdentity,
    /// A shared audit references an absent direct cost.
    AbsentDirectCost,
    /// A shared audit and its direct cost disagree, or the cost is referenced twice.
    DirectCostCrossReference,
    /// Some direct cost unit is referenced by no shared audit.
    OrphanDirectCost,
    /// Direct operational totals differ from their units.
    DirectCostTotals,
    /// A canonical cost identity is invalid or repeated.
    CanonicalCostIdentity,
    /// The canonical operational total differs from its units.
    CanonicalCostTotal,
    /// A route has an easiest witness without a Pareto front, or the reverse.
    EasiestParetoAvailability,
    /// The easiest witness is not first on its Pareto front.
    EasiestNotFirstOnFront,
    /// A Pareto front repeats a witness.
    ParetoWitnessRepeated,
    /// A route references an absent witness.
    AbsentWitness,
    /// A referenced witness is bound to another room, route or loadout.
    WitnessBinding,
    /// Pareto-front witnesses dominate one another.
    ParetoWitnessesDominate,
    /// Some retained witness is referenced by no route.
    OrphanWitness,
    /// The canonical routes do not carry the canonical-route claim.
    CanonicalClaim,
    /// Canonical routes are not in strict (loadout, source, target) order.
    CanonicalRouteOrder,
    /// A canonical route's measurement identity or version differs.
    CanonicalRouteIdentity,
    /// A route vector's numeric or control coordinates are invalid.
    RouteVectorCoordinates,
    /// A route vector's timing probabilities are invalid.
    TimingProbabilities,
    /// A route vector breaks the exact-control, no-shaky-hand policy.
    ExactControlPolicy,
    /// A canonical route references an absent operational cost.
    AbsentCanonicalCost,
    /// A canonical route and its operational cost disagree, or the cost is shared.
    CanonicalCostCrossReference,
    /// Some canonical operational cost is referenced by no route.
    OrphanCanonicalCost,
    /// Canonical vector counts differ from the metric aggregate.
    CanonicalMetricCounts,
    /// The terrain audit identity or coverage counts are invalid.
    TerrainCoverageInvalid,
    /// Terrain ablations are not in strict kind order.
    TerrainAblationOrder,
    /// An ablation's outcomes do not sum to its controller count.
    AblationOutcomeCounts,
    /// The terrain metric's audit version, coverage or ablation count differs from the evidence.
    TerrainMetricDiffers,
    /// A terrain metric ablation differs from the evidence ablation.
    TerrainAblationDiffers,
    /// An ablation's survival fraction differs from its outcomes.
    AblationSurvivalDiffers,
    /// Ablation utility counts or tile totals differ from the ablations.
    AblationUtilityDiffers,
    /// A terrain coverage fraction differs from the coverage counts.
    CoverageFractionDiffers,
    /// The aggregate ablation survival fraction differs from the ablations.
    AggregateSurvivalDiffers,
    /// A room's row, analysis or metric version, or its key's seed, differs.
    RoomIdentity,
    /// A room's generation key names an unknown strategy.
    UnknownGenerationStrategy,
    /// A room's generation key names an unknown intent.
    UnknownGenerationIntent,
    /// A room's generation key is not in canonical form.
    NonCanonicalGenerationKey,
    /// The solver configuration is structurally invalid.
    SolverConfigInvalid,
    /// A solver macro has an empty name or action sequence.
    SolverMacroEmpty { index: usize },
    /// A witness's identity is not the content identity of its preimage.
    WitnessIdentity,
    /// A witness's action, replay or demand ticks are invalid.
    WitnessTicks,
    /// A witness's coordinates are not those of its demand.
    WitnessCoordinates,
    /// The artifact's schema, version or status is unsupported.
    ArtifactIdentity,
    /// The manifest's policy identities differ from those in force.
    PolicyIdentity,
    /// The manifest's disclaimers differ from the current ones.
    DisclaimerIdentity,
    /// The configuration fingerprint differs from the configuration.
    ConfigFingerprint,
    /// The manifest's room or witness count differs from the records.
    ManifestCounts,
    /// The manifest's canonical vector count differs from the rooms.
    CanonicalVectorCount,
    /// Rooms are not in strict identifier order.
    RoomOrder,
    /// Witnesses are not in strict identifier order.
    WitnessOrder,
    /// A positive witness's room, doors, target or loadout differ from its row.
    PositiveWitnessIdentity,
    /// A positive witness uses an unsupported action encoding.
    UnsupportedActionEncoding,
    /// Entering the room through the witness's source door failed.
    SourceEntryFailed,
    /// The entered state's digest differs from the witness's initial digest.
    InitialDigestDiffers,
    /// The authoritative replay diverged.
    ReplayDiverged,
    /// The replay did not reach the row's target.
    TargetNotReached,
    /// The witness's identity differs from the replayed solution's fingerprint.
    WitnessIdAfterReplay,
    /// A matrix row references an unknown room.
    UnknownTargetRoom,
    /// A room has no native variant.
    NoNativeVariants,
    /// A matrix row references an unknown source door.
    UnknownSourceDoor,
    /// A matrix row's target is not a valid door or pickup of its room.
    InvalidTarget,
    /// A matrix holds a cell twice.
    DuplicateMatrixCell,
    /// A positive matrix row references a missing witness.
    MissingTargetWitness,
    /// A matrix is not the exact four-loadout matrix of its rooms.
    IncompleteTargetMatrix,
    /// A room record's identity or order differs from its regeneration.
    RoomIdentityDiffers,
    /// A regenerated room's compact identifier disagrees with its descriptor.
    RegeneratedIdInconsistent,
    /// A room's exact physical descriptor differs from its regeneration.
    PhysicalDescriptorDiffers,
    /// A room's native aliases are not strictly ordered by key.
    NativeVariantOrder,
    /// A room's native aliases differ from its regeneration.
    NativeVariantsDiffer,
    /// A regenerated alias lies outside its room's descriptor group.
    AliasOutsideDescriptor,
    /// A room's evidence source is not its lexically least alias.
    EvidenceSourcePolicy,
    /// A room's evidence source is not one of its native aliases.
    EvidenceSourceNotNative,
    /// A room's search-effort records are not the four canonical loadouts.
    EffortLoadouts,
    /// A loadout's source-search effort is not over the source doors in order.
    SourceEffortOrder { loadout: EvaluationLoadout },
    /// A loadout's aggregate search effort differs from its sources.
    AggregateEffortDiffers { loadout: EvaluationLoadout },
    /// A room's construction gates are not strictly ordered by key.
    ConstructionGateOrder,
    /// A room's promotion gates are not strictly ordered by key.
    PromotionGateOrder,
    /// A room's promotion-audit config fails its own validation.
    RoomAuditConfigInvalid,
    /// A room's promotion-audit config differs from the shard's.
    RoomAuditConfigDiffers,
    /// A room's promotion gates are not aligned with its native aliases.
    PromotionGatesMisaligned,
    /// A room uses unsupported gate or regeneration policy versions.
    UnsupportedGatePolicy,
    /// The attempt stream is not strictly ordered by key.
    AttemptOrder,
    /// A door or pickup matrix is not strictly ordered by cell.
    TargetRowOrder { pickups: bool },
    /// The attempt stream differs from exact regeneration.
    AttemptsDiffer,
    /// The generation summary differs from exact regeneration.
    GenerationDiffers,
    /// The room count differs from exact regeneration.
    RoomCountDiffers { found: usize, expected: usize },
    /// A positive witness is referenced more than once.
    WitnessReferencedRepeatedly { count: usize },
    /// A positive witness is referenced by no matrix row.
    OrphanPositiveWitness,
    /// The artifact summary disagrees with the generation accounting.
    SummaryGenerationDisagree,
}

#[derive(Clone, Debug, PartialEq, Eq)]
pub enum CorpusAnalysisArtifactError {
    Invalid(ArtifactViolation),
}

#[derive(Clone, Copy, Debug, PartialEq, Eq)]
pub enum CorpusArtifactV3Error {
    Invalid(ArtifactViolation),
}

/// A canonical digest: exactly 16 characters, each a digit or `a`..`f`.
pub open spec fn digest_canonical(value: Seq<u8>) -> bool {
    value.len() == 16 && forall|i: int|
        0 <= i < value.len() ==> (48 <= #[trigger] value[i] <= 57 || 97 <= value[i] <= 102)
}

/// Require a 16-digit lowercase hexadecimal digest.
pub fn validate_digest(value: &str) -> (r: Result<(), CorpusAnalysisArtifactError>)
    ensures
        r is Ok <==> digest_canonical(encode_utf8(value@)),
        r is Err ==> r == Err::<(), CorpusAnalysisArtifactError>(
            CorpusAnalysisArtifactError::Invalid(ArtifactViolation::NonCanonicalDigest),
        ),
{
    let bytes = value.as_bytes();
    if bytes.len() != 16 {
        return Err(CorpusAnalysisArtifactError::Invalid(ArtifactViolation::NonCanonicalDigest));
    }
    let mut k: usize = 0;
    while k < bytes.len()
        invariant
            k <= bytes.len(),
            bytes@ == encode_utf8(value@),
            forall|i: int| 0 <= i < k ==> (48 <= #[trigger] bytes@[i] <= 57 || 97 <= bytes@[i] <= 102),
        decreases bytes.len() - k,
    {
        let b = bytes[k];
        if !((48 <= b && b <= 57) || (97 <= b && b <= 102)) {
            return Err(CorpusAnalysisArtifactError::Invalid(ArtifactViolation::NonCanonicalDigest));
        }
        k = k + 1;
    }
    Ok(())
}

/// Require exactly the canonical loadout order.
pub fn require_exact_loadout_order(values: &[EvaluationLoadout]) -> (r: Result<(), CorpusAnalysisArtifactError>)
    ensures
        r is Ok <==> values@ == all_loadouts(),
        r is Err ==> r == Err::<(), CorpusAnalysisArtifactError>(
            CorpusAnalysisArtifactError::Invalid(ArtifactViolation::LoadoutOrder),
        ),
{
    let all = EvaluationLoadout::all();
    if values.len() != all.len() {
        return Err(CorpusAnalysisArtifactError::Invalid(ArtifactViolation::LoadoutOrder));
    }
    let mut k: usize = 0;
    while k < values.len()
        invariant
            k <= values.len(),
            values.len() == all.len(),
            all@ == all_loadouts(),
            forall|t: int| 0 <= t < k ==> values@[t] == all@[t],
        decreases values.len() - k,
    {
        if values[k] != all[k] {
            return Err(CorpusAnalysisArtifactError::Invalid(ArtifactViolation::LoadoutOrder));
        }
        k = k + 1;
    }
    assert(values@ =~= all_loadouts());
    Ok(())
}

/// An exact fraction in `[0, 1]`.
#[derive(Clone, Copy, Debug, PartialEq, Eq, Structural)]
pub struct ExactFractionRecord {
    pub numerator: usize,
    pub denominator: usize,
}

/// Require a nonzero denominator and a numerator no larger than it.
pub fn validate_fraction(fraction: ExactFractionRecord) -> (r: Result<(), CorpusAnalysisArtifactError>)
    ensures
        r is Ok <==> fraction.denominator != 0 && fraction.numerator <= fraction.denominator,
        r is Err ==> r == Err::<(), CorpusAnalysisArtifactError>(
            CorpusAnalysisArtifactError::Invalid(
                ArtifactViolation::InvalidFraction {
                    numerator: fraction.numerator,
                    denominator: fraction.denominator,
                },
            ),
        ),
{
    if fraction.denominator == 0 || fraction.numerator > fraction.denominator {
        return Err(
            CorpusAnalysisArtifactError::Invalid(
                ArtifactViolation::InvalidFraction {
                    numerator: fraction.numerator,
                    denominator: fraction.denominator,
                },
            ),
        );
    }
    Ok(())
}

/// A loadout whose audit stopped at a budget limit.
#[derive(Clone, Copy, Debug, PartialEq, Eq, Structural)]
pub struct BoundedLoadoutRecord {
    pub loadout: EvaluationLoadout,
    pub limit: AbilityPromotionBudgetLimitV2,
}

/// Aggregate completeness of a directed route's audits.
#[derive(Clone, Debug, PartialEq, Eq)]
pub enum RouteCompletenessRecord {
    CompleteFiniteVocabulary,
    BoundedIncomplete { incomplete_loadouts: Vec<BoundedLoadoutRecord> },
}

/// The bounded audits, in order.
pub open spec fn incomplete_loadouts(audits: Seq<LoadoutControllerAudit>) -> Seq<BoundedLoadoutRecord>
    decreases audits.len(),
{
    if audits.len() == 0 {
        Seq::empty()
    } else {
        let r = incomplete_loadouts(audits.drop_last());
        match audits.last().status {
            LoadoutControllerAuditStatus::CompleteFiniteVocabulary => r,
            LoadoutControllerAuditStatus::BoundedIncomplete { limit } => r.push(
                BoundedLoadoutRecord { loadout: audits.last().loadout, limit },
            ),
        }
    }
}

/// The completeness record owed to a route with these loadout audits.
pub open spec fn completeness_matches(audits: Seq<LoadoutControllerAudit>, c: RouteCompletenessRecord) -> bool {
    let inc = incomplete_loadouts(audits);
    match c {
        RouteCompletenessRecord::CompleteFiniteVocabulary => inc.len() == 0,
        RouteCompletenessRecord::BoundedIncomplete { incomplete_loadouts } => inc.len() > 0
            && incomplete_loadouts@ == inc,
    }
}

/// The completeness record a route's loadout audits determine.
pub fn route_completeness(audits: &[LoadoutControllerAudit]) -> (r: RouteCompletenessRecord)
    ensures
        completeness_matches(audits@, r),
{
    let mut incomplete: Vec<BoundedLoadoutRecord> = Vec::new();
    let mut k: usize = 0;
    while k < audits.len()
        invariant
            k <= audits.len(),
            incomplete@ == incomplete_loadouts(audits@.take(k as int)),
        decreases audits.len() - k,
    {
        assert(audits@.take(k + 1).drop_last() =~= audits@.take(k as int));
        assert(audits@.take(k + 1).last() == audits@[k as int]);
        match audits[k].status {
            LoadoutControllerAuditStatus::CompleteFiniteVocabulary => {},
            LoadoutControllerAuditStatus::BoundedIncomplete { limit } => {
                incomplete.push(BoundedLoadoutRecord { loadout: audits[k].loadout, limit });
            },
        }
        k = k + 1;
    }
    assert(audits@.take(k as int) =~= audits@);
    if incomplete.len() == 0 {
        RouteCompletenessRecord::CompleteFiniteVocabulary
    } else {
        RouteCompletenessRecord::BoundedIncomplete { incomplete_loadouts: incomplete }
    }
}

/// Require a route's recorded completeness to agree with its loadout audits.
pub fn validate_route_completeness(
    audits: &[LoadoutControllerAudit],
    recorded: &RouteCompletenessRecord,
) -> (r: Result<(), CorpusAnalysisArtifactError>)
    ensures
        r is Ok <==> completeness_matches(audits@, *recorded),
        r is Err ==> r == Err::<(), CorpusAnalysisArtifactError>(
            CorpusAnalysisArtifactError::Invalid(ArtifactViolation::CompletenessMismatch),
        ),
{
    let expected = route_completeness(audits);
    let same = match (&expected, recorded) {
        (RouteCompletenessRecord::CompleteFiniteVocabulary, RouteCompletenessRecord::CompleteFiniteVocabulary) => true,
        (
            RouteCompletenessRecord::BoundedIncomplete { incomplete_loadouts: a },
            RouteCompletenessRecord::BoundedIncomplete { incomplete_loadouts: b },
        ) => same_bounded(a, b),
        _ => false,
    };
    if !same {
        return Err(CorpusAnalysisArtifactError::Invalid(ArtifactViolation::CompletenessMismatch));
    }
    Ok(())
}

/// Whether two bounded-loadout lists are equal.
fn same_bounded(a: &Vec<BoundedLoadoutRecord>, b: &Vec<BoundedLoadoutRecord>) -> (r: bool)
    ensures
        r == (a@ == b@),
{
    if a.len() != b.len() {
        return false;
    }
    let mut k: usize = 0;
    while k < a.len()
        invariant
            a.len() == b.len(),
            k <= a.len(),
            forall|t: int| 0 <= t < k ==> a@[t] == b@[t],
        decreases a.len() - k,
    {
        if a[k] != b[k] {
            return false;
        }
        k = k + 1;
    }
    assert(a@ =~= b@);
    true
}

/// Lines of `bytes` split at each newline, as `[u8]::split` yields them.
pub open spec fn split_lines(bytes: Seq<u8>) -> Seq<Seq<u8>>
    decreases bytes.len(),
{
    if bytes.len() == 0 {
        seq![Seq::empty()]
    } else {
        let r = split_lines(bytes.drop_last());
        if bytes.last() == 10 {
            r.push(Seq::empty())
        } else {
            r.update(r.len() - 1, r.last().push(bytes.last()))
        }
    }
}

/// Framing of a canonical JSON-lines file: empty, or newline-terminated lines
/// that are nonempty and free of carriage returns.
pub open spec fn jsonl_frames(bytes: Seq<u8>) -> Result<Seq<Seq<u8>>, ArtifactViolation> {
    if bytes.len() > 0 && bytes.last() != 10 {
        Err(ArtifactViolation::MissingFinalNewline)
    } else if bytes.contains(13) {
        Err(ArtifactViolation::CarriageReturn)
    } else if bytes.len() == 0 {
        Ok(Seq::empty())
    } else {
        let lines = split_lines(bytes.drop_last());
        if exists|i: int| 0 <= i < lines.len() && (#[trigger] lines[i]).len() == 0 {
            Err(
                ArtifactViolation::EmptyLine {
                    line: ((choose|i: int|
                        0 <= i < lines.len() && (#[trigger] lines[i]).len() == 0 && forall|j: int|
                            0 <= j < i ==> (#[trigger] lines[j]).len() != 0) + 1) as usize,
                },
            )
        } else {
            Ok(lines)
        }
    }
}

proof fn lemma_split_lines_nonempty(bytes: Seq<u8>)
    ensures
        split_lines(bytes).len() >= 1,
    decreases bytes.len(),
{
    if bytes.len() > 0 {
        lemma_split_lines_nonempty(bytes.drop_last());
    }
}

/// Split a JSON-lines file into its lines, checking its byte framing.
pub fn split_jsonl(bytes: &[u8]) -> (r: Result<Vec<Vec<u8>>, CorpusAnalysisArtifactError>)
    ensures
        match jsonl_frames(bytes@) {
            Ok(lines) => r matches Ok(v) && v@.len() == lines.len() && forall|i: int|
                0 <= i < lines.len() ==> (#[trigger] v@[i])@ == lines[i],
            Err(e) => r == Err::<Vec<Vec<u8>>, CorpusAnalysisArtifactError>(
                CorpusAnalysisArtifactError::Invalid(e),
            ),
        },
{
    let n = bytes.len();
    if n > 0 && bytes[n - 1] != 10 {
        return Err(CorpusAnalysisArtifactError::Invalid(ArtifactViolation::MissingFinalNewline));
    }
    let mut c: usize = 0;
    while c < n
        invariant
            c <= n,
            n == bytes@.len(),
            n > 0 ==> bytes@[n - 1] == 10,
            forall|t: int| 0 <= t < c ==> bytes@[t] != 13,
        decreases n - c,
    {
        if bytes[c] == 13 {
            assert(bytes@.contains(13));
            return Err(CorpusAnalysisArtifactError::Invalid(ArtifactViolation::CarriageReturn));
        }
        c = c + 1;
    }
    assert(!bytes@.contains(13));
    if n == 0 {
        let empty: Vec<Vec<u8>> = Vec::new();
        return Ok(empty);
    }
    let ghost body = bytes@.drop_last();
    let mut lines: Vec<Vec<u8>> = Vec::new();
    let mut current: Vec<u8> = Vec::new();
    let mut k: usize = 0;
    assert(body.take(0) =~= Seq::<u8>::empty());
    while k < n - 1
        invariant
            k <= n - 1,
            n == bytes@.len(),
            n > 0,
            body == bytes@.drop_last(),
            lines@.len() + 1 == split_lines(body.take(k as int)).len(),
            forall|i: int| 0 <= i < lines@.len() ==> (#[trigger] lines@[i])@ == split_lines(body.take(k as int))[i],
            current@ == split_lines(body.take(k as int)).last(),
        decreases n - 1 - k,
    {
        let ghost pre = split_lines(body.take(k as int));
        assert(body.take(k + 1).drop_last() =~= body.take(k as int));
        assert(body.take(k + 1).last() == bytes@[k as int]);
        proof {
            lemma_split_lines_nonempty(body.take(k as int));
        }
        if bytes[k] == 10 {
            let mut done: Vec<u8> = Vec::new();
            std::mem::swap(&mut done, &mut current);
            lines.push(done);
            assert forall|i: int| 0 <= i < lines@.len() implies (#[trigger] lines@[i])@ == split_lines(
                body.take(k + 1),
            )[i] by {
                if i < lines@.len() - 1 {
                    assert(split_lines(body.take(k + 1))[i] == pre[i]);
                }
            }
        } else {
            current.push(bytes[k]);
            assert forall|i: int| 0 <= i < lines@.len() implies (#[trigger] lines@[i])@ == split_lines(
                body.take(k + 1),
            )[i] by {
                assert(split_lines(body.take(k + 1))[i] == pre[i]);
            }
        }
        k = k + 1;
    }
    assert(body.take(k as int) =~= body);
    let ghost all = split_lines(body);
    lines.push(current);
    assert forall|i: int| 0 <= i < lines@.len() implies (#[trigger] lines@[i])@ == all[i] by {}
    let mut e: usize = 0;
    while e < lines.len()
        invariant
            e <= lines.len(),
            bytes@.len() > 0,
            bytes@.last() == 10,
            !bytes@.contains(13),
            lines@.len() == all.len(),
            all == split_lines(bytes@.drop_last()),
            forall|i: int| 0 <= i < lines@.len() ==> (#[trigger] lines@[i])@ == all[i],
            forall|j: int| 0 <= j < e ==> (#[trigger] all[j]).len() != 0,
        decreases lines.len() - e,
    {
        if lines[e].len() == 0 {
            assert(all[e as int].len() == 0);
            assert(0 <= e < all.len() && all[e as int].len() == 0 && forall|j: int|
                0 <= j < e ==> (#[trigger] all[j]).len() != 0);
            let ghost chosen = choose|i: int|
                0 <= i < all.len() && (#[trigger] all[i]).len() == 0 && forall|j: int|
                    0 <= j < i ==> (#[trigger] all[j]).len() != 0;
            assert(chosen == e as int) by {
                if chosen < e {
                    assert(all[chosen].len() != 0);
                } else if chosen > e {
                    assert(all[e as int].len() != 0);
                }
            }
            return Err(CorpusAnalysisArtifactError::Invalid(ArtifactViolation::EmptyLine { line: e + 1 }));
        }
        e = e + 1;
    }
    Ok(lines)
}

} // verus!
