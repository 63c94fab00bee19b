//! Content-addressed configuration provenance for one deep room analysis.
//!
//! The full inputs are retained beside the content identifier so a consumer
//! can independently recompute the identity instead of trusting an opaque
//! label.
use vstd::prelude::*;
use vstd::bytes::{spec_u32_to_le_bytes, spec_u64_to_le_bytes, u32_to_le_bytes, u64_to_le_bytes};
use vstd::utf8::encode_utf8;

use crate::ability_promotion::RouteControllerAssessmentPolicy;
use crate::actions::Action;
use crate::identity::{
    FNV_OFFSET_BASIS, decimal_digits, decimal_id, fnv1a, fnv_from, fnv_update, hex_id,
    hex_identity, lemma_fnv_concat,
};

verus! {

/// Version of the in-memory room-analysis policy and result shape.
pub const CORPUS_ROOM_ANALYSIS_VERSION: u32 = 2;

/// Version of the content-addressed deep-analysis configuration identity.
pub const CORPUS_ROOM_ANALYSIS_CONFIG_ID_VERSION: u32 = 1;

/// A named sequence of solver actions.
#[derive(Clone, Debug, PartialEq, Eq)]
pub struct SolverMacroConfigV2 {
    pub name: String,
    pub actions: Vec<Action>,
}

/// Direct-controller solver limits and action vocabulary.
#[derive(Clone, Debug, PartialEq, Eq)]
pub struct RouteEvaluationSolverConfigV2 {
    pub max_expanded_nodes: usize,
    pub max_simulated_ticks: usize,
    pub max_ticks_per_path: usize,
    pub beam_width: usize,
    pub position_quantum: i32,
    pub velocity_quantum: i32,
    pub probe_direct_routes: bool,
    pub baseline_preview_max_expanded_nodes: usize,
    pub baseline_preview_max_simulated_ticks: usize,
    pub macros: Vec<SolverMacroConfigV2>,
}

/// Canonical-witness difficulty measurement settings.
#[derive(Clone, Copy, Debug, PartialEq, Eq, Structural)]
pub struct RouteEvaluationDifficultyConfigV2 {
    pub perturbation_grace_ticks: usize,
}

/// The policies a record must match to be current: the solver policy
/// version and the exact route-controller assessment policy.
#[derive(Clone, Copy, Debug, PartialEq, Eq, Structural)]
pub struct CurrentAnalysisPolicies {
    pub solver_policy_version: u32,
    pub route_controller_policy: RouteControllerAssessmentPolicy,
}

/// Exact configuration provenance for one deep room analysis.
#[derive(Clone, Debug, PartialEq, Eq)]
pub struct CorpusRoomAnalysisConfigRecord {
    pub config_id_version: u32,
    pub analysis_policy_version: u32,
    pub solver_policy_version: u32,
    pub route_controller_policy: RouteControllerAssessmentPolicy,
    pub config_id: String,
    pub direct_controller_solver: RouteEvaluationSolverConfigV2,
    pub canonical_witness_difficulty: RouteEvaluationDifficultyConfigV2,
}

#[derive(Clone, Debug, PartialEq, Eq)]
pub enum CorpusRoomAnalysisConfigError {
    UnsupportedConfigIdVersion { expected: u32, actual: u32 },
    UnsupportedAnalysisPolicyVersion { expected: u32, actual: u32 },
    UnsupportedSolverPolicyVersion { expected: u32, actual: u32 },
    UnsupportedRouteControllerPolicy,
    InvalidSolverConfig,
    InvalidMacro { macro_index: usize },
    RestartAction { macro_index: usize },
    ConfigIdMismatch { expected: String, actual: String },
}

/// Little-endian encoding of a `usize` widened to 64 bits.
pub open spec fn usize_bytes(x: usize) -> Seq<u8> {
    spec_u64_to_le_bytes(x as u64)
}

/// One byte for a boolean.
pub open spec fn bool_byte(b: bool) -> Seq<u8> {
    seq![if b { 1u8 } else { 0u8 }]
}

/// Length-prefixed UTF-8 bytes of a string.
pub open spec fn str_bytes(s: Seq<char>) -> Seq<u8> {
    usize_bytes(encode_utf8(s).len() as usize) + encode_utf8(s)
}

/// Identity bytes of one action.
pub open spec fn action_bytes(a: Action) -> Seq<u8> {
    seq![a.move_x as u8, a.move_y as u8] + bool_byte(a.jump) + bool_byte(a.dash) + bool_byte(a.restart)
}

/// Identity bytes of a sequence of actions.
pub open spec fn actions_bytes(actions: Seq<Action>) -> Seq<u8>
    decreases actions.len(),
{
    if actions.len() == 0 {
        Seq::empty()
    } else {
        actions_bytes(actions.drop_last()) + action_bytes(actions.last())
    }
}

/// Identity bytes of one solver macro.
pub open spec fn macro_bytes(m: SolverMacroConfigV2) -> Seq<u8> {
    str_bytes(m.name@) + usize_bytes(m.actions.len()) + actions_bytes(m.actions@)
}

/// Identity bytes of a sequence of solver macros.
pub open spec fn macros_bytes(ms: Seq<SolverMacroConfigV2>) -> Seq<u8>
    decreases ms.len(),
{
    if ms.len() == 0 {
        Seq::empty()
    } else {
        macros_bytes(ms.drop_last()) + macro_bytes(ms.last())
    }
}

/// Every input the configuration identity covers, in a fixed order.
pub open spec fn identity_bytes(r: CorpusRoomAnalysisConfigRecord) -> Seq<u8> {
    let s = r.direct_controller_solver;
    let p = r.route_controller_policy;
    encode_utf8("downwards-corpus-room-analysis-config"@) + spec_u32_to_le_bytes(r.config_id_version)
        + spec_u32_to_le_bytes(r.analysis_policy_version) + spec_u32_to_le_bytes(
        r.solver_policy_version,
    ) + spec_u32_to_le_bytes(p.assessment_version) + spec_u32_to_le_bytes(
        p.direct_probe_audit_version,
    ) + spec_u32_to_le_bytes(p.semantic_trace_version) + spec_u32_to_le_bytes(
        p.controller_demand_version,
    ) + usize_bytes(s.max_expanded_nodes) + usize_bytes(s.max_simulated_ticks) + usize_bytes(
        s.max_ticks_per_path,
    ) + usize_bytes(s.beam_width) + spec_u32_to_le_bytes(s.position_quantum as u32)
        + spec_u32_to_le_bytes(s.velocity_quantum as u32) + bool_byte(s.probe_direct_routes)
        + usize_bytes(s.baseline_preview_max_expanded_nodes) + usize_bytes(
        s.baseline_preview_max_simulated_ticks,
    ) + usize_bytes(s.macros.len()) + macros_bytes(s.macros@) + usize_bytes(
        r.canonical_witness_difficulty.perturbation_grace_ticks,
    )
}

/// The content identifier a record must carry.
pub open spec fn config_id_text(r: CorpusRoomAnalysisConfigRecord) -> Seq<char> {
    hex_identity(
        "downwards-corpus-room-analysis-config-v"@ + decimal_digits(r.config_id_version as nat),
        fnv1a(identity_bytes(r)),
    )
}

/// Some action of the sequence requests a restart.
pub open spec fn has_restart(actions: Seq<Action>) -> bool {
    exists|i: int| 0 <= i < actions.len() && (#[trigger] actions[i]).restart
}

/// The first macro, in order, that is empty or contains a restart.
pub open spec fn macro_error(ms: Seq<SolverMacroConfigV2>) -> Option<CorpusRoomAnalysisConfigError>
    decreases ms.len(),
{
    if ms.len() == 0 {
        None
    } else {
        match macro_error(ms.drop_last()) {
            Some(e) => Some(e),
            None => if ms.last().actions.len() == 0 {
                Some(CorpusRoomAnalysisConfigError::InvalidMacro { macro_index: (ms.len() - 1) as usize })
            } else if has_restart(ms.last().actions@) {
                Some(CorpusRoomAnalysisConfigError::RestartAction { macro_index: (ms.len() - 1) as usize })
            } else {
                None
            },
        }
    }
}

proof fn lemma_macro_error_prefix(ms: Seq<SolverMacroConfigV2>, n: int)
    requires
        0 <= n <= ms.len(),
        macro_error(ms.take(n)) is Some,
    ensures
        macro_error(ms) == macro_error(ms.take(n)),
    decreases ms.len() - n,
{
    if n < ms.len() {
        assert(ms.take(n + 1).drop_last() =~= ms.take(n));
        lemma_macro_error_prefix(ms, n + 1);
    } else {
        assert(ms.take(n) =~= ms);
    }
}

/// Solver limits are nonzero, quanta positive and the vocabulary nonempty.
pub open spec fn solver_structurally_valid(s: RouteEvaluationSolverConfigV2) -> bool {
    s.max_ticks_per_path != 0 && s.beam_width != 0 && s.position_quantum > 0 && s.velocity_quantum > 0
        && s.macros.len() != 0
}

/// The first failed check of a record other than its identifier.
pub open spec fn config_check(r: CorpusRoomAnalysisConfigRecord, current: CurrentAnalysisPolicies) -> Option<
    CorpusRoomAnalysisConfigError,
> {
    if r.config_id_version != CORPUS_ROOM_ANALYSIS_CONFIG_ID_VERSION {
        Some(
            CorpusRoomAnalysisConfigError::UnsupportedConfigIdVersion {
                expected: CORPUS_ROOM_ANALYSIS_CONFIG_ID_VERSION,
                actual: r.config_id_version,
            },
        )
    } else if r.analysis_policy_version != CORPUS_ROOM_ANALYSIS_VERSION {
        Some(
            CorpusRoomAnalysisConfigError::UnsupportedAnalysisPolicyVersion {
                expected: CORPUS_ROOM_ANALYSIS_VERSION,
                actual: r.analysis_policy_version,
            },
        )
    } else if r.solver_policy_version != current.solver_policy_version {
        Some(
            CorpusRoomAnalysisConfigError::UnsupportedSolverPolicyVersion {
                expected: current.solver_policy_version,
                actual: r.solver_policy_version,
            },
        )
    } else if r.route_controller_policy != current.route_controller_policy {
        Some(CorpusRoomAnalysisConfigError::UnsupportedRouteControllerPolicy)
    } else if !solver_structurally_valid(r.direct_controller_solver) {
        Some(CorpusRoomAnalysisConfigError::InvalidSolverConfig)
    } else {
        macro_error(r.direct_controller_solver.macros@)
    }
}

/// Validation outcome of a record: the first failed check, else the
/// identifier must equal the recomputed one.
pub open spec fn validation_holds(
    r: CorpusRoomAnalysisConfigRecord,
    policies: CurrentAnalysisPolicies,
    result: Result<(), CorpusRoomAnalysisConfigError>,
) -> bool {
    match config_check(r, policies) {
        Some(e) => result == Err::<(), CorpusRoomAnalysisConfigError>(e),
        None => if r.config_id@ == config_id_text(r) {
            result is Ok
        } else {
            result matches Err(CorpusRoomAnalysisConfigError::ConfigIdMismatch { expected, actual })
                && expected@ == config_id_text(r) && actual@ == r.config_id@
        },
    }
}

/// Absorb the little-endian bytes of a `u32`.
fn absorb_u32(h: u64, x: u32, Ghost(acc): Ghost<Seq<u8>>) -> (r: u64)
    requires
        h == fnv1a(acc),
    ensures
        r == fnv1a(acc + spec_u32_to_le_bytes(x)),
{
    let b = u32_to_le_bytes(x);
    proof {
        lemma_fnv_concat(FNV_OFFSET_BASIS, acc, b@);
    }
    fnv_update(h, b.as_slice())
}

/// Absorb the little-endian bytes of a `usize` widened to 64 bits.
fn absorb_usize(h: u64, x: usize, Ghost(acc): Ghost<Seq<u8>>) -> (r: u64)
    requires
        h == fnv1a(acc),
    ensures
        r == fnv1a(acc + usize_bytes(x)),
{
    let b = u64_to_le_bytes(x as u64);
    proof {
        lemma_fnv_concat(FNV_OFFSET_BASIS, acc, b@);
    }
    fnv_update(h, b.as_slice())
}

/// Absorb one byte.
fn absorb_byte(h: u64, x: u8, Ghost(acc): Ghost<Seq<u8>>) -> (r: u64)
    requires
        h == fnv1a(acc),
    ensures
        r == fnv1a(acc + seq![x]),
{
    let mut b: Vec<u8> = Vec::new();
    b.push(x);
    assert(b@ =~= seq![x]);
    proof {
        lemma_fnv_concat(FNV_OFFSET_BASIS, acc, b@);
    }
    fnv_update(h, b.as_slice())
}

/// Absorb raw bytes.
fn absorb_bytes(h: u64, bytes: &[u8], Ghost(acc): Ghost<Seq<u8>>) -> (r: u64)
    requires
        h == fnv1a(acc),
    ensures
        r == fnv1a(acc + bytes@),
{
    proof {
        lemma_fnv_concat(FNV_OFFSET_BASIS, acc, bytes@);
    }
    fnv_update(h, bytes)
}

/// Absorb a length-prefixed string.
fn absorb_str(h: u64, s: &str, Ghost(acc): Ghost<Seq<u8>>) -> (r: u64)
    requires
        h == fnv1a(acc),
    ensures
        r == fnv1a(acc + str_bytes(s@)),
{
    let bytes = s.as_bytes();
    let h1 = absorb_usize(h, bytes.len(), Ghost(acc));
    let r = absorb_bytes(h1, bytes, Ghost(acc + usize_bytes(bytes.len())));
    assert(acc + usize_bytes(bytes.len()) + bytes@ =~= acc + str_bytes(s@));
    r
}

/// Absorb one action.
fn absorb_action(h: u64, a: Action, Ghost(acc): Ghost<Seq<u8>>) -> (r: u64)
    requires
        h == fnv1a(acc),
    ensures
        r == fnv1a(acc + action_bytes(a)),
{
    let h1 = absorb_byte(h, a.move_x as u8, Ghost(acc));
    let ghost a1 = acc + seq![a.move_x as u8];
    let h2 = absorb_byte(h1, a.move_y as u8, Ghost(a1));
    let ghost a2 = a1 + seq![a.move_y as u8];
    let h3 = absorb_byte(h2, if a.jump { 1u8 } else { 0u8 }, Ghost(a2));
    let ghost a3 = a2 + bool_byte(a.jump);
    let h4 = absorb_byte(h3, if a.dash { 1u8 } else { 0u8 }, Ghost(a3));
    let ghost a4 = a3 + bool_byte(a.dash);
    let h5 = absorb_byte(h4, if a.restart { 1u8 } else { 0u8 }, Ghost(a4));
    assert(a4 + bool_byte(a.restart) =~= acc + action_bytes(a));
    h5
}

/// Absorb one solver macro.
fn absorb_macro(h: u64, m: &SolverMacroConfigV2, Ghost(acc): Ghost<Seq<u8>>) -> (r: u64)
    requires
        h == fnv1a(acc),
    ensures
        r == fnv1a(acc + macro_bytes(*m)),
{
    let mut h = absorb_str(h, m.name.as_str(), Ghost(acc));
    let ghost a1 = acc + str_bytes(m.name@);
    h = absorb_usize(h, m.actions.len(), Ghost(a1));
    let ghost a2 = a1 + usize_bytes(m.actions.len());
    let mut k: usize = 0;
    assert(m.actions@.take(0) =~= Seq::<Action>::empty());
    assert(a2 + actions_bytes(m.actions@.take(0)) =~= a2);
    while k < m.actions.len()
        invariant
            k <= m.actions.len(),
            h == fnv1a(a2 + actions_bytes(m.actions@.take(k as int))),
        decreases m.actions.len() - k,
    {
        let ghost before = a2 + actions_bytes(m.actions@.take(k as int));
        h = absorb_action(h, m.actions[k], Ghost(before));
        assert(m.actions@.take(k + 1).drop_last() =~= m.actions@.take(k as int));
        assert(before + action_bytes(m.actions@[k as int]) =~= a2 + actions_bytes(m.actions@.take(k + 1)));
        k = k + 1;
    }
    assert(m.actions@.take(k as int) =~= m.actions@);
    assert(a2 + actions_bytes(m.actions@) =~= acc + macro_bytes(*m));
    h
}

/// Whether a sequence of actions contains a restart.
fn contains_restart(actions: &Vec<Action>) -> (r: bool)
    ensures
        r == has_restart(actions@),
{
    let mut k: usize = 0;
    while k < actions.len()
        invariant
            k <= actions.len(),
            forall|t: int| 0 <= t < k ==> !(#[trigger] actions@[t]).restart,
        decreases actions.len() - k,
    {
        if actions[k].restart {
            return true;
        }
        k = k + 1;
    }
    false
}

impl CorpusRoomAnalysisConfigRecord {
    /// Freeze the solver and difficulty inputs into a validated,
    /// content-addressed record under the current policies.
    pub fn from_config(
        direct_controller_solver: RouteEvaluationSolverConfigV2,
        canonical_witness_difficulty: RouteEvaluationDifficultyConfigV2,
        current: CurrentAnalysisPolicies,
    ) -> (r: Result<Self, CorpusRoomAnalysisConfigError>)
        ensures
            match r {
                Ok(rec) => {
                    &&& rec.config_id_version == CORPUS_ROOM_ANALYSIS_CONFIG_ID_VERSION
                    &&& rec.analysis_policy_version == CORPUS_ROOM_ANALYSIS_VERSION
                    &&& rec.solver_policy_version == current.solver_policy_version
                    &&& rec.route_controller_policy == current.route_controller_policy
                    &&& rec.direct_controller_solver == direct_controller_solver
                    &&& rec.canonical_witness_difficulty == canonical_witness_difficulty
                    &&& rec.config_id@ == config_id_text(rec)
                },
                Err(e) => Some(e) == if !solver_structurally_valid(direct_controller_solver) {
                    Some(CorpusRoomAnalysisConfigError::InvalidSolverConfig)
                } else {
                    macro_error(direct_controller_solver.macros@)
                },
            },
            r is Ok <==> solver_structurally_valid(direct_controller_solver) && macro_error(
                direct_controller_solver.macros@,
            ) is None,
    {
        let mut record = CorpusRoomAnalysisConfigRecord {
            config_id_version: CORPUS_ROOM_ANALYSIS_CONFIG_ID_VERSION,
            analysis_policy_version: CORPUS_ROOM_ANALYSIS_VERSION,
            solver_policy_version: current.solver_policy_version,
            route_controller_policy: current.route_controller_policy,
            config_id: String::new(),
            direct_controller_solver,
            canonical_witness_difficulty,
        };
        let id = record.recomputed_config_id();
        record.config_id = id;
        match record.validate(current) {
            Ok(()) => Ok(record),
            Err(e) => Err(e),
        }
    }

    /// Check the record's versions, policies, solver structure and macros,
    /// then that its identifier equals the recomputed one.
    pub fn validate(&self, current: CurrentAnalysisPolicies) -> (r: Result<(), CorpusRoomAnalysisConfigError>)
        ensures
            validation_holds(*self, current, r),
    {
        if self.config_id_version != CORPUS_ROOM_ANALYSIS_CONFIG_ID_VERSION {
            return Err(
                CorpusRoomAnalysisConfigError::UnsupportedConfigIdVersion {
                    expected: CORPUS_ROOM_ANALYSIS_CONFIG_ID_VERSION,
                    actual: self.config_id_version,
                },
            );
        }
        if self.analysis_policy_version != CORPUS_ROOM_ANALYSIS_VERSION {
            return Err(
                CorpusRoomAnalysisConfigError::UnsupportedAnalysisPolicyVersion {
                    expected: CORPUS_ROOM_ANALYSIS_VERSION,
                    actual: self.analysis_policy_version,
                },
            );
        }
        if self.solver_policy_version != current.solver_policy_version {
            return Err(
                CorpusRoomAnalysisConfigError::UnsupportedSolverPolicyVersion {
                    expected: current.solver_policy_version,
                    actual: self.solver_policy_version,
                },
            );
        }
        if self.route_controller_policy != current.route_controller_policy {
            return Err(CorpusRoomAnalysisConfigError::UnsupportedRouteControllerPolicy);
        }
        let solver = &self.direct_controller_solver;
        if solver.max_ticks_per_path == 0 || solver.beam_width == 0 || solver.position_quantum <= 0
            || solver.velocity_quantum <= 0 || solver.macros.len() == 0 {
            return Err(CorpusRoomAnalysisConfigError::InvalidSolverConfig);
        }
        let mut i: usize = 0;
        assert(solver.macros@.take(0) =~= Seq::<SolverMacroConfigV2>::empty());
        while i < solver.macros.len()
            invariant
                i <= solver.macros.len(),
                solver == &self.direct_controller_solver,
                config_check(*self, current) == macro_error(solver.macros@),
                macro_error(solver.macros@.take(i as int)) is None,
            decreases solver.macros.len() - i,
        {
            assert(solver.macros@.take(i + 1).drop_last() =~= solver.macros@.take(i as int));
            assert(solver.macros@.take(i + 1).last() == solver.macros@[i as int]);
            if solver.macros[i].actions.len() == 0 {
                proof {
                    lemma_macro_error_prefix(solver.macros@, i + 1);
                }
                return Err(CorpusRoomAnalysisConfigError::InvalidMacro { macro_index: i });
            }
            if contains_restart(&solver.macros[i].actions) {
                proof {
                    lemma_macro_error_prefix(solver.macros@, i + 1);
                }
                return Err(CorpusRoomAnalysisConfigError::RestartAction { macro_index: i });
            }
            i = i + 1;
        }
        assert(solver.macros@.take(i as int) =~= solver.macros@);
        let expected = self.recomputed_config_id();
        if self.config_id != expected {
            return Err(
                CorpusRoomAnalysisConfigError::ConfigIdMismatch {
                    expected,
                    actual: self.config_id.clone(),
                },
            );
        }
        Ok(())
    }

    /// Recompute the content identifier from every identity input.
    pub fn recomputed_config_id(&self) -> (r: String)
        ensures
            r@ == config_id_text(*self),
    {
        let solver = &self.direct_controller_solver;
        let p = self.route_controller_policy;
        let domain = "downwards-corpus-room-analysis-config";
        let ghost d = encode_utf8(domain@);
        let mut h = absorb_bytes(FNV_OFFSET_BASIS, domain.as_bytes(), Ghost(Seq::empty()));
        assert(Seq::<u8>::empty() + d =~= d);
        let ghost mut acc = d;
        h = absorb_u32(h, self.config_id_version, Ghost(acc));
        proof { acc = acc + spec_u32_to_le_bytes(self.config_id_version); }
        h = absorb_u32(h, self.analysis_policy_version, Ghost(acc));
        proof { acc = acc + spec_u32_to_le_bytes(self.analysis_policy_version); }
        h = absorb_u32(h, self.solver_policy_version, Ghost(acc));
        proof { acc = acc + spec_u32_to_le_bytes(self.solver_policy_version); }
        h = absorb_u32(h, p.assessment_version, Ghost(acc));
        proof { acc = acc + spec_u32_to_le_bytes(p.assessment_version); }
        h = absorb_u32(h, p.direct_probe_audit_version, Ghost(acc));
        proof { acc = acc + spec_u32_to_le_bytes(p.direct_probe_audit_version); }
        h = absorb_u32(h, p.semantic_trace_version, Ghost(acc));
        proof { acc = acc + spec_u32_to_le_bytes(p.semantic_trace_version); }
        h = absorb_u32(h, p.controller_demand_version, Ghost(acc));
        proof { acc = acc + spec_u32_to_le_bytes(p.controller_demand_version); }
        h = absorb_usize(h, solver.max_expanded_nodes, Ghost(acc));
        proof { acc = acc + usize_bytes(solver.max_expanded_nodes); }
        h = absorb_usize(h, solver.max_simulated_ticks, Ghost(acc));
        proof { acc = acc + usize_bytes(solver.max_simulated_ticks); }
        h = absorb_usize(h, solver.max_ticks_per_path, Ghost(acc));
        proof { acc = acc + usize_bytes(solver.max_ticks_per_path); }
        h = absorb_usize(h, solver.beam_width, Ghost(acc));
        proof { acc = acc + usize_bytes(solver.beam_width); }
        h = absorb_u32(h, solver.position_quantum as u32, Ghost(acc));
        proof { acc = acc + spec_u32_to_le_bytes(solver.position_quantum as u32); }
        h = absorb_u32(h, solver.velocity_quantum as u32, Ghost(acc));
        proof { acc = acc + spec_u32_to_le_bytes(solver.velocity_quantum as u32); }
        h = absorb_byte(h, if solver.probe_direct_routes { 1u8 } else { 0u8 }, Ghost(acc));
        proof { acc = acc + bool_byte(solver.probe_direct_routes); }
        h = absorb_usize(h, solver.baseline_preview_max_expanded_nodes, Ghost(acc));
        proof { acc = acc + usize_bytes(solver.baseline_preview_max_expanded_nodes); }
        h = absorb_usize(h, solver.baseline_preview_max_simulated_ticks, Ghost(acc));
        proof { acc = acc + usize_bytes(solver.baseline_preview_max_simulated_ticks); }
        h = absorb_usize(h, solver.macros.len(), Ghost(acc));
        proof { acc = acc + usize_bytes(solver.macros.len()); }
        let ghost base = acc;
        let mut k: usize = 0;
        assert(solver.macros@.take(0) =~= Seq::<SolverMacroConfigV2>::empty());
        assert(base + macros_bytes(solver.macros@.take(0)) =~= base);
        while k < solver.macros.len()
            invariant
                k <= solver.macros.len(),
                solver == &self.direct_controller_solver,
                h == fnv1a(base + macros_bytes(solver.macros@.take(k as int))),
            decreases solver.macros.len() - k,
        {
            let ghost before = base + macros_bytes(solver.macros@.take(k as int));
            h = absorb_macro(h, &solver.macros[k], Ghost(before));
            assert(solver.macros@.take(k + 1).drop_last() =~= solver.macros@.take(k as int));
            assert(before + macro_bytes(solver.macros@[k as int]) =~= base + macros_bytes(
                solver.macros@.take(k + 1),
            ));
            k = k + 1;
        }
        assert(solver.macros@.take(k as int) =~= solver.macros@);
        proof { acc = base + macros_bytes(solver.macros@); }
        h = absorb_usize(h, self.canonical_witness_difficulty.perturbation_grace_ticks, Ghost(acc));
        proof {
            acc = acc + usize_bytes(self.canonical_witness_difficulty.perturbation_grace_ticks);
            assert(acc =~= identity_bytes(*self));
        }
        let prefix = decimal_id("downwards-corpus-room-analysis-config-v", self.config_id_version as u64);
        hex_id(prefix.as_str(), h)
    }
}

} // verus!
