//! Controller demand of a witness, its coordinates, and Pareto dominance
//! over them (lower is easier in every coordinate).
use vstd::prelude::*;

verus! {

/// Transparent controller demand of one witness.
#[derive(Clone, Copy, Debug, PartialEq, Eq, Structural)]
pub struct ControllerDemandRecord {
    pub run_only: bool,
    pub monotone_simple: bool,
    pub ordinary_jump_events: usize,
    pub wall_jump_events: usize,
    pub dash_events: usize,
    pub jump_press_edges: usize,
    pub dash_press_edges: usize,
    pub horizontal_reversals: usize,
    pub vertical_input_changes: usize,
    pub dash_direction_changes: usize,
    pub vertical_decisions: usize,
    pub semantic_spans: usize,
    pub semantic_transitions: usize,
    pub duration_ticks: usize,
}

/// The coordinates by which witnesses are compared; lower is easier.
#[derive(Clone, Copy, Debug, PartialEq, Eq, Structural)]
pub struct ControllerDemandCoordinatesRecord {
    pub controller_class: u8,
    pub ability_events: usize,
    pub horizontal_reversals: usize,
    pub vertical_decisions: usize,
    pub semantic_spans: usize,
    pub semantic_transitions: usize,
    pub duration_ticks: usize,
}

/// Controller class: 0 run-only, 1 monotone-simple, 2 otherwise.
pub open spec fn controller_class(d: ControllerDemandRecord) -> u8 {
    if d.run_only {
        0
    } else if d.monotone_simple {
        1
    } else {
        2
    }
}

/// The coordinates a demand determines; ability events saturate.
pub open spec fn demand_coordinates(d: ControllerDemandRecord) -> ControllerDemandCoordinatesRecord {
    ControllerDemandCoordinatesRecord {
        controller_class: controller_class(d),
        ability_events: if d.wall_jump_events + d.dash_events > usize::MAX {
            usize::MAX
        } else {
            (d.wall_jump_events + d.dash_events) as usize
        },
        horizontal_reversals: d.horizontal_reversals,
        vertical_decisions: d.vertical_decisions,
        semantic_spans: d.semantic_spans,
        semantic_transitions: d.semantic_transitions,
        duration_ticks: d.duration_ticks,
    }
}

/// The coordinates of a transparent demand.
pub fn coordinates_from_demand(demand: ControllerDemandRecord) -> (r: ControllerDemandCoordinatesRecord)
    ensures
        r == demand_coordinates(demand),
{
    ControllerDemandCoordinatesRecord {
        controller_class: if demand.run_only {
            0
        } else if demand.monotone_simple {
            1
        } else {
            2
        },
        ability_events: demand.wall_jump_events.saturating_add(demand.dash_events),
        horizontal_reversals: demand.horizontal_reversals,
        vertical_decisions: demand.vertical_decisions,
        semantic_spans: demand.semantic_spans,
        semantic_transitions: demand.semantic_transitions,
        duration_ticks: demand.duration_ticks,
    }
}

/// `left` is no harder than `right` in every coordinate.
pub open spec fn no_harder(left: ControllerDemandCoordinatesRecord, right: ControllerDemandCoordinatesRecord) -> bool {
    left.controller_class <= right.controller_class && left.ability_events <= right.ability_events
        && left.horizontal_reversals <= right.horizontal_reversals && left.vertical_decisions
        <= right.vertical_decisions && left.semantic_spans <= right.semantic_spans
        && left.semantic_transitions <= right.semantic_transitions && left.duration_ticks
        <= right.duration_ticks
}

/// `left` is strictly easier than `right` in some coordinate.
pub open spec fn somewhere_easier(
    left: ControllerDemandCoordinatesRecord,
    right: ControllerDemandCoordinatesRecord,
) -> bool {
    left.controller_class < right.controller_class || left.ability_events < right.ability_events
        || left.horizontal_reversals < right.horizontal_reversals || left.vertical_decisions
        < right.vertical_decisions || left.semantic_spans < right.semantic_spans
        || left.semantic_transitions < right.semantic_transitions || left.duration_ticks
        < right.duration_ticks
}

/// Pareto dominance: no harder anywhere and strictly easier somewhere.
pub open spec fn dominates(left: ControllerDemandCoordinatesRecord, right: ControllerDemandCoordinatesRecord) -> bool {
    no_harder(left, right) && somewhere_easier(left, right)
}

/// Whether `left` Pareto-dominates `right`.
pub fn coordinates_dominate(
    left: ControllerDemandCoordinatesRecord,
    right: ControllerDemandCoordinatesRecord,
) -> (r: bool)
    ensures
        r == dominates(left, right),
{
    let no_harder = left.controller_class <= right.controller_class && left.ability_events
        <= right.ability_events && left.horizontal_reversals <= right.horizontal_reversals
        && left.vertical_decisions <= right.vertical_decisions && left.semantic_spans
        <= right.semantic_spans && left.semantic_transitions <= right.semantic_transitions
        && left.duration_ticks <= right.duration_ticks;
    let strictly_easier = left.controller_class < right.controller_class || left.ability_events
        < right.ability_events || left.horizontal_reversals < right.horizontal_reversals
        || left.vertical_decisions < right.vertical_decisions || left.semantic_spans
        < right.semantic_spans || left.semantic_transitions < right.semantic_transitions
        || left.duration_ticks < right.duration_ticks;
    no_harder && strictly_easier
}

/// Whether recorded `left` Pareto-dominates recorded `right`: no harder
/// anywhere and not equal.
pub fn record_coordinates_dominate(
    left: ControllerDemandCoordinatesRecord,
    right: ControllerDemandCoordinatesRecord,
) -> (r: bool)
    ensures
        r == (no_harder(left, right) && left != right),
{
    let no_harder = left.controller_class <= right.controller_class && left.ability_events
        <= right.ability_events && left.horizontal_reversals <= right.horizontal_reversals
        && left.vertical_decisions <= right.vertical_decisions && left.semantic_spans
        <= right.semantic_spans && left.semantic_transitions <= right.semantic_transitions
        && left.duration_ticks <= right.duration_ticks;
    no_harder && left != right
}

/// The two dominance tests agree: no harder and unequal is no harder and
/// strictly easier somewhere.
pub proof fn lemma_record_dominance_agrees(
    left: ControllerDemandCoordinatesRecord,
    right: ControllerDemandCoordinatesRecord,
)
    ensures
        (no_harder(left, right) && left != right) == dominates(left, right),
{
}

/// Dominance is a strict partial order: irreflexive and transitive.
pub proof fn lemma_dominance_strict_order(
    a: ControllerDemandCoordinatesRecord,
    b: ControllerDemandCoordinatesRecord,
    c: ControllerDemandCoordinatesRecord,
)
    ensures
        !dominates(a, a),
        dominates(a, b) && dominates(b, c) ==> dominates(a, c),
        dominates(a, b) ==> !dominates(b, a),
{
}

/// Candidate `c` of `candidates` is dominated by another candidate.
pub open spec fn dominated_among(
    coords: Seq<ControllerDemandCoordinatesRecord>,
    candidates: Seq<usize>,
    c: usize,
) -> bool {
    exists|j: int|
        0 <= j < candidates.len() && candidates[j] != c && dominates(
            coords[candidates[j] as int],
            coords[c as int],
        )
}

/// The candidates no other candidate dominates, in candidate order.
pub open spec fn pareto_front(
    coords: Seq<ControllerDemandCoordinatesRecord>,
    candidates: Seq<usize>,
) -> Seq<usize> {
    candidates.filter(|c: usize| !dominated_among(coords, candidates, c))
}

/// The indices among `candidates` whose witness coordinates no other
/// candidate dominates, in candidate order.
pub fn pareto_indices(
    coords: &[ControllerDemandCoordinatesRecord],
    candidates: &[usize],
) -> (r: Vec<usize>)
    requires
        forall|i: int| 0 <= i < candidates.len() ==> (#[trigger] candidates@[i]) < coords.len(),
    ensures
        r@ == pareto_front(coords@, candidates@),
{
    let ghost front = |c: usize| !dominated_among(coords@, candidates@, c);
    let mut r: Vec<usize> = Vec::new();
    let mut i: usize = 0;
    while i < candidates.len()
        invariant
            i <= candidates.len(),
            forall|t: int| 0 <= t < candidates.len() ==> (#[trigger] candidates@[t]) < coords.len(),
            front == (|c: usize| !dominated_among(coords@, candidates@, c)),
            r@ == candidates@.take(i as int).filter(front),
        decreases candidates.len() - i,
    {
        let c = candidates[i];
        let mut dominated = false;
        let mut j: usize = 0;
        while j < candidates.len()
            invariant
                i < candidates.len(),
                c == candidates@[i as int],
                j <= candidates.len(),
                forall|t: int| 0 <= t < candidates.len() ==> (#[trigger] candidates@[t]) < coords.len(),
                dominated == exists|t: int|
                    0 <= t < j && candidates@[t] != c && dominates(
                        coords@[candidates@[t] as int],
                        coords@[c as int],
                    ),
            decreases candidates.len() - j,
        {
            let other = candidates[j];
            if other != c && coordinates_dominate(coords[other], coords[c]) {
                dominated = true;
            }
            j = j + 1;
        }
        proof {
            reveal(Seq::filter);
            assert(candidates@.take(i + 1).drop_last() =~= candidates@.take(i as int));
            assert(dominated == dominated_among(coords@, candidates@, c));
        }
        if !dominated {
            r.push(c);
        }
        i = i + 1;
    }
    assert(candidates@.take(i as int) =~= candidates@);
    r
}

/// Members of a Pareto front do not dominate one another.
pub proof fn lemma_pareto_front_antichain(
    coords: Seq<ControllerDemandCoordinatesRecord>,
    candidates: Seq<usize>,
    a: usize,
    b: usize,
)
    requires
        pareto_front(coords, candidates).contains(a),
        pareto_front(coords, candidates).contains(b),
        candidates.contains(a),
        a != b,
    ensures
        !dominates(coords[a as int], coords[b as int]),
{
    let pred = |c: usize| !dominated_among(coords, candidates, c);
    let f = candidates.filter(pred);
    let k = choose|k: int| 0 <= k < f.len() && f[k] == b;
    candidates.lemma_filter_pred(pred, k);
    let i = choose|i: int| 0 <= i < candidates.len() && candidates[i] == a;
    if dominates(coords[a as int], coords[b as int]) {
        assert(dominated_among(coords, candidates, b));
    }
}

} // verus!
