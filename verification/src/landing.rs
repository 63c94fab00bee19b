//! Landing-precision aggregates over the canonical positive routes of a room.
use vstd::prelude::*;

use crate::canonical_routes::CanonicalRouteVectorRecord;
use crate::ability_promotion::EvaluationLoadout;
use crate::checks::{ArtifactViolation, CorpusAnalysisArtifactError};
use crate::metrics::{
    IntegerCoordinateDistributionRecord, SignedIntegerCoordinateDistributionRecord, signed_distribution,
    signed_distribution_record, unsigned_distribution, unsigned_distribution_record,
};

verus! {

/// What supports the player at a landing.
#[derive(Clone, Copy, Debug, PartialEq, Eq, Structural)]
pub enum LandingSupportKindRecord {
    Solid,
    OneWay,
    Mixed,
}

/// One measured landing of a replay.
#[derive(Clone, Copy, Debug, PartialEq, Eq, Structural)]
pub struct LandingSampleRecord {
    pub replay_tick: usize,
    pub player_x: i32,
    pub player_y: i32,
    pub player_width: i32,
    pub player_height: i32,
    pub surface_y: i32,
    pub support_left: i32,
    pub support_right: i32,
    pub support_kind: LandingSupportKindRecord,
    pub footprint_overlap_pixels: u32,
    pub left_edge_margin_pixels: i32,
    pub right_edge_margin_pixels: i32,
}

/// Landing precision of one canonical positive route.
#[derive(Clone, Debug, PartialEq, Eq)]
pub struct LandingPrecisionRecord {
    pub version: u32,
    pub interpretation: String,
    pub inspected_ticks: usize,
    pub landing_event_count: usize,
    pub samples: Vec<LandingSampleRecord>,
    pub unmeasured_landing_ticks: Vec<usize>,
    pub minimum_footprint_overlap_pixels: Option<u32>,
    pub minimum_edge_margin_pixels: Option<i32>,
    pub narrowest_support_width_pixels: Option<u32>,
    pub edge_overhang_landings: usize,
    pub one_way_or_mixed_landings: usize,
}

/// Why a landing coordinate has no distribution.
#[derive(Clone, Copy, Debug, PartialEq, Eq, Structural)]
pub enum LandingCoordinateNotApplicableReasonRecord {
    NoCanonicalPositiveRoutes,
    NoLandingEvents,
    NoMeasuredLandings,
}

/// A landing-coordinate distribution, or why there is none.
#[derive(Clone, Copy, Debug, PartialEq, Eq, Structural)]
pub enum LandingCoordinateEvidenceRecord<T> {
    Observed { value: T },
    NotApplicable { reason: LandingCoordinateNotApplicableReasonRecord },
}

/// Landing precision aggregated over a set of routes.
#[derive(Clone, Copy, Debug, PartialEq, Eq, Structural)]
pub struct LandingPrecisionAggregateRecord {
    pub canonical_positive_route_count: usize,
    pub inspected_ticks: usize,
    pub routes_with_landing_events: usize,
    pub routes_without_landing_events: usize,
    pub routes_with_measured_landings: usize,
    pub routes_with_unmeasured_landings: usize,
    pub routes_with_only_unmeasured_landings: usize,
    pub landing_event_count: usize,
    pub measured_landing_count: usize,
    pub unmeasured_landing_count: usize,
    pub minimum_edge_margin_pixels: LandingCoordinateEvidenceRecord<SignedIntegerCoordinateDistributionRecord>,
    pub footprint_overlap_pixels: LandingCoordinateEvidenceRecord<IntegerCoordinateDistributionRecord>,
    pub support_width_pixels: LandingCoordinateEvidenceRecord<IntegerCoordinateDistributionRecord>,
    pub edge_overhang_landings: usize,
    pub one_way_or_mixed_landings: usize,
}

/// `a + b`, or the largest `usize` when the sum does not fit.
pub open spec fn sat_add(a: usize, b: usize) -> usize {
    if a + b > usize::MAX {
        usize::MAX
    } else {
        (a + b) as usize
    }
}

/// Saturating sum of `f` over the routes, accumulated in order.
pub open spec fn route_sum(rs: Seq<LandingPrecisionRecord>, f: spec_fn(LandingPrecisionRecord) -> usize) -> usize
    decreases rs.len(),
{
    if rs.len() == 0 {
        0
    } else {
        sat_add(route_sum(rs.drop_last(), f), f(rs.last()))
    }
}

/// Number of routes satisfying `p`.
pub open spec fn route_count(rs: Seq<LandingPrecisionRecord>, p: spec_fn(LandingPrecisionRecord) -> bool) -> nat
    decreases rs.len(),
{
    if rs.len() == 0 {
        0
    } else {
        route_count(rs.drop_last(), p) + if p(rs.last()) { 1nat } else { 0nat }
    }
}

/// Every measured sample of the routes, in route order.
pub open spec fn all_samples(rs: Seq<LandingPrecisionRecord>) -> Seq<LandingSampleRecord>
    decreases rs.len(),
{
    if rs.len() == 0 {
        Seq::empty()
    } else {
        all_samples(rs.drop_last()) + rs.last().samples@
    }
}

/// Number of samples satisfying `p`.
pub open spec fn sample_count(ss: Seq<LandingSampleRecord>, p: spec_fn(LandingSampleRecord) -> bool) -> nat
    decreases ss.len(),
{
    if ss.len() == 0 {
        0
    } else {
        sample_count(ss.drop_last(), p) + if p(ss.last()) { 1nat } else { 0nat }
    }
}

/// The smaller of the two edge margins of a landing.
pub open spec fn edge_margin(s: LandingSampleRecord) -> i32 {
    if s.left_edge_margin_pixels <= s.right_edge_margin_pixels {
        s.left_edge_margin_pixels
    } else {
        s.right_edge_margin_pixels
    }
}

/// Support width of a landing: the support's extent, saturated to `i32`,
/// as a `usize`; the largest `usize` when the support is inverted.
pub open spec fn support_width(s: LandingSampleRecord) -> usize {
    let w = s.support_right - s.support_left;
    if w < 0 {
        usize::MAX
    } else if w > i32::MAX {
        i32::MAX as usize
    } else {
        w as usize
    }
}

pub open spec fn margins_of(ss: Seq<LandingSampleRecord>) -> Seq<i32> {
    ss.map_values(|s: LandingSampleRecord| edge_margin(s))
}

pub open spec fn overlaps_of(ss: Seq<LandingSampleRecord>) -> Seq<usize> {
    ss.map_values(|s: LandingSampleRecord| s.footprint_overlap_pixels as usize)
}

pub open spec fn widths_of(ss: Seq<LandingSampleRecord>) -> Seq<usize> {
    ss.map_values(|s: LandingSampleRecord| support_width(s))
}

/// The aggregate of a set of routes' landing precision.
pub open spec fn landing_aggregate(rs: Seq<LandingPrecisionRecord>) -> LandingPrecisionAggregateRecord {
    let samples = all_samples(rs);
    let with_events = route_count(rs, |r: LandingPrecisionRecord| r.landing_event_count > 0);
    let events = route_sum(rs, |r: LandingPrecisionRecord| r.landing_event_count);
    let reason = if rs.len() == 0 {
        LandingCoordinateNotApplicableReasonRecord::NoCanonicalPositiveRoutes
    } else if events == 0 {
        LandingCoordinateNotApplicableReasonRecord::NoLandingEvents
    } else {
        LandingCoordinateNotApplicableReasonRecord::NoMeasuredLandings
    };
    LandingPrecisionAggregateRecord {
        canonical_positive_route_count: rs.len() as usize,
        inspected_ticks: route_sum(rs, |r: LandingPrecisionRecord| r.inspected_ticks),
        routes_with_landing_events: with_events as usize,
        routes_without_landing_events: (rs.len() - with_events) as usize,
        routes_with_measured_landings: route_count(rs, |r: LandingPrecisionRecord| r.samples@.len() > 0) as usize,
        routes_with_unmeasured_landings: route_count(
            rs,
            |r: LandingPrecisionRecord| r.unmeasured_landing_ticks@.len() > 0,
        ) as usize,
        routes_with_only_unmeasured_landings: route_count(
            rs,
            |r: LandingPrecisionRecord| r.samples@.len() == 0 && r.unmeasured_landing_ticks@.len() > 0,
        ) as usize,
        landing_event_count: events,
        measured_landing_count: route_sum(rs, |r: LandingPrecisionRecord| r.samples@.len() as usize),
        unmeasured_landing_count: route_sum(rs, |r: LandingPrecisionRecord| r.unmeasured_landing_ticks@.len() as usize),
        minimum_edge_margin_pixels: if samples.len() == 0 {
            LandingCoordinateEvidenceRecord::NotApplicable { reason }
        } else {
            LandingCoordinateEvidenceRecord::Observed { value: signed_distribution(margins_of(samples)) }
        },
        footprint_overlap_pixels: if samples.len() == 0 {
            LandingCoordinateEvidenceRecord::NotApplicable { reason }
        } else {
            LandingCoordinateEvidenceRecord::Observed { value: unsigned_distribution(overlaps_of(samples)) }
        },
        support_width_pixels: if samples.len() == 0 {
            LandingCoordinateEvidenceRecord::NotApplicable { reason }
        } else {
            LandingCoordinateEvidenceRecord::Observed { value: unsigned_distribution(widths_of(samples)) }
        },
        edge_overhang_landings: sample_count(samples, |s: LandingSampleRecord| edge_margin(s) < 0) as usize,
        one_way_or_mixed_landings: sample_count(
            samples,
            |s: LandingSampleRecord| s.support_kind != LandingSupportKindRecord::Solid,
        ) as usize,
    }
}

/// The route is of `loadout`, or every route is selected.
pub open spec fn selects(loadout: Option<EvaluationLoadout>, route: CanonicalRouteVectorRecord) -> bool {
    match loadout {
        None => true,
        Some(l) => route.loadout == l,
    }
}

/// Landing precision of the selected routes, in route order.
pub open spec fn selected_landings(routes: Seq<CanonicalRouteVectorRecord>, loadout: Option<EvaluationLoadout>) -> Seq<
    LandingPrecisionRecord,
>
    decreases routes.len(),
{
    if routes.len() == 0 {
        Seq::empty()
    } else {
        let prev = selected_landings(routes.drop_last(), loadout);
        if selects(loadout, routes.last()) {
            prev.push(routes.last().landing_precision)
        } else {
            prev
        }
    }
}

/// Selecting fewer routes selects fewer samples.
proof fn lemma_selected_samples(routes: Seq<CanonicalRouteVectorRecord>, loadout: EvaluationLoadout)
    ensures
        all_samples(selected_landings(routes, Some(loadout))).len() <= all_samples(selected_landings(routes, None)).len(),
    decreases routes.len(),
{
    if routes.len() > 0 {
        lemma_selected_samples(routes.drop_last(), loadout);
        let a = selected_landings(routes.drop_last(), Some(loadout));
        let b = selected_landings(routes.drop_last(), None);
        let x = routes.last().landing_precision;
        assert(b.push(x).drop_last() =~= b);
        if selects(Some(loadout), routes.last()) {
            assert(a.push(x).drop_last() =~= a);
        }
    }
}

/// A prefix of the routes selects a prefix of the samples.
proof fn lemma_selected_prefix(routes: Seq<CanonicalRouteVectorRecord>, loadout: Option<EvaluationLoadout>, k: int)
    requires
        0 <= k <= routes.len(),
    ensures
        all_samples(selected_landings(routes.take(k), loadout)).len() <= all_samples(selected_landings(routes, loadout)).len(),
        selected_landings(routes.take(k), loadout).len() <= k,
    decreases routes.len(),
{
    if k < routes.len() {
        assert(routes.drop_last().take(k) =~= routes.take(k));
        lemma_selected_prefix(routes.drop_last(), loadout, k);
        let p = selected_landings(routes.drop_last(), loadout);
        if selects(loadout, routes.last()) {
            assert(p.push(routes.last().landing_precision).drop_last() =~= p);
        }
    } else {
        assert(routes.take(k) =~= routes);
        lemma_selected_len(routes, loadout);
    }
}

proof fn lemma_selected_len(routes: Seq<CanonicalRouteVectorRecord>, loadout: Option<EvaluationLoadout>)
    ensures
        selected_landings(routes, loadout).len() <= routes.len(),
    decreases routes.len(),
{
    if routes.len() > 0 {
        lemma_selected_len(routes.drop_last(), loadout);
    }
}

proof fn lemma_route_count_bound(rs: Seq<LandingPrecisionRecord>, p: spec_fn(LandingPrecisionRecord) -> bool)
    ensures
        route_count(rs, p) <= rs.len(),
    decreases rs.len(),
{
    if rs.len() > 0 {
        lemma_route_count_bound(rs.drop_last(), p);
    }
}

proof fn lemma_sample_count_bound(ss: Seq<LandingSampleRecord>, p: spec_fn(LandingSampleRecord) -> bool)
    ensures
        sample_count(ss, p) <= ss.len(),
    decreases ss.len(),
{
    if ss.len() > 0 {
        lemma_sample_count_bound(ss.drop_last(), p);
    }
}

fn edge_margin_of(s: &LandingSampleRecord) -> (r: i32)
    ensures
        r == edge_margin(*s),
{
    if s.left_edge_margin_pixels <= s.right_edge_margin_pixels {
        s.left_edge_margin_pixels
    } else {
        s.right_edge_margin_pixels
    }
}

fn support_width_of(s: &LandingSampleRecord) -> (r: usize)
    ensures
        r == support_width(*s),
{
    let w: i64 = s.support_right as i64 - s.support_left as i64;
    if w < 0 {
        usize::MAX
    } else if w > 2147483647i64 {
        2147483647usize
    } else {
        w as usize
    }
}

/// Aggregate the landing precision of the canonical positive routes of
/// `loadout`, or of every route when `loadout` is `None`.
pub fn landing_aggregate_from_route_records(
    routes: &[CanonicalRouteVectorRecord],
    loadout: Option<EvaluationLoadout>,
) -> (r: LandingPrecisionAggregateRecord)
    requires
        all_samples(selected_landings(routes@, loadout)).len() <= usize::MAX,
    ensures
        r == landing_aggregate(selected_landings(routes@, loadout)),
{
    let ghost reports = selected_landings(routes@, loadout);
    let ghost p_events = |r: LandingPrecisionRecord| r.landing_event_count > 0;
    let ghost p_measured = |r: LandingPrecisionRecord| r.samples@.len() > 0;
    let ghost p_unmeasured = |r: LandingPrecisionRecord| r.unmeasured_landing_ticks@.len() > 0;
    let ghost p_only = |r: LandingPrecisionRecord| r.samples@.len() == 0 && r.unmeasured_landing_ticks@.len() > 0;
    let ghost f_ticks = |r: LandingPrecisionRecord| r.inspected_ticks;
    let ghost f_events = |r: LandingPrecisionRecord| r.landing_event_count;
    let ghost f_measured = |r: LandingPrecisionRecord| r.samples@.len() as usize;
    let ghost f_unmeasured = |r: LandingPrecisionRecord| r.unmeasured_landing_ticks@.len() as usize;
    let ghost p_overhang = |s: LandingSampleRecord| edge_margin(s) < 0;
    let ghost p_oneway = |s: LandingSampleRecord| s.support_kind != LandingSupportKindRecord::Solid;
    let mut inspected: usize = 0;
    let mut with_events: usize = 0;
    let mut measured_routes: usize = 0;
    let mut unmeasured_routes: usize = 0;
    let mut only_unmeasured: usize = 0;
    let mut events: usize = 0;
    let mut measured: usize = 0;
    let mut unmeasured: usize = 0;
    let mut overhang: usize = 0;
    let mut oneway: usize = 0;
    let mut margins: Vec<i32> = Vec::new();
    let mut overlaps: Vec<usize> = Vec::new();
    let mut widths: Vec<usize> = Vec::new();
    let mut n: usize = 0;
    let mut k: usize = 0;
    while k < routes.len()
        invariant
            k <= routes.len(),
            reports == selected_landings(routes@, loadout),
            all_samples(reports).len() <= usize::MAX,
            n == selected_landings(routes@.take(k as int), loadout).len(),
            n <= k,
            p_events == |r: LandingPrecisionRecord| r.landing_event_count > 0,
            p_measured == |r: LandingPrecisionRecord| r.samples@.len() > 0,
            p_unmeasured == |r: LandingPrecisionRecord| r.unmeasured_landing_ticks@.len() > 0,
            p_only == |r: LandingPrecisionRecord| r.samples@.len() == 0 && r.unmeasured_landing_ticks@.len() > 0,
            f_ticks == |r: LandingPrecisionRecord| r.inspected_ticks,
            f_events == |r: LandingPrecisionRecord| r.landing_event_count,
            f_measured == |r: LandingPrecisionRecord| r.samples@.len() as usize,
            f_unmeasured == |r: LandingPrecisionRecord| r.unmeasured_landing_ticks@.len() as usize,
            p_overhang == |s: LandingSampleRecord| edge_margin(s) < 0,
            p_oneway == |s: LandingSampleRecord| s.support_kind != LandingSupportKindRecord::Solid,
            inspected == route_sum(selected_landings(routes@.take(k as int), loadout), f_ticks),
            events == route_sum(selected_landings(routes@.take(k as int), loadout), f_events),
            measured == route_sum(selected_landings(routes@.take(k as int), loadout), f_measured),
            unmeasured == route_sum(selected_landings(routes@.take(k as int), loadout), f_unmeasured),
            with_events == route_count(selected_landings(routes@.take(k as int), loadout), p_events),
            measured_routes == route_count(selected_landings(routes@.take(k as int), loadout), p_measured),
            unmeasured_routes == route_count(selected_landings(routes@.take(k as int), loadout), p_unmeasured),
            only_unmeasured == route_count(selected_landings(routes@.take(k as int), loadout), p_only),
            margins@ == margins_of(all_samples(selected_landings(routes@.take(k as int), loadout))),
            overlaps@ == overlaps_of(all_samples(selected_landings(routes@.take(k as int), loadout))),
            widths@ == widths_of(all_samples(selected_landings(routes@.take(k as int), loadout))),
            overhang == sample_count(all_samples(selected_landings(routes@.take(k as int), loadout)), p_overhang),
            oneway == sample_count(all_samples(selected_landings(routes@.take(k as int), loadout)), p_oneway),
        decreases routes.len() - k,
    {
        let ghost prev = selected_landings(routes@.take(k as int), loadout);
        proof {
            assert(routes@.take(k + 1).drop_last() =~= routes@.take(k as int));
            assert(routes@.take(k + 1).last() == routes@[k as int]);
            lemma_selected_prefix(routes@, loadout, k + 1);
        }
        let selected = match loadout {
            None => true,
            Some(l) => routes[k].loadout == l,
        };
        if !selected {
            k = k + 1;
            continue;
        }
        let report = &routes[k].landing_precision;
        let ghost t = prev.push(*report);
        proof {
            assert(t.drop_last() =~= prev);
            assert(t == selected_landings(routes@.take(k + 1), loadout));
            lemma_route_count_bound(t, p_events);
            lemma_route_count_bound(t, p_measured);
            lemma_route_count_bound(t, p_unmeasured);
            lemma_route_count_bound(t, p_only);
        }
        inspected = match inspected.checked_add(report.inspected_ticks) {
            Some(v) => v,
            None => usize::MAX,
        };
        events = match events.checked_add(report.landing_event_count) {
            Some(v) => v,
            None => usize::MAX,
        };
        measured = match measured.checked_add(report.samples.len()) {
            Some(v) => v,
            None => usize::MAX,
        };
        unmeasured = match unmeasured.checked_add(report.unmeasured_landing_ticks.len()) {
            Some(v) => v,
            None => usize::MAX,
        };
        if report.landing_event_count > 0 {
            with_events = with_events + 1;
        }
        if report.samples.len() > 0 {
            measured_routes = measured_routes + 1;
        }
        if report.unmeasured_landing_ticks.len() > 0 {
            unmeasured_routes = unmeasured_routes + 1;
            if report.samples.len() == 0 {
                only_unmeasured = only_unmeasured + 1;
            }
        }
        let ghost before = all_samples(selected_landings(routes@.take(k as int), loadout));
        let mut j: usize = 0;
        while j < report.samples.len()
            invariant
                j <= report.samples.len(),
                report == &routes@[k as int].landing_precision,
                before + report.samples@ == all_samples(t),
                all_samples(t).len() <= usize::MAX,
                p_overhang == |s: LandingSampleRecord| edge_margin(s) < 0,
                p_oneway == |s: LandingSampleRecord| s.support_kind != LandingSupportKindRecord::Solid,
                margins@ == margins_of(before + report.samples@.take(j as int)),
                overlaps@ == overlaps_of(before + report.samples@.take(j as int)),
                widths@ == widths_of(before + report.samples@.take(j as int)),
                overhang == sample_count(before + report.samples@.take(j as int), p_overhang),
                oneway == sample_count(before + report.samples@.take(j as int), p_oneway),
            decreases report.samples.len() - j,
        {
            let ghost cur = before + report.samples@.take(j as int);
            let ghost next = before + report.samples@.take(j + 1);
            let sample = &report.samples[j];
            proof {
                assert(next =~= cur.push(*sample));
                assert(next.drop_last() =~= cur);
                lemma_sample_count_bound(next, p_overhang);
                lemma_sample_count_bound(next, p_oneway);
                assert(next.len() <= all_samples(t).len()) by {
                    assert(report.samples@.take(j + 1).len() <= report.samples@.len());
                }
            }
            let m = edge_margin_of(sample);
            margins.push(m);
            overlaps.push(sample.footprint_overlap_pixels as usize);
            widths.push(support_width_of(sample));
            if m < 0 {
                overhang = overhang + 1;
            }
            match sample.support_kind {
                LandingSupportKindRecord::Solid => {},
                _ => {
                    oneway = oneway + 1;
                },
            }
            proof {
                assert(margins@ =~= margins_of(next));
                assert(overlaps@ =~= overlaps_of(next));
                assert(widths@ =~= widths_of(next));
            }
            j = j + 1;
        }
        proof {
            assert(report.samples@.take(j as int) =~= report.samples@);
        }
        n = n + 1;
        k = k + 1;
    }
    assert(routes@.take(k as int) =~= routes@);
    proof {
        lemma_route_count_bound(reports, p_events);
    }
    let reason = if n == 0 {
        LandingCoordinateNotApplicableReasonRecord::NoCanonicalPositiveRoutes
    } else if events == 0 {
        LandingCoordinateNotApplicableReasonRecord::NoLandingEvents
    } else {
        LandingCoordinateNotApplicableReasonRecord::NoMeasuredLandings
    };
    let any = margins.len() > 0;
    let minimum_edge_margin_pixels = if any {
        LandingCoordinateEvidenceRecord::Observed { value: signed_distribution_record(margins) }
    } else {
        LandingCoordinateEvidenceRecord::NotApplicable { reason }
    };
    let footprint_overlap_pixels = if any {
        LandingCoordinateEvidenceRecord::Observed { value: unsigned_distribution_record(overlaps) }
    } else {
        LandingCoordinateEvidenceRecord::NotApplicable { reason }
    };
    let support_width_pixels = if any {
        LandingCoordinateEvidenceRecord::Observed { value: unsigned_distribution_record(widths) }
    } else {
        LandingCoordinateEvidenceRecord::NotApplicable { reason }
    };
    LandingPrecisionAggregateRecord {
        canonical_positive_route_count: n,
        inspected_ticks: inspected,
        routes_with_landing_events: with_events,
        routes_without_landing_events: n - with_events,
        routes_with_measured_landings: measured_routes,
        routes_with_unmeasured_landings: unmeasured_routes,
        routes_with_only_unmeasured_landings: only_unmeasured,
        landing_event_count: events,
        measured_landing_count: measured,
        unmeasured_landing_count: unmeasured,
        minimum_edge_margin_pixels,
        footprint_overlap_pixels,
        support_width_pixels,
        edge_overhang_landings: overhang,
        one_way_or_mixed_landings: oneway,
    }
}

/// Landing precision aggregated over one loadout's routes.
#[derive(Clone, Copy, Debug, PartialEq, Eq, Structural)]
pub struct LandingPrecisionLoadoutRecord {
    pub loadout: EvaluationLoadout,
    pub aggregate: LandingPrecisionAggregateRecord,
}

/// Landing precision of a room: the landing-precision versions its routes
/// were measured with, the overall aggregate, and one per loadout.
#[derive(Clone, Debug, PartialEq, Eq)]
pub struct LandingPrecisionMetricRecord {
    pub source_landing_precision_versions: Vec<u32>,
    pub aggregate: LandingPrecisionAggregateRecord,
    pub by_loadout: Vec<LandingPrecisionLoadoutRecord>,
}

/// Strictly ascending.
pub open spec fn ascending(s: Seq<u32>) -> bool {
    forall|i: int, j: int| 0 <= i < j < s.len() ==> s[i] < s[j]
}

/// Some route was measured with landing-precision version `v`.
pub open spec fn has_version(routes: Seq<CanonicalRouteVectorRecord>, v: u32) -> bool {
    exists|i: int| 0 <= i < routes.len() && routes[i].landing_precision.version == v
}

/// The distinct versions of the routes, ascending.
pub open spec fn versions_match(versions: Seq<u32>, routes: Seq<CanonicalRouteVectorRecord>) -> bool {
    ascending(versions) && forall|v: u32| versions.contains(v) <==> has_version(routes, v)
}

/// The per-loadout aggregates owed to the routes, in canonical loadout order.
pub open spec fn expected_by_loadout(routes: Seq<CanonicalRouteVectorRecord>) -> Seq<LandingPrecisionLoadoutRecord> {
    seq![
        LandingPrecisionLoadoutRecord {
            loadout: EvaluationLoadout::Baseline,
            aggregate: landing_aggregate(selected_landings(routes, Some(EvaluationLoadout::Baseline))),
        },
        LandingPrecisionLoadoutRecord {
            loadout: EvaluationLoadout::WallJump,
            aggregate: landing_aggregate(selected_landings(routes, Some(EvaluationLoadout::WallJump))),
        },
        LandingPrecisionLoadoutRecord {
            loadout: EvaluationLoadout::Dash,
            aggregate: landing_aggregate(selected_landings(routes, Some(EvaluationLoadout::Dash))),
        },
        LandingPrecisionLoadoutRecord {
            loadout: EvaluationLoadout::Both,
            aggregate: landing_aggregate(selected_landings(routes, Some(EvaluationLoadout::Both))),
        },
    ]
}

/// `m` is the landing metric of the routes.
pub open spec fn landing_metric_of(m: LandingPrecisionMetricRecord, routes: Seq<CanonicalRouteVectorRecord>) -> bool {
    &&& versions_match(m.source_landing_precision_versions@, routes)
    &&& m.aggregate == landing_aggregate(selected_landings(routes, None))
    &&& m.by_loadout@ == expected_by_loadout(routes)
}

/// Ascending sequences with the same elements are equal.
proof fn lemma_ascending_unique(s: Seq<u32>, t: Seq<u32>)
    requires
        ascending(s),
        ascending(t),
        forall|x: u32| s.contains(x) <==> t.contains(x),
    ensures
        s == t,
    decreases s.len() + t.len(),
{
    if s.len() == 0 {
        if t.len() > 0 {
            assert(t.contains(t[0]));
        }
        assert(s =~= t);
    } else if t.len() == 0 {
        assert(s.contains(s[0]));
    } else {
        assert(s.contains(s[0]));
        assert(t.contains(t[0]));
        let i = choose|i: int| 0 <= i < s.len() && s[i] == t[0];
        let k = choose|k: int| 0 <= k < t.len() && t[k] == s[0];
        if i > 0 && k > 0 {
            assert(s[0] < s[i]);
            assert(t[0] < t[k]);
        }
        assert(s[0] == t[0]);
        let s1 = s.drop_first();
        let t1 = t.drop_first();
        assert forall|x: u32| s1.contains(x) <==> t1.contains(x) by {
            if s1.contains(x) {
                let a = choose|a: int| 0 <= a < s1.len() && s1[a] == x;
                assert(s[a + 1] == x);
                assert(s[0] < s[a + 1]);
                assert(t.contains(x));
                let b = choose|b: int| 0 <= b < t.len() && t[b] == x;
                assert(b != 0);
                assert(t1[b - 1] == x);
            }
            if t1.contains(x) {
                let a = choose|a: int| 0 <= a < t1.len() && t1[a] == x;
                assert(t[a + 1] == x);
                assert(t[0] < t[a + 1]);
                assert(s.contains(x));
                let b = choose|b: int| 0 <= b < s.len() && s[b] == x;
                assert(b != 0);
                assert(s1[b - 1] == x);
            }
        }
        lemma_ascending_unique(s1, t1);
        assert(s =~= seq![s[0]] + s1);
        assert(t =~= seq![t[0]] + t1);
    }
}

/// The distinct landing-precision versions of the routes, ascending.
fn route_versions(routes: &[CanonicalRouteVectorRecord]) -> (r: Vec<u32>)
    ensures
        versions_match(r@, routes@),
{
    let mut r: Vec<u32> = Vec::new();
    let mut k: usize = 0;
    while k < routes.len()
        invariant
            k <= routes.len(),
            ascending(r@),
            forall|v: u32| r@.contains(v) <==> has_version(routes@.take(k as int), v),
        decreases routes.len() - k,
    {
        let v = routes[k].landing_precision.version;
        let mut j: usize = 0;
        while j < r.len() && r[j] < v
            invariant
                j <= r.len(),
                forall|i: int| 0 <= i < j ==> r@[i] < v,
            decreases r.len() - j,
        {
            j = j + 1;
        }
        let ghost before = r@;
        if j == r.len() || r[j] != v {
            r.insert(j, v);
            proof {
                assert(r@ == before.insert(j as int, v));
                assert(j < before.len() ==> v < before[j as int]);
                assert forall|a: int, b: int| 0 <= a < b < r@.len() implies r@[a] < r@[b] by {
                    if a == j && b > j {
                        assert(before[j as int] <= before[b - 1]);
                    }
                    if a < j && b > j {
                        assert(before[a] < v);
                    }
                }
            }
        }
        proof {
            let tk = routes@.take(k + 1);
            let tp = routes@.take(k as int);
            assert forall|x: u32| r@.contains(x) <==> has_version(tk, x) by {
                if has_version(routes@.take(k + 1), x) {
                    let i = choose|i: int| 0 <= i < tk.len() && tk[i].landing_precision.version == x;
                    if i < k {
                        assert(tp[i] == tk[i]);
                        assert(has_version(tp, x));
                        assert(before.contains(x));
                        let w = choose|w: int| 0 <= w < before.len() && before[w] == x;
                        if r@ != before {
                            if w < j {
                                assert(r@[w] == x);
                            } else {
                                assert(r@[w + 1] == x);
                            }
                        }
                    } else {
                        assert(x == v);
                        if r@ != before {
                            assert(r@[j as int] == x);
                        } else {
                            assert(r@[j as int] == x);
                        }
                    }
                }
                if r@.contains(x) {
                    let w = choose|w: int| 0 <= w < r@.len() && r@[w] == x;
                    if x == v {
                        assert(tk[k as int].landing_precision.version == x);
                    } else {
                        if r@ != before {
                            if w < j {
                                assert(before[w] == x);
                            } else {
                                assert(w != j);
                                assert(before[w - 1] == x);
                            }
                        }
                        assert(before.contains(x));
                        let i = choose|i: int| 0 <= i < tp.len() && tp[i].landing_precision.version == x;
                        assert(tk[i] == tp[i]);
                    }
                }
            }
        }
        k = k + 1;
    }
    assert(routes@.take(k as int) =~= routes@);
    r
}

/// The landing metric of a room's canonical positive routes.
pub fn landing_metric_from_canonical_routes(routes: &[CanonicalRouteVectorRecord]) -> (r: LandingPrecisionMetricRecord)
    requires
        all_samples(selected_landings(routes@, None)).len() <= usize::MAX,
    ensures
        landing_metric_of(r, routes@),
{
    proof {
        lemma_selected_samples(routes@, EvaluationLoadout::Baseline);
        lemma_selected_samples(routes@, EvaluationLoadout::WallJump);
        lemma_selected_samples(routes@, EvaluationLoadout::Dash);
        lemma_selected_samples(routes@, EvaluationLoadout::Both);
    }
    let mut by_loadout: Vec<LandingPrecisionLoadoutRecord> = Vec::new();
    by_loadout.push(
        LandingPrecisionLoadoutRecord {
            loadout: EvaluationLoadout::Baseline,
            aggregate: landing_aggregate_from_route_records(routes, Some(EvaluationLoadout::Baseline)),
        },
    );
    by_loadout.push(
        LandingPrecisionLoadoutRecord {
            loadout: EvaluationLoadout::WallJump,
            aggregate: landing_aggregate_from_route_records(routes, Some(EvaluationLoadout::WallJump)),
        },
    );
    by_loadout.push(
        LandingPrecisionLoadoutRecord {
            loadout: EvaluationLoadout::Dash,
            aggregate: landing_aggregate_from_route_records(routes, Some(EvaluationLoadout::Dash)),
        },
    );
    by_loadout.push(
        LandingPrecisionLoadoutRecord {
            loadout: EvaluationLoadout::Both,
            aggregate: landing_aggregate_from_route_records(routes, Some(EvaluationLoadout::Both)),
        },
    );
    assert(by_loadout@ =~= expected_by_loadout(routes@));
    LandingPrecisionMetricRecord {
        source_landing_precision_versions: route_versions(routes),
        aggregate: landing_aggregate_from_route_records(routes, None),
        by_loadout,
    }
}

fn same_versions(a: &Vec<u32>, b: &Vec<u32>) -> (r: bool)
    ensures
        r == (a@ == b@),
{
    if a.len() != b.len() {
        return false;
    }
    let mut k: usize = 0;
    while k < a.len()
        invariant
            a.len() == b.len(),
            k <= a.len(),
            forall|t: int| 0 <= t < k ==> a@[t] == b@[t],
        decreases a.len() - k,
    {
        if a[k] != b[k] {
            return false;
        }
        k = k + 1;
    }
    assert(a@ =~= b@);
    true
}

fn same_loadout_aggregates(a: &Vec<LandingPrecisionLoadoutRecord>, b: &Vec<LandingPrecisionLoadoutRecord>) -> (r: bool)
    ensures
        r == (a@ == b@),
{
    if a.len() != b.len() {
        return false;
    }
    let mut k: usize = 0;
    while k < a.len()
        invariant
            a.len() == b.len(),
            k <= a.len(),
            forall|t: int| 0 <= t < k ==> a@[t] == b@[t],
        decreases a.len() - k,
    {
        if a[k] != b[k] {
            return false;
        }
        k = k + 1;
    }
    assert(a@ =~= b@);
    true
}

/// Require a room's recorded landing metric to be the one its canonical
/// positive routes give.
pub fn validate_landing_metric(recorded: &LandingPrecisionMetricRecord, routes: &[CanonicalRouteVectorRecord]) -> (r: Result<
    (),
    CorpusAnalysisArtifactError,
>)
    requires
        all_samples(selected_landings(routes@, None)).len() <= usize::MAX,
    ensures
        r is Ok <==> landing_metric_of(*recorded, routes@),
        r is Err ==> r == Err::<(), CorpusAnalysisArtifactError>(
            CorpusAnalysisArtifactError::Invalid(ArtifactViolation::LandingMetricDiffers),
        ),
{
    let expected = landing_metric_from_canonical_routes(routes);
    proof {
        if versions_match(recorded.source_landing_precision_versions@, routes@) {
            lemma_ascending_unique(recorded.source_landing_precision_versions@, expected.source_landing_precision_versions@);
        }
    }
    if !same_versions(&recorded.source_landing_precision_versions, &expected.source_landing_precision_versions)
        || recorded.aggregate != expected.aggregate || !same_loadout_aggregates(&recorded.by_loadout, &expected.by_loadout) {
        return Err(CorpusAnalysisArtifactError::Invalid(ArtifactViolation::LandingMetricDiffers));
    }
    Ok(())
}

} // verus!
