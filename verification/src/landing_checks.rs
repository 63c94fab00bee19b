//! Consistency of one canonical route's landing-precision record: identity,
//! tick order, sample geometry and the per-route summaries.
use vstd::prelude::*;

use crate::checks::{ArtifactViolation, CorpusAnalysisArtifactError};
use crate::landing::{LandingPrecisionRecord, LandingSampleRecord, LandingSupportKindRecord, edge_margin};

verus! {

/// The landing-precision measurement in force: its version and the
/// interpretation every record must carry.
pub struct LandingPrecisionPolicy {
    pub version: u32,
    pub interpretation: String,
}

/// `x` clamped to the range of `i32`.
pub open spec fn clamp_i32(x: int) -> i32 {
    if x > i32::MAX {
        i32::MAX
    } else if x < i32::MIN {
        i32::MIN
    } else {
        x as i32
    }
}

/// `x` as a `u32`, or zero when it is negative.
pub open spec fn nonnegative_u32(x: i32) -> u32 {
    if x < 0 {
        0
    } else {
        x as u32
    }
}

/// Footprint overlap of the player with its support, from the sample's geometry.
pub open spec fn geometric_overlap(s: LandingSampleRecord) -> u32 {
    let player_right = clamp_i32(s.player_x + s.player_width);
    let left = if s.player_x >= s.support_left { s.player_x } else { s.support_left };
    let right = if player_right <= s.support_right { player_right } else { s.support_right };
    nonnegative_u32(clamp_i32(right - left))
}

/// A sample's recorded geometry is consistent.
pub open spec fn sample_geometry_ok(s: LandingSampleRecord) -> bool {
    let player_right = clamp_i32(s.player_x + s.player_width);
    let player_bottom = clamp_i32(s.player_y + s.player_height);
    &&& s.player_width > 0
    &&& s.player_height > 0
    &&& s.support_right > s.support_left
    &&& s.surface_y == player_bottom
    &&& s.footprint_overlap_pixels != 0
    &&& s.footprint_overlap_pixels == geometric_overlap(s)
    &&& s.left_edge_margin_pixels == clamp_i32(s.player_x - s.support_left)
    &&& s.right_edge_margin_pixels == clamp_i32(s.support_right - player_right)
}

/// Strictly ascending.
pub open spec fn ascending_ticks(s: Seq<usize>) -> bool {
    forall|i: int| 0 < i < s.len() ==> #[trigger] s[i - 1] < s[i]
}

/// The replay ticks of the samples.
pub open spec fn sample_ticks(ss: Seq<LandingSampleRecord>) -> Seq<usize> {
    ss.map_values(|s: LandingSampleRecord| s.replay_tick)
}

/// Every tick is within `1..=inspected` and none repeats.
pub open spec fn ticks_valid(ticks: Seq<usize>, inspected: usize) -> bool {
    &&& forall|i: int| 0 <= i < ticks.len() ==> 0 < #[trigger] ticks[i] <= inspected
    &&& forall|i: int, j: int| 0 <= i < j < ticks.len() ==> ticks[i] != ticks[j]
}

/// Smallest value of `f` over the samples; `None` without samples.
pub open spec fn min_u32(ss: Seq<LandingSampleRecord>, f: spec_fn(LandingSampleRecord) -> u32) -> Option<u32>
    decreases ss.len(),
{
    if ss.len() == 0 {
        None
    } else {
        match min_u32(ss.drop_last(), f) {
            None => Some(f(ss.last())),
            Some(m) => Some(if f(ss.last()) < m { f(ss.last()) } else { m }),
        }
    }
}

/// Smallest edge margin over the samples; `None` without samples.
pub open spec fn min_margin(ss: Seq<LandingSampleRecord>) -> Option<i32>
    decreases ss.len(),
{
    if ss.len() == 0 {
        None
    } else {
        match min_margin(ss.drop_last()) {
            None => Some(edge_margin(ss.last())),
            Some(m) => Some(if edge_margin(ss.last()) < m { edge_margin(ss.last()) } else { m }),
        }
    }
}

/// Number of samples satisfying `p`.
pub open spec fn count_samples(ss: Seq<LandingSampleRecord>, p: spec_fn(LandingSampleRecord) -> bool) -> nat
    decreases ss.len(),
{
    if ss.len() == 0 {
        0
    } else {
        count_samples(ss.drop_last(), p) + if p(ss.last()) { 1nat } else { 0nat }
    }
}

pub open spec fn overlap_of() -> spec_fn(LandingSampleRecord) -> u32 {
    |s: LandingSampleRecord| s.footprint_overlap_pixels
}

pub open spec fn width_of() -> spec_fn(LandingSampleRecord) -> u32 {
    |s: LandingSampleRecord| nonnegative_u32(clamp_i32(s.support_right - s.support_left))
}

pub open spec fn overhangs() -> spec_fn(LandingSampleRecord) -> bool {
    |s: LandingSampleRecord| edge_margin(s) < 0
}

pub open spec fn not_solid() -> spec_fn(LandingSampleRecord) -> bool {
    |s: LandingSampleRecord| s.support_kind != LandingSupportKindRecord::Solid
}

/// The per-route summaries agree with the samples.
pub open spec fn summaries_ok(l: LandingPrecisionRecord) -> bool {
    let ss = l.samples@;
    &&& l.minimum_footprint_overlap_pixels == min_u32(ss, overlap_of())
    &&& l.minimum_edge_margin_pixels == min_margin(ss)
    &&& l.narrowest_support_width_pixels == min_u32(ss, width_of())
    &&& l.edge_overhang_landings == count_samples(ss, overhangs())
    &&& l.one_way_or_mixed_landings == count_samples(ss, not_solid())
}

/// The outcome of checking a route's landing-precision record against the
/// measurement policy and the route's completion tick count.
pub open spec fn landing_precision_result(
    l: LandingPrecisionRecord,
    policy: LandingPrecisionPolicy,
    completion_ticks: usize,
) -> Result<(), CorpusAnalysisArtifactError> {
    let ss = l.samples@;
    if l.version != policy.version || l.interpretation@ != policy.interpretation@ || l.inspected_ticks != completion_ticks
        || l.landing_event_count != (if ss.len() + l.unmeasured_landing_ticks@.len() > usize::MAX {
        usize::MAX as int
    } else {
        (ss.len() + l.unmeasured_landing_ticks@.len()) as int
    }) {
        Err(CorpusAnalysisArtifactError::Invalid(ArtifactViolation::LandingIdentityDiffers))
    } else if !ascending_ticks(sample_ticks(ss)) {
        Err(CorpusAnalysisArtifactError::Invalid(ArtifactViolation::LandingSampleOrder))
    } else if !ascending_ticks(l.unmeasured_landing_ticks@) {
        Err(CorpusAnalysisArtifactError::Invalid(ArtifactViolation::LandingUnmeasuredOrder))
    } else if !ticks_valid(sample_ticks(ss) + l.unmeasured_landing_ticks@, l.inspected_ticks) {
        Err(CorpusAnalysisArtifactError::Invalid(ArtifactViolation::LandingTicksInvalid))
    } else {
        samples_result(l)
    }
}

/// The outcome of checking the samples' geometry, then the summaries.
pub open spec fn samples_result(l: LandingPrecisionRecord) -> Result<(), CorpusAnalysisArtifactError> {
    if !(forall|i: int| 0 <= i < l.samples@.len() ==> sample_geometry_ok(#[trigger] l.samples@[i])) {
        Err(CorpusAnalysisArtifactError::Invalid(ArtifactViolation::LandingGeometryDiffers))
    } else if !summaries_ok(l) {
        Err(CorpusAnalysisArtifactError::Invalid(ArtifactViolation::LandingSummariesDiffer))
    } else {
        Ok(())
    }
}

fn clamp(x: i64) -> (r: i32)
    requires
        -0x2_0000_0000 <= x <= 0x2_0000_0000,
    ensures
        r == clamp_i32(x as int),
{
    if x > 2147483647i64 {
        2147483647i32
    } else if x < -2147483648i64 {
        -2147483648i32
    } else {
        x as i32
    }
}

fn to_u32(x: i32) -> (r: u32)
    ensures
        r == nonnegative_u32(x),
{
    if x < 0 {
        0
    } else {
        x as u32
    }
}

fn geometry_ok(s: &LandingSampleRecord) -> (r: bool)
    ensures
        r == sample_geometry_ok(*s),
{
    let player_right = clamp(s.player_x as i64 + s.player_width as i64);
    let player_bottom = clamp(s.player_y as i64 + s.player_height as i64);
    let left = if s.player_x >= s.support_left {
        s.player_x
    } else {
        s.support_left
    };
    let right = if player_right <= s.support_right {
        player_right
    } else {
        s.support_right
    };
    let overlap = to_u32(clamp(right as i64 - left as i64));
    s.player_width > 0 && s.player_height > 0 && s.support_right > s.support_left && s.surface_y == player_bottom
        && s.footprint_overlap_pixels != 0 && s.footprint_overlap_pixels == overlap
        && s.left_edge_margin_pixels == clamp(s.player_x as i64 - s.support_left as i64)
        && s.right_edge_margin_pixels == clamp(s.support_right as i64 - player_right as i64)
}

fn ascending(s: &Vec<usize>) -> (r: bool)
    ensures
        r == ascending_ticks(s@),
{
    let mut k: usize = 1;
    while k < s.len()
        invariant
            1 <= k,
            forall|i: int| 0 < i < k && i < s@.len() ==> #[trigger] s@[i - 1] < s@[i],
        decreases s.len() - k,
    {
        if s[k - 1] >= s[k] {
            assert(!(s@[k - 1] < s@[k as int]));
            return false;
        }
        k = k + 1;
    }
    true
}

fn valid_ticks(ticks: &Vec<usize>, inspected: usize) -> (r: bool)
    ensures
        r == ticks_valid(ticks@, inspected),
{
    let mut i: usize = 0;
    while i < ticks.len()
        invariant
            i <= ticks.len(),
            forall|a: int| 0 <= a < i ==> 0 < #[trigger] ticks@[a] <= inspected,
            forall|a: int, b: int| 0 <= a < b < ticks.len() && a < i ==> ticks@[a] != ticks@[b],
        decreases ticks.len() - i,
    {
        if ticks[i] == 0 || ticks[i] > inspected {
            return false;
        }
        let mut j: usize = i + 1;
        while j < ticks.len()
            invariant
                i < ticks.len(),
                i < j <= ticks.len(),
                forall|a: int, b: int| 0 <= a < b < ticks.len() && a < i ==> ticks@[a] != ticks@[b],
                forall|b: int| i < b < j ==> ticks@[i as int] != ticks@[b],
            decreases ticks.len() - j,
        {
            if ticks[i] == ticks[j] {
                return false;
            }
            j = j + 1;
        }
        i = i + 1;
    }
    true
}

proof fn lemma_count_samples_bound(ss: Seq<LandingSampleRecord>, p: spec_fn(LandingSampleRecord) -> bool)
    ensures
        count_samples(ss, p) <= ss.len(),
    decreases ss.len(),
{
    if ss.len() > 0 {
        lemma_count_samples_bound(ss.drop_last(), p);
    }
}

fn width(s: &LandingSampleRecord) -> (r: u32)
    ensures
        r == width_of()(*s),
{
    to_u32(clamp(s.support_right as i64 - s.support_left as i64))
}

fn margin(s: &LandingSampleRecord) -> (r: i32)
    ensures
        r == edge_margin(*s),
{
    if s.left_edge_margin_pixels <= s.right_edge_margin_pixels {
        s.left_edge_margin_pixels
    } else {
        s.right_edge_margin_pixels
    }
}

fn summaries_match(l: &LandingPrecisionRecord) -> (r: bool)
    ensures
        r == summaries_ok(*l),
{
    let ss = &l.samples;
    let mut min_overlap: Option<u32> = None;
    let mut min_edge: Option<i32> = None;
    let mut min_width: Option<u32> = None;
    let mut overhang: usize = 0;
    let mut one_way: usize = 0;
    let mut k: usize = 0;
    while k < ss.len()
        invariant
            k <= ss.len(),
            min_overlap == min_u32(ss@.take(k as int), overlap_of()),
            min_edge == min_margin(ss@.take(k as int)),
            min_width == min_u32(ss@.take(k as int), width_of()),
            overhang == count_samples(ss@.take(k as int), overhangs()),
            one_way == count_samples(ss@.take(k as int), not_solid()),
        decreases ss.len() - k,
    {
        let ghost t = ss@.take(k + 1);
        proof {
            assert(t.drop_last() =~= ss@.take(k as int));
            assert(t.last() == ss@[k as int]);
            lemma_count_samples_bound(t, overhangs());
            lemma_count_samples_bound(t, not_solid());
        }
        let s = &ss[k];
        let o = s.footprint_overlap_pixels;
        min_overlap = match min_overlap {
            None => Some(o),
            Some(m) => Some(if o < m { o } else { m }),
        };
        let e = margin(s);
        min_edge = match min_edge {
            None => Some(e),
            Some(m) => Some(if e < m { e } else { m }),
        };
        let w = width(s);
        min_width = match min_width {
            None => Some(w),
            Some(m) => Some(if w < m { w } else { m }),
        };
        if e < 0 {
            overhang = overhang + 1;
        }
        match s.support_kind {
            LandingSupportKindRecord::Solid => {},
            _ => {
                one_way = one_way + 1;
            },
        }
        k = k + 1;
    }
    assert(ss@.take(k as int) =~= ss@);
    l.minimum_footprint_overlap_pixels == min_overlap && l.minimum_edge_margin_pixels == min_edge
        && l.narrowest_support_width_pixels == min_width && l.edge_overhang_landings == overhang
        && l.one_way_or_mixed_landings == one_way
}

/// Check a canonical route's landing-precision record against the
/// measurement policy and the route's completion tick count.
pub fn validate_landing_precision(
    landing: &LandingPrecisionRecord,
    policy: &LandingPrecisionPolicy,
    completion_ticks: usize,
) -> (r: Result<(), CorpusAnalysisArtifactError>)
    ensures
        r == landing_precision_result(*landing, *policy, completion_ticks),
{
    let events = match landing.samples.len().checked_add(landing.unmeasured_landing_ticks.len()) {
        Some(n) => n,
        None => usize::MAX,
    };
    if landing.version != policy.version || landing.interpretation != policy.interpretation
        || landing.inspected_ticks != completion_ticks || landing.landing_event_count != events {
        return Err(CorpusAnalysisArtifactError::Invalid(ArtifactViolation::LandingIdentityDiffers));
    }
    let mut ticks: Vec<usize> = Vec::new();
    let mut k: usize = 0;
    while k < landing.samples.len()
        invariant
            k <= landing.samples.len(),
            ticks@ == sample_ticks(landing.samples@).take(k as int),
        decreases landing.samples.len() - k,
    {
        ticks.push(landing.samples[k].replay_tick);
        assert(ticks@ =~= sample_ticks(landing.samples@).take(k + 1));
        k = k + 1;
    }
    assert(sample_ticks(landing.samples@).take(k as int) =~= sample_ticks(landing.samples@));
    if !ascending(&ticks) {
        return Err(CorpusAnalysisArtifactError::Invalid(ArtifactViolation::LandingSampleOrder));
    }
    if !ascending(&landing.unmeasured_landing_ticks) {
        return Err(CorpusAnalysisArtifactError::Invalid(ArtifactViolation::LandingUnmeasuredOrder));
    }
    let ghost sample_part = ticks@;
    let mut j: usize = 0;
    while j < landing.unmeasured_landing_ticks.len()
        invariant
            j <= landing.unmeasured_landing_ticks.len(),
            ticks@ == sample_part + landing.unmeasured_landing_ticks@.take(j as int),
        decreases landing.unmeasured_landing_ticks.len() - j,
    {
        ticks.push(landing.unmeasured_landing_ticks[j]);
        assert(ticks@ =~= sample_part + landing.unmeasured_landing_ticks@.take(j + 1));
        j = j + 1;
    }
    assert(landing.unmeasured_landing_ticks@.take(j as int) =~= landing.unmeasured_landing_ticks@);
    if !valid_ticks(&ticks, landing.inspected_ticks) {
        return Err(CorpusAnalysisArtifactError::Invalid(ArtifactViolation::LandingTicksInvalid));
    }
    assert(landing_precision_result(*landing, *policy, completion_ticks) == samples_result(*landing));
    let mut g: usize = 0;
    while g < landing.samples.len()
        invariant
            g <= landing.samples.len(),
            landing_precision_result(*landing, *policy, completion_ticks) == samples_result(*landing),
            forall|i: int| 0 <= i < g ==> sample_geometry_ok(#[trigger] landing.samples@[i]),
        decreases landing.samples.len() - g,
    {
        if !geometry_ok(&landing.samples[g]) {
            return Err(CorpusAnalysisArtifactError::Invalid(ArtifactViolation::LandingGeometryDiffers));
        }
        g = g + 1;
    }
    if !summaries_match(landing) {
        return Err(CorpusAnalysisArtifactError::Invalid(ArtifactViolation::LandingSummariesDiffer));
    }
    Ok(())
}

} // verus!
