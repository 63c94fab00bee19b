use downwards_research::checks::{ArtifactViolation, CorpusAnalysisArtifactError};
use downwards_research::landing::{LandingPrecisionRecord, LandingSampleRecord, LandingSupportKindRecord};
use downwards_research::landing_checks::{LandingPrecisionPolicy, validate_landing_precision};

fn invalid(v: ArtifactViolation) -> CorpusAnalysisArtifactError {
    CorpusAnalysisArtifactError::Invalid(v)
}

fn policy() -> LandingPrecisionPolicy {
    LandingPrecisionPolicy { version: 3, interpretation: "local landing geometry".to_owned() }
}

fn sample(
    tick: usize,
    player_x: i32,
    support: (i32, i32),
    overlap: u32,
    margins: (i32, i32),
    kind: LandingSupportKindRecord,
) -> LandingSampleRecord {
    LandingSampleRecord {
        replay_tick: tick,
        player_x,
        player_y: 0,
        player_width: 8,
        player_height: 12,
        surface_y: 12,
        support_left: support.0,
        support_right: support.1,
        support_kind: kind,
        footprint_overlap_pixels: overlap,
        left_edge_margin_pixels: margins.0,
        right_edge_margin_pixels: margins.1,
    }
}

fn landing() -> LandingPrecisionRecord {
    LandingPrecisionRecord {
        version: 3,
        interpretation: "local landing geometry".to_owned(),
        inspected_ticks: 20,
        landing_event_count: 3,
        samples: vec![
            sample(5, 10, (12, 30), 6, (-2, 12), LandingSupportKindRecord::Solid),
            sample(9, 40, (36, 60), 8, (4, 12), LandingSupportKindRecord::OneWay),
        ],
        unmeasured_landing_ticks: vec![7],
        minimum_footprint_overlap_pixels: Some(6),
        minimum_edge_margin_pixels: Some(-2),
        narrowest_support_width_pixels: Some(18),
        edge_overhang_landings: 1,
        one_way_or_mixed_landings: 1,
    }
}

#[test]
fn consistent_landing_record_is_accepted() {
    assert_eq!(validate_landing_precision(&landing(), &policy(), 20), Ok(()));
    let empty = LandingPrecisionRecord {
        landing_event_count: 0,
        samples: vec![],
        unmeasured_landing_ticks: vec![],
        minimum_footprint_overlap_pixels: None,
        minimum_edge_margin_pixels: None,
        narrowest_support_width_pixels: None,
        edge_overhang_landings: 0,
        one_way_or_mixed_landings: 0,
        ..landing()
    };
    assert_eq!(validate_landing_precision(&empty, &policy(), 20), Ok(()));
}

#[test]
fn identity_and_tick_errors_come_first() {
    assert_eq!(
        validate_landing_precision(&landing(), &policy(), 21),
        Err(invalid(ArtifactViolation::LandingIdentityDiffers))
    );
    let mut l = landing();
    l.samples.swap(0, 1);
    assert_eq!(validate_landing_precision(&l, &policy(), 20), Err(invalid(ArtifactViolation::LandingSampleOrder)));
    let mut l = landing();
    l.unmeasured_landing_ticks = vec![7, 7];
    l.landing_event_count = 4;
    assert_eq!(
        validate_landing_precision(&l, &policy(), 20),
        Err(invalid(ArtifactViolation::LandingUnmeasuredOrder))
    );
    let mut l = landing();
    l.unmeasured_landing_ticks = vec![9];
    assert_eq!(validate_landing_precision(&l, &policy(), 20), Err(invalid(ArtifactViolation::LandingTicksInvalid)));
    let mut l = landing();
    l.unmeasured_landing_ticks = vec![21];
    assert_eq!(validate_landing_precision(&l, &policy(), 20), Err(invalid(ArtifactViolation::LandingTicksInvalid)));
}

#[test]
fn sample_geometry_and_summaries_are_recomputed() {
    let mut l = landing();
    l.samples[1].footprint_overlap_pixels = 7;
    assert_eq!(validate_landing_precision(&l, &policy(), 20), Err(invalid(ArtifactViolation::LandingGeometryDiffers)));
    let mut l = landing();
    l.samples[0].surface_y = 11;
    assert_eq!(validate_landing_precision(&l, &policy(), 20), Err(invalid(ArtifactViolation::LandingGeometryDiffers)));
    let mut l = landing();
    l.narrowest_support_width_pixels = Some(24);
    assert_eq!(validate_landing_precision(&l, &policy(), 20), Err(invalid(ArtifactViolation::LandingSummariesDiffer)));
    let mut l = landing();
    l.edge_overhang_landings = 0;
    assert_eq!(validate_landing_precision(&l, &policy(), 20), Err(invalid(ArtifactViolation::LandingSummariesDiffer)));
}
