use downwards_research::ability_promotion::EvaluationLoadout;
use downwards_research::actions::ActionSpanRecord;
use downwards_research::checks::{ArtifactViolation, CorpusArtifactV3Error};
use downwards_research::positive_witness::{
    ReplayOutcomeV3, ReplayVerificationV3, TargetEvidenceV3, TargetKindV3, TargetRowRecordV3, WitnessRecordV3,
    check_witness_header, parse_digest, verify_positive_witness_v3,
};
use downwards_research::target_rows::{EvidenceSourceTargetsV3, RoomTargetsV3, verify_target_rows_v3};

fn invalid(v: ArtifactViolation) -> Result<(), CorpusArtifactV3Error> {
    Err(CorpusArtifactV3Error::Invalid(v))
}

fn ids(v: &[&str]) -> Vec<String> {
    v.iter().map(|s| (*s).to_owned()).collect()
}

fn room(id: &str) -> RoomTargetsV3 {
    RoomTargetsV3 {
        room_id: id.to_owned(),
        evidence_source: Some(EvidenceSourceTargetsV3 { door_ids: ids(&["A", "B"]), pickup_ids: ids(&["p"]) }),
    }
}

fn row(room: &str, source: &str, target: &str, loadout: EvaluationLoadout) -> TargetRowRecordV3 {
    TargetRowRecordV3 {
        room_id: room.to_owned(),
        source_door_id: source.to_owned(),
        target_id: target.to_owned(),
        loadout,
        evidence: TargetEvidenceV3::BoundedInconclusive,
    }
}

fn door_rows() -> Vec<TargetRowRecordV3> {
    let mut rows = Vec::new();
    for loadout in EvaluationLoadout::all() {
        rows.push(row("r", "A", "B", loadout));
        rows.push(row("r", "B", "A", loadout));
    }
    rows
}

fn pickup_rows() -> Vec<TargetRowRecordV3> {
    let mut rows = Vec::new();
    for loadout in EvaluationLoadout::all() {
        rows.push(row("r", "A", "p", loadout));
        rows.push(row("r", "B", "p", loadout));
    }
    rows
}

fn check(kind: TargetKindV3, rows: &[TargetRowRecordV3]) -> Result<(), CorpusArtifactV3Error> {
    let verdicts = vec![Ok(()); rows.len()];
    verify_target_rows_v3(kind, rows, &[room("r")], &ids(&["w"]), &verdicts)
}

#[test]
fn exact_matrices_are_accepted() {
    assert_eq!(check(TargetKindV3::Door, &door_rows()), Ok(()));
    assert_eq!(check(TargetKindV3::Pickup, &pickup_rows()), Ok(()));
    let mut rows = door_rows();
    rows.reverse();
    assert_eq!(check(TargetKindV3::Door, &rows), Ok(()));
}

#[test]
fn rows_must_name_known_cells() {
    let mut rows = door_rows();
    rows[3].room_id = "other".to_owned();
    assert_eq!(check(TargetKindV3::Door, &rows), invalid(ArtifactViolation::UnknownTargetRoom));
    let mut rows = door_rows();
    rows[0].source_door_id = "C".to_owned();
    assert_eq!(check(TargetKindV3::Door, &rows), invalid(ArtifactViolation::UnknownSourceDoor));
    let mut rows = door_rows();
    rows[0].target_id = "A".to_owned();
    assert_eq!(check(TargetKindV3::Door, &rows), invalid(ArtifactViolation::InvalidTarget));
    let mut rows = pickup_rows();
    rows[1].target_id = "q".to_owned();
    assert_eq!(check(TargetKindV3::Pickup, &rows), invalid(ArtifactViolation::InvalidTarget));
    let mut rows = door_rows();
    rows[2] = rows[0].clone();
    assert_eq!(check(TargetKindV3::Door, &rows), invalid(ArtifactViolation::DuplicateMatrixCell));
}

#[test]
fn positive_rows_need_a_verified_witness() {
    let mut rows = door_rows();
    rows[1].evidence = TargetEvidenceV3::PositiveReplay { witness_id: "missing".to_owned() };
    assert_eq!(check(TargetKindV3::Door, &rows), invalid(ArtifactViolation::MissingTargetWitness));
    let mut rows = door_rows();
    rows[1].evidence = TargetEvidenceV3::PositiveReplay { witness_id: "w".to_owned() };
    let mut verdicts = vec![Ok(()); rows.len()];
    verdicts[1] = invalid(ArtifactViolation::ReplayDiverged);
    assert_eq!(
        verify_target_rows_v3(TargetKindV3::Door, &rows, &[room("r")], &ids(&["w"]), &verdicts),
        invalid(ArtifactViolation::ReplayDiverged)
    );
    verdicts[1] = Ok(());
    verdicts[0] = invalid(ArtifactViolation::ReplayDiverged);
    assert_eq!(verify_target_rows_v3(TargetKindV3::Door, &rows, &[room("r")], &ids(&["w"]), &verdicts), Ok(()));
}

#[test]
fn matrices_must_be_complete() {
    let mut rows = door_rows();
    rows.pop();
    assert_eq!(check(TargetKindV3::Door, &rows), invalid(ArtifactViolation::IncompleteTargetMatrix));
    let rows = door_rows();
    let verdicts = vec![Ok(()); rows.len()];
    let r = verify_target_rows_v3(TargetKindV3::Door, &rows, &[room("r"), room("s")], &[], &verdicts);
    assert_eq!(r, invalid(ArtifactViolation::IncompleteTargetMatrix));
    let bare = RoomTargetsV3 { room_id: "s".to_owned(), evidence_source: None };
    let r = verify_target_rows_v3(TargetKindV3::Door, &rows, &[room("r"), bare.clone()], &[], &verdicts);
    assert_eq!(r, invalid(ArtifactViolation::NoNativeVariants));
    let mut stray = rows.clone();
    stray[0].room_id = "s".to_owned();
    let r = verify_target_rows_v3(TargetKindV3::Door, &stray, &[room("r"), bare], &[], &verdicts);
    assert_eq!(r, invalid(ArtifactViolation::NoNativeVariants));
}

fn span(ticks: usize, move_x: i8) -> ActionSpanRecord {
    ActionSpanRecord { ticks, move_x, move_y: 0, jump: false, dash: false }
}

fn positive_row() -> TargetRowRecordV3 {
    TargetRowRecordV3 {
        evidence: TargetEvidenceV3::PositiveReplay { witness_id: "w-1".to_owned() },
        ..row("r", "A", "B", EvaluationLoadout::Dash)
    }
}

fn witness() -> WitnessRecordV3 {
    WitnessRecordV3 {
        witness_id: "w-1".to_owned(),
        room_id: "r".to_owned(),
        source_door_id: "A".to_owned(),
        target_id: "B".to_owned(),
        loadout: EvaluationLoadout::Dash,
        initial_digest: "00000000000000ff".to_owned(),
        total_ticks: 7,
        action_encoding_version: 1,
        actions: vec![span(3, 1), span(4, 0)],
    }
}

fn reached(exit: Option<&str>, fingerprint: &str) -> ReplayOutcomeV3 {
    ReplayOutcomeV3::Entered {
        initial_digest: 255,
        verification: Some(ReplayVerificationV3 {
            reached_exit: exit.map(str::to_owned),
            collected_pickup_ids: ids(&["p"]),
            solution_fingerprint: fingerprint.to_owned(),
        }),
    }
}

#[test]
fn digests_parse_as_hexadecimal() {
    assert_eq!(parse_digest("00000000000000ff"), Ok(255));
    assert_eq!(parse_digest("ffffffffffffffff"), Ok(u64::MAX));
    assert_eq!(parse_digest("0123456789abcdef"), Ok(0x0123_4567_89ab_cdef));
    assert_eq!(parse_digest("0123456789ABCDEF"), Err(CorpusArtifactV3Error::Invalid(ArtifactViolation::NonCanonicalDigest)));
    assert_eq!(parse_digest("ff"), Err(CorpusArtifactV3Error::Invalid(ArtifactViolation::NonCanonicalDigest)));
}

#[test]
fn witness_header_checks() {
    assert_eq!(check_witness_header(&positive_row(), &witness()), Ok(()));
    let w = WitnessRecordV3 { loadout: EvaluationLoadout::Both, ..witness() };
    assert_eq!(check_witness_header(&positive_row(), &w), invalid(ArtifactViolation::PositiveWitnessIdentity));
    let w = WitnessRecordV3 { action_encoding_version: 2, ..witness() };
    assert_eq!(check_witness_header(&positive_row(), &w), invalid(ArtifactViolation::UnsupportedActionEncoding));
    let w = WitnessRecordV3 { total_ticks: 10_001, ..witness() };
    assert_eq!(
        check_witness_header(&positive_row(), &w),
        invalid(ArtifactViolation::TicksAboveVerifierLimit { ticks: 10_001 })
    );
    let w = WitnessRecordV3 { actions: vec![span(3, 1), span(4, 1)], ..witness() };
    assert_eq!(check_witness_header(&positive_row(), &w), invalid(ArtifactViolation::UnmergedSpans { index: 1 }));
    let w = WitnessRecordV3 { actions: vec![span(3, 2)], ..witness() };
    assert_eq!(
        check_witness_header(&positive_row(), &w),
        invalid(ArtifactViolation::SpanNotNormalized { index: 0, move_x: 2, move_y: 0 })
    );
    let w = WitnessRecordV3 { actions: vec![span(usize::MAX, 1), span(1, 1)], ..witness() };
    assert_eq!(check_witness_header(&positive_row(), &w), invalid(ArtifactViolation::TickOverflow));
    let w = WitnessRecordV3 { total_ticks: 8, ..witness() };
    assert_eq!(
        check_witness_header(&positive_row(), &w),
        invalid(ArtifactViolation::TickCountMismatch { total: 7, expected: 8 })
    );
}

#[test]
fn replay_outcome_decides_the_rest() {
    let door = TargetKindV3::Door;
    assert_eq!(verify_positive_witness_v3(door, &positive_row(), &witness(), &reached(Some("B"), "w-1")), Ok(()));
    assert_eq!(
        verify_positive_witness_v3(door, &positive_row(), &witness(), &ReplayOutcomeV3::EntryFailed),
        invalid(ArtifactViolation::SourceEntryFailed)
    );
    let other = ReplayOutcomeV3::Entered { initial_digest: 254, verification: None };
    assert_eq!(
        verify_positive_witness_v3(door, &positive_row(), &witness(), &other),
        invalid(ArtifactViolation::InitialDigestDiffers)
    );
    let diverged = ReplayOutcomeV3::Entered { initial_digest: 255, verification: None };
    assert_eq!(
        verify_positive_witness_v3(door, &positive_row(), &witness(), &diverged),
        invalid(ArtifactViolation::ReplayDiverged)
    );
    assert_eq!(
        verify_positive_witness_v3(door, &positive_row(), &witness(), &reached(Some("C"), "w-1")),
        invalid(ArtifactViolation::TargetNotReached)
    );
    assert_eq!(
        verify_positive_witness_v3(door, &positive_row(), &witness(), &reached(Some("B"), "w-2")),
        invalid(ArtifactViolation::WitnessIdAfterReplay)
    );
    let pickup_row = TargetRowRecordV3 { target_id: "p".to_owned(), ..positive_row() };
    let pickup_witness = WitnessRecordV3 { target_id: "p".to_owned(), ..witness() };
    assert_eq!(
        verify_positive_witness_v3(TargetKindV3::Pickup, &pickup_row, &pickup_witness, &reached(None, "w-1")),
        Ok(())
    );
    let w = WitnessRecordV3 { initial_digest: "xyz".to_owned(), ..witness() };
    assert_eq!(
        verify_positive_witness_v3(door, &positive_row(), &w, &reached(Some("B"), "w-1")),
        invalid(ArtifactViolation::NonCanonicalDigest)
    );
}
