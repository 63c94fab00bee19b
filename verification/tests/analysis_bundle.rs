use downwards_research::analysis_bundle::{
    CorpusAnalysisArtifactBundle, VerifiedCorpusAnalysisArtifact, single_manifest_record,
    verified_analysis_artifact, verify_manifest_stream_hashes,
};
use downwards_research::checks::{ArtifactViolation, CorpusAnalysisArtifactError};

fn bundle() -> CorpusAnalysisArtifactBundle {
    CorpusAnalysisArtifactBundle {
        manifest_json: b"{}\n".to_vec(),
        rooms_jsonl: b"hello".to_vec(),
        controller_witnesses_jsonl: Vec::new(),
    }
}

fn pair(a: &str, b: &str) -> (String, String) {
    (a.to_owned(), b.to_owned())
}

#[test]
fn stream_hashes_are_sorted_by_name_and_skip_the_manifest() {
    assert_eq!(
        bundle().stream_hashes(),
        vec![
            pair("controller_witnesses.jsonl", "fnv1a64-cbf29ce484222325"),
            pair("rooms.jsonl", "fnv1a64-a430d84680aabd0b"),
        ]
    );
}

#[test]
fn manifest_hashes_must_match_every_stream() {
    let recorded = bundle().stream_hashes();
    assert_eq!(verify_manifest_stream_hashes(&recorded, &bundle()), Ok(()));
    let mut changed = bundle();
    changed.rooms_jsonl.push(b'\n');
    assert_eq!(
        verify_manifest_stream_hashes(&recorded, &changed),
        Err(CorpusAnalysisArtifactError::Invalid(ArtifactViolation::ManifestStreamHashMismatch))
    );
    let reversed = vec![recorded[1].clone(), recorded[0].clone()];
    assert_eq!(
        verify_manifest_stream_hashes(&reversed, &bundle()),
        Err(CorpusAnalysisArtifactError::Invalid(ArtifactViolation::ManifestStreamHashMismatch))
    );
    let mut manifest_changed = bundle();
    manifest_changed.manifest_json = b"[]\n".to_vec();
    assert_eq!(verify_manifest_stream_hashes(&recorded, &manifest_changed), Ok(()));
}

#[test]
fn manifest_file_holds_exactly_one_record() {
    assert_eq!(single_manifest_record(vec![7u8]), Ok(7));
    assert_eq!(
        single_manifest_record(Vec::<u8>::new()),
        Err(CorpusAnalysisArtifactError::Invalid(ArtifactViolation::ManifestRecordCount { found: 0 }))
    );
    assert_eq!(
        single_manifest_record(vec![1u8, 2]),
        Err(CorpusAnalysisArtifactError::Invalid(ArtifactViolation::ManifestRecordCount { found: 2 }))
    );
}

#[test]
fn verified_report_counts_rooms_and_route_vectors() {
    assert_eq!(
        verified_analysis_artifact(9, &[3, 0, 4], 5),
        VerifiedCorpusAnalysisArtifact {
            seed: 9,
            rooms: 3,
            retained_controller_witnesses: 5,
            canonical_route_vectors: 7,
        }
    );
}
