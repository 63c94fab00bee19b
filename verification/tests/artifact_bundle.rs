use downwards_research::artifact_bundle::{
    CorpusArtifactBundleV3, CorpusSeedCheckpointV3, ExpectedShard, seed_shard_directory_name,
    single_checkpoint_record, verify_checkpoint_against_bundle,
};
use downwards_research::checks::{ArtifactViolation, CorpusArtifactV3Error};
use downwards_research::identity::byte_hash;

fn bundle() -> CorpusArtifactBundleV3 {
    CorpusArtifactBundleV3 {
        run_json: b"{\"run\":1}\n".to_vec(),
        attempts_jsonl: b"a\n".to_vec(),
        rooms_jsonl: b"r\n".to_vec(),
        routes_jsonl: Vec::new(),
        pickups_jsonl: b"p\n".to_vec(),
        witnesses_jsonl: b"w\n".to_vec(),
    }
}

fn checkpoint(bundle: &CorpusArtifactBundleV3) -> CorpusSeedCheckpointV3 {
    CorpusSeedCheckpointV3 {
        checkpoint_version: 1,
        status: "complete".to_owned(),
        seed: 7,
        config_id: "cfg".to_owned(),
        artifact_hashes: bundle.artifact_hashes(),
    }
}

fn invalid(v: ArtifactViolation) -> CorpusArtifactV3Error {
    CorpusArtifactV3Error::Invalid(v)
}

#[test]
fn artifact_hashes_are_keyed_by_file_name_in_order() {
    let b = bundle();
    let hashes = b.artifact_hashes();
    let names: Vec<&str> = hashes.iter().map(|(name, _)| name.as_str()).collect();
    assert_eq!(
        names,
        vec![
            "corpus-v3-attempts.jsonl",
            "corpus-v3-pickups.jsonl",
            "corpus-v3-rooms.jsonl",
            "corpus-v3-routes.jsonl",
            "corpus-v3-run.json",
            "corpus-v3-witnesses.jsonl",
        ]
    );
    assert_eq!(hashes[3].1, byte_hash(b""));
    assert_eq!(hashes[4].1, byte_hash(b"{\"run\":1}\n"));
}

#[test]
fn checkpoint_seals_the_expected_seed_and_bytes() {
    let b = bundle();
    let c = checkpoint(&b);
    let expected = ExpectedShard { seed_count: 1, start_seed: 7, config_id: "cfg".to_owned() };
    assert_eq!(verify_checkpoint_against_bundle(&c, &expected, true, &b), Ok(()));
    assert_eq!(
        verify_checkpoint_against_bundle(&c, &expected, false, &b),
        Err(invalid(ArtifactViolation::CheckpointConfigMismatch))
    );
    let two_seeds = ExpectedShard { seed_count: 2, start_seed: 7, config_id: "cfg".to_owned() };
    assert_eq!(
        verify_checkpoint_against_bundle(&c, &two_seeds, true, &b),
        Err(invalid(ArtifactViolation::CheckpointSeedCount))
    );
    let other_seed = ExpectedShard { seed_count: 1, start_seed: 8, config_id: "cfg".to_owned() };
    assert_eq!(
        verify_checkpoint_against_bundle(&c, &other_seed, true, &b),
        Err(invalid(ArtifactViolation::CheckpointIdentityMismatch))
    );
    let mut changed = b.clone();
    changed.rooms_jsonl.push(b'x');
    assert_eq!(
        verify_checkpoint_against_bundle(&c, &expected, true, &changed),
        Err(invalid(ArtifactViolation::CheckpointHashMismatch))
    );
}

#[test]
fn checkpoint_file_holds_one_complete_record() {
    let b = bundle();
    let c = checkpoint(&b);
    assert_eq!(single_checkpoint_record(vec![c.clone()]), Ok(c.clone()));
    assert_eq!(
        single_checkpoint_record(vec![]),
        Err(invalid(ArtifactViolation::CheckpointRecordCount { found: 0 }))
    );
    let mut incomplete = c.clone();
    incomplete.status = "partial".to_owned();
    assert_eq!(
        single_checkpoint_record(vec![incomplete]),
        Err(invalid(ArtifactViolation::UnsupportedCheckpoint))
    );
    let mut future = c;
    future.checkpoint_version = 2;
    assert_eq!(
        single_checkpoint_record(vec![future]),
        Err(invalid(ArtifactViolation::UnsupportedCheckpoint))
    );
}

#[test]
fn seed_shard_directory_names_are_fixed_width_hex() {
    assert_eq!(seed_shard_directory_name(0), "seed-0000000000000000");
    assert_eq!(seed_shard_directory_name(0xdead_beef), "seed-00000000deadbeef");
}
