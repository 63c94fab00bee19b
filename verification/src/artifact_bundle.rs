//! Corpus artifact bundles, their content hashes, and the completion
//! checkpoint that seals one seed's shard.
use vstd::prelude::*;
use vstd::string::StringExecFns;

use crate::checks::{ArtifactViolation, CorpusArtifactV3Error};
use crate::identity::{byte_hash, byte_hash_text, hex_id, hex_identity};

verus! {

/// Version of the completion checkpoint record.
pub const CORPUS_ARTIFACT_V3_CHECKPOINT_VERSION: u32 = 1;

/// The six files of one seed's artifact shard.
#[derive(Clone, Debug, PartialEq, Eq)]
pub struct CorpusArtifactBundleV3 {
    pub run_json: Vec<u8>,
    pub attempts_jsonl: Vec<u8>,
    pub rooms_jsonl: Vec<u8>,
    pub routes_jsonl: Vec<u8>,
    pub pickups_jsonl: Vec<u8>,
    pub witnesses_jsonl: Vec<u8>,
}

/// The completion marker of one seed's shard; hashes are keyed by file name
/// in ascending name order.
#[derive(Clone, Debug, PartialEq, Eq)]
pub struct CorpusSeedCheckpointV3 {
    pub checkpoint_version: u32,
    pub status: String,
    pub seed: u64,
    pub config_id: String,
    pub artifact_hashes: Vec<(String, String)>,
}

/// Each file's name and content hash, in ascending file-name order.
pub open spec fn bundle_hashes(b: CorpusArtifactBundleV3) -> Seq<(Seq<char>, Seq<char>)> {
    seq![
        ("corpus-v3-attempts.jsonl"@, byte_hash_text(b.attempts_jsonl@)),
        ("corpus-v3-pickups.jsonl"@, byte_hash_text(b.pickups_jsonl@)),
        ("corpus-v3-rooms.jsonl"@, byte_hash_text(b.rooms_jsonl@)),
        ("corpus-v3-routes.jsonl"@, byte_hash_text(b.routes_jsonl@)),
        ("corpus-v3-run.json"@, byte_hash_text(b.run_json@)),
        ("corpus-v3-witnesses.jsonl"@, byte_hash_text(b.witnesses_jsonl@)),
    ]
}

/// Mathematical value of a list of string pairs.
pub open spec fn pairs_view(v: Seq<(String, String)>) -> Seq<(Seq<char>, Seq<char>)> {
    v.map_values(|p: (String, String)| (p.0@, p.1@))
}

/// One named file hash entry.
pub(crate) fn hash_entry(name: &str, bytes: &Vec<u8>) -> (r: (String, String))
    ensures
        r.0@ == name@,
        r.1@ == byte_hash_text(bytes@),
{
    (String::from_str(name), byte_hash(bytes.as_slice()))
}

impl CorpusArtifactBundleV3 {
    /// Each file's name and content hash, in ascending file-name order.
    pub fn artifact_hashes(&self) -> (r: Vec<(String, String)>)
        ensures
            pairs_view(r@) == bundle_hashes(*self),
    {
        let mut r: Vec<(String, String)> = Vec::new();
        r.push(hash_entry("corpus-v3-attempts.jsonl", &self.attempts_jsonl));
        r.push(hash_entry("corpus-v3-pickups.jsonl", &self.pickups_jsonl));
        r.push(hash_entry("corpus-v3-rooms.jsonl", &self.rooms_jsonl));
        r.push(hash_entry("corpus-v3-routes.jsonl", &self.routes_jsonl));
        r.push(hash_entry("corpus-v3-run.json", &self.run_json));
        r.push(hash_entry("corpus-v3-witnesses.jsonl", &self.witnesses_jsonl));
        assert(pairs_view(r@) =~= bundle_hashes(*self));
        r
    }
}

/// Whether two lists of string pairs are equal.
pub(crate) fn same_pairs(a: &Vec<(String, String)>, b: &Vec<(String, String)>) -> (r: bool)
    ensures
        r == (pairs_view(a@) == pairs_view(b@)),
{
    if a.len() != b.len() {
        return false;
    }
    let mut k: usize = 0;
    while k < a.len()
        invariant
            a.len() == b.len(),
            k <= a.len(),
            forall|t: int| 0 <= t < k ==> pairs_view(a@)[t] == pairs_view(b@)[t],
        decreases a.len() - k,
    {
        if a[k].0 != b[k].0 || a[k].1 != b[k].1 {
            assert(pairs_view(a@)[k as int] != pairs_view(b@)[k as int]);
            return false;
        }
        k = k + 1;
    }
    assert(pairs_view(a@) =~= pairs_view(b@));
    true
}

/// A parsed checkpoint file holds exactly one current, complete record.
pub open spec fn checkpoint_record_ok(c: CorpusSeedCheckpointV3) -> bool {
    c.checkpoint_version == CORPUS_ARTIFACT_V3_CHECKPOINT_VERSION && c.status@ == "complete"@
}

/// Accept the records parsed from a checkpoint file: exactly one, current
/// and complete.
pub fn single_checkpoint_record(rows: Vec<CorpusSeedCheckpointV3>) -> (r: Result<
    CorpusSeedCheckpointV3,
    CorpusArtifactV3Error,
>)
    ensures
        rows.len() != 1 ==> r == Err::<CorpusSeedCheckpointV3, CorpusArtifactV3Error>(
            CorpusArtifactV3Error::Invalid(ArtifactViolation::CheckpointRecordCount { found: rows.len() }),
        ),
        rows.len() == 1 && !checkpoint_record_ok(rows@[0]) ==> r
            == Err::<CorpusSeedCheckpointV3, CorpusArtifactV3Error>(
            CorpusArtifactV3Error::Invalid(ArtifactViolation::UnsupportedCheckpoint),
        ),
        rows.len() == 1 && checkpoint_record_ok(rows@[0]) ==> r
            == Ok::<CorpusSeedCheckpointV3, CorpusArtifactV3Error>(rows@[0]),
{
    let mut rows = rows;
    if rows.len() != 1 {
        return Err(
            CorpusArtifactV3Error::Invalid(ArtifactViolation::CheckpointRecordCount { found: rows.len() }),
        );
    }
    let checkpoint = rows.pop().unwrap();
    let complete = String::from_str("complete");
    if checkpoint.checkpoint_version != CORPUS_ARTIFACT_V3_CHECKPOINT_VERSION || checkpoint.status != complete {
        return Err(CorpusArtifactV3Error::Invalid(ArtifactViolation::UnsupportedCheckpoint));
    }
    Ok(checkpoint)
}

/// The expected single-seed shard a checkpoint must seal.
pub struct ExpectedShard {
    /// Number of seeds of the expected build configuration.
    pub seed_count: u64,
    pub start_seed: u64,
    /// Content identifier of the expected build configuration.
    pub config_id: String,
}

/// The checkpoint seals `bundle` for the expected single seed, whose
/// configuration the verified artifact ran with (`verified_config_matches`).
pub open spec fn checkpoint_verdict(
    c: CorpusSeedCheckpointV3,
    expected: ExpectedShard,
    verified_config_matches: bool,
    bundle: CorpusArtifactBundleV3,
) -> Result<(), ArtifactViolation> {
    if expected.seed_count != 1 {
        Err(ArtifactViolation::CheckpointSeedCount)
    } else if c.config_id@ != expected.config_id@ || c.seed != expected.start_seed {
        Err(ArtifactViolation::CheckpointIdentityMismatch)
    } else if !verified_config_matches {
        Err(ArtifactViolation::CheckpointConfigMismatch)
    } else if pairs_view(c.artifact_hashes@) != bundle_hashes(bundle) {
        Err(ArtifactViolation::CheckpointHashMismatch)
    } else {
        Ok(())
    }
}

/// Check a checkpoint against the expected seed, configuration identity and
/// the bundle's file hashes.
pub fn verify_checkpoint_against_bundle(
    checkpoint: &CorpusSeedCheckpointV3,
    expected: &ExpectedShard,
    verified_config_matches: bool,
    bundle: &CorpusArtifactBundleV3,
) -> (r: Result<(), CorpusArtifactV3Error>)
    ensures
        match checkpoint_verdict(*checkpoint, *expected, verified_config_matches, *bundle) {
            Ok(()) => r is Ok,
            Err(v) => r == Err::<(), CorpusArtifactV3Error>(CorpusArtifactV3Error::Invalid(v)),
        },
{
    if expected.seed_count != 1 {
        return Err(CorpusArtifactV3Error::Invalid(ArtifactViolation::CheckpointSeedCount));
    }
    if checkpoint.config_id != expected.config_id || checkpoint.seed != expected.start_seed {
        return Err(CorpusArtifactV3Error::Invalid(ArtifactViolation::CheckpointIdentityMismatch));
    }
    if !verified_config_matches {
        return Err(CorpusArtifactV3Error::Invalid(ArtifactViolation::CheckpointConfigMismatch));
    }
    let actual = bundle.artifact_hashes();
    if !same_pairs(&checkpoint.artifact_hashes, &actual) {
        return Err(CorpusArtifactV3Error::Invalid(ArtifactViolation::CheckpointHashMismatch));
    }
    Ok(())
}

/// Deterministic shard directory name for one seed.
pub fn seed_shard_directory_name(seed: u64) -> (r: String)
    ensures
        r@ == hex_identity("seed"@, seed),
{
    hex_id("seed", seed)
}

} // verus!
