//! The three streams of a seed's deep-analysis artifact, the manifest's
//! record of their hashes, and the counts a verified artifact reports.
use vstd::prelude::*;

use crate::artifact_bundle::{hash_entry, pairs_view, same_pairs};
use crate::checks::{ArtifactViolation, CorpusAnalysisArtifactError};
use crate::identity::byte_hash_text;

verus! {

/// The files of one seed's deep-analysis artifact.
#[derive(Clone, Debug, PartialEq, Eq)]
pub struct CorpusAnalysisArtifactBundle {
    pub manifest_json: Vec<u8>,
    pub rooms_jsonl: Vec<u8>,
    pub controller_witnesses_jsonl: Vec<u8>,
}

/// Name and content hash of each hashed stream, in ascending name order.
pub open spec fn analysis_stream_hashes(b: CorpusAnalysisArtifactBundle) -> Seq<(Seq<char>, Seq<char>)> {
    seq![
        ("controller_witnesses.jsonl"@, byte_hash_text(b.controller_witnesses_jsonl@)),
        ("rooms.jsonl"@, byte_hash_text(b.rooms_jsonl@)),
    ]
}

impl CorpusAnalysisArtifactBundle {
    /// Name and content hash of the room and witness streams, in ascending
    /// name order; the manifest does not hash itself.
    pub fn stream_hashes(&self) -> (r: Vec<(String, String)>)
        ensures
            pairs_view(r@) == analysis_stream_hashes(*self),
    {
        let mut r: Vec<(String, String)> = Vec::new();
        r.push(hash_entry("controller_witnesses.jsonl", &self.controller_witnesses_jsonl));
        r.push(hash_entry("rooms.jsonl", &self.rooms_jsonl));
        assert(pairs_view(r@) =~= analysis_stream_hashes(*self));
        r
    }
}

/// Require the manifest's recorded stream hashes, in ascending name order,
/// to be exactly the bundle's.
pub fn verify_manifest_stream_hashes(
    recorded: &Vec<(String, String)>,
    bundle: &CorpusAnalysisArtifactBundle,
) -> (r: Result<(), CorpusAnalysisArtifactError>)
    ensures
        r is Ok <==> pairs_view(recorded@) == analysis_stream_hashes(*bundle),
        r is Err ==> r == Err::<(), CorpusAnalysisArtifactError>(
            CorpusAnalysisArtifactError::Invalid(ArtifactViolation::ManifestStreamHashMismatch),
        ),
{
    let actual = bundle.stream_hashes();
    if !same_pairs(recorded, &actual) {
        return Err(CorpusAnalysisArtifactError::Invalid(ArtifactViolation::ManifestStreamHashMismatch));
    }
    Ok(())
}

/// Accept the records parsed from a manifest file: exactly one.
pub fn single_manifest_record<T>(rows: Vec<T>) -> (r: Result<T, CorpusAnalysisArtifactError>)
    ensures
        rows.len() == 1 ==> r == Ok::<T, CorpusAnalysisArtifactError>(rows@[0]),
        rows.len() != 1 ==> r == Err::<T, CorpusAnalysisArtifactError>(
            CorpusAnalysisArtifactError::Invalid(ArtifactViolation::ManifestRecordCount { found: rows.len() }),
        ),
{
    let mut rows = rows;
    if rows.len() != 1 {
        return Err(
            CorpusAnalysisArtifactError::Invalid(ArtifactViolation::ManifestRecordCount { found: rows.len() }),
        );
    }
    Ok(rows.pop().unwrap())
}

/// What a verified deep-analysis artifact reports.
#[derive(Clone, Copy, Debug, PartialEq, Eq, Structural)]
pub struct VerifiedCorpusAnalysisArtifact {
    pub seed: u64,
    pub rooms: usize,
    pub retained_controller_witnesses: usize,
    pub canonical_route_vectors: usize,
}

/// Sum of a sequence of counts.
pub open spec fn total(s: Seq<usize>) -> nat
    decreases s.len(),
{
    if s.len() == 0 {
        0
    } else {
        total(s.drop_last()) + s.last() as nat
    }
}

proof fn lemma_total_prefix(s: Seq<usize>, k: int)
    requires
        0 <= k <= s.len(),
    ensures
        total(s.take(k)) <= total(s),
    decreases s.len(),
{
    if k < s.len() {
        assert(s.drop_last().take(k) =~= s.take(k));
        lemma_total_prefix(s.drop_last(), k);
    } else {
        assert(s.take(k) =~= s);
    }
}

/// The report of a verified artifact of `seed` whose rooms hold
/// `route_vectors_per_room` canonical route vectors each, with
/// `witness_count` retained controller witnesses.
pub fn verified_analysis_artifact(
    seed: u64,
    route_vectors_per_room: &[usize],
    witness_count: usize,
) -> (r: VerifiedCorpusAnalysisArtifact)
    requires
        total(route_vectors_per_room@) <= usize::MAX,
    ensures
        r == (VerifiedCorpusAnalysisArtifact {
            seed,
            rooms: route_vectors_per_room.len(),
            retained_controller_witnesses: witness_count,
            canonical_route_vectors: total(route_vectors_per_room@) as usize,
        }),
{
    let mut sum: usize = 0;
    let mut k: usize = 0;
    while k < route_vectors_per_room.len()
        invariant
            k <= route_vectors_per_room.len(),
            total(route_vectors_per_room@) <= usize::MAX,
            sum == total(route_vectors_per_room@.take(k as int)),
        decreases route_vectors_per_room.len() - k,
    {
        proof {
            assert(route_vectors_per_room@.take(k + 1).drop_last() =~= route_vectors_per_room@.take(k as int));
            lemma_total_prefix(route_vectors_per_room@, k + 1);
        }
        sum = sum + route_vectors_per_room[k];
        k = k + 1;
    }
    assert(route_vectors_per_room@.take(k as int) =~= route_vectors_per_room@);
    VerifiedCorpusAnalysisArtifact {
        seed,
        rooms: route_vectors_per_room.len(),
        retained_controller_witnesses: witness_count,
        canonical_route_vectors: sum,
    }
}

} // verus!
