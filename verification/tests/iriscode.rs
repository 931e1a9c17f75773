//! End-to-end tests of the Hyrax matrix commitment and its serialization.

use hyrax::curves::{CurvePoint, Scalar};
use hyrax::iriscode_commit::{
    compute_commitments, compute_commitments_binary_outputs,
    deserialize_blinding_factors_from_bytes_compressed,
    deserialize_blinding_factors_from_bytes_compressed_concrete,
    deserialize_commitment_from_bytes_compressed,
    deserialize_commitment_from_bytes_compressed_concrete, public_string_bytes,
    serialize_blinding_factors, serialize_commitment, HyraxCommitmentOutput,
    HyraxCommitmentOutputSerialized, LOG_NUM_COLS,
};
use hyrax::pedersen::PedersenCommitter;
use rand::{RngCore, SeedableRng};

// the iris image is 128 x 1024 = 2^17 bytes
const LOG_IMAGE_SIZE: usize = 17;

fn sample_image() -> Vec<u8> {
    let mut rng = rand_chacha::ChaCha20Rng::from_seed([99u8; 32]);
    let mut image = vec![0u8; 1 << LOG_IMAGE_SIZE];
    rng.fill_bytes(&mut image);
    image
}

#[test]
fn test_serialize_end_to_end() {
    // a reproducible stand-in for the normalized iris image
    let iris_image = sample_image();
    let seed: [u8; 32] = [42; 32];

    let ps = public_string_bytes();
    let vector_committer: PedersenCommitter =
        PedersenCommitter::new(1 << LOG_NUM_COLS, &ps).unwrap();

    let HyraxCommitmentOutput {
        commitment,
        blinding_factors,
    } = compute_commitments(&iris_image, &vector_committer, seed);
    assert_eq!(commitment.len(), 256);
    assert_eq!(blinding_factors.len(), 256);

    let commitment_serialized: Vec<u8> = serialize_commitment(&commitment);
    let blinding_factors_serialized: Vec<u8> = serialize_blinding_factors(&blinding_factors);
    assert_eq!(commitment_serialized.len(), 256 * 34);
    assert_eq!(blinding_factors_serialized.len(), 256 * 32);

    let deserialized_commitment =
        deserialize_commitment_from_bytes_compressed_concrete(&commitment_serialized).unwrap();
    let deserialized_blinding_factors =
        deserialize_blinding_factors_from_bytes_compressed_concrete(&blinding_factors_serialized);

    assert!(deserialized_commitment == commitment);
    assert!(deserialized_blinding_factors == blinding_factors);
}

/// The commitment has one point and one blinding factor per row.
#[test]
fn test_commit_output_shape() {
    let committer: PedersenCommitter =
        PedersenCommitter::new(2, b"accountable magic something something").unwrap();
    let data: Vec<u8> = vec![1, 2, 3, 4, 5, 6, 7, 8];
    let out = compute_commitments(&data, &committer, [3u8; 32]);
    assert_eq!(out.commitment.len(), 4);
    assert_eq!(out.blinding_factors.len(), 4);
}

/// The same data and seed give bit-identical outputs on every run.
#[test]
fn test_seed_determinism() {
    let committer: PedersenCommitter =
        PedersenCommitter::new(2, b"accountable magic something something").unwrap();
    let data: Vec<u8> = vec![9, 8, 7, 6];
    let out1 = compute_commitments(&data, &committer, [5u8; 32]);
    let out2 = compute_commitments(&data, &committer, [5u8; 32]);
    assert!(out1.commitment == out2.commitment);
    assert!(out1.blinding_factors == out2.blinding_factors);
    assert!(
        serialize_commitment(&out1.commitment) == serialize_commitment(&out2.commitment)
    );
    assert!(
        serialize_blinding_factors(&out1.blinding_factors)
            == serialize_blinding_factors(&out2.blinding_factors)
    );
    // another seed changes the blinding factors
    let out3 = compute_commitments(&data, &committer, [6u8; 32]);
    assert!(out1.blinding_factors != out3.blinding_factors);
}

/// Each row commitment binds its own row under its own blinding factor.
#[test]
fn test_rows_are_committed_independently() {
    let committer: PedersenCommitter =
        PedersenCommitter::new(2, b"accountable magic something something").unwrap();
    let data: Vec<u8> = vec![10, 20, 30, 40];
    let out = compute_commitments(&data, &committer, [1u8; 32]);
    let row0 = committer.vector_commit(&data[0..2], &out.blinding_factors[0]);
    let row1 = committer.vector_commit(&data[2..4], &out.blinding_factors[1]);
    assert!(out.commitment[0] == row0);
    assert!(out.commitment[1] == row1);
    assert!(out.commitment[0] != out.commitment[1]);
}

/// The all-in-one entry point serializes what the pieces produce.
#[test]
fn test_binary_outputs_match_the_pieces() {
    let iris_image = sample_image();
    let seed: [u8; 32] = [42; 32];
    let HyraxCommitmentOutputSerialized {
        commitment_serialized,
        blinding_factors_serialized,
    } = compute_commitments_binary_outputs(&iris_image, seed).unwrap();
    assert_eq!(commitment_serialized.len(), 256 * 34);
    assert_eq!(blinding_factors_serialized.len(), 256 * 32);

    let ps = public_string_bytes();
    let vector_committer: PedersenCommitter =
        PedersenCommitter::new(1 << LOG_NUM_COLS, &ps).unwrap();
    let out = compute_commitments(&iris_image, &vector_committer, seed);
    assert!(serialize_commitment(&out.commitment) == commitment_serialized);
    assert!(serialize_blinding_factors(&out.blinding_factors) == blinding_factors_serialized);
}

/// Deserializing scalars reduces each 32-byte chunk modulo the field order.
#[test]
fn test_deserialize_blinding_factors_values() {
    let scalars = vec![Scalar::from_u64(1), Scalar::from_u64(0xdeadbeef)];
    let bytes = serialize_blinding_factors(&scalars);
    assert_eq!(bytes.len(), 64);
    let back = deserialize_blinding_factors_from_bytes_compressed(&bytes);
    assert!(back == scalars);
}

/// Empty byte strings decode to empty vectors.
#[test]
fn test_deserialize_empty() {
    assert!(deserialize_commitment_from_bytes_compressed(&[]).unwrap().is_empty());
    assert!(deserialize_blinding_factors_from_bytes_compressed(&[]).is_empty());
}

/// Deserializing a commitment fails loudly on a corrupted chunk: an
/// uncompressed-style tag with coordinates off the curve cannot occur, but a
/// compressed chunk is refused when its x-coordinate has no square root.
#[test]
fn test_deserialize_commitment_round_trip_and_rejection() {
    let points = vec![
        CurvePoint::zero(),
        CurvePoint::generator(),
        CurvePoint::generator().double(),
    ];
    let bytes = serialize_commitment(&points);
    assert_eq!(bytes.len(), 3 * 34);
    let back = deserialize_commitment_from_bytes_compressed(&bytes).unwrap();
    assert!(back == points);

    // scan for an x-coordinate with no root; decoding such a chunk fails
    let mut rejected = false;
    for x in 0u8..64 {
        let mut chunk = [0u8; 34];
        chunk[1] = x;
        if CurvePoint::from_bytes_compressed(&chunk).is_none() {
            rejected = true;
            assert!(deserialize_commitment_from_bytes_compressed(&chunk).is_none());
            break;
        }
    }
    assert!(rejected);
}
