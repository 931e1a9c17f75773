//! Tests for the Pedersen commitment scheme over BN254 (a.k.a. BN256).

use hyrax::curves::{CurvePoint, Scalar};
use hyrax::iriscode_commit::{public_string_bytes, LOG_NUM_COLS};
use hyrax::pedersen::{binary_decomposition_le, precompute_doublings, PedersenCommitter};

const TEST_PUBLIC_STRING: &[u8] = b"accountable magic something something";

/// Running the generator sampling twice yields the same generators.
#[test]
fn test_public_sampling() {
    let ps = public_string_bytes();
    let vector_committer: PedersenCommitter =
        PedersenCommitter::new(1 << LOG_NUM_COLS, &ps).unwrap();
    let vector_committer_2: PedersenCommitter =
        PedersenCommitter::new(1 << LOG_NUM_COLS, &ps).unwrap();

    assert!(vector_committer.generators == vector_committer_2.generators);
    assert!(vector_committer.blinding_generator == vector_committer_2.blinding_generator);
}

#[test]
fn test_commitment_with_random_generators_isnt_identity() {
    let zero: Scalar = Scalar::from_u64(0);
    let identity = CurvePoint::generator().scalar_mul(&zero);
    let committer: PedersenCommitter = PedersenCommitter::new(2, TEST_PUBLIC_STRING).unwrap();
    let message: Vec<u8> = vec![5, 7];
    let commit = committer.vector_commit(&message, &Scalar::from_u64(4));
    assert!(commit != identity);
}

#[test]
fn test_blinding_factor_dependence() {
    let committer: PedersenCommitter = PedersenCommitter::new(2, TEST_PUBLIC_STRING).unwrap();
    let message: Vec<u8> = vec![5, 7];
    let commit1 = committer.vector_commit(&message, &Scalar::from_u64(4));
    let commit2 = committer.vector_commit(&message, &Scalar::from_u64(5));
    assert!(commit1 != commit2);
}

#[test]
#[should_panic]
fn test_too_long_messages_fail() {
    let committer: PedersenCommitter = PedersenCommitter::new(1, TEST_PUBLIC_STRING).unwrap();
    let blinding_factor: Scalar = Scalar::from_u64(4);
    let message: Vec<u8> = vec![5, 7];
    let _commit = committer.vector_commit(&message, &blinding_factor);
}

#[test]
fn test_permutation() {
    let committer: PedersenCommitter = PedersenCommitter::new(2, TEST_PUBLIC_STRING).unwrap();
    // permuting the message changes the commitment
    let message: Vec<u8> = vec![5, 7];
    let permuted_message: Vec<u8> = vec![7, 5];
    let blinding_factor: Scalar = Scalar::from_u64(4);
    let commit = committer.vector_commit(&message, &blinding_factor);
    let permuted_message_commit = committer.vector_commit(&permuted_message, &blinding_factor);
    assert!(commit != permuted_message_commit);
}

/// Permuting the message together with the generators preserves the
/// commitment.
#[test]
fn test_permutation_with_generators_preserves_commitment() {
    let committer: PedersenCommitter = PedersenCommitter::new(2, TEST_PUBLIC_STRING).unwrap();
    let mut permuted_committer: PedersenCommitter =
        PedersenCommitter::new(2, TEST_PUBLIC_STRING).unwrap();
    permuted_committer.generators.swap(0, 1);
    permuted_committer.generator_doublings.swap(0, 1);
    let blinding_factor: Scalar = Scalar::from_u64(4);
    let commit = committer.vector_commit(&[5, 7], &blinding_factor);
    let permuted_commit = permuted_committer.vector_commit(&[7, 5], &blinding_factor);
    assert!(commit == permuted_commit);
}

#[test]
fn test_build_powers() {
    let g = CurvePoint::generator();
    let powers = precompute_doublings(&g, 3);
    assert!(powers.len() == 3);
    assert!(powers[0] == g);
    assert!(powers[1] == g.double());
    assert!(powers[2] == g.double().double());
}

#[test]
fn test_bit_decomposition_lsb() {
    let uint: u8 = 5;
    let bits = binary_decomposition_le(uint);
    assert_eq!(
        bits,
        vec![true, false, true, false, false, false, false, false]
    );
}

/// The alternate revision of `test_build_powers`, kept under its own name.
#[test]
fn tests_test_build_powers() {
    let g = CurvePoint::generator();
    let powers = precompute_doublings(&g, 3);
    assert!(powers.len() == 3);
    assert!(powers[0] == g);
    assert!(powers[1] == g.double());
    assert!(powers[2] == g.double().double());
}

/// The alternate revision of `test_bit_decomposition_lsb`, kept under its
/// own name.
#[test]
fn tests_test_bit_decomposition_lsb() {
    let uint: u8 = 5;
    let bits = binary_decomposition_le(uint);
    assert_eq!(
        bits,
        vec![true, false, true, false, false, false, false, false]
    );
}

/// The commitment computed through the doubling tables equals the direct
/// evaluation `5 * G_0 + 7 * G_1 + 4 * H` by scalar multiplication.
#[test]
fn test_commit_matches_direct_scalar_multiplication() {
    let committer: PedersenCommitter = PedersenCommitter::new(2, TEST_PUBLIC_STRING).unwrap();
    let commit = committer.vector_commit(&[5, 7], &Scalar::from_u64(4));
    let direct = committer.generators[0]
        .scalar_mul(&Scalar::from_u64(5))
        .add(&committer.generators[1].scalar_mul(&Scalar::from_u64(7)))
        .add(&committer.blinding_generator.scalar_mul(&Scalar::from_u64(4)));
    assert!(commit == direct);
}

/// Linearity: `commit(m1, b1) + commit(m2, b2)` equals
/// `commit(m1 + m2, b1 + b2)` when no byte sum overflows.
#[test]
fn test_commit_linearity() {
    let committer: PedersenCommitter = PedersenCommitter::new(2, TEST_PUBLIC_STRING).unwrap();
    let b1 = Scalar::from_u64(4);
    let b2 = Scalar::from_u64(6);
    let c1 = committer.vector_commit(&[5, 7], &b1);
    let c2 = committer.vector_commit(&[3, 9], &b2);
    let csum = committer.vector_commit(&[8, 16], &b1.add(&b2));
    assert!(c1.add(&c2) == csum);
}

/// The commitment to the empty message is the blinded identity `b * H`.
#[test]
fn test_empty_message_commits_to_blinding_term() {
    let committer: PedersenCommitter = PedersenCommitter::new(2, TEST_PUBLIC_STRING).unwrap();
    let b = Scalar::from_u64(4);
    let commit = committer.vector_commit(&[], &b);
    assert!(commit == committer.blinding_generator.scalar_mul(&b));
}

/// A short message uses only the first generators: committing to `[5]`
/// equals `5 * G_0 + b * H` even when the committer holds more generators.
#[test]
fn test_short_message_uses_prefix_of_generators() {
    let committer: PedersenCommitter = PedersenCommitter::new(3, TEST_PUBLIC_STRING).unwrap();
    let b = Scalar::from_u64(11);
    let commit = committer.vector_commit(&[5], &b);
    let direct = committer.generators[0]
        .scalar_mul(&Scalar::from_u64(5))
        .add(&committer.blinding_generator.scalar_mul(&b));
    assert!(commit == direct);
}
