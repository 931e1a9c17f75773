//! The Hyrax row-wise matrix commitment and its serialization layer.
//!
//! A flat byte vector is reshaped into a matrix whose rows have the width of
//! the committer's generator set; each row is committed under a fresh
//! blinding factor drawn from a ChaCha20 stream seeded by the caller.  The
//! commitment is published; the blinding factors are kept secret by the
//! caller (leaking them destroys the hiding of the committed data).

use vstd::prelude::*;
use vstd::arithmetic::div_mod::lemma_fundamental_div_mod;
use vstd::arithmetic::mul::{lemma_mul_inequality, lemma_mul_is_commutative};
use crate::bytes::{le_bytes, le_int};
use crate::curves::{
    chacha_scalar, compressed_bytes, compressed_decodable, CurvePoint, gen_index, gens_ok,
    group_order, index_ok, Scalar,
};
use crate::pedersen::{bytes_as_ints, commit_index, PedersenCommitter};
use crate::utils::ChaCha20RngWrapper;

verus! {

/// Log of the number of columns in the re-arrangement of the input as a
/// matrix.
pub const LOG_NUM_COLS: usize = 9;

/// The public string from which the generators are derived: the UTF-8 bytes
/// of "Modulus <3 Worldcoin: ZKML Self-Custody Edition", an arbitrary
/// domain-separation constant of which only the first 32 bytes matter.
pub open spec fn public_string() -> Seq<u8> {
    seq![77u8, 111u8, 100u8, 117u8, 108u8, 117u8, 115u8, 32u8, 60u8, 51u8, 32u8, 87u8, 111u8, 114u8, 108u8, 100u8, 99u8, 111u8, 105u8, 110u8, 58u8, 32u8, 90u8, 75u8, 77u8, 76u8, 32u8, 83u8, 101u8, 108u8, 102u8, 45u8, 67u8, 117u8, 115u8, 116u8, 111u8, 100u8, 121u8, 32u8, 69u8, 100u8, 105u8, 116u8, 105u8, 111u8, 110u8]
}

/// The public string, as a byte vector.
pub fn public_string_bytes() -> (r: Vec<u8>)
    ensures
        r@ == public_string(),
{
    let arr: [u8; 47] = [77, 111, 100, 117, 108, 117, 115, 32, 60, 51, 32, 87, 111, 114, 108, 100, 99, 111, 105, 110, 58, 32, 90, 75, 77, 76, 32, 83, 101, 108, 102, 45, 67, 117, 115, 116, 111, 100, 121, 32, 69, 100, 105, 116, 105, 111, 110];
    let v = vstd::slice::slice_to_vec(arr.as_slice());
    proof {
        assert(v@ =~= public_string());
    }
    v
}

/// Whether `n` is a power of two.
pub open spec fn is_power_of_two(n: int) -> bool
    decreases n,
{
    if n < 1 {
        false
    } else if n == 1 {
        true
    } else {
        n % 2 == 0 && is_power_of_two(n / 2)
    }
}

/// The indices of the `n_cols` message generators that the public string
/// with 32-byte prefix `seed32` determines (the sample before them is the
/// blinding generator).
pub open spec fn matrix_gens(seed32: Seq<u8>, n_cols: int) -> Seq<int> {
    Seq::new(n_cols as nat, |i: int| gen_index(seed32, i + 1))
}

/// The index of the commitment to row `r` of `data` reshaped to rows of
/// width `n_cols`, under the generators of `seed32` and the blinding factors
/// of `bseed`.
pub open spec fn row_commit_index(
    data: Seq<u8>,
    seed32: Seq<u8>,
    bseed: Seq<u8>,
    n_cols: int,
    r: int,
) -> int {
    commit_index(
        bytes_as_ints(data.subrange(r * n_cols, (r + 1) * n_cols)),
        matrix_gens(seed32, n_cols),
        gen_index(seed32, 0),
        chacha_scalar(bseed, r),
    )
}

/// The two outputs of the Hyrax commitment: the commitment itself, one
/// point per row, to be published, and the blinding factors, one scalar per
/// row, to be kept secret by the caller.
pub struct HyraxCommitmentOutput {
    /// The row commitments, in row order.
    pub commitment: Vec<CurvePoint>,
    /// The blinding factors, in row order.
    pub blinding_factors: Vec<Scalar>,
}

/// The serialized form of `HyraxCommitmentOutput`: fixed-width
/// concatenations with no framing.
pub struct HyraxCommitmentOutputSerialized {
    /// 34 bytes per row: the compressed encodings of the row commitments.
    pub commitment_serialized: Vec<u8>,
    /// 32 bytes per row: the little-endian encodings of the blinding
    /// factors.
    pub blinding_factors_serialized: Vec<u8>,
}

/// Commits to the rows of `data`, reshaped to rows of the committer's
/// width, drawing one blinding factor per row from the ChaCha20 stream of
/// the seed.  Both outputs have exactly one entry per row; entry `r` of the
/// commitment binds row `r` under entry `r` of the blinding factors.
pub fn compute_commitments(
    data: &[u8],
    vector_committer: &PedersenCommitter,
    blinding_factor_seed: [u8; 32],
) -> (out: HyraxCommitmentOutput)
    requires
        vector_committer.wf(),
        vector_committer.generators@.len() > 0,
        is_power_of_two(data@.len() as int),
        data@.len() % vector_committer.generators@.len() == 0,
    ensures
        out.commitment@.len() == data@.len() / vector_committer.generators@.len(),
        out.blinding_factors@.len() == data@.len() / vector_committer.generators@.len(),
        forall|r: int|
            0 <= r < out.blinding_factors@.len() ==> (#[trigger] out.blinding_factors@[r])@
                == chacha_scalar(blinding_factor_seed@, r),
        forall|r: int|
            0 <= r < out.commitment@.len() ==> (#[trigger] out.commitment@[r])@ == commit_index(
                bytes_as_ints(
                    data@.subrange(
                        r * vector_committer.generators@.len(),
                        (r + 1) * vector_committer.generators@.len(),
                    ),
                ),
                vector_committer.gens(),
                vector_committer.blinding_generator@,
                chacha_scalar(blinding_factor_seed@, r),
            ),
{
    let n_cols = vector_committer.generators.len();
    let n_rows = data.len() / n_cols;
    proof {
        lemma_fundamental_div_mod(data@.len() as int, n_cols as int);
    }
    let mut prng = ChaCha20RngWrapper::from_seed(blinding_factor_seed);
    let mut blinding_factors: Vec<Scalar> = Vec::new();
    let mut r: usize = 0;
    while r < n_rows
        invariant
            crate::utils::chacha_seed(prng) == blinding_factor_seed@,
            crate::utils::chacha_count(prng) == r as int,
            blinding_factors@.len() == r,
            0 <= r <= n_rows,
            forall|k: int|
                0 <= k < r ==> (#[trigger] blinding_factors@[k])@ == chacha_scalar(
                    blinding_factor_seed@,
                    k,
                ),
        decreases n_rows - r,
    {
        let b = Scalar::rand(&mut prng);
        blinding_factors.push(b);
        r = r + 1;
    }
    let mut commitment: Vec<CurvePoint> = Vec::new();
    let mut r: usize = 0;
    while r < n_rows
        invariant
            vector_committer.wf(),
            vector_committer.generators@.len() == n_cols,
            n_cols > 0,
            data@.len() <= usize::MAX,
            n_rows as int == data@.len() as int / n_cols as int,
            data@.len() as int == n_cols as int * n_rows as int,
            blinding_factors@.len() == n_rows,
            forall|k: int|
                0 <= k < n_rows ==> (#[trigger] blinding_factors@[k])@ == chacha_scalar(
                    blinding_factor_seed@,
                    k,
                ),
            commitment@.len() == r,
            0 <= r <= n_rows,
            forall|k: int|
                0 <= k < r ==> (#[trigger] commitment@[k])@ == commit_index(
                    bytes_as_ints(data@.subrange(k * n_cols as int, (k + 1) * n_cols as int)),
                    vector_committer.gens(),
                    vector_committer.blinding_generator@,
                    chacha_scalar(blinding_factor_seed@, k),
                ),
        decreases n_rows - r,
    {
        proof {
            lemma_mul_inequality(r as int + 1, n_rows as int, n_cols as int);
            lemma_mul_is_commutative(r as int + 1, n_cols as int);
            lemma_mul_is_commutative(n_rows as int, n_cols as int);
            lemma_mul_is_commutative(r as int, n_cols as int);
            vstd::arithmetic::mul::lemma_mul_is_distributive_add_other_way(
                n_cols as int,
                r as int,
                1,
            );
            assert(r as int * n_cols as int + n_cols as int <= data@.len());
        }
        let base = r * n_cols;
        let mut row: Vec<u8> = Vec::new();
        let mut j: usize = 0;
        while j < n_cols
            invariant
                0 <= j <= n_cols,
                base == r * n_cols,
                base + n_cols <= data@.len(),
                data@.len() <= usize::MAX,
                row@.len() == j,
                forall|t: int| 0 <= t < j ==> row@[t] == data@[base + t],
            decreases n_cols - j,
        {
            row.push(data[base + j]);
            j = j + 1;
        }
        let c = vector_committer.vector_commit(row.as_slice(), &blinding_factors[r]);
        proof {
            assert(row@ =~= data@.subrange(r * n_cols as int, (r + 1) * n_cols as int));
        }
        commitment.push(c);
        r = r + 1;
    }
    HyraxCommitmentOutput { commitment, blinding_factors }
}

/// The fixed-width serialization of a commitment: the concatenation of the
/// 34-byte compressed encodings of its points, in row order.
pub fn serialize_commitment(commitment: &Vec<CurvePoint>) -> (out: Vec<u8>)
    ensures
        out@.len() == 34 * commitment@.len(),
        forall|k: int|
            0 <= k < commitment@.len() ==> out@.subrange(34 * k, 34 * (k + 1))
                == compressed_bytes((#[trigger] commitment@[k])@),
        forall|k: int| 0 <= k < commitment@.len() ==> index_ok((#[trigger] commitment@[k])@),
{
    let mut out: Vec<u8> = Vec::new();
    let mut k: usize = 0;
    while k < commitment.len()
        invariant
            0 <= k <= commitment@.len(),
            out@.len() == 34 * k,
            forall|t: int|
                0 <= t < k ==> out@.subrange(34 * t, 34 * (t + 1)) == compressed_bytes(
                    (#[trigger] commitment@[t])@,
                ),
            forall|t: int| 0 <= t < k ==> index_ok((#[trigger] commitment@[t])@),
        decreases commitment@.len() - k,
    {
        let mut chunk = commitment[k].to_bytes_compressed();
        let ghost before = out@;
        out.append(&mut chunk);
        proof {
            assert forall|t: int|
                0 <= t < k + 1 implies out@.subrange(34 * t, 34 * (t + 1)) == compressed_bytes(
                (#[trigger] commitment@[t])@,
            ) by {
                if t < k {
                    assert(out@.subrange(34 * t, 34 * (t + 1)) =~= before.subrange(
                        34 * t,
                        34 * (t + 1),
                    ));
                } else {
                    assert(out@.subrange(34 * t, 34 * (t + 1)) =~= compressed_bytes(
                        commitment@[t]@,
                    ));
                }
            }
        }
        k = k + 1;
    }
    out
}

/// The fixed-width serialization of blinding factors: the concatenation of
/// their 32-byte little-endian encodings, in row order.
pub fn serialize_blinding_factors(blinding_factors: &Vec<Scalar>) -> (out: Vec<u8>)
    ensures
        out@.len() == 32 * blinding_factors@.len(),
        forall|k: int|
            0 <= k < blinding_factors@.len() ==> out@.subrange(32 * k, 32 * (k + 1)) == le_bytes(
                (#[trigger] blinding_factors@[k])@,
                32,
            ),
{
    let mut out: Vec<u8> = Vec::new();
    let mut k: usize = 0;
    while k < blinding_factors.len()
        invariant
            0 <= k <= blinding_factors@.len(),
            out@.len() == 32 * k,
            forall|t: int|
                0 <= t < k ==> out@.subrange(32 * t, 32 * (t + 1)) == le_bytes(
                    (#[trigger] blinding_factors@[t])@,
                    32,
                ),
        decreases blinding_factors@.len() - k,
    {
        let mut chunk = blinding_factors[k].to_le_bytes();
        let ghost before = out@;
        out.append(&mut chunk);
        proof {
            assert forall|t: int|
                0 <= t < k + 1 implies out@.subrange(32 * t, 32 * (t + 1)) == le_bytes(
                (#[trigger] blinding_factors@[t])@,
                32,
            ) by {
                if t < k {
                    assert(out@.subrange(32 * t, 32 * (t + 1)) =~= before.subrange(
                        32 * t,
                        32 * (t + 1),
                    ));
                } else {
                    assert(out@.subrange(32 * t, 32 * (t + 1)) =~= le_bytes(
                        blinding_factors@[t]@,
                        32,
                    ));
                }
            }
        }
        k = k + 1;
    }
    out
}

/// Commits to `data` with the committer of the fixed `PUBLIC_STRING` and
/// `1 << LOG_NUM_COLS` columns, and serializes both outputs.  Returns `None`
/// exactly when generator sampling runs out of attempts, which the SHAKE256
/// stream of the fixed public string never does.
#[verifier::rlimit(100)]
pub fn compute_commitments_binary_outputs(data: &[u8], blinding_factor_seed: [u8; 32]) -> (out:
    Option<HyraxCommitmentOutputSerialized>)
    requires
        is_power_of_two(data@.len() as int),
        data@.len() % 512 == 0,
    ensures
        (out is Some) == gens_ok(public_string().take(32), 513),
        out matches Some(o) ==> {
            let n_rows = data@.len() / 512;
            let seed32 = public_string().take(32);
            &&& o.commitment_serialized@.len() == 34 * n_rows
            &&& o.blinding_factors_serialized@.len() == 32 * n_rows
            &&& forall|r: int|
                0 <= r < n_rows ==> o.commitment_serialized@.subrange(34 * r, 34 * (r + 1))
                    == compressed_bytes(
                    #[trigger] row_commit_index(
                        data@,
                        seed32,
                        blinding_factor_seed@,
                        512,
                        r,
                    ),
                )
            &&& forall|r: int|
                0 <= r < n_rows ==> o.blinding_factors_serialized@.subrange(
                    32 * r,
                    32 * (r + 1),
                ) == le_bytes(#[trigger] chacha_scalar(blinding_factor_seed@, r), 32)
        },
{
    let ps = public_string_bytes();
    let n_cols = 1usize << LOG_NUM_COLS;
    proof {
        assert(1usize << 9usize == 512) by (bit_vector);
    }
    let vector_committer = match PedersenCommitter::new(n_cols, ps.as_slice()) {
        Some(c) => c,
        None => {
            return None;
        },
    };
    let out = compute_commitments(data, &vector_committer, blinding_factor_seed);
    let commitment_serialized = serialize_commitment(&out.commitment);
    let blinding_factors_serialized = serialize_blinding_factors(&out.blinding_factors);
    proof {
        let seed32 = public_string().take(32);
        let n_rows = data@.len() as int / 512;
        assert(ps@.take(32) =~= seed32);
        assert(vector_committer.gens() =~= matrix_gens(seed32, 512));
        assert(out.commitment@.len() == n_rows);
        assert forall|r: int| 0 <= r < n_rows implies (#[trigger] out.commitment@[r])@
            == row_commit_index(data@, seed32, blinding_factor_seed@, 512, r) by {
            assert(out.commitment@[r]@ == commit_index(
                bytes_as_ints(data@.subrange(r * 512, (r + 1) * 512)),
                vector_committer.gens(),
                vector_committer.blinding_generator@,
                chacha_scalar(blinding_factor_seed@, r),
            ));
        }
        assert forall|r: int| 0 <= r < n_rows implies commitment_serialized@.subrange(
            34 * r,
            34 * (r + 1),
        ) == compressed_bytes(
            #[trigger] row_commit_index(data@, seed32, blinding_factor_seed@, 512, r),
        ) by {
            assert(commitment_serialized@.subrange(34 * r, 34 * (r + 1)) == compressed_bytes(
                out.commitment@[r]@,
            ));
        }
        assert forall|r: int| 0 <= r < n_rows implies blinding_factors_serialized@.subrange(
            32 * r,
            32 * (r + 1),
        ) == le_bytes(#[trigger] chacha_scalar(blinding_factor_seed@, r), 32) by {
            assert(blinding_factors_serialized@.subrange(32 * r, 32 * (r + 1)) == le_bytes(
                out.blinding_factors@[r]@,
                32,
            ));
        }
    }
    Some(HyraxCommitmentOutputSerialized { commitment_serialized, blinding_factors_serialized })
}

/// Decodes a commitment from the fixed-width concatenation of compressed
/// point encodings.  Returns `None` exactly when some 34-byte chunk denotes
/// no point; decoding a serialized commitment gives the row commitments
/// back.
pub fn deserialize_commitment_from_bytes_compressed(bytes: &[u8]) -> (r: Option<Vec<CurvePoint>>)
    requires
        bytes@.len() % 34 == 0,
    ensures
        (r is Some) == (forall|k: int|
            0 <= k < bytes@.len() / 34 ==> compressed_decodable(
                #[trigger] bytes@.subrange(34 * k, 34 * (k + 1)),
            )),
        r matches Some(v) ==> {
            &&& v@.len() == bytes@.len() / 34
            &&& forall|k: int, i: int|
                #![trigger v@[k], compressed_bytes(i)]
                0 <= k < v@.len() && index_ok(i) && bytes@.subrange(34 * k, 34 * (k + 1))
                    == compressed_bytes(i) ==> v@[k]@ == i
        },
{
    let n = bytes.len() / 34;
    proof {
        lemma_fundamental_div_mod(bytes@.len() as int, 34);
    }
    let mut points: Vec<CurvePoint> = Vec::new();
    let mut k: usize = 0;
    while k < n
        invariant
            bytes@.len() == 34 * n,
            bytes@.len() <= usize::MAX,
            points@.len() == k,
            0 <= k <= n,
            forall|t: int|
                0 <= t < k ==> compressed_decodable(
                    #[trigger] bytes@.subrange(34 * t, 34 * (t + 1)),
                ),
            forall|t: int, i: int|
                #![trigger points@[t], compressed_bytes(i)]
                0 <= t < k && index_ok(i) && bytes@.subrange(34 * t, 34 * (t + 1))
                    == compressed_bytes(i) ==> points@[t]@ == i,
        decreases n - k,
    {
        proof {
            assert(34 * (k as int) + 34 <= 34 * (n as int)) by (nonlinear_arith)
                requires 0 <= k < n,
            {
            }
        }
        let chunk = vstd::slice::slice_subrange(bytes, 34 * k, 34 * k + 34);
        proof {
            assert(chunk@ =~= bytes@.subrange(34 * (k as int), 34 * (k as int + 1)));
        }
        match CurvePoint::from_bytes_compressed(chunk) {
            Some(p) => {
                points.push(p);
            },
            None => {
                return None;
            },
        }
        k = k + 1;
    }
    Some(points)
}

/// Decodes blinding factors from the fixed-width concatenation of 32-byte
/// little-endian scalar encodings (each reduced modulo the field order).
pub fn deserialize_blinding_factors_from_bytes_compressed(bytes: &[u8]) -> (r: Vec<Scalar>)
    requires
        bytes@.len() % 32 == 0,
    ensures
        r@.len() == bytes@.len() / 32,
        forall|k: int|
            0 <= k < r@.len() ==> (#[trigger] r@[k])@ == le_int(
                bytes@.subrange(32 * k, 32 * (k + 1)),
            ) % group_order(),
{
    let n = bytes.len() / 32;
    proof {
        lemma_fundamental_div_mod(bytes@.len() as int, 32);
    }
    let mut scalars: Vec<Scalar> = Vec::new();
    let mut k: usize = 0;
    while k < n
        invariant
            bytes@.len() == 32 * n,
            bytes@.len() <= usize::MAX,
            scalars@.len() == k,
            0 <= k <= n,
            forall|t: int|
                0 <= t < k ==> (#[trigger] scalars@[t])@ == le_int(
                    bytes@.subrange(32 * t, 32 * (t + 1)),
                ) % group_order(),
        decreases n - k,
    {
        proof {
            assert(32 * (k as int) + 32 <= 32 * (n as int)) by (nonlinear_arith)
                requires 0 <= k < n,
            {
            }
        }
        let chunk = vstd::slice::slice_subrange(bytes, 32 * k, 32 * k + 32);
        proof {
            assert(chunk@ =~= bytes@.subrange(32 * (k as int), 32 * (k as int + 1)));
        }
        let s = Scalar::from_le_bytes_mod_order(chunk);
        scalars.push(s);
        k = k + 1;
    }
    scalars
}

/// `deserialize_commitment_from_bytes_compressed`, under the name callers
/// of the concrete BN254 instantiation use.
pub fn deserialize_commitment_from_bytes_compressed_concrete(bytes: &[u8]) -> (r: Option<
    Vec<CurvePoint>,
>)
    requires
        bytes@.len() % 34 == 0,
    ensures
        (r is Some) == (forall|k: int|
            0 <= k < bytes@.len() / 34 ==> compressed_decodable(
                #[trigger] bytes@.subrange(34 * k, 34 * (k + 1)),
            )),
        r matches Some(v) ==> {
            &&& v@.len() == bytes@.len() / 34
            &&& forall|k: int, i: int|
                #![trigger v@[k], compressed_bytes(i)]
                0 <= k < v@.len() && index_ok(i) && bytes@.subrange(34 * k, 34 * (k + 1))
                    == compressed_bytes(i) ==> v@[k]@ == i
        },
{
    deserialize_commitment_from_bytes_compressed(bytes)
}

/// `deserialize_blinding_factors_from_bytes_compressed`, under the name
/// callers of the concrete BN254 instantiation use.
pub fn deserialize_blinding_factors_from_bytes_compressed_concrete(bytes: &[u8]) -> (r: Vec<
    Scalar,
>)
    requires
        bytes@.len() % 32 == 0,
    ensures
        r@.len() == bytes@.len() / 32,
        forall|k: int|
            0 <= k < r@.len() ==> (#[trigger] r@[k])@ == le_int(
                bytes@.subrange(32 * k, 32 * (k + 1)),
            ) % group_order(),
{
    deserialize_blinding_factors_from_bytes_compressed(bytes)
}

} // verus!
