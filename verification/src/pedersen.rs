//! Pedersen vector commitments to byte messages over BN254 G1.
//!
//! A committer owns an ordered set of message generators and one blinding
//! generator, all derived deterministically from a public string through
//! SHAKE256, together with a precomputed table of bit-doublings of each
//! message generator.  A commitment to a message `m` under a blinding factor
//! `b` is the group element `sum m_i * G_i + b * H`; the implementation
//! evaluates each `m_i * G_i` by the little-endian bit decomposition of the
//! byte `m_i` and the doubling table, which the contracts prove equal to the
//! direct scalar product.

use vstd::prelude::*;
use vstd::arithmetic::power2::pow2;
use vstd::arithmetic::div_mod::{
    lemma_add_mod_noop, lemma_mod_breakdown, lemma_mod_twice, lemma_small_mod,
};
use vstd::arithmetic::mul::{lemma_mul_is_distributive_add_other_way, lemma_mul_is_associative};
use crate::curves::{
    CurvePoint, Scalar, group_order, gen_pos, gen_index, gens_ok, rand_ok, rand_end_pos,
};
use crate::utils::Sha3XofReaderWrapper;

verus! {

/// Bit `i` (little endian) of the byte `v`.
pub open spec fn bit_of(v: u8, i: int) -> bool {
    (v >> (i as u8)) & 1 == 1
}

/// The value of the low `n` bits of the byte `v`:
/// `sum of 2^i over the set bits i < n`.
pub open spec fn low_bits(v: u8, n: int) -> int
    decreases n,
{
    if n <= 0 {
        0
    } else {
        low_bits(v, n - 1) + if bit_of(v, n - 1) {
            pow2((n - 1) as nat) as int
        } else {
            0
        }
    }
}

/// The low `n` bits of a byte are the byte modulo `2^n`.
pub proof fn lemma_low_bits_is_mod(v: u8, n: int)
    requires
        0 <= n <= 8,
    ensures
        low_bits(v, n) == (v as int) % (pow2(n as nat) as int),
    decreases n,
{
    if n == 0 {
        vstd::arithmetic::power2::lemma2_to64();
    } else {
        lemma_low_bits_is_mod(v, n - 1);
        let p = pow2((n - 1) as nat) as int;
        vstd::arithmetic::power2::lemma_pow2_unfold(n as nat);
        vstd::arithmetic::power2::lemma_pow2_pos((n - 1) as nat);
        // v % 2^n == 2^(n-1) * ((v / 2^(n-1)) % 2) + v % 2^(n-1)
        lemma_mod_breakdown(v as int, p, 2);
        // the shifted-out bit is the quotient's parity
        vstd::bits::lemma_u8_shr_is_div(v, (n - 1) as u8);
        let sh = (v >> ((n - 1) as u8));
        assert(sh & 1 == sh % 2) by (bit_vector);
        assert((v as int / p) % 2 == (sh as int) % 2);
        assert(bit_of(v, n - 1) == ((v as int / p) % 2 == 1));
        assert(low_bits(v, n) == low_bits(v, n - 1) + if bit_of(v, n - 1) {
            p
        } else {
            0int
        });
        assert((v as int) % (p * 2) == p * ((v as int / p) % 2) + (v as int) % p);
        assert(pow2(n as nat) as int == p * 2);
        if bit_of(v, n - 1) {
            assert(p * ((v as int / p) % 2) == p);
        } else {
            assert((v as int / p) % 2 == 0);
            assert(p * ((v as int / p) % 2) == 0);
        }
    }
}

/// A byte is the value of all its eight bits.
pub proof fn lemma_low_bits_full(v: u8)
    ensures
        low_bits(v, 8) == v as int,
{
    lemma_low_bits_is_mod(v, 8);
    vstd::arithmetic::power2::lemma2_to64();
    lemma_small_mod(v as nat, 256);
}

/// Little-endian binary decomposition of a byte: entry `i` of the result is
/// bit `i` of `value`.
pub fn binary_decomposition_le(value: u8) -> (bits: Vec<bool>)
    ensures
        bits@.len() == 8,
        forall|i: int| 0 <= i < 8 ==> bits@[i] == bit_of(value, i),
{
    let mut bits: Vec<bool> = Vec::new();
    let mut i: u8 = 0;
    while i < 8
        invariant
            0 <= i <= 8,
            bits@.len() == i as int,
            forall|j: int| 0 <= j < i ==> bits@[j] == bit_of(value, j),
        decreases 8 - i,
    {
        let b = (value >> i) & 1 == 1;
        bits.push(b);
        i = i + 1;
    }
    bits
}

/// The doubling table of `base`: entry `i` is `2^i * base`, for
/// `i < bitwidth`.
pub fn precompute_doublings(base: &CurvePoint, bitwidth: usize) -> (powers: Vec<CurvePoint>)
    requires
        0 <= base@ < group_order(),
    ensures
        powers@.len() == bitwidth,
        forall|j: int|
            0 <= j < bitwidth ==> (#[trigger] powers@[j])@ == (pow2(j as nat) * base@)
                % group_order(),
        powers@.len() > 0 ==> powers@[0]@ == base@,
{
    let mut powers: Vec<CurvePoint> = Vec::new();
    let mut last: CurvePoint = *base;
    proof {
        vstd::arithmetic::power2::lemma2_to64();
        lemma_small_mod(base@ as nat, group_order() as nat);
    }
    let mut i: usize = 0;
    while i < bitwidth
        invariant
            0 <= i <= bitwidth,
            powers@.len() == i,
            last@ == (pow2(i as nat) * base@) % group_order(),
            0 <= base@ < group_order(),
            forall|j: int|
                0 <= j < i ==> (#[trigger] powers@[j])@ == (pow2(j as nat) * base@)
                    % group_order(),
        decreases bitwidth - i,
    {
        powers.push(last);
        let next = last.double();
        proof {
            let g = group_order();
            let p = pow2(i as nat) as int;
            vstd::arithmetic::div_mod::lemma_mul_mod_noop_right(2, p * base@, g);
            lemma_mul_is_associative(2, p, base@);
            vstd::arithmetic::power2::lemma_pow2_unfold((i + 1) as nat);
        }
        last = next;
        i = i + 1;
    }
    proof {
        if bitwidth > 0 {
            vstd::arithmetic::power2::lemma2_to64();
            lemma_small_mod(base@ as nat, group_order() as nat);
        }
    }
    powers
}

/// The byte values of a message, as unbounded integers.
pub open spec fn bytes_as_ints(msg: Seq<u8>) -> Seq<int> {
    msg.map_values(|b: u8| b as int)
}

/// The unblinded part of a commitment:
/// `sum of vals[i] * gens[i] over i < n`.
pub open spec fn msg_sum(vals: Seq<int>, gens: Seq<int>, n: int) -> int
    decreases n,
{
    if n <= 0 {
        0
    } else {
        msg_sum(vals, gens, n - 1) + vals[n - 1] * gens[n - 1]
    }
}

/// The index of the Pedersen commitment to the values `vals` under the
/// message generators `gens` (of which the first `vals.len()` are used),
/// blinding generator `h` and blinding factor `b`:
/// `sum vals[i] * gens[i] + b * h`, in the group `Z_r`.
pub open spec fn commit_index(vals: Seq<int>, gens: Seq<int>, h: int, b: int) -> int {
    (msg_sum(vals, gens, vals.len() as int) + b * h) % group_order()
}

/// For committing to vectors of bytes using the Pedersen commitment scheme.
///
/// The generators are sampled deterministically from a public string through
/// the SHAKE256 output stream; the committer also precomputes, for each
/// message generator, the table of its first eight bit-doublings, one per
/// bit of a byte.
pub struct PedersenCommitter {
    /// The "g" generators, exponentiated by the message bytes.
    pub generators: Vec<CurvePoint>,
    /// The "h" generator, exponentiated by the blinding factor.
    pub blinding_generator: CurvePoint,
    /// The precomputed doubling tables, one per message generator.
    pub generator_doublings: Vec<Vec<CurvePoint>>,
}

impl PedersenCommitter {
    /// The committer's doubling tables match its generators: table `i`
    /// holds `2^j * G_i` for the eight bit positions `j` of a byte.
    pub open spec fn wf(&self) -> bool {
        &&& self.generator_doublings@.len() == self.generators@.len()
        &&& forall|i: int|
            0 <= i < self.generators@.len() ==> (#[trigger] self.generator_doublings@[i])@.len()
                == 8
        &&& forall|i: int, j: int|
            0 <= i < self.generators@.len() && 0 <= j < 8 ==> (
            #[trigger] self.generator_doublings@[i]@[j])@ == (pow2(j as nat)
                * self.generators@[i]@) % group_order()
    }

    /// The indices of the message generators.
    pub open spec fn gens(&self) -> Seq<int> {
        self.generators@.map_values(|g: CurvePoint| g@)
    }

    /// The committer holds exactly the generators that the public string
    /// determines: the blinding generator is the stream's first sample and
    /// the message generators are the following ones.
    pub open spec fn derived_from(&self, public_string: Seq<u8>) -> bool {
        let seed = public_string.take(32);
        &&& self.blinding_generator@ == gen_index(seed, 0)
        &&& forall|i: int|
            0 <= i < self.generators@.len() ==> (#[trigger] self.generators@[i])@ == gen_index(
                seed,
                i + 1,
            )
    }

    /// Creates a committer with `num_generators` message generators sampled
    /// from the public string (which must be at least 32 bytes long; only
    /// its first 32 bytes matter).  Returns `None` exactly when one of the
    /// bounded samplings runs out of attempts, which a real SHAKE256 stream
    /// never does.
    #[verifier::rlimit(50)]
    pub fn new(num_generators: usize, public_string: &[u8]) -> (r: Option<PedersenCommitter>)
        requires
            public_string@.len() >= 32,
            num_generators < usize::MAX,
        ensures
            (r is Some) == gens_ok(public_string@.take(32), num_generators + 1),
            r matches Some(c) ==> {
                &&& c.wf()
                &&& c.generators@.len() == num_generators
                &&& c.derived_from(public_string@)
            },
    {
        let all_generators = match Self::sample_generators(num_generators + 1, public_string) {
            Some(v) => v,
            None => {
                return None;
            },
        };
        let ghost seed = public_string@.take(32);
        let blinding_generator_h = all_generators[0];
        let mut generators_g_i: Vec<CurvePoint> = Vec::new();
        let mut i: usize = 1;
        while i < all_generators.len()
            invariant
                1 <= i <= all_generators@.len(),
                generators_g_i@.len() == i - 1,
                forall|j: int|
                    0 <= j < i - 1 ==> #[trigger] generators_g_i@[j] == all_generators@[j + 1],
            decreases all_generators@.len() - i,
        {
            generators_g_i.push(all_generators[i]);
            i = i + 1;
        }
        proof {
            assert forall|k: int| 0 <= k < generators_g_i@.len() implies 0 <= (
            #[trigger] generators_g_i@[k])@ < group_order() by {
                assert(generators_g_i@[k] == all_generators@[k + 1]);
                assert(crate::curves::index_ok(gen_index(seed, k + 1)));
            }
        }
        let mut generator_doublings: Vec<Vec<CurvePoint>> = Vec::new();
        let mut i: usize = 0;
        while i < generators_g_i.len()
            invariant
                forall|k: int|
                    0 <= k < generators_g_i@.len() ==> 0 <= (#[trigger] generators_g_i@[k])@
                        < group_order(),
                0 <= i <= generators_g_i@.len(),
                generator_doublings@.len() == i,
                forall|k: int|
                    0 <= k < i ==> (#[trigger] generator_doublings@[k])@.len() == 8,
                forall|k: int, j: int|
                    0 <= k < i && 0 <= j < 8 ==> (#[trigger] generator_doublings@[k]@[j])@ == (
                    pow2(j as nat) * generators_g_i@[k]@) % group_order(),
            decreases generators_g_i@.len() - i,
        {
            let table = precompute_doublings(&generators_g_i[i], 8);
            generator_doublings.push(table);
            i = i + 1;
        }
        Some(
            PedersenCommitter {
                generators: generators_g_i,
                blinding_generator: blinding_generator_h,
                generator_doublings,
            },
        )
    }

    /// Samples `num_generators` points from the SHAKE256 stream seeded with
    /// the first 32 bytes of the public string, by consecutive rejection
    /// sampling.
    #[verifier::rlimit(50)]
    fn sample_generators(num_generators: usize, public_string: &[u8]) -> (r: Option<
        Vec<CurvePoint>,
    >)
        requires
            public_string@.len() >= 32,
        ensures
            (r is Some) == gens_ok(public_string@.take(32), num_generators as int),
            r matches Some(v) ==> {
                &&& v@.len() == num_generators
                &&& forall|j: int|
                    0 <= j < num_generators ==> (#[trigger] v@[j])@ == gen_index(
                        public_string@.take(32),
                        j,
                    )
                &&& forall|j: int|
                    0 <= j < num_generators ==> crate::curves::index_ok(
                        #[trigger] gen_index(public_string@.take(32), j),
                    )
            },
    {
        let seed_slice = vstd::slice::slice_subrange(public_string, 0, 32);
        proof {
            assert(seed_slice@ =~= public_string@.take(32));
        }
        let ghost seed = public_string@.take(32);
        let mut reader = Sha3XofReaderWrapper::new(seed_slice);
        let mut generators: Vec<CurvePoint> = Vec::new();
        let mut j: usize = 0;
        while j < num_generators
            invariant
                seed == public_string@.take(32),
                crate::utils::xof_seed(reader) == seed,
                crate::utils::xof_pos(reader) == gen_pos(seed, j as int),
                generators@.len() == j,
                0 <= j <= num_generators,
                forall|i: int| 0 <= i < j ==> rand_ok(seed, gen_pos(seed, i)),
                forall|i: int|
                    0 <= i < j ==> (#[trigger] generators@[i])@ == gen_index(seed, i),
                forall|i: int|
                    0 <= i < j ==> crate::curves::index_ok(#[trigger] gen_index(seed, i)),
            decreases num_generators - j,
        {
            match CurvePoint::random(&mut reader) {
                Some(p) => {
                    generators.push(p);
                    proof {
                        assert(gen_pos(seed, j + 1) == rand_end_pos(
                            seed,
                            gen_pos(seed, j as int),
                        ));
                    }
                    j = j + 1;
                },
                None => {
                    proof {
                        assert(!rand_ok(seed, gen_pos(seed, j as int)));
                        assert(!gens_ok(seed, num_generators as int));
                    }
                    return None;
                },
            }
        }
        Some(generators)
    }

    /// Commits to a vector of bytes under the given blinding factor:
    /// the result is `sum message[i] * G_i + blinding * H` in the group,
    /// computed through the precomputed doubling tables and the binary
    /// decomposition of each byte.
    pub fn vector_commit(&self, message: &[u8], blinding: &Scalar) -> (c: CurvePoint)
        requires
            self.wf(),
            message@.len() <= self.generators@.len(),
        ensures
            c@ == commit_index(
                bytes_as_ints(message@),
                self.gens(),
                self.blinding_generator@,
                blinding@,
            ),
    {
        let ghost vals = bytes_as_ints(message@);
        let ghost gens = self.gens();
        let ghost r = group_order();
        let mut acc = CurvePoint::zero();
        let mut i: usize = 0;
        while i < message.len()
            invariant
                self.wf(),
                message@.len() <= self.generators@.len(),
                vals == bytes_as_ints(message@),
                gens == self.gens(),
                r == group_order(),
                0 <= i <= message@.len(),
                acc@ == msg_sum(vals, gens, i as int) % r,
            decreases message@.len() - i,
        {
            let value = message[i];
            let bits = binary_decomposition_le(value);
            let ghost g = gens[i as int];
            let mut byte_acc = CurvePoint::zero();
            let mut j: usize = 0;
            while j < 8
                invariant
                    self.wf(),
                    message@.len() <= self.generators@.len(),
                    gens == self.gens(),
                    r == group_order(),
                    0 <= i < message@.len(),
                    g == gens[i as int],
                    value == message@[i as int],
                    bits@.len() == 8,
                    forall|k: int| 0 <= k < 8 ==> bits@[k] == bit_of(value, k),
                    0 <= j <= 8,
                    byte_acc@ == (low_bits(value, j as int) * g) % r,
                decreases 8 - j,
            {
                if bits[j] {
                    let table = &self.generator_doublings[i];
                    let next = byte_acc.add(&table[j]);
                    proof {
                        let lb = low_bits(value, j as int);
                        let p = pow2(j as nat) as int;
                        lemma_add_mod_noop(lb * g, p * g, r);
                        lemma_mod_twice(lb * g, r);
                        lemma_mod_twice(p * g, r);
                        lemma_mul_is_distributive_add_other_way(g, lb, p);
                    }
                    byte_acc = next;
                } else {
                    proof {
                        vstd::arithmetic::div_mod::lemma_mod_twice(
                            low_bits(value, j as int) * g,
                            r,
                        );
                    }
                }
                j = j + 1;
            }
            let next_acc = acc.add(&byte_acc);
            proof {
                lemma_low_bits_full(value);
                assert(vals[i as int] == value as int);
                let s = msg_sum(vals, gens, i as int);
                lemma_add_mod_noop(s, (value as int) * g, r);
                lemma_mod_twice(s, r);
                lemma_mod_twice((value as int) * g, r);
                assert(msg_sum(vals, gens, i + 1) == s + vals[i as int] * gens[i as int]);
            }
            acc = next_acc;
            i = i + 1;
        }
        let blind_term = self.blinding_generator.scalar_mul(blinding);
        let result = acc.add(&blind_term);
        proof {
            let s = msg_sum(vals, gens, vals.len() as int);
            lemma_add_mod_noop(s, blinding@ * self.blinding_generator@, r);
            lemma_mod_twice(s, r);
            lemma_mod_twice(blinding@ * self.blinding_generator@, r);
        }
        result
    }
}


/// The pointwise sum of two equal-length value sequences.
pub open spec fn seq_add(m1: Seq<int>, m2: Seq<int>) -> Seq<int> {
    Seq::new(m1.len(), |i: int| m1[i] + m2[i])
}

/// The unblinded sums of two messages over one generator set add up to the
/// unblinded sum of the pointwise message sum.
proof fn lemma_msg_sum_add(m1: Seq<int>, m2: Seq<int>, gens: Seq<int>, n: int)
    requires
        m1.len() == m2.len(),
        n <= m1.len(),
    ensures
        msg_sum(m1, gens, n) + msg_sum(m2, gens, n) == msg_sum(seq_add(m1, m2), gens, n),
    decreases n,
{
    if n > 0 {
        lemma_msg_sum_add(m1, m2, gens, n - 1);
        vstd::arithmetic::mul::lemma_mul_is_distributive_add_other_way(
            gens[n - 1],
            m1[n - 1],
            m2[n - 1],
        );
    }
}

/// Linearity of the Pedersen commitment: for messages of equal length (in
/// the scalar-field interpretation of the values) and any blinding factors,
/// the group sum of two commitments is the commitment to the pointwise sum
/// of the messages under the sum of the blinding factors.
pub proof fn lemma_commit_linearity(
    m1: Seq<int>,
    m2: Seq<int>,
    gens: Seq<int>,
    h: int,
    b1: int,
    b2: int,
)
    requires
        m1.len() == m2.len(),
    ensures
        (commit_index(m1, gens, h, b1) + commit_index(m2, gens, h, b2)) % group_order()
            == commit_index(seq_add(m1, m2), gens, h, (b1 + b2) % group_order()),
{
    let r = group_order();
    let n = m1.len() as int;
    let s1 = msg_sum(m1, gens, n);
    let s2 = msg_sum(m2, gens, n);
    lemma_msg_sum_add(m1, m2, gens, n);
    lemma_add_mod_noop(s1 + b1 * h, s2 + b2 * h, r);
    lemma_mod_twice(s1 + b1 * h, r);
    lemma_mod_twice(s2 + b2 * h, r);
    vstd::arithmetic::div_mod::lemma_mul_mod_noop_left(b1 + b2, h, r);
    vstd::arithmetic::mul::lemma_mul_is_distributive_add_other_way(h, b1, b2);
    lemma_add_mod_noop(s1 + s2, (b1 + b2) * h, r);
    lemma_mod_twice(s1 + s2, r);
    lemma_mod_twice((b1 + b2) * h, r);
    assert(seq_add(m1, m2).len() == n);
    lemma_add_mod_noop(s1 + s2, ((b1 + b2) % r) * h, r);
}

/// Linearity, read on byte messages: when no pointwise byte sum overflows,
/// committing to the byte-wise sum under the sum of the blinding factors
/// gives the group sum of the two commitments.
pub proof fn lemma_commit_linearity_bytes(
    m1: Seq<u8>,
    m2: Seq<u8>,
    msum: Seq<u8>,
    gens: Seq<int>,
    h: int,
    b1: int,
    b2: int,
)
    requires
        m1.len() == m2.len(),
        msum.len() == m1.len(),
        forall|i: int| 0 <= i < m1.len() ==> msum[i] == m1[i] + m2[i],
    ensures
        (commit_index(bytes_as_ints(m1), gens, h, b1) + commit_index(bytes_as_ints(m2), gens, h, b2))
            % group_order() == commit_index(
            bytes_as_ints(msum),
            gens,
            h,
            (b1 + b2) % group_order(),
        ),
{
    lemma_commit_linearity(bytes_as_ints(m1), bytes_as_ints(m2), gens, h, b1, b2);
    assert(seq_add(bytes_as_ints(m1), bytes_as_ints(m2)) =~= bytes_as_ints(msum));
}

/// Two values with equal remainders have a difference divisible by the
/// modulus.
proof fn lemma_mod_diff_zero(a: int, b: int, m: int)
    requires
        m > 0,
        a % m == b % m,
    ensures
        (a - b) % m == 0,
{
    vstd::arithmetic::div_mod::lemma_sub_mod_noop(a, b, m);
    vstd::arithmetic::div_mod::lemma_mod_self_0(m);
    lemma_small_mod(0nat, m as nat);
}

/// Blinding dependence: commitments to one message under different blinding
/// factors differ, provided the blinding generator is not the identity and
/// the difference of the factors is invertible modulo the group order.  The
/// order of BN254 G1 is prime, so every pair of distinct factors has an
/// invertible difference; the generator is sampled from a public string and
/// misses the identity with overwhelming probability.
pub proof fn lemma_blinding_dependence(
    m: Seq<int>,
    gens: Seq<int>,
    h: int,
    b1: int,
    b2: int,
    v: int,
)
    requires
        0 < h < group_order(),
        ((b1 - b2) * v) % group_order() == 1,
    ensures
        commit_index(m, gens, h, b1) != commit_index(m, gens, h, b2),
{
    let r = group_order();
    let n = m.len() as int;
    let s = msg_sum(m, gens, n);
    let d = b1 - b2;
    if commit_index(m, gens, h, b1) == commit_index(m, gens, h, b2) {
        lemma_mod_diff_zero(s + b1 * h, s + b2 * h, r);
        vstd::arithmetic::mul::lemma_mul_is_distributive_sub_other_way(h, b1, b2);
        assert((d * h) % r == 0);
        // h == h * ((d v) % r) % r == (h d v) % r == ((d h) % r * v) % r == 0
        lemma_small_mod(h as nat, r as nat);
        vstd::arithmetic::div_mod::lemma_mul_mod_noop_right(h, d * v, r);
        assert((h * ((d * v) % r)) % r == (h * (d * v)) % r);
        assert(h * 1 == h);
        assert(h % r == (h * (d * v)) % r);
        lemma_mul_is_associative(h, d, v);
        assert(h * (d * v) == (h * d) * v);
        vstd::arithmetic::div_mod::lemma_mul_mod_noop_left(h * d, v, r);
        vstd::arithmetic::mul::lemma_mul_is_commutative(h, d);
        assert(((h * d) % r) == 0);
        assert((h * d) * v % r == (0 * v) % r);
        lemma_small_mod(0nat, r as nat);
        assert(h == 0);
    }
}

/// Replacing entry `k` of the message and of the generators changes the
/// unblinded sum by removing the old product and adding the new one.
proof fn lemma_msg_sum_update(m: Seq<int>, gens: Seq<int>, n: int, k: int, x: int, y: int)
    requires
        0 <= k < n,
        n <= m.len(),
        n <= gens.len(),
    ensures
        msg_sum(m.update(k, x), gens.update(k, y), n) == msg_sum(m, gens, n) - m[k] * gens[k] + x
            * y,
    decreases n,
{
    let mu = m.update(k, x);
    let gu = gens.update(k, y);
    if k == n - 1 {
        assert(msg_sum(mu, gu, n - 1) == msg_sum(m, gens, n - 1)) by {
            lemma_msg_sum_prefix_eq(m, gens, mu, gu, n - 1);
        }
    } else {
        lemma_msg_sum_update(m, gens, n - 1, k, x, y);
    }
}

/// The unblinded sum over a prefix depends only on the entries of that
/// prefix.
proof fn lemma_msg_sum_prefix_eq(m1: Seq<int>, g1: Seq<int>, m2: Seq<int>, g2: Seq<int>, n: int)
    requires
        n <= m1.len(),
        n <= m2.len(),
        n <= g1.len(),
        n <= g2.len(),
        forall|i: int| 0 <= i < n ==> m1[i] == m2[i],
        forall|i: int| 0 <= i < n ==> g1[i] == g2[i],
    ensures
        msg_sum(m1, g1, n) == msg_sum(m2, g2, n),
    decreases n,
{
    if n > 0 {
        lemma_msg_sum_prefix_eq(m1, g1, m2, g2, n - 1);
    }
}


/// Whether some entry of `perm` equals `v`.
pub open spec fn appears_in(perm: Seq<int>, v: int) -> bool {
    exists|i: int| 0 <= i < perm.len() && perm[i] == v
}

/// Whether `perm` lists each index below `n` exactly once.
pub open spec fn is_permutation(perm: Seq<int>, n: int) -> bool {
    &&& perm.len() == n
    &&& forall|i: int| 0 <= i < n ==> 0 <= #[trigger] perm[i] < n
    &&& forall|i: int, j: int| 0 <= i < j < n ==> perm[i] != perm[j]
    &&& forall|v: int| 0 <= v < n ==> #[trigger] appears_in(perm, v)
}

/// The sequence `s` rearranged by `perm`: entry `i` of the result is entry
/// `perm[i]` of `s`.
pub open spec fn permuted(s: Seq<int>, perm: Seq<int>) -> Seq<int> {
    Seq::new(perm.len(), |i: int| s[perm[i]])
}

/// Dropping entry `k` of the message and of the generators removes its
/// product from the unblinded sum.
proof fn lemma_msg_sum_remove(s: Seq<int>, t: Seq<int>, n: int, k: int)
    requires
        0 <= k < n,
        n <= s.len(),
        n <= t.len(),
    ensures
        msg_sum(s.remove(k), t.remove(k), n - 1) == msg_sum(s, t, n) - s[k] * t[k],
    decreases n,
{
    if k == n - 1 {
        lemma_msg_sum_prefix_eq(s.remove(k), t.remove(k), s, t, n - 1);
    } else {
        lemma_msg_sum_remove(s, t, n - 1, k);
        assert(s.remove(k)[n - 2] == s[n - 1]);
        assert(t.remove(k)[n - 2] == t[n - 1]);
    }
}

/// The unblinded sum is invariant under rearranging the message and the
/// generators by one permutation.
proof fn lemma_msg_sum_permutation(m: Seq<int>, gens: Seq<int>, perm: Seq<int>, n: int)
    requires
        n <= m.len(),
        n <= gens.len(),
        is_permutation(perm, n),
    ensures
        msg_sum(permuted(m, perm), permuted(gens, perm), n) == msg_sum(m, gens, n),
    decreases n,
{
    if n > 0 {
        assert(appears_in(perm, n - 1));
        let j = choose|i: int| 0 <= i < perm.len() && perm[i] == n - 1;
        assert(0 <= j < n && perm[j] == n - 1);
        let perm2 = perm.remove(j);
        assert(is_permutation(perm2, n - 1)) by {
            assert forall|i: int| 0 <= i < n - 1 implies 0 <= #[trigger] perm2[i] < n - 1 by {
                if i < j {
                    assert(perm2[i] == perm[i]);
                } else {
                    assert(perm2[i] == perm[i + 1]);
                }
            }
            assert forall|v: int| 0 <= v < n - 1 implies #[trigger] appears_in(perm2, v) by {
                assert(appears_in(perm, v));
                let i0 = choose|i: int| 0 <= i < perm.len() && perm[i] == v;
                if i0 < j {
                    assert(perm2[i0] == v);
                } else {
                    assert(i0 != j);
                    assert(perm2[i0 - 1] == v);
                }
            }
            assert forall|i: int, k: int| 0 <= i < k < n - 1 implies perm2[i] != perm2[k] by {
                if k < j {
                    assert(perm2[i] == perm[i] && perm2[k] == perm[k]);
                } else if i < j {
                    assert(perm2[i] == perm[i] && perm2[k] == perm[k + 1]);
                } else {
                    assert(perm2[i] == perm[i + 1] && perm2[k] == perm[k + 1]);
                }
            }
        }
        let mp = permuted(m, perm);
        let gp = permuted(gens, perm);
        lemma_msg_sum_remove(mp, gp, n, j);
        assert(mp.remove(j) =~= permuted(m, perm2));
        assert(gp.remove(j) =~= permuted(gens, perm2));
        lemma_msg_sum_permutation(m, gens, perm2, n - 1);
        assert(mp[j] == m[n - 1] && gp[j] == gens[n - 1]);
    }
}

/// Permutation sensitivity, preserving direction: rearranging the message
/// and the generators by one permutation leaves the commitment unchanged.
pub proof fn lemma_commit_permutation(
    m: Seq<int>,
    gens: Seq<int>,
    h: int,
    b: int,
    perm: Seq<int>,
)
    requires
        m.len() <= gens.len(),
        is_permutation(perm, m.len() as int),
    ensures
        commit_index(permuted(m, perm), permuted(gens, perm), h, b) == commit_index(
            m,
            gens,
            h,
            b,
        ),
{
    lemma_msg_sum_permutation(m, gens, perm, m.len() as int);
}

/// Permutation sensitivity, changing direction: swapping two message
/// entries alone changes the commitment, provided the product of the entry
/// difference and the generator difference is invertible modulo the group
/// order.  The order is prime, so this holds whenever the two entries
/// differ and the two generators differ as group elements.
pub proof fn lemma_commit_swap_changes(
    m: Seq<int>,
    gens: Seq<int>,
    h: int,
    b: int,
    i: int,
    j: int,
    v: int,
)
    requires
        0 <= i < m.len(),
        0 <= j < m.len(),
        m.len() <= gens.len(),
        (((m[i] - m[j]) * (gens[j] - gens[i])) * v) % group_order() == 1,
    ensures
        commit_index(m.update(i, m[j]).update(j, m[i]), gens, h, b) != commit_index(
            m,
            gens,
            h,
            b,
        ),
{
    let r = group_order();
    let n = m.len() as int;
    let mp = m.update(i, m[j]).update(j, m[i]);
    if i == j {
        // the hypothesis is contradictory: the product is 0, never 1
        assert((m[i] - m[j]) * (gens[j] - gens[i]) == 0) by (nonlinear_arith)
            requires m[i] == m[j],
        {
        }
        assert((0 * v) % r == 0) by {
            lemma_small_mod(0nat, r as nat);
        }
    } else {
        let m1 = m.update(i, m[j]);
        lemma_msg_sum_update(m, gens, n, i, m[j], gens[i]);
        assert(m.update(i, m[j]) =~= m.update(i, m[j]).update(i, m[j]));
        assert(msg_sum(m1, gens, n) == msg_sum(m, gens, n) - m[i] * gens[i] + m[j] * gens[i])
            by {
            lemma_msg_sum_update(m, gens.update(i, gens[i]), n, i, m[j], gens[i]);
            assert(gens.update(i, gens[i]) =~= gens);
        }
        lemma_msg_sum_update(m1, gens, n, j, m[i], gens[j]);
        assert(gens.update(j, gens[j]) =~= gens);
        assert(mp =~= m1.update(j, m[i]));
        assert(m1[j] == m[j]);
        let s = msg_sum(m, gens, n);
        let sp = msg_sum(mp, gens, n);
        assert(sp == s - m[i] * gens[i] + m[j] * gens[i] - m[j] * gens[j] + m[i] * gens[j]);
        let d = (m[i] - m[j]) * (gens[j] - gens[i]);
        assert(sp - s == d) by (nonlinear_arith)
            requires
                sp == s - m[i] * gens[i] + m[j] * gens[i] - m[j] * gens[j] + m[i] * gens[j],
                d == (m[i] - m[j]) * (gens[j] - gens[i]),
        {
        }
        if commit_index(mp, gens, h, b) == commit_index(m, gens, h, b) {
            lemma_mod_diff_zero(sp + b * h, s + b * h, r);
            assert(d % r == 0);
            vstd::arithmetic::div_mod::lemma_mul_mod_noop_left(d, v, r);
            assert((d * v) % r == ((d % r) * v) % r);
            assert(((0 as int) * v) % r == 0) by {
                lemma_small_mod(0nat, r as nat);
            }
        }
    }
}

/// Generator determinism: committers built from equal public strings hold
/// pointwise-equal blinding and message generators.  The generators are a
/// function of the first 32 bytes of the public string alone, so two
/// independent constructions agree across processes and machines.
pub proof fn lemma_generator_determinism(
    c1: &PedersenCommitter,
    c2: &PedersenCommitter,
    public_string: Seq<u8>,
)
    requires
        c1.derived_from(public_string),
        c2.derived_from(public_string),
        c1.generators@.len() == c2.generators@.len(),
    ensures
        c1.blinding_generator@ == c2.blinding_generator@,
        c1.gens() =~= c2.gens(),
{
}

} // verus!
