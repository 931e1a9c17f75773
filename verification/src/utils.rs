//! Deterministic byte streams: the SHAKE256 extendable-output stream that
//! generator sampling reads, and the ChaCha20 stream that blinding factors
//! are drawn from.
//!
//! Both streams are functions of their 32-byte seed alone; the model of a
//! reader is the pair of its seed and how much of the stream it has handed
//! out.

use vstd::prelude::*;

verus! {

/// Byte `i` of the SHAKE256 output stream for the 32-byte seed `seed`.
/// SHAKE256 is a deterministic extendable-output function: the stream is a
/// function of the seed alone, on every machine and in every process.
pub uninterp spec fn xof_byte(seed: Seq<u8>, i: int) -> u8;

/// Bytes `pos .. pos + n` of the SHAKE256 output stream for `seed`.
pub open spec fn stream_bytes(seed: Seq<u8>, pos: int, n: nat) -> Seq<u8> {
    Seq::new(n, |j: int| xof_byte(seed, pos + j))
}

/// The seed a reader was created from.
pub uninterp spec fn xof_seed(r: Sha3XofReaderWrapper) -> Seq<u8>;

/// How many bytes of its stream a reader has handed out.
pub uninterp spec fn xof_pos(r: Sha3XofReaderWrapper) -> int;

/// A SHAKE256 output reader: a cursor into the output stream determined by a
/// 32-byte seed.
#[verifier::external_body]
pub struct Sha3XofReaderWrapper {
    item: sha3::Shake256Reader,
}

impl Sha3XofReaderWrapper {
    /// Relies on `sha3`'s `Shake256` with `Update` and `ExtendableOutput`:
    /// absorbing the 32-byte seed and finalizing yields the reader of the
    /// SHAKE256 output stream of that seed.
    #[verifier::external_body]
    pub fn new(seed: &[u8]) -> (r: Sha3XofReaderWrapper)
        requires
            seed@.len() == 32,
        ensures
            xof_seed(r) == seed@,
            xof_pos(r) == 0,
    {
        let mut shake = sha3::Shake256::default();
        sha3::digest::Update::update(&mut shake, seed);
        Sha3XofReaderWrapper { item: sha3::digest::ExtendableOutput::finalize_xof(shake) }
    }

    /// Relies on `sha3`'s `XofReader::read`: the next four stream bytes,
    /// read little endian.
    #[verifier::external_body]
    pub fn next_u32(&mut self) -> (r: u32)
        ensures
            xof_seed(*final(self)) == xof_seed(*old(self)),
            xof_pos(*final(self)) == xof_pos(*old(self)) + 4,
            r as int == crate::bytes::le_int(
                stream_bytes(xof_seed(*old(self)), xof_pos(*old(self)), 4),
            ),
    {
        let mut buffer: [u8; 4] = [0; 4];
        sha3::digest::XofReader::read(&mut self.item, &mut buffer);
        u32::from_le_bytes(buffer)
    }

    /// Relies on `sha3`'s `XofReader::read`: fills the buffer with the next
    /// stream bytes, advancing the cursor by the buffer's length.
    #[verifier::external_body]
    pub fn fill_bytes(&mut self, dest: &mut Vec<u8>)
        ensures
            xof_seed(*final(self)) == xof_seed(*old(self)),
            xof_pos(*final(self)) == xof_pos(*old(self)) + old(dest)@.len(),
            final(dest)@.len() == old(dest)@.len(),
            forall|j: int|
                0 <= j < old(dest)@.len() ==> final(dest)@[j] == xof_byte(
                    xof_seed(*old(self)),
                    xof_pos(*old(self)) + j,
                ),
    {
        sha3::digest::XofReader::read(&mut self.item, dest.as_mut_slice());
    }
}

/// The seed a ChaCha20 reader was created from.
pub uninterp spec fn chacha_seed(r: ChaCha20RngWrapper) -> Seq<u8>;

/// How many scalars have been drawn from a ChaCha20 reader.
pub uninterp spec fn chacha_count(r: ChaCha20RngWrapper) -> int;

/// A ChaCha20 stream used as the source of blinding factors: a deterministic
/// pseudo-random byte stream determined by a 32-byte seed, from which scalars
/// are drawn in order.
#[verifier::external_body]
pub struct ChaCha20RngWrapper {
    pub(crate) item: rand_chacha::ChaCha20Rng,
}

impl ChaCha20RngWrapper {
    /// Relies on `rand_chacha`'s `ChaCha20Rng::from_seed`: the stream is a
    /// function of the 32-byte seed alone, identical on every platform.
    #[verifier::external_body]
    pub fn from_seed(seed: [u8; 32]) -> (r: ChaCha20RngWrapper)
        ensures
            chacha_seed(r) == seed@,
            chacha_count(r) == 0,
    {
        ChaCha20RngWrapper {
            item: <rand_chacha::ChaCha20Rng as rand::SeedableRng>::from_seed(seed),
        }
    }
}

} // verus!
