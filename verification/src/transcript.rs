//! Fiat-Shamir transcripts: the interface a prover uses to bind messages
//! and draw challenges over an interactive protocol made non-interactive.
//!
//! The concrete sponge-backed transcript of the wider prover lives outside
//! this crate; here stand the interface and its error type.

use vstd::prelude::*;

verus! {

/// What can go wrong when working with a transcript.
#[derive(Clone, Copy, PartialEq, Eq, Structural, Debug)]
pub enum TranscriptError {
    /// The challenges generated do not match the challenges given.
    TranscriptMatchError,
}

impl TranscriptError {
    /// A human-readable description of the error.
    pub fn message(&self) -> (r: &'static str) {
        match self {
            TranscriptError::TranscriptMatchError => {
                "The challenges generated don't match challenges given!"
            },
        }
    }
}

/// The parameters of a Poseidon sponge over a 254-bit field: the state
/// width, the rate, and the numbers of full and partial rounds.
pub struct SpongeParameters {
    /// The width of the sponge state, in field elements.
    pub width: usize,
    /// The rate: how many state elements absorb input per permutation.
    pub rate: usize,
    /// The number of full rounds of the permutation.
    pub full_rounds: usize,
    /// The number of partial rounds of the permutation.
    pub partial_rounds: usize,
}

/// The parameters of the sponge that the transcript of the wider prover
/// uses: width 3, rate 2, 8 full and 57 partial rounds.  The sponge itself
/// is a collaborator outside this crate; these parameters must match at
/// both ends of the protocol.
pub fn default_sponge() -> (p: SpongeParameters)
    ensures
        p.width == 3,
        p.rate == 2,
        p.full_rounds == 8,
        p.partial_rounds == 57,
{
    SpongeParameters { width: 3, rate: 2, full_rounds: 8, partial_rounds: 57 }
}

/// A type responsible for Fiat-Shamir over the interactive version of a
/// protocol: absorb field elements, squeeze challenges.
pub trait Transcript<F>: Sized {
    /// Create an empty transcript under a domain-separation label.
    fn new(label: &'static str) -> Self;

    /// Append a single field element to the transcript.
    fn append_field_element(&mut self, label: &'static str, element: F) -> Result<
        (),
        TranscriptError,
    >;

    /// Append a list of field elements to the transcript.
    fn append_field_elements(&mut self, label: &'static str, elements: &[F]) -> Result<
        (),
        TranscriptError,
    >;

    /// Generate a random challenge and add it to the transcript.
    fn get_challenge(&mut self, label: &'static str) -> Result<F, TranscriptError>;

    /// Generate a list of random challenges and add them to the transcript.
    fn get_challenges(&mut self, label: &'static str, len: usize) -> Result<
        Vec<F>,
        TranscriptError,
    >;
}

} // verus!
