//! The flights exchanged between prover and verifier, and their framing.
use crate::bit_sigma;
use crate::group::{Point, Scalar};
use crate::product_sigma;
use std::io::{Read, Write};
use vstd::prelude::*;

verus! {

/// Phase barrier.
#[derive(Clone, Copy, Debug)]
pub struct ReadyMessage {
    pub ready: bool,
}

/// Seed of the shared generator from which both parties derive the public parameters.
#[derive(Clone, Copy, Debug)]
pub struct SetupMessage {
    pub seed: [u8; 32],
}

/// First move of the bit proofs for the bits of one record.
#[derive(Debug)]
pub struct BitSigmaCommitmentMessage {
    pub commitments: Vec<bit_sigma::Commitment>,
}

/// Commitments of one record's monomials, with the first moves of their product proofs.
#[derive(Debug)]
pub struct MonomialCommitmentTreeNode {
    pub commitment: Option<Point>,
    pub product_sigma_commitment: Option<product_sigma::Commitment>,
    pub children: Vec<MonomialCommitmentTreeNode>,
}

/// Challenges of the bit proofs for the bits of one record.
#[derive(Debug)]
pub struct BitSigmaChallengeMessage {
    pub challenges: Vec<bit_sigma::Challenge>,
}

/// Challenges of one record's product proofs, in the shape of its commitment tree.
#[derive(Debug)]
pub struct MonomialChallengeTreeNode {
    pub product_sigma_challenge: Option<product_sigma::Challenge>,
    pub children: Vec<MonomialChallengeTreeNode>,
}

/// Responses of the bit proofs for the bits of one record.
#[derive(Debug)]
pub struct BitSigmaResponseMessage {
    pub responses: Vec<bit_sigma::Response>,
}

/// Responses of one record's product proofs, in the shape of its commitment tree.
#[derive(Debug)]
pub struct MonomialResponseTreeNode {
    pub product_sigma_response: Option<product_sigma::Response>,
    pub children: Vec<MonomialResponseTreeNode>,
}

/// The commitment of every monomial, sent in the honest commitment phase.
#[derive(Debug)]
pub struct CommitmentMapMessage {
    pub commitment_map: Vec<(u64, Point)>,
}

/// Prover's coin of one randomness round, with the first move of its bit proof.
#[derive(Clone, Copy, Debug)]
pub struct ProverRandomnessComm {
    pub commitment: bit_sigma::Commitment,
}

/// Verifier's coin of one randomness round, with the challenge of the bit proof.
#[derive(Clone, Copy, Debug)]
pub struct VerifierRandomnessChallenge {
    pub player_b: u32,
    pub sigma_challenge: bit_sigma::Challenge,
}

/// The commitment to the combined coin, with the response of the bit proof.
#[derive(Clone, Copy, Debug)]
pub struct ProverRandomnessResponse {
    pub final_commitment: Point,
    pub sigma_response: bit_sigma::Response,
}

/// Verifier's verdict on a proof.
#[derive(Clone, Copy, Debug)]
pub struct VerifierCheckMessage {
    pub success: bool,
}

/// A query: a coefficient for each monomial id.
#[derive(Debug)]
pub struct QueryMessage {
    pub coefficients: Vec<(u64, Scalar)>,
}

/// The answer to a query, with the randomness that opens its commitment.
#[derive(Clone, Copy, Debug)]
pub struct QueryAnswerMessage {
    pub answer: Scalar,
    pub proof: Scalar,
}

/// The unsigned integer that a 4-byte little-endian header encodes.
pub open spec fn header_value(h: Seq<u8>) -> int {
    h[0] + 256 * h[1] + 65536 * h[2] + 16777216 * h[3]
}

/// The length that a frame header announces.
pub fn frame_length(header: [u8; 4]) -> (r: usize)
    ensures
        r as int == header_value(header@),
{
    let v: u32 = header[0] as u32 + 256 * (header[1] as u32) + 65536 * (header[2] as u32)
        + 16777216 * (header[3] as u32);
    v as usize
}

/// A frame: the payload's length as 4 little-endian bytes, then the payload.
pub fn frame(payload: &[u8]) -> (r: Vec<u8>)
    requires
        payload@.len() <= u32::MAX,
    ensures
        r@.len() == 4 + payload@.len(),
        header_value(r@.subrange(0, 4)) == payload@.len(),
        r@.subrange(4, r@.len() as int) == payload@,
{
    let n = payload.len() as u32;
    let mut r: Vec<u8> = Vec::new();
    r.push((n % 256) as u8);
    r.push(((n / 256) % 256) as u8);
    r.push(((n / 65536) % 256) as u8);
    r.push((n / 16777216) as u8);
    let mut i: usize = 0;
    while i < payload.len()
        invariant
            i <= payload@.len(),
            r@.len() == 4 + i,
            r@[0] == n % 256,
            r@[1] == (n / 256) % 256,
            r@[2] == (n / 65536) % 256,
            r@[3] == n / 16777216,
            r@.subrange(4, r@.len() as int) == payload@.subrange(0, i as int),
        decreases payload@.len() - i,
    {
        r.push(payload[i]);
        i = i + 1;
        assert(r@.subrange(4, r@.len() as int) =~= payload@.subrange(0, i as int));
    }
    assert(payload@.subrange(0, payload@.len() as int) =~= payload@);
    r
}

/// What gzip at its fastest level makes of `b`.
pub uninterp spec fn gzip_fast(b: Seq<u8>) -> Seq<u8>;

/// What gunzip makes of `b`: nothing where `b` is not a gzip stream.
pub uninterp spec fn gunzip(b: Seq<u8>) -> Option<Seq<u8>>;

/// Relies on flate2's `GzEncoder` with `Compression::fast()`: gzip is
/// lossless, so the stream decodes to the input.
#[verifier::external_body]
fn gzip_encode(buf: &[u8]) -> (r: Vec<u8>)
    ensures
        r@ == gzip_fast(buf@),
        gunzip(r@) == Some(buf@),
{
    let mut encoder = flate2::write::GzEncoder::new(Vec::new(), flate2::Compression::fast());
    encoder.write_all(buf).unwrap();
    encoder.finish().unwrap()
}

/// Relies on flate2's `GzDecoder`, which fails on what is not a gzip stream.
#[verifier::external_body]
fn gzip_decode(buf: &[u8]) -> (r: Option<Vec<u8>>)
    ensures
        r matches Some(v) ==> gunzip(buf@) == Some(v@),
        r is None ==> gunzip(buf@) is None,
{
    let mut decoder = flate2::read::GzDecoder::new(buf);
    let mut out = Vec::new();
    decoder.read_to_end(&mut out).ok().map(|_| out)
}

/// Compresses a buffer with gzip, trading ratio for speed.
pub fn compress(buf: &[u8]) -> (r: Vec<u8>)
    ensures
        r@ == gzip_fast(buf@),
        gunzip(r@) == Some(buf@),
{
    gzip_encode(buf)
}

/// Decompresses a gzip buffer; `None` where it is not one.
pub fn decompress(buf: &[u8]) -> (r: Option<Vec<u8>>)
    ensures
        r matches Some(v) ==> gunzip(buf@) == Some(v@),
        r is None ==> gunzip(buf@) is None,
{
    gzip_decode(buf)
}

} // verus!
