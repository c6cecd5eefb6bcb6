//! The decisions of the four protocol phases, for each party: every function
//! here takes a party's state and the flight it received, and returns the
//! flight to send.  The exchange of flights is left to the caller.
use crate::bit_sigma;
use crate::data::Data;
use crate::group::{group_order, random_below, random_bit, random_seed, Point, Scalar};
use crate::messages::{
    ProverRandomnessComm, ProverRandomnessResponse, QueryAnswerMessage, QueryMessage,
    SetupMessage, VerifierRandomnessChallenge,
};
use crate::monomial::Opening;
use crate::pedersen::{
    self, commitment, lemma_commitment_opens, lemma_homomorphism, opens, params_of_seed,
    PublicParams,
};
use std::collections::HashMap;
use vstd::prelude::*;

verus! {

broadcast use vstd::std_specs::hash::group_hash_axioms, Point::lemma_range;

/// Why a session ends.
#[derive(Clone, Copy, Debug, PartialEq, Eq)]
pub enum ProtocolError {
    /// A query names a monomial id that was not committed.
    MissingMonomial,
    /// A flight does not have the shape its phase calls for.
    Schema,
    /// A proof was rejected.
    Proof,
    /// A query asks for more monomials than were committed.
    Sparsity,
}

/// Prover's state across the phases.
pub struct ProverState {
    pub pedersen_pp: PublicParams,
    pub dealer_b: u32,
    pub dealer_b_comm: Point,
    pub dealer_b_proof: Scalar,
    pub final_b: u32,
    pub final_proof: Scalar,
    pub randomness_bit_sum: Scalar,
    pub randomness_bit_proof: Scalar,
    pub sigma_prover: bit_sigma::Prover,
    /// The commitment to 1 with randomness 0.
    pub c1: Point,
    /// The randomness 0.
    pub cproof: Scalar,
}

/// Verifier's state across the phases.
pub struct VerifierState {
    pub pedersen_pp: PublicParams,
    pub monomial_commitments: HashMap<u64, Point>,
    pub monomial_ids: Vec<u64>,
    pub player_b: u32,
    pub randomness_bit_comm: Point,
    pub sigma_verifier: bit_sigma::Verifier,
    /// The commitment to 0 with randomness 0.
    pub c0: Point,
    /// The commitment to 1 with randomness 0.
    pub c1: Point,
    /// The randomness 0.
    pub cproof: Scalar,
}

impl ProverState {
    /// The fixed commitments hold what they stand for.
    pub open spec fn ready(&self) -> bool {
        &&& self.c1@ == commitment(self.pedersen_pp, 1, 0)
        &&& self.cproof@ == 0
    }

    /// The prover's coin of the current round is a bit, opened by its commitment.
    pub open spec fn dealt(&self) -> bool {
        &&& self.dealer_b < 2
        &&& opens(self.pedersen_pp, self.dealer_b_comm@, self.dealer_b as int, self.dealer_b_proof@)
    }
}

impl VerifierState {
    /// The fixed commitments hold what they stand for.
    pub open spec fn ready(&self) -> bool {
        &&& self.c0@ == commitment(self.pedersen_pp, 0, 0)
        &&& self.c1@ == commitment(self.pedersen_pp, 1, 0)
        &&& self.cproof@ == 0
    }
}

// ---------------------------------------------------------------------------
// Setup.
// ---------------------------------------------------------------------------

/// Prover's setup from a given seed: derives the public parameters and the
/// fixed commitments, and returns the flight that hands the seed over.
pub fn prover_setup_with_seed(seed: [u8; 32]) -> (r: (ProverState, SetupMessage))
    ensures
        r.0.ready(),
        (r.0.pedersen_pp.g@, r.0.pedersen_pp.h@) == params_of_seed(seed@),
        r.0.randomness_bit_sum@ == 0,
        r.0.randomness_bit_proof@ == 0,
        r.1.seed == seed,
{
    let pp = pedersen::setup(&seed);
    let proof_val = Scalar::zero();
    let c1 = pedersen::commit_with_r(&Scalar::one(), &proof_val, &pp);
    proof {
        crate::arith::lemma_reduced_fixed(pp.g@);
    }
    (
        ProverState {
            pedersen_pp: pp,
            c1,
            cproof: proof_val,
            dealer_b: 0,
            dealer_b_comm: Point::identity(),
            dealer_b_proof: Scalar::zero(),
            final_b: 0,
            final_proof: Scalar::zero(),
            randomness_bit_sum: Scalar::zero(),
            randomness_bit_proof: Scalar::zero(),
            sigma_prover: bit_sigma::Prover::default(),
        },
        SetupMessage { seed },
    )
}

/// Prover's setup with a fresh seed from the operating system's generator.
pub fn prover_setup() -> (r: (ProverState, SetupMessage))
    ensures
        r.0.ready(),
        (r.0.pedersen_pp.g@, r.0.pedersen_pp.h@) == params_of_seed(r.1.seed@),
{
    prover_setup_with_seed(random_seed())
}

/// Verifier's setup from the seed the prover sent: the same public parameters.
pub fn verifier_setup(setup_message: &SetupMessage) -> (r: VerifierState)
    ensures
        r.ready(),
        (r.pedersen_pp.g@, r.pedersen_pp.h@) == params_of_seed(setup_message.seed@),
        r.monomial_commitments@ == Map::<u64, Point>::empty(),
        r.monomial_ids@ == Seq::<u64>::empty(),
        r.randomness_bit_comm@ == 0,
{
    let pp = pedersen::setup(&setup_message.seed);
    let proof_val = Scalar::zero();
    let c0 = pedersen::commit_with_r(&Scalar::zero(), &proof_val, &pp);
    let c1 = pedersen::commit_with_r(&Scalar::one(), &proof_val, &pp);
    proof {
        crate::arith::lemma_reduced_fixed(pp.g@);
        crate::arith::lemma_reduced_fixed(0);
    }
    VerifierState {
        pedersen_pp: pp,
        monomial_commitments: HashMap::new(),
        monomial_ids: Vec::new(),
        c0,
        c1,
        cproof: proof_val,
        player_b: 0,
        randomness_bit_comm: Point::identity(),
        sigma_verifier: bit_sigma::Verifier::default(),
    }
}

/// Both parties derive the same public parameters from the same seed.
pub proof fn lemma_setup_deterministic(seed: Seq<u8>, p: PublicParams, v: PublicParams)
    requires
        (p.g@, p.h@) == params_of_seed(seed),
        (v.g@, v.h@) == params_of_seed(seed),
    ensures
        p.g@ == v.g@,
        p.h@ == v.h@,
{
}

// ---------------------------------------------------------------------------
// Randomness.
// ---------------------------------------------------------------------------

/// Prover starts the noise accumulator at the commitment to 0 with randomness 0.
pub fn prover_randomness_start(state: &mut ProverState)
    ensures
        final(state).randomness_bit_sum@ == 0,
        final(state).randomness_bit_proof == old(state).cproof,
        final(state).pedersen_pp == old(state).pedersen_pp,
        final(state).c1 == old(state).c1,
        final(state).cproof == old(state).cproof,
{
    state.randomness_bit_sum = Scalar::zero();
    state.randomness_bit_proof = state.cproof;
}

/// Prover flips its coin of the round, commits to it, and sends the first
/// move of a proof that the commitment holds a bit.
pub fn prover_randomness_phase_comm(state: &mut ProverState) -> (r: ProverRandomnessComm)
    ensures
        final(state).pedersen_pp == old(state).pedersen_pp,
        final(state).c1 == old(state).c1,
        final(state).cproof == old(state).cproof,
        final(state).randomness_bit_sum == old(state).randomness_bit_sum,
        final(state).randomness_bit_proof == old(state).randomness_bit_proof,
        final(state).dealt(),
        final(state).sigma_prover.b == final(state).dealer_b,
        final(state).sigma_prover.b_proof == final(state).dealer_b_proof,
        r.commitment.b_comm == final(state).dealer_b_comm,
        (r.commitment.c_0@, r.commitment.c_1@) == bit_sigma::first_move(
            final(state).pedersen_pp,
            final(state).dealer_b as int,
            final(state).dealer_b_comm@,
            final(state).sigma_prover.r_b@,
            final(state).sigma_prover.e_not_b@,
            final(state).sigma_prover.z_not_b@,
        ),
{
    let dealer_b = random_bit();
    let (dealer_b_comm, dealer_b_proof) = pedersen::commit(
        &Scalar::from_u64(dealer_b as u64),
        &state.pedersen_pp,
    );
    let (sigma_prover, sigma_commitment) = bit_sigma::commit(
        &state.pedersen_pp,
        dealer_b,
        dealer_b_comm,
        dealer_b_proof,
    );
    state.sigma_prover = sigma_prover;
    state.dealer_b = dealer_b;
    state.dealer_b_comm = dealer_b_comm;
    state.dealer_b_proof = dealer_b_proof;
    ProverRandomnessComm { commitment: sigma_commitment }
}

/// The coin that the two coins of a round combine to: the prover's coin,
/// flipped when the verifier's coin is 1.
pub open spec fn combined_bit(dealer_b: int, player_b: int) -> int {
    if player_b == 0 {
        dealer_b
    } else {
        1 - dealer_b
    }
}

/// Prover combines its coin with the verifier's, and answers the proof's
/// challenge.  The combined commitment is its own when the verifier's coin
/// is 0 and `C(1; 0)` minus its own otherwise; it opens to the combined coin.
pub fn prover_randomness_phase_response(
    state: &mut ProverState,
    m: &VerifierRandomnessChallenge,
) -> (r: ProverRandomnessResponse)
    requires
        old(state).ready(),
        old(state).dealt(),
    ensures
        final(state).pedersen_pp == old(state).pedersen_pp,
        final(state).c1 == old(state).c1,
        final(state).cproof == old(state).cproof,
        final(state).randomness_bit_sum == old(state).randomness_bit_sum,
        final(state).randomness_bit_proof == old(state).randomness_bit_proof,
        final(state).final_b as int == combined_bit(old(state).dealer_b as int, m.player_b as int),
        final(state).final_proof@ == (if m.player_b == 0 {
            old(state).dealer_b_proof@
        } else {
            (old(state).cproof@ - old(state).dealer_b_proof@) % group_order()
        }),
        opens(
            old(state).pedersen_pp,
            r.final_commitment@,
            final(state).final_b as int,
            final(state).final_proof@,
        ),
        r.final_commitment@ == (if m.player_b == 0 {
            old(state).dealer_b_comm@
        } else {
            (old(state).c1@ - old(state).dealer_b_comm@) % group_order()
        }),
        (r.sigma_response.z_0@, r.sigma_response.z_1@, r.sigma_response.e_0@, r.sigma_response.e_1@)
            == bit_sigma::third_move(
            old(state).sigma_prover.b as int,
            old(state).sigma_prover.b_proof@,
            old(state).sigma_prover.r_b@,
            old(state).sigma_prover.e_not_b@,
            old(state).sigma_prover.z_not_b@,
            m.sigma_challenge.e@,
        ),
{
    let final_commitment: Point;
    let final_proof: Scalar;
    let final_b: u32;
    if m.player_b == 0 {
        final_commitment = state.dealer_b_comm;
        final_proof = state.dealer_b_proof;
        final_b = state.dealer_b;
    } else {
        final_commitment = state.c1.minus(&state.dealer_b_comm);
        final_proof = state.cproof.minus(&state.dealer_b_proof);
        final_b = 1 - state.dealer_b;
        proof {
            let pp = state.pedersen_pp;
            let b = state.dealer_b as int;
            let rd = state.dealer_b_proof@;
            lemma_homomorphism(pp, 1, -1, 1, 0, b, rd);
            crate::group::lemma_order_pos();
            crate::arith::lemma_reduced_fixed(1 - b);
        }
    }
    state.final_b = final_b;
    state.final_proof = final_proof;
    let sigma_response = bit_sigma::response(&mut state.sigma_prover, &m.sigma_challenge);
    ProverRandomnessResponse { final_commitment, sigma_response }
}

/// Prover adds the round's combined coin into the noise accumulator.
pub fn prover_randomness_accumulate(state: &mut ProverState)
    ensures
        final(state).randomness_bit_sum@ == (old(state).randomness_bit_sum@
            + old(state).final_b) % group_order(),
        final(state).randomness_bit_proof@ == (old(state).randomness_bit_proof@
            + old(state).final_proof@) % group_order(),
        final(state).pedersen_pp == old(state).pedersen_pp,
        final(state).c1 == old(state).c1,
        final(state).cproof == old(state).cproof,
{
    state.randomness_bit_sum = state.randomness_bit_sum.plus(
        &Scalar::from_u64(state.final_b as u64),
    );
    state.randomness_bit_proof = state.randomness_bit_proof.plus(&state.final_proof);
}

/// Prover centres the accumulated noise on zero by taking `n / 2` off it,
/// for the `n` rounds that were run.
pub fn prover_randomness_phase_adjust(state: &mut ProverState, n: u32)
    ensures
        final(state).randomness_bit_sum@ == (old(state).randomness_bit_sum@ - n / 2)
            % group_order(),
        final(state).randomness_bit_proof@ == (old(state).randomness_bit_proof@
            - old(state).cproof@) % group_order(),
        final(state).pedersen_pp == old(state).pedersen_pp,
        final(state).c1 == old(state).c1,
        final(state).cproof == old(state).cproof,
{
    let adjustment_factor = Scalar::from_u64((n / 2) as u64);
    state.randomness_bit_sum = state.randomness_bit_sum.minus(&adjustment_factor);
    state.randomness_bit_proof = state.randomness_bit_proof.minus(&state.cproof);
}

/// Verifier starts the noise accumulator at the commitment to 0 with randomness 0.
pub fn verifier_randomness_start(state: &mut VerifierState)
    ensures
        final(state).randomness_bit_comm == old(state).c0,
        final(state).pedersen_pp == old(state).pedersen_pp,
        final(state).c0 == old(state).c0,
        final(state).c1 == old(state).c1,
        final(state).cproof == old(state).cproof,
        final(state).monomial_commitments@ == old(state).monomial_commitments@,
        final(state).monomial_ids@ == old(state).monomial_ids@,
{
    state.randomness_bit_comm = state.c0;
}

/// Verifier flips its coin of the round and challenges the prover's bit proof.
pub fn verifer_randomness_phase_challenge(
    state: &mut VerifierState,
    m: &ProverRandomnessComm,
) -> (r: VerifierRandomnessChallenge)
    ensures
        final(state).player_b == r.player_b,
        r.player_b < 2,
        final(state).sigma_verifier.b_comm == m.commitment.b_comm,
        final(state).sigma_verifier.c_0 == m.commitment.c_0,
        final(state).sigma_verifier.c_1 == m.commitment.c_1,
        final(state).sigma_verifier.e == r.sigma_challenge.e,
        final(state).pedersen_pp == old(state).pedersen_pp,
        final(state).c0 == old(state).c0,
        final(state).c1 == old(state).c1,
        final(state).cproof == old(state).cproof,
        final(state).randomness_bit_comm == old(state).randomness_bit_comm,
        final(state).monomial_commitments@ == old(state).monomial_commitments@,
        final(state).monomial_ids@ == old(state).monomial_ids@,
{
    state.player_b = random_bit();
    let (sigma_verifier, sigma_challenge) = bit_sigma::challenge(&m.commitment);
    state.sigma_verifier = sigma_verifier;
    VerifierRandomnessChallenge { player_b: state.player_b, sigma_challenge }
}

/// Whether the verifier accepts a round: the combined commitment is the one
/// its coin calls for, and the bit proof of the prover's commitment holds.
pub open spec fn round_accepted(
    pp: PublicParams,
    c1: int,
    player_b: u32,
    sv: bit_sigma::Verifier,
    resp: ProverRandomnessResponse,
) -> bool {
    &&& resp.final_commitment@ == (if player_b == 0 {
        sv.b_comm@
    } else {
        (c1 - sv.b_comm@) % group_order()
    })
    &&& bit_sigma::accepts(
        pp,
        sv.b_comm@,
        sv.c_0@,
        sv.c_1@,
        sv.e@,
        resp.sigma_response.z_0@,
        resp.sigma_response.z_1@,
        resp.sigma_response.e_0@,
        resp.sigma_response.e_1@,
    )
}

/// Verifier checks a round; the combined commitment where it is accepted.
pub fn verifier_randomness_phase_check(
    state: &mut VerifierState,
    resp_msg: &ProverRandomnessResponse,
) -> (r: Option<Point>)
    ensures
        *final(state) == *old(state),
        r is Some <==> round_accepted(
            old(state).pedersen_pp,
            old(state).c1@,
            old(state).player_b,
            old(state).sigma_verifier,
            *resp_msg,
        ),
        r matches Some(c) ==> c == resp_msg.final_commitment,
{
    if state.player_b == 0 {
        if !resp_msg.final_commitment.equals(&state.sigma_verifier.b_comm) {
            return None;
        }
    } else {
        let expected = state.c1.minus(&state.sigma_verifier.b_comm);
        if !resp_msg.final_commitment.equals(&expected) {
            return None;
        }
    }
    let mut sv = state.sigma_verifier;
    if bit_sigma::verify(&state.pedersen_pp, &mut sv, &resp_msg.sigma_response) {
        Some(resp_msg.final_commitment)
    } else {
        None
    }
}

/// Verifier adds an accepted round's combined commitment into the noise accumulator.
pub fn verifier_randomness_accumulate(state: &mut VerifierState, c: &Point)
    ensures
        final(state).randomness_bit_comm@ == (old(state).randomness_bit_comm@ + c@)
            % group_order(),
        final(state).pedersen_pp == old(state).pedersen_pp,
        final(state).c0 == old(state).c0,
        final(state).c1 == old(state).c1,
        final(state).cproof == old(state).cproof,
        final(state).monomial_commitments@ == old(state).monomial_commitments@,
        final(state).monomial_ids@ == old(state).monomial_ids@,
{
    state.randomness_bit_comm = state.randomness_bit_comm.plus(c);
}

/// Verifier centres the noise accumulator by taking off the commitment to
/// `n / 2` with randomness 0, for the `n` rounds that were run.
pub fn verifier_randomness_phase_adjust(state: &mut VerifierState, n: u32)
    ensures
        final(state).randomness_bit_comm@ == (old(state).randomness_bit_comm@ - commitment(
            old(state).pedersen_pp,
            (n / 2) as int,
            old(state).cproof@,
        )) % group_order(),
        final(state).pedersen_pp == old(state).pedersen_pp,
        final(state).c0 == old(state).c0,
        final(state).c1 == old(state).c1,
        final(state).cproof == old(state).cproof,
        final(state).monomial_commitments@ == old(state).monomial_commitments@,
        final(state).monomial_ids@ == old(state).monomial_ids@,
{
    let adjustment_factor = Scalar::from_u64((n / 2) as u64);
    let adj = pedersen::commit_with_r(&adjustment_factor, &state.cproof, &state.pedersen_pp);
    state.randomness_bit_comm = state.randomness_bit_comm.minus(&adj);
}

/// The sum of a sequence of coins.
pub open spec fn coin_sum(bits: Seq<u32>) -> int
    decreases bits.len(),
{
    if bits.len() == 0 {
        0
    } else {
        coin_sum(bits.drop_last()) + bits.last()
    }
}

/// The noise that `n` combined coins leave once centred: their sum less `n / 2`.
pub open spec fn centred_noise(bits: Seq<u32>) -> int {
    coin_sum(bits) - bits.len() / 2
}

proof fn lemma_coin_sum_range(bits: Seq<u32>)
    requires
        forall|i: int| 0 <= i < bits.len() ==> #[trigger] bits[i] < 2,
    ensures
        0 <= coin_sum(bits) <= bits.len(),
    decreases bits.len(),
{
    if bits.len() > 0 {
        lemma_coin_sum_range(bits.drop_last());
    }
}

/// The centred noise of `n` coins lies in `[-n/2, n/2]`.  For odd `n` the
/// sum of `n` ones would leave `n/2 + 1/2`, so that case is left out.
pub proof fn lemma_noise_range(bits: Seq<u32>)
    requires
        forall|i: int| 0 <= i < bits.len() ==> #[trigger] bits[i] < 2,
        bits.len() % 2 == 0 || coin_sum(bits) < bits.len(),
    ensures
        -(bits.len() / 2) <= centred_noise(bits) <= bits.len() / 2,
{
    lemma_coin_sum_range(bits);
}

/// The accumulator after adding the coins of `bits` to `start`, one round
/// at a time.
pub open spec fn accumulated(start: int, bits: Seq<u32>) -> int
    decreases bits.len(),
{
    if bits.len() == 0 {
        start
    } else {
        (accumulated(start, bits.drop_last()) + bits.last()) % group_order()
    }
}

proof fn lemma_accumulated_sum(bits: Seq<u32>)
    ensures
        accumulated(0, bits) == coin_sum(bits) % group_order(),
    decreases bits.len(),
{
    crate::group::lemma_order_pos();
    if bits.len() == 0 {
        vstd::arithmetic::div_mod::lemma_small_mod(0, group_order() as nat);
    } else {
        lemma_accumulated_sum(bits.drop_last());
        crate::arith::lemma_add_absorb(coin_sum(bits.drop_last()), bits.last() as int);
    }
}

/// Started at 0 and centred after its rounds, the prover's accumulator holds
/// the centred noise of the combined coins.
pub proof fn lemma_accumulated_noise(bits: Seq<u32>)
    ensures
        (accumulated(0, bits) - bits.len() / 2) % group_order() == centred_noise(bits)
            % group_order(),
{
    lemma_accumulated_sum(bits);
    crate::arith::lemma_add_absorb(coin_sum(bits), (bits.len() / 2) as int);
}

// ---------------------------------------------------------------------------
// Queries.
// ---------------------------------------------------------------------------

/// A query's linear combination, in the order of its terms:
/// `base + Σ coeff·vals[id]`, reduced after each term.
pub open spec fn combine(base: int, coeffs: Seq<(u64, Scalar)>, vals: Map<u64, int>) -> int
    decreases coeffs.len(),
{
    if coeffs.len() == 0 {
        base
    } else {
        let k = coeffs.len() - 1;
        (combine(base, coeffs.take(k), vals) + coeffs[k].1@ * vals[coeffs[k].0]) % group_order()
    }
}

/// Whether every id of the query is in `ids`.
pub open spec fn all_present(coeffs: Seq<(u64, Scalar)>, ids: Set<u64>) -> bool {
    forall|i: int| 0 <= i < coeffs.len() ==> ids.contains(#[trigger] coeffs[i].0)
}

/// The committed values of an id-keyed map of openings.
pub open spec fn values_of(m: Map<u64, Opening>) -> Map<u64, int> {
    m.map_values(|t: Opening| t.0@)
}

/// The randomness of an id-keyed map of openings.
pub open spec fn randomness_of(m: Map<u64, Opening>) -> Map<u64, int> {
    m.map_values(|t: Opening| t.2@)
}

/// The commitments of an id-keyed map of points, as logarithms.
pub open spec fn logs_of(m: Map<u64, Point>) -> Map<u64, int> {
    m.map_values(|p: Point| p@)
}

/// Prover answers a query: the noise plus each coefficient times the
/// monomial's committed value, with the randomness that opens the matching
/// combination of commitments.  A query naming an uncommitted id is refused.
pub fn prover_answer_query(state: &ProverState, database: &Data, query_m: &QueryMessage) -> (r:
    Result<QueryAnswerMessage, ProtocolError>)
    ensures
        r is Ok <==> all_present(query_m.coefficients@, database.commitments@.dom()),
        r matches Ok(a) ==> a.answer@ == combine(
            state.randomness_bit_sum@,
            query_m.coefficients@,
            values_of(database.commitments@),
        ) && a.proof@ == combine(
            state.randomness_bit_proof@,
            query_m.coefficients@,
            randomness_of(database.commitments@),
        ),
        r matches Err(e) ==> e == ProtocolError::MissingMonomial,
{
    let mut query_answer = state.randomness_bit_sum;
    let mut query_proof = state.randomness_bit_proof;
    let mut i: usize = 0;
    while i < query_m.coefficients.len()
        invariant
            i <= query_m.coefficients@.len(),
            all_present(query_m.coefficients@.take(i as int), database.commitments@.dom()),
            query_answer@ == combine(
                state.randomness_bit_sum@,
                query_m.coefficients@.take(i as int),
                values_of(database.commitments@),
            ),
            query_proof@ == combine(
                state.randomness_bit_proof@,
                query_m.coefficients@.take(i as int),
                randomness_of(database.commitments@),
            ),
        decreases query_m.coefficients@.len() - i,
    {
        let (monomial_id, monomial_coefficient) = query_m.coefficients[i];
        match database.commitments.get(&monomial_id) {
            None => {
                assert(!database.commitments@.dom().contains(query_m.coefficients@[i as int].0));
                assert(!all_present(query_m.coefficients@, database.commitments@.dom()));
                return Err(ProtocolError::MissingMonomial);
            },
            Some(t) => {
                let (monomial_sum, _monomial_comm, monomial_proof) = *t;
                query_answer = query_answer.plus(&monomial_coefficient.times(&monomial_sum));
                query_proof = query_proof.plus(&monomial_coefficient.times(&monomial_proof));
                proof {
                    let c = monomial_coefficient@;
                    crate::arith::lemma_add_absorb(
                        combine(
                            state.randomness_bit_sum@,
                            query_m.coefficients@.take(i as int),
                            values_of(database.commitments@),
                        ),
                        c * monomial_sum@,
                    );
                    crate::arith::lemma_add_absorb(
                        combine(
                            state.randomness_bit_proof@,
                            query_m.coefficients@.take(i as int),
                            randomness_of(database.commitments@),
                        ),
                        c * monomial_proof@,
                    );
                    assert(query_m.coefficients@.take(i + 1).take(i as int) =~= query_m.coefficients@.take(i as int));
                }
            },
        }
        i = i + 1;
        assert(all_present(query_m.coefficients@.take(i as int), database.commitments@.dom()));
    }
    assert(query_m.coefficients@.take(query_m.coefficients@.len() as int) =~= query_m.coefficients@);
    Ok(QueryAnswerMessage { answer: query_answer, proof: query_proof })
}

/// Verifier checks an answer: the noise commitment plus each coefficient
/// times the monomial's commitment must open to the answer with the proof.
/// A query naming an uncommitted id fails.
pub fn verifier_check_query(
    state: &VerifierState,
    query_coefficients: &Vec<(u64, Scalar)>,
    query_answer_m: &QueryAnswerMessage,
) -> (r: bool)
    ensures
        r == (all_present(query_coefficients@, state.monomial_commitments@.dom()) && opens(
            state.pedersen_pp,
            combine(
                state.randomness_bit_comm@,
                query_coefficients@,
                logs_of(state.monomial_commitments@),
            ),
            query_answer_m.answer@,
            query_answer_m.proof@,
        )),
{
    let mut query_comm = state.randomness_bit_comm;
    let mut i: usize = 0;
    while i < query_coefficients.len()
        invariant
            i <= query_coefficients@.len(),
            all_present(query_coefficients@.take(i as int), state.monomial_commitments@.dom()),
            query_comm@ == combine(
                state.randomness_bit_comm@,
                query_coefficients@.take(i as int),
                logs_of(state.monomial_commitments@),
            ),
        decreases query_coefficients@.len() - i,
    {
        let (monomial_id, monomial_coefficient) = query_coefficients[i];
        match state.monomial_commitments.get(&monomial_id) {
            None => {
                assert(!state.monomial_commitments@.dom().contains(
                    query_coefficients@[i as int].0,
                ));
                return false;
            },
            Some(monomial_comm) => {
                query_comm = query_comm.plus(&monomial_comm.scale(&monomial_coefficient));
                proof {
                    crate::arith::lemma_add_absorb(
                        combine(
                            state.randomness_bit_comm@,
                            query_coefficients@.take(i as int),
                            logs_of(state.monomial_commitments@),
                        ),
                        monomial_coefficient@ * monomial_comm@,
                    );
                    assert(query_coefficients@.take(i + 1).take(i as int)
                        =~= query_coefficients@.take(i as int));
                }
            },
        }
        i = i + 1;
        assert(all_present(query_coefficients@.take(i as int), state.monomial_commitments@.dom()));
    }
    assert(query_coefficients@.take(query_coefficients@.len() as int) =~= query_coefficients@);
    pedersen::verify(&query_comm, &query_answer_m.answer, &query_answer_m.proof, &state.pedersen_pp)
}

/// The combination of commitments opens to the combination of their values
/// with the combination of their randomness, for every query whose ids are
/// all committed, when each commitment opens to its value.
pub proof fn lemma_query_combination(
    pp: PublicParams,
    base_c: int,
    base_m: int,
    base_r: int,
    coeffs: Seq<(u64, Scalar)>,
    cmap: Map<u64, int>,
    mmap: Map<u64, int>,
    rmap: Map<u64, int>,
)
    requires
        base_c == commitment(pp, base_m, base_r),
        forall|i: int|
            0 <= i < coeffs.len() ==> cmap[#[trigger] coeffs[i].0] == commitment(
                pp,
                mmap[coeffs[i].0],
                rmap[coeffs[i].0],
            ),
    ensures
        combine(base_c, coeffs, cmap) == commitment(
            pp,
            combine(base_m, coeffs, mmap),
            combine(base_r, coeffs, rmap),
        ),
    decreases coeffs.len(),
{
    if coeffs.len() > 0 {
        let k = coeffs.len() - 1;
        let pre = coeffs.take(k);
        assert forall|i: int| 0 <= i < pre.len() implies cmap[#[trigger] pre[i].0] == commitment(
            pp,
            mmap[pre[i].0],
            rmap[pre[i].0],
        ) by {
            assert(pre[i] == coeffs[i]);
        }
        lemma_query_combination(pp, base_c, base_m, base_r, pre, cmap, mmap, rmap);
        let id = coeffs[k].0;
        let c = coeffs[k].1@;
        lemma_homomorphism(
            pp,
            1,
            c,
            combine(base_m, pre, mmap),
            combine(base_r, pre, rmap),
            mmap[id],
            rmap[id],
        );
    }
}

/// Query soundness: when the noise commitment and each monomial commitment
/// open to the prover's values, an answer that the verifier accepts with the
/// expected proof differs from the expected answer `noise + Σ coeff·count`
/// only by a multiple of the order of `g`, that is not at all for a
/// generator `g`.
pub proof fn lemma_query_soundness(
    pp: PublicParams,
    base_c: int,
    base_m: int,
    base_r: int,
    coeffs: Seq<(u64, Scalar)>,
    cmap: Map<u64, int>,
    mmap: Map<u64, int>,
    rmap: Map<u64, int>,
    answer: int,
)
    requires
        base_c == commitment(pp, base_m, base_r),
        forall|i: int|
            0 <= i < coeffs.len() ==> cmap[#[trigger] coeffs[i].0] == commitment(
                pp,
                mmap[coeffs[i].0],
                rmap[coeffs[i].0],
            ),
        opens(pp, combine(base_c, coeffs, cmap), answer, combine(base_r, coeffs, rmap)),
    ensures
        ((combine(base_m, coeffs, mmap) - answer) * pp.g@) % group_order() == 0,
{
    lemma_query_combination(pp, base_c, base_m, base_r, coeffs, cmap, mmap, rmap);
    lemma_commitment_opens(pp, combine(base_m, coeffs, mmap), answer, combine(base_r, coeffs, rmap));
}

// ---------------------------------------------------------------------------
// Query generation.
// ---------------------------------------------------------------------------

/// The verifier's committed ids, as a list naming exactly its committed monomials.
pub open spec fn ids_listed(state: &VerifierState) -> bool {
    crate::monomial::ids_name(state.monomial_ids@, state.monomial_commitments@)
}

/// A random query of `sparsity` terms: distinct committed ids drawn
/// uniformly, each with a uniformly drawn coefficient.  More terms than
/// committed monomials is an error.
pub fn verifier_gen_random_query(state: &VerifierState, sparsity: u32) -> (r: Result<
    Vec<(u64, Scalar)>,
    ProtocolError,
>)
    requires
        ids_listed(state),
    ensures
        r is Err <==> sparsity > state.monomial_ids.len(),
        r matches Err(e) ==> e == ProtocolError::Sparsity,
        r matches Ok(q) ==> q.len() == sparsity && all_present(
            q@,
            state.monomial_commitments@.dom(),
        ) && forall|i: int, j: int| 0 <= i < j < q.len() ==> q@[i].0 != q@[j].0,
{
    let n = state.monomial_ids.len();
    if sparsity as usize > n {
        return Err(ProtocolError::Sparsity);
    }
    let mut pool: Vec<u64> = Vec::new();
    let mut i: usize = 0;
    while i < n
        invariant
            i <= n == state.monomial_ids.len(),
            pool.len() == i,
            forall|j: int| 0 <= j < i ==> pool@[j] == state.monomial_ids@[j],
        decreases n - i,
    {
        pool.push(state.monomial_ids[i]);
        i = i + 1;
    }
    assert(pool@ =~= state.monomial_ids@);
    let mut coefficients: Vec<(u64, Scalar)> = Vec::new();
    let mut k: usize = 0;
    while k < sparsity as usize
        invariant
            sparsity <= n,
            k <= sparsity,
            pool.len() == n,
            ids_listed(state),
            coefficients.len() == k,
            forall|j: int|
                0 <= j < n ==> state.monomial_commitments@.contains_key(#[trigger] pool@[j]),
            all_present(coefficients@, state.monomial_commitments@.dom()),
            pool@.no_duplicates(),
            forall|j: int| 0 <= j < k ==> #[trigger] coefficients@[j].0 == pool@[j],
        decreases sparsity - k,
    {
        if k == 0 {
            assert forall|j: int|
                0 <= j < n implies state.monomial_commitments@.contains_key(
                #[trigger] pool@[j],
            ) by {
                assert(state.monomial_ids@.contains(pool@[j]));
            }
        }
        let ghost before = pool@;
        let pick = k + random_below(n - k);
        let a = pool[k];
        let b = pool[pick];
        pool.set(k, b);
        pool.set(pick, a);
        proof {
            assert forall|x: int, y: int|
                0 <= x < pool@.len() && 0 <= y < pool@.len() && x != y implies pool@[x]
                != pool@[y] by {
                let sx = if x == k {
                    pick as int
                } else if x == pick {
                    k as int
                } else {
                    x
                };
                let sy = if y == k {
                    pick as int
                } else if y == pick {
                    k as int
                } else {
                    y
                };
                assert(pool@[x] == before[sx]);
                assert(pool@[y] == before[sy]);
            }
        }
        coefficients.push((b, Scalar::random()));
        k = k + 1;
    }
    proof {
        assert forall|i: int, j: int| 0 <= i < j < coefficients.len() implies coefficients@[i].0
            != coefficients@[j].0 by {
            assert(coefficients@[i].0 == pool@[i]);
            assert(coefficients@[j].0 == pool@[j]);
        }
    }
    Ok(coefficients)
}

/// The bitwise or of a sequence of words.
pub open spec fn or_all(s: Seq<u32>) -> u32
    decreases s.len(),
{
    if s.len() == 0 {
        0
    } else {
        or_all(s.drop_last()) | s.last()
    }
}

/// ORs together a vector of words.
pub fn or_vector(a: &Vec<u32>) -> (r: u32)
    ensures
        r == or_all(a@),
{
    let mut result: u32 = 0;
    let mut i: usize = 0;
    while i < a.len()
        invariant
            i <= a@.len(),
            result == or_all(a@.take(i as int)),
        decreases a@.len() - i,
    {
        assert(a@.take(i + 1).drop_last() =~= a@.take(i as int));
        result = result | a[i];
        i = i + 1;
    }
    assert(a@.take(a@.len() as int) =~= a@);
    result
}

/// The `k`-element subsequences of `s`, in lexicographic order of positions.
pub open spec fn combinations_of(s: Seq<u32>, k: nat) -> Seq<Seq<u32>>
    decreases s.len(),
{
    if k == 0 {
        seq![Seq::<u32>::empty()]
    } else if s.len() == 0 {
        Seq::<Seq<u32>>::empty()
    } else {
        combinations_of(s.drop_first(), (k - 1) as nat).map_values(|c: Seq<u32>| seq![s[0]] + c)
            + combinations_of(s.drop_first(), k)
    }
}

/// Relies on itertools' `Itertools::combinations`, which yields the
/// `k`-element subsequences of its input in lexicographic order of positions.
#[verifier::external_body]
fn itertools_combinations(v: &Vec<u32>, k: usize) -> (r: Vec<Vec<u32>>)
    ensures
        r@.len() == combinations_of(v@, k as nat).len(),
        forall|i: int| 0 <= i < r@.len() ==> #[trigger] r@[i]@ == combinations_of(v@, k as nat)[i],
{
    itertools::Itertools::combinations(v.iter().copied(), k).collect()
}

/// The bit patterns whose records a census query counts.
pub open spec fn census_patterns() -> Seq<u32> {
    seq![0x4000000u32, 0x8000000u32, 0x10000000u32, 0x20000000u32, 0x40000000u32, 0x80000000u32]
}

/// The sign that inclusion-exclusion gives the terms of `k` patterns.
pub open spec fn census_sign(k: nat) -> int {
    if k % 2 == 1 {
        1
    } else {
        (-1int) % group_order()
    }
}

/// The terms of a census query over the combinations of up to `upto`
/// patterns: for each combination, the id of its bits with the sign of its size.
pub open spec fn census_terms(p: Seq<u32>, upto: nat) -> Seq<(u64, int)>
    decreases upto,
{
    if upto == 0 {
        Seq::<(u64, int)>::empty()
    } else {
        census_terms(p, (upto - 1) as nat) + combinations_of(p, upto).map_values(
            |c: Seq<u32>| (or_all(c) as u64, census_sign(upto)),
        )
    }
}

/// A query's terms with their coefficients as field elements.
pub open spec fn term_views(q: Seq<(u64, Scalar)>) -> Seq<(u64, int)> {
    q.map_values(|t: (u64, Scalar)| (t.0, t.1@))
}

/// A census query: by inclusion-exclusion over the six top bits, it counts
/// the records with any of them set.
pub fn verifier_gen_census_query() -> (r: Vec<(u64, Scalar)>)
    ensures
        term_views(r@) == census_terms(census_patterns(), 6),
{
    let mut bit_patterns: Vec<u32> = Vec::new();
    bit_patterns.push(0x4000000);
    bit_patterns.push(0x8000000);
    bit_patterns.push(0x10000000);
    bit_patterns.push(0x20000000);
    bit_patterns.push(0x40000000);
    bit_patterns.push(0x80000000);
    assert(bit_patterns@ =~= census_patterns());
    let mut coefficients: Vec<(u64, Scalar)> = Vec::new();
    let mut choose: usize = 1;
    while choose < 7
        invariant
            1 <= choose <= 7,
            bit_patterns@ == census_patterns(),
            term_views(coefficients@) == census_terms(census_patterns(), (choose - 1) as nat),
        decreases 7 - choose,
    {
        let combinations = itertools_combinations(&bit_patterns, choose);
        let coefficient = if choose % 2 == 1 {
            Scalar::one()
        } else {
            Scalar::one().negate()
        };
        let ghost before = term_views(coefficients@);
        let ghost f = |c: Seq<u32>| (or_all(c) as u64, census_sign(choose as nat));
        let ghost combos = combinations_of(census_patterns(), choose as nat);
        let mut j: usize = 0;
        while j < combinations.len()
            invariant
                j <= combinations@.len() == combos.len(),
                combos == combinations_of(census_patterns(), choose as nat),
                bit_patterns@ == census_patterns(),
                forall|i: int|
                    0 <= i < combinations@.len() ==> #[trigger] combinations@[i]@ == combos[i],
                coefficient@ == census_sign(choose as nat),
                f == (|c: Seq<u32>| (or_all(c) as u64, census_sign(choose as nat))),
                term_views(coefficients@) == before + combos.take(j as int).map_values(f),
            decreases combinations@.len() - j,
        {
            let id = or_vector(&combinations[j]) as u64;
            let ghost prev = coefficients@;
            coefficients.push((id, coefficient));
            proof {
                assert(combos.take(j + 1).map_values(f) =~= combos.take(j as int).map_values(
                    f,
                ).push(f(combos[j as int])));
                assert(term_views(coefficients@) =~= term_views(prev).push((id, coefficient@)));
            }
            j = j + 1;
        }
        assert(combos.take(combos.len() as int) =~= combos);
        choose = choose + 1;
    }
    coefficients
}

} // verus!
