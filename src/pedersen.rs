//! Pedersen commitments `C(m; r) = m·g + r·h` over the Ristretto group.
use crate::arith::{lemma_lin2, lemma_mod_eq_diff, lemma_reduced_fixed};
use crate::group::{chacha_first_scalar, group_order, scalar_value, Point, Scalar};
use vstd::arithmetic::mul::{group_mul_is_commutative_and_distributive, lemma_mul_is_associative};
use vstd::prelude::*;

verus! {

broadcast use Point::lemma_range;

/// The two generators shared by prover and verifier.
#[derive(Clone, Copy, Debug)]
pub struct PublicParams {
    pub g: Point,
    pub h: Point,
}

/// The commitment to `m` with randomness `r`, as a logarithm.
pub open spec fn commitment(pp: PublicParams, m: int, r: int) -> int {
    (m * pp.g@ + r * pp.h@) % group_order()
}

/// Whether the commitment `c` opens to `m` with randomness `r`.
pub open spec fn opens(pp: PublicParams, c: int, m: int, r: int) -> bool {
    c == commitment(pp, m, r)
}

/// The parameters that a shared generator seeded with `seed` yields:
/// `h` is the basepoint, and `g` is `h` taken a seed-determined number of times.
pub open spec fn params_of_seed(seed: Seq<u8>) -> (int, int) {
    (scalar_value(chacha_first_scalar(seed)), 1)
}

/// Derives the generators from the shared seed: `h` is the basepoint and
/// `g = ρ·h` for the first scalar `ρ` of a ChaCha20 generator seeded with `seed`.
pub fn setup(seed: &[u8; 32]) -> (pp: PublicParams)
    ensures
        (pp.g@, pp.h@) == params_of_seed(seed@),
{
    let h = Point::basepoint();
    let rho = Scalar::from_seed(seed);
    let g = h.scale(&rho);
    proof {
        lemma_reduced_fixed(rho@);
    }
    PublicParams { g, h }
}

/// Commits to `val` with fresh randomness, returning the commitment and the randomness.
pub fn commit(val: &Scalar, params: &PublicParams) -> (r: (Point, Scalar))
    ensures
        opens(*params, r.0@, val@, r.1@),
{
    let rand = Scalar::random();
    let c = commit_with_r(val, &rand, params);
    (c, rand)
}

/// Commits to `val` with the given randomness `r`.
pub fn commit_with_r(val: &Scalar, r: &Scalar, params: &PublicParams) -> (c: Point)
    ensures
        c@ == commitment(*params, val@, r@),
{
    Point::lin_comb(val, &params.g, r, &params.h)
}

/// Whether `commitment` opens to `val` with randomness `proof`.
pub fn verify(commitment: &Point, val: &Scalar, proof: &Scalar, params: &PublicParams) -> (b: bool)
    ensures
        b == opens(*params, commitment@, val@, proof@),
{
    let lhs = Point::lin_comb(val, &params.g, proof, &params.h);
    lhs.equals(commitment)
}

/// A commitment opens to the value and randomness it was made with; it opens
/// to another value `m2` with the same randomness exactly when `(m - m2)·g` is
/// the neutral element, which for a generator `g` means `m2 = m`.
pub proof fn lemma_commitment_opens(pp: PublicParams, m: int, m2: int, r: int)
    ensures
        opens(pp, commitment(pp, m, r), m, r),
        opens(pp, commitment(pp, m, r), m2, r) <==> ((m - m2) * pp.g@) % group_order() == 0,
{
    lemma_mod_eq_diff(m * pp.g@ + r * pp.h@, m2 * pp.g@ + r * pp.h@);
    assert((m * pp.g@ + r * pp.h@) - (m2 * pp.g@ + r * pp.h@) == (m - m2) * pp.g@)
        by (nonlinear_arith);
}

/// Commitments are additively homomorphic: `a·C(m1; r1) + b·C(m2; r2)` opens
/// to `a·m1 + b·m2` with randomness `a·r1 + b·r2`.
pub proof fn lemma_homomorphism(pp: PublicParams, a: int, b: int, m1: int, r1: int, m2: int, r2: int)
    ensures
        opens(
            pp,
            (a * commitment(pp, m1, r1) + b * commitment(pp, m2, r2)) % group_order(),
            (a * m1 + b * m2) % group_order(),
            (a * r1 + b * r2) % group_order(),
        ),
{
    let x1 = m1 * pp.g@ + r1 * pp.h@;
    let x2 = m2 * pp.g@ + r2 * pp.h@;
    lemma_lin2(a, x1, b, x2);
    lemma_lin2(pp.g@, a * m1 + b * m2, pp.h@, a * r1 + b * r2);
    let (g, h) = (pp.g@, pp.h@);
    assert(a * x1 + b * x2 == (a * m1 + b * m2) * g + (a * r1 + b * r2) * h) by {
        broadcast use group_mul_is_commutative_and_distributive, lemma_mul_is_associative;

    }
}

} // verus!
