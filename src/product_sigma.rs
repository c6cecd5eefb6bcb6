//! Three-move proof that three Pedersen commitments `c_1, c_2, c_3` hold
//! values with `m_3 = m_1·m_2`.
use crate::arith::{lemma_add_absorb, lemma_lin2, lemma_mod_eq_diff, lemma_mul_absorb};
use crate::group::{group_order, lemma_order_pos, Point, Scalar};
use crate::pedersen::{self, commitment, opens, PublicParams};
use vstd::arithmetic::div_mod::{
    lemma_fundamental_div_mod, lemma_mod_multiples_vanish, lemma_small_mod,
};
use vstd::arithmetic::mul::{
    lemma_mul_is_associative, lemma_mul_is_distributive_add,
    lemma_mul_is_distributive_add_other_way, lemma_mul_is_distributive_sub,
    lemma_mul_is_distributive_sub_other_way,
};
use vstd::prelude::*;

verus! {

broadcast use Point::lemma_range;

/// Prover state: the three opened commitments and five blinding scalars.
#[derive(Clone, Copy, Debug)]
pub struct Prover {
    pub m_1: Scalar,
    pub c_1: Point,
    pub r_1: Scalar,
    pub m_2: Scalar,
    pub c_2: Point,
    pub r_2: Scalar,
    pub m_3: Scalar,
    pub c_3: Point,
    pub r_3: Scalar,
    pub b_1: Scalar,
    pub b_2: Scalar,
    pub b_3: Scalar,
    pub b_4: Scalar,
    pub b_5: Scalar,
}

/// Verifier state: the three commitments, the challenge, and the first-move
/// commitments shifted by the challenge.
#[derive(Clone, Copy, Debug)]
pub struct Verifier {
    pub c_1: Point,
    pub c_2: Point,
    pub c_3: Point,
    pub e: Scalar,
    pub c1_prime: Point,
    pub c2_prime: Point,
    pub c3_prime: Point,
}

/// First move, prover to verifier.
#[derive(Clone, Copy, Debug)]
pub struct Commitment {
    pub c_1: Point,
    pub c_2: Point,
    pub c_3: Point,
    pub alpha: Point,
    pub beta: Point,
    pub gamma: Point,
}

/// Second move, verifier to prover.
#[derive(Clone, Copy, Debug)]
pub struct Challenge {
    pub e: Scalar,
}

/// Third move, prover to verifier.
#[derive(Clone, Copy, Debug)]
pub struct Response {
    pub z_1: Scalar,
    pub z_2: Scalar,
    pub z_3: Scalar,
    pub z_4: Scalar,
    pub z_5: Scalar,
}

impl Default for Prover {
    fn default() -> (r: Prover)
        ensures
            r.m_1@ == 0 && r.r_1@ == 0 && r.m_2@ == 0 && r.r_2@ == 0 && r.m_3@ == 0 && r.r_3@ == 0,
            r.c_1@ == 0 && r.c_2@ == 0 && r.c_3@ == 0,
            r.b_1@ == 0 && r.b_2@ == 0 && r.b_3@ == 0 && r.b_4@ == 0 && r.b_5@ == 0,
    {
        Prover {
            m_1: Scalar::zero(),
            c_1: Point::identity(),
            r_1: Scalar::zero(),
            m_2: Scalar::zero(),
            c_2: Point::identity(),
            r_2: Scalar::zero(),
            m_3: Scalar::zero(),
            c_3: Point::identity(),
            r_3: Scalar::zero(),
            b_1: Scalar::zero(),
            b_2: Scalar::zero(),
            b_3: Scalar::zero(),
            b_4: Scalar::zero(),
            b_5: Scalar::zero(),
        }
    }
}

impl Default for Verifier {
    fn default() -> (r: Verifier)
        ensures
            r.c_1@ == 0 && r.c_2@ == 0 && r.c_3@ == 0 && r.e@ == 0,
            r.c1_prime@ == 0 && r.c2_prime@ == 0 && r.c3_prime@ == 0,
    {
        Verifier {
            c_1: Point::identity(),
            c_2: Point::identity(),
            c_3: Point::identity(),
            e: Scalar::zero(),
            c1_prime: Point::identity(),
            c2_prime: Point::identity(),
            c3_prime: Point::identity(),
        }
    }
}

/// The parameters `(c_1, h)` under which the third equation is checked.
pub open spec fn shifted_params(pp: PublicParams, c1: Point) -> PublicParams {
    PublicParams { g: c1, h: pp.h }
}

/// The response to challenge `e` of a prover with the given openings and blinding scalars.
pub open spec fn third_move(
    e: int,
    m1: int,
    r1: int,
    m2: int,
    r2: int,
    r3: int,
    b1: int,
    b2: int,
    b3: int,
    b4: int,
    b5: int,
) -> (int, int, int, int, int) {
    let n = group_order();
    (
        (b1 + e * m1) % n,
        (b2 + e * r1) % n,
        (b3 + e * m2) % n,
        (b4 + e * r2) % n,
        (b5 + e * (r3 - r1 * m2)) % n,
    )
}

/// Whether the verifier accepts the response `z`, given the commitment
/// `c1` and the three shifted first-move commitments.
pub open spec fn accepts(
    pp: PublicParams,
    c1: Point,
    c1p: int,
    c2p: int,
    c3p: int,
    z: (int, int, int, int, int),
) -> bool {
    &&& opens(pp, c1p, z.0, z.1)
    &&& opens(pp, c2p, z.2, z.3)
    &&& opens(shifted_params(pp, c1), c3p, z.2, z.4)
}

/// (1) Prover commits to proving `m_3 = m_1·m_2` for the three opened commitments.
pub fn commit(
    pp: &PublicParams,
    t1: (Scalar, Point, Scalar),
    t2: (Scalar, Point, Scalar),
    t3: (Scalar, Point, Scalar),
) -> (r: (Prover, Commitment))
    ensures
        r.0.m_1 == t1.0 && r.0.c_1 == t1.1 && r.0.r_1 == t1.2,
        r.0.m_2 == t2.0 && r.0.c_2 == t2.1 && r.0.r_2 == t2.2,
        r.0.m_3 == t3.0 && r.0.c_3 == t3.1 && r.0.r_3 == t3.2,
        r.1.c_1 == t1.1 && r.1.c_2 == t2.1 && r.1.c_3 == t3.1,
        r.1.alpha@ == commitment(*pp, r.0.b_1@, r.0.b_2@),
        r.1.beta@ == commitment(*pp, r.0.b_3@, r.0.b_4@),
        r.1.gamma@ == commitment(shifted_params(*pp, t1.1), r.0.b_3@, r.0.b_5@),
{
    let (m_1, c_1, r_1) = t1;
    let (m_2, c_2, r_2) = t2;
    let (m_3, c_3, r_3) = t3;
    let b_1 = Scalar::random();
    let b_2 = Scalar::random();
    let b_3 = Scalar::random();
    let b_4 = Scalar::random();
    let b_5 = Scalar::random();
    let special_pp = PublicParams { g: c_1, h: pp.h };
    let alpha = pedersen::commit_with_r(&b_1, &b_2, pp);
    let beta = pedersen::commit_with_r(&b_3, &b_4, pp);
    let gamma = pedersen::commit_with_r(&b_3, &b_5, &special_pp);
    (
        Prover { m_1, c_1, r_1, m_2, c_2, r_2, m_3, c_3, r_3, b_1, b_2, b_3, b_4, b_5 },
        Commitment { c_1, c_2, c_3, alpha, beta, gamma },
    )
}

/// (2) Verifier draws a random challenge and shifts the first-move commitments by it.
pub fn challenge(comm_msg: &Commitment) -> (r: (Verifier, Challenge))
    ensures
        r.0.c_1 == comm_msg.c_1 && r.0.c_2 == comm_msg.c_2 && r.0.c_3 == comm_msg.c_3,
        r.0.e == r.1.e,
        r.0.c1_prime@ == (comm_msg.alpha@ + r.1.e@ * comm_msg.c_1@) % group_order(),
        r.0.c2_prime@ == (comm_msg.beta@ + r.1.e@ * comm_msg.c_2@) % group_order(),
        r.0.c3_prime@ == (comm_msg.gamma@ + r.1.e@ * comm_msg.c_3@) % group_order(),
{
    let e = Scalar::random();
    let c1_prime = comm_msg.alpha.plus(&comm_msg.c_1.scale(&e));
    let c2_prime = comm_msg.beta.plus(&comm_msg.c_2.scale(&e));
    let c3_prime = comm_msg.gamma.plus(&comm_msg.c_3.scale(&e));
    proof {
        lemma_add_absorb(comm_msg.alpha@, e@ * comm_msg.c_1@);
        lemma_add_absorb(comm_msg.beta@, e@ * comm_msg.c_2@);
        lemma_add_absorb(comm_msg.gamma@, e@ * comm_msg.c_3@);
    }
    (
        Verifier {
            c_1: comm_msg.c_1,
            c_2: comm_msg.c_2,
            c_3: comm_msg.c_3,
            e,
            c1_prime,
            c2_prime,
            c3_prime,
        },
        Challenge { e },
    )
}

/// (3) Prover answers the challenge.
pub fn response(sigma_p: &mut Prover, challenge: &Challenge) -> (r: Response)
    ensures
        *final(sigma_p) == *old(sigma_p),
        (r.z_1@, r.z_2@, r.z_3@, r.z_4@, r.z_5@) == third_move(
            challenge.e@,
            old(sigma_p).m_1@,
            old(sigma_p).r_1@,
            old(sigma_p).m_2@,
            old(sigma_p).r_2@,
            old(sigma_p).r_3@,
            old(sigma_p).b_1@,
            old(sigma_p).b_2@,
            old(sigma_p).b_3@,
            old(sigma_p).b_4@,
            old(sigma_p).b_5@,
        ),
{
    let e = challenge.e;
    let z_1 = sigma_p.b_1.plus(&e.times(&sigma_p.m_1));
    let z_2 = sigma_p.b_2.plus(&e.times(&sigma_p.r_1));
    let z_3 = sigma_p.b_3.plus(&e.times(&sigma_p.m_2));
    let z_4 = sigma_p.b_4.plus(&e.times(&sigma_p.r_2));
    let d = sigma_p.r_3.minus(&sigma_p.r_1.times(&sigma_p.m_2));
    let z_5 = sigma_p.b_5.plus(&e.times(&d));
    proof {
        let p = *sigma_p;
        lemma_add_absorb(p.b_1@, e@ * p.m_1@);
        lemma_add_absorb(p.b_2@, e@ * p.r_1@);
        lemma_add_absorb(p.b_3@, e@ * p.m_2@);
        lemma_add_absorb(p.b_4@, e@ * p.r_2@);
        lemma_add_absorb(p.r_3@, p.r_1@ * p.m_2@);
        lemma_mul_absorb(e@, p.r_3@ - p.r_1@ * p.m_2@);
        lemma_add_absorb(p.b_5@, e@ * (p.r_3@ - p.r_1@ * p.m_2@));
    }
    Response { z_1, z_2, z_3, z_4, z_5 }
}

/// (4) Verifier checks the three equations.
pub fn verify(pp: &PublicParams, sigma_v: &mut Verifier, response: &Response) -> (r: bool)
    ensures
        *final(sigma_v) == *old(sigma_v),
        r == accepts(
            *pp,
            old(sigma_v).c_1,
            old(sigma_v).c1_prime@,
            old(sigma_v).c2_prime@,
            old(sigma_v).c3_prime@,
            (response.z_1@, response.z_2@, response.z_3@, response.z_4@, response.z_5@),
        ),
{
    let special_pp = PublicParams { g: sigma_v.c_1, h: pp.h };
    if !pedersen::verify(&sigma_v.c1_prime, &response.z_1, &response.z_2, pp) {
        return false;
    }
    if !pedersen::verify(&sigma_v.c2_prime, &response.z_3, &response.z_4, pp) {
        return false;
    }
    if !pedersen::verify(&sigma_v.c3_prime, &response.z_3, &response.z_5, &special_pp) {
        return false;
    }
    true
}

proof fn lemma_poly_third(e: int, m1: int, r1: int, m2: int, m3: int, r3: int, b3: int, b5: int, g: int, h: int, c1: int, q: int)
    requires
        m1 * g + r1 * h == group_order() * q + c1,
    ensures
        ((b3 + e * m2) * c1 + (b5 + e * (r3 - r1 * m2)) * h) - (b3 * c1 + b5 * h + e * (m3 * g
            + r3 * h)) == e * g * (m1 * m2 - m3) + group_order() * (-e * m2 * q),
{
    let n = group_order();
    lemma_mul_is_distributive_add_other_way(c1, b3, e * m2);
    lemma_mul_is_distributive_add_other_way(h, b5, e * (r3 - r1 * m2));
    lemma_mul_is_distributive_sub(e, r3, r1 * m2);
    lemma_mul_is_distributive_sub_other_way(h, e * r3, e * (r1 * m2));
    lemma_mul_is_distributive_add(e, m3 * g, r3 * h);
    lemma_mul_is_associative(e, r3, h);
    assert(c1 == m1 * g + r1 * h - n * q);
    lemma_mul_is_distributive_add(e * m2, m1 * g, r1 * h);
    lemma_mul_is_distributive_sub(e * m2, m1 * g + r1 * h, n * q);
    assert((e * m2) * (m1 * g) == (e * g) * (m1 * m2)) by (nonlinear_arith);
    assert((e * m2) * (r1 * h) == (e * (r1 * m2)) * h) by (nonlinear_arith);
    assert(e * (m3 * g) == (e * g) * m3) by (nonlinear_arith);
    assert((e * m2) * (n * q) == n * (e * m2 * q)) by (nonlinear_arith);
    lemma_mul_is_distributive_sub(e * g, m1 * m2, m3);
    assert(e * g * (m1 * m2 - m3) == (e * g) * (m1 * m2 - m3));
    assert(n * (-e * m2 * q) == -(n * (e * m2 * q))) by (nonlinear_arith);
}

proof fn lemma_poly_lin(e: int, m: int, r: int, b: int, c: int, g: int, h: int)
    ensures
        (b + e * m) * g + (c + e * r) * h == b * g + c * h + e * (m * g + r * h),
{
    lemma_mul_is_distributive_add_other_way(g, b, e * m);
    lemma_mul_is_distributive_add_other_way(h, c, e * r);
    lemma_mul_is_distributive_add(e, m * g, r * h);
    lemma_mul_is_associative(e, m, g);
    lemma_mul_is_associative(e, r, h);
}

/// An equation `C(z; z') = first + e·c` holds for the response
/// `z = b + e·m`, `z' = bb + e·r` when `c = C(m; r)` and `first = C(b; bb)`.
proof fn lemma_linear_equation(pp: PublicParams, c: int, m: int, r: int, b: int, bb: int, e: int)
    requires
        c == commitment(pp, m, r),
    ensures
        opens(
            pp,
            (commitment(pp, b, bb) + e * c) % group_order(),
            (b + e * m) % group_order(),
            (bb + e * r) % group_order(),
        ),
{
    lemma_order_pos();
    let (g, h) = (pp.g@, pp.h@);
    lemma_lin2(g, b + e * m, h, bb + e * r);
    lemma_poly_lin(e, m, r, b, bb, g, h);
    lemma_lin2(1, b * g + bb * h, e, m * g + r * h);
}

/// The third equation holds exactly when `e·g·(m_1·m_2 − m_3)` is a multiple
/// of the group order.
proof fn lemma_third_equation(
    pp: PublicParams,
    c1: Point,
    m1: int,
    r1: int,
    m2: int,
    m3: int,
    r3: int,
    b3: int,
    b5: int,
    e: int,
)
    requires
        c1@ == commitment(pp, m1, r1),
    ensures
        opens(
            shifted_params(pp, c1),
            (commitment(shifted_params(pp, c1), b3, b5) + e * commitment(pp, m3, r3))
                % group_order(),
            (b3 + e * m2) % group_order(),
            (b5 + e * (r3 - r1 * m2)) % group_order(),
        ) <==> (e * pp.g@ * (m1 * m2 - m3)) % group_order() == 0,
{
    lemma_order_pos();
    let n = group_order();
    let (g, h, c) = (pp.g@, pp.h@, c1@);
    let z3 = b3 + e * m2;
    let z5 = b5 + e * (r3 - r1 * m2);
    lemma_lin2(c, z3, h, z5);
    let gamma_int = b3 * c + b5 * h;
    let c3_int = m3 * g + r3 * h;
    lemma_lin2(1, gamma_int, e, c3_int);
    lemma_mod_eq_diff(z3 * c + z5 * h, gamma_int + e * c3_int);
    lemma_fundamental_div_mod(m1 * g + r1 * h, n);
    let q = (m1 * g + r1 * h) / n;
    lemma_poly_third(e, m1, r1, m2, m3, r3, b3, b5, g, h, c, q);
    lemma_mod_multiples_vanish(-e * m2 * q, e * g * (m1 * m2 - m3), n);
}

/// What a run with an honest prover decides: for commitments `c_i = C(m_i; r_i)`,
/// the first two equations always hold, and the third holds exactly when
/// `e·g·(m_1·m_2 − m_3)` is a multiple of the group order.  So a correct
/// product is always accepted, and a wrong one only for a challenge `e = 0`
/// or a generator `g` that is the neutral element.
pub proof fn lemma_product_sigma_decides(
    pp: PublicParams,
    c1: Point,
    m1: int,
    r1: int,
    m2: int,
    r2: int,
    m3: int,
    r3: int,
    b1: int,
    b2: int,
    b3: int,
    b4: int,
    b5: int,
    e: int,
)
    requires
        c1@ == commitment(pp, m1, r1),
    ensures
        ({
            let n = group_order();
            let c2 = commitment(pp, m2, r2);
            let c3 = commitment(pp, m3, r3);
            let alpha = commitment(pp, b1, b2);
            let beta = commitment(pp, b3, b4);
            let gamma = commitment(shifted_params(pp, c1), b3, b5);
            accepts(
                pp,
                c1,
                (alpha + e * c1@) % n,
                (beta + e * c2) % n,
                (gamma + e * c3) % n,
                third_move(e, m1, r1, m2, r2, r3, b1, b2, b3, b4, b5),
            ) <==> (e * pp.g@ * (m1 * m2 - m3)) % n == 0
        }),
{
    lemma_linear_equation(pp, c1@, m1, r1, b1, b2, e);
    lemma_linear_equation(pp, commitment(pp, m2, r2), m2, r2, b3, b4, e);
    lemma_third_equation(pp, c1, m1, r1, m2, m3, r3, b3, b5, e);
}

/// Completeness: for commitments `c_i = C(m_i; r_i)` with `m_3 = m_1·m_2`,
/// an honest run is accepted for every draw and every challenge.
pub proof fn lemma_product_sigma_complete(
    pp: PublicParams,
    c1: Point,
    m1: int,
    r1: int,
    m2: int,
    r2: int,
    r3: int,
    b1: int,
    b2: int,
    b3: int,
    b4: int,
    b5: int,
    e: int,
)
    requires
        c1@ == commitment(pp, m1, r1),
    ensures
        ({
            let n = group_order();
            let m3 = (m1 * m2) % n;
            accepts(
                pp,
                c1,
                (commitment(pp, b1, b2) + e * c1@) % n,
                (commitment(pp, b3, b4) + e * commitment(pp, m2, r2)) % n,
                (commitment(shifted_params(pp, c1), b3, b5) + e * commitment(pp, m3, r3)) % n,
                third_move(e, m1, r1, m2, r2, r3, b1, b2, b3, b4, b5),
            )
        }),
{
    lemma_order_pos();
    let n = group_order();
    let g = pp.g@;
    let k = (m1 * m2) / n;
    lemma_product_sigma_decides(pp, c1, m1, r1, m2, r2, (m1 * m2) % n, r3, b1, b2, b3, b4, b5, e);
    lemma_fundamental_div_mod(m1 * m2, n);
    assert(e * g * (m1 * m2 - (m1 * m2) % n) == n * (e * g * k) + 0) by (nonlinear_arith)
        requires
            m1 * m2 - (m1 * m2) % n == n * k,
    ;
    lemma_mod_multiples_vanish(e * g * k, 0, n);
    lemma_small_mod(0, n as nat);
}

/// Soundness against a flipped product: for `m_3 = m_1·m_2 + 1` an honest
/// run is accepted only when `e·g` is a multiple of the group order, that is
/// for the challenge `e = 0` or a generator `g` that is the neutral element.
pub proof fn lemma_product_sigma_flipped(
    pp: PublicParams,
    c1: Point,
    m1: int,
    r1: int,
    m2: int,
    r2: int,
    r3: int,
    b1: int,
    b2: int,
    b3: int,
    b4: int,
    b5: int,
    e: int,
)
    requires
        c1@ == commitment(pp, m1, r1),
    ensures
        ({
            let n = group_order();
            let m3 = m1 * m2 + 1;
            accepts(
                pp,
                c1,
                (commitment(pp, b1, b2) + e * c1@) % n,
                (commitment(pp, b3, b4) + e * commitment(pp, m2, r2)) % n,
                (commitment(shifted_params(pp, c1), b3, b5) + e * commitment(pp, m3, r3)) % n,
                third_move(e, m1, r1, m2, r2, r3, b1, b2, b3, b4, b5),
            ) <==> (e * pp.g@) % n == 0
        }),
{
    lemma_order_pos();
    let n = group_order();
    let g = pp.g@;
    lemma_product_sigma_decides(pp, c1, m1, r1, m2, r2, m1 * m2 + 1, r3, b1, b2, b3, b4, b5, e);
    assert(e * g * (m1 * m2 - (m1 * m2 + 1)) == 0 - e * g) by (nonlinear_arith);
    lemma_mod_eq_diff(0, e * g);
    lemma_small_mod(0, n as nat);
}

} // verus!
