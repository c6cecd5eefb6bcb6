//! Three-move proof that a Pedersen commitment opens to 0 or to 1, by
//! OR-composition of a real proof for the bit held and a simulated one for
//! the other bit.
use crate::arith::{lemma_add_absorb, lemma_lin2, lemma_mul_absorb, lemma_reduced_fixed};
use crate::group::lemma_order_pos;
use vstd::arithmetic::div_mod::{lemma_mod_twice, lemma_small_mod};
use crate::group::{group_order, Point, Scalar};
use crate::pedersen::{self, commitment, PublicParams};
use vstd::arithmetic::mul::{
    group_mul_is_commutative_and_distributive, lemma_mul_basics, lemma_mul_is_associative,
};
use vstd::prelude::*;

verus! {

broadcast use Point::lemma_range;

/// Prover state: the bit, the randomness of its commitment, the randomness
/// of the real branch, and the simulated response and challenge.
#[derive(Clone, Copy, Debug)]
pub struct Prover {
    pub b: u32,
    pub b_proof: Scalar,
    pub r_b: Scalar,
    pub z_not_b: Scalar,
    pub e_not_b: Scalar,
}

/// Verifier state: the commitment under proof, the challenge and the two
/// first-move commitments.
#[derive(Clone, Copy, Debug)]
pub struct Verifier {
    pub b_comm: Point,
    pub e: Scalar,
    pub c_0: Point,
    pub c_1: Point,
}

/// First move, prover to verifier.
#[derive(Clone, Copy, Debug)]
pub struct Commitment {
    pub b_comm: Point,
    pub c_0: Point,
    pub c_1: Point,
}

/// Second move, verifier to prover.
#[derive(Clone, Copy, Debug)]
pub struct Challenge {
    pub e: Scalar,
}

/// Third move, prover to verifier.
#[derive(Clone, Copy, Debug)]
pub struct Response {
    pub z_0: Scalar,
    pub z_1: Scalar,
    pub e_0: Scalar,
    pub e_1: Scalar,
}

impl Default for Prover {
    fn default() -> (r: Prover)
        ensures
            r.b == 0,
            r.b_proof@ == 0,
            r.r_b@ == 0,
            r.z_not_b@ == 0,
            r.e_not_b@ == 0,
    {
        Prover {
            b: 0,
            b_proof: Scalar::zero(),
            r_b: Scalar::zero(),
            z_not_b: Scalar::zero(),
            e_not_b: Scalar::zero(),
        }
    }
}

impl Default for Verifier {
    fn default() -> (r: Verifier)
        ensures
            r.b_comm@ == 0,
            r.e@ == 0,
            r.c_0@ == 0,
            r.c_1@ == 0,
    {
        Verifier {
            b_comm: Point::identity(),
            e: Scalar::zero(),
            c_0: Point::identity(),
            c_1: Point::identity(),
        }
    }
}

/// The first-move commitments `(c_0, c_1)` for bit `b` of the commitment
/// `bc`: the branch of `b` commits to `b` with randomness `rb`; the other
/// branch is simulated from the challenge `en` and response `zn`.
pub open spec fn first_move(pp: PublicParams, b: int, bc: int, rb: int, en: int, zn: int) -> (
    int,
    int,
) {
    let honest = commitment(pp, b, rb);
    let simulated = (commitment(pp, ((1 - b) * ((en + 1) % group_order())) % group_order(), zn)
        - en * bc) % group_order();
    (if b == 0 {
        honest
    } else {
        simulated
    }, if b == 1 {
        honest
    } else {
        simulated
    })
}

/// The response `(z_0, z_1, e_0, e_1)` to challenge `e` of the prover with
/// bit `b`, commitment randomness `bp`, real-branch randomness `rb`, and
/// simulated challenge `en` and response `zn`.
pub open spec fn third_move(b: int, bp: int, rb: int, en: int, zn: int, e: int) -> (
    int,
    int,
    int,
    int,
) {
    let eb = (e - en) % group_order();
    let zb = (rb + eb * bp) % group_order();
    (if b == 0 {
        zb
    } else {
        zn
    }, if b == 1 {
        zb
    } else {
        zn
    }, if b == 0 {
        eb
    } else {
        en
    }, if b == 1 {
        eb
    } else {
        en
    })
}

/// Whether the verifier accepts the transcript for the commitment `bc`.
pub open spec fn accepts(
    pp: PublicParams,
    bc: int,
    c0: int,
    c1: int,
    e: int,
    z0: int,
    z1: int,
    e0: int,
    e1: int,
) -> bool {
    &&& e == (e0 + e1) % group_order()
    &&& commitment(pp, 0, z0) == (c0 + e0 * bc) % group_order()
    &&& commitment(pp, (1 + e1) % group_order(), z1) == (c1 + e1 * bc) % group_order()
}

/// (1) Prover commits to proving that `b_comm`, made with randomness
/// `b_proof`, holds the bit `b`.
pub fn commit(pp: &PublicParams, b: u32, b_comm: Point, b_proof: Scalar) -> (r: (
    Prover,
    Commitment,
))
    requires
        b < 2,
    ensures
        r.0.b == b,
        r.0.b_proof == b_proof,
        r.1.b_comm == b_comm,
        (r.1.c_0@, r.1.c_1@) == first_move(
            *pp,
            b as int,
            b_comm@,
            r.0.r_b@,
            r.0.e_not_b@,
            r.0.z_not_b@,
        ),
{
    let (c_b, r_b) = pedersen::commit(&Scalar::from_u64(b as u64), pp);
    let e_not_b = Scalar::random();
    let m = Scalar::from_u64((1 - b) as u64).times(&e_not_b.plus(&Scalar::one()));
    let (c_sim, z_not_b) = pedersen::commit(&m, pp);
    let shift = b_comm.scale(&e_not_b.negate());
    let c_not_b = c_sim.plus(&shift);
    proof {
        let en = e_not_b@;
        let bc = b_comm@;
        lemma_mul_absorb(bc, -en);
        lemma_add_absorb(c_sim@, -en * bc);
        assert(-en * bc == -(en * bc)) by (nonlinear_arith);
    }
    let c_0 = if b == 0 {
        c_b
    } else {
        c_not_b
    };
    let c_1 = if b == 1 {
        c_b
    } else {
        c_not_b
    };
    (Prover { b, b_proof, r_b, z_not_b, e_not_b }, Commitment { b_comm, c_0, c_1 })
}

/// (2) Verifier draws a random challenge.
pub fn challenge(comm_msg: &Commitment) -> (r: (Verifier, Challenge))
    ensures
        r.0.b_comm == comm_msg.b_comm,
        r.0.c_0 == comm_msg.c_0,
        r.0.c_1 == comm_msg.c_1,
        r.0.e == r.1.e,
{
    let e = Scalar::random();
    (Verifier { e, b_comm: comm_msg.b_comm, c_0: comm_msg.c_0, c_1: comm_msg.c_1 }, Challenge { e })
}

/// (3) Prover answers the challenge.
pub fn response(sigma_p: &mut Prover, challenge: &Challenge) -> (r: Response)
    ensures
        *final(sigma_p) == *old(sigma_p),
        (r.z_0@, r.z_1@, r.e_0@, r.e_1@) == third_move(
            old(sigma_p).b as int,
            old(sigma_p).b_proof@,
            old(sigma_p).r_b@,
            old(sigma_p).e_not_b@,
            old(sigma_p).z_not_b@,
            challenge.e@,
        ),
{
    let e_b = challenge.e.minus(&sigma_p.e_not_b);
    let z_b = sigma_p.r_b.plus(&e_b.times(&sigma_p.b_proof));
    proof {
        lemma_add_absorb(sigma_p.r_b@, e_b@ * sigma_p.b_proof@);
    }
    Response {
        z_0: if sigma_p.b == 0 {
            z_b
        } else {
            sigma_p.z_not_b
        },
        z_1: if sigma_p.b == 1 {
            z_b
        } else {
            sigma_p.z_not_b
        },
        e_0: if sigma_p.b == 0 {
            e_b
        } else {
            sigma_p.e_not_b
        },
        e_1: if sigma_p.b == 1 {
            e_b
        } else {
            sigma_p.e_not_b
        },
    }
}

/// (4) Verifier checks the response.
pub fn verify(pp: &PublicParams, sigma_v: &mut Verifier, response: &Response) -> (r: bool)
    ensures
        *final(sigma_v) == *old(sigma_v),
        r == accepts(
            *pp,
            old(sigma_v).b_comm@,
            old(sigma_v).c_0@,
            old(sigma_v).c_1@,
            old(sigma_v).e@,
            response.z_0@,
            response.z_1@,
            response.e_0@,
            response.e_1@,
        ),
{
    proof {
        lemma_add_absorb(sigma_v.c_0@, response.e_0@ * sigma_v.b_comm@);
        lemma_add_absorb(sigma_v.c_1@, response.e_1@ * sigma_v.b_comm@);
    }
    if !sigma_v.e.equals(&response.e_0.plus(&response.e_1)) {
        return false;
    }
    let lhs_0 = pedersen::commit_with_r(&Scalar::zero(), &response.z_0, pp);
    let rhs_0 = sigma_v.c_0.plus(&sigma_v.b_comm.scale(&response.e_0));
    if !lhs_0.equals(&rhs_0) {
        return false;
    }
    let lhs_1 = pedersen::commit_with_r(&Scalar::one().plus(&response.e_1), &response.z_1, pp);
    let rhs_1 = sigma_v.c_1.plus(&sigma_v.b_comm.scale(&response.e_1));
    lhs_1.equals(&rhs_1)
}

proof fn lemma_poly_real_zero(rb: int, eb: int, bp: int, h: int)
    ensures
        (rb + eb * bp) * h == rb * h + eb * (bp * h),
{
    broadcast use group_mul_is_commutative_and_distributive, lemma_mul_is_associative;

}

proof fn lemma_poly_real_one(rb: int, eb: int, bp: int, g: int, h: int)
    ensures
        (1 + eb) * g + (rb + eb * bp) * h == 1 * (1 * g + rb * h) + eb * (1 * g + bp * h),
{
    broadcast use group_mul_is_commutative_and_distributive, lemma_mul_is_associative;

}

/// Completeness: a proof run as above for a bit `b` in {0, 1} of a
/// commitment made with randomness `bp` is accepted, whatever the prover drew
/// and whatever challenge the verifier sent.
pub proof fn lemma_bit_sigma_complete(
    pp: PublicParams,
    b: int,
    bp: int,
    rb: int,
    en: int,
    zn: int,
    e: int,
)
    requires
        b == 0 || b == 1,
        0 <= e < group_order(),
    ensures
        ({
            let bc = commitment(pp, b, bp);
            let (c0, c1) = first_move(pp, b, bc, rb, en, zn);
            let (z0, z1, e0, e1) = third_move(b, bp, rb, en, zn, e);
            accepts(pp, bc, c0, c1, e, z0, z1, e0, e1)
        }),
{
    broadcast use crate::group::lemma_reduced_range;

    let m = group_order();
    let (g, h) = (pp.g@, pp.h@);
    let bc = commitment(pp, b, bp);
    let eb = (e - en) % m;
    let x = rb + eb * bp;
    lemma_order_pos();
    // the two challenge shares add up to the challenge
    lemma_add_absorb(e - en, en);
    lemma_add_absorb(en, e - en);
    lemma_reduced_fixed(e);
    // the simulated branch cancels its shift
    let sim_m = ((1 - b) * ((en + 1) % m)) % m;
    let k = commitment(pp, sim_m, zn);
    lemma_add_absorb(k - en * bc, en * bc);
    lemma_reduced_fixed(k);
    if b == 0 {
        lemma_mod_twice(en + 1, m);
        lemma_lin2(g, 1 + en, h, zn);
        lemma_lin2(g, sim_m, h, zn);
        // the real branch
        lemma_lin2(g, 0, h, x);
        lemma_lin2(1, rb * h, eb, bp * h);
        lemma_poly_real_zero(rb, eb, bp, h);
        assert(e == (eb + en) % m);
        assert(commitment(pp, 0, x % m) == (commitment(pp, 0, rb) + eb * bc) % m);
        assert(commitment(pp, (1 + en) % m, zn) == (((k - en * bc) % m) + en * bc) % m);
    } else {
        lemma_small_mod(0, m as nat);
        lemma_mul_basics((en + 1) % m);
        assert((1 - b) * ((en + 1) % m) == 0);
        // the real branch
        lemma_lin2(g, 1 + eb, h, x);
        lemma_lin2(1, 1 * g + rb * h, eb, 1 * g + bp * h);
        lemma_poly_real_one(rb, eb, bp, g, h);
        assert(e == (en + eb) % m);
        assert(commitment(pp, 0, zn) == (((k - en * bc) % m) + en * bc) % m);
        assert(commitment(pp, (1 + eb) % m, x % m) == (commitment(pp, 1, rb) + eb * bc) % m);
    }
}

proof fn lemma_poly_difference(z: int, zz: int, e: int, ee: int, h: int, b: int, c: int)
    ensures
        (z * h - c - e * b) - (zz * h - c - ee * b) == (z - zz) * h - (e - ee) * b,
{
    broadcast use group_mul_is_commutative_and_distributive;

}

/// Special soundness: two accepted transcripts for the same first move
/// with different challenges show that the commitment `bc` opens to 0 or to 1.
/// Either the `e_0` shares differ and `(e_0 - e_0')·bc = C(0; z_0 - z_0')`,
/// or the `e_1` shares differ and `(e_1 - e_1')·bc = C(e_1 - e_1'; z_1 - z_1')`,
/// all modulo the group order.
pub proof fn lemma_bit_sigma_special_soundness(
    pp: PublicParams,
    bc: int,
    c0: int,
    c1: int,
    e: int,
    z0: int,
    z1: int,
    e0: int,
    e1: int,
    ee: int,
    zz0: int,
    zz1: int,
    ee0: int,
    ee1: int,
)
    requires
        accepts(pp, bc, c0, c1, e, z0, z1, e0, e1),
        accepts(pp, bc, c0, c1, ee, zz0, zz1, ee0, ee1),
        e != ee,
        0 <= e0 < group_order() && 0 <= e1 < group_order(),
        0 <= ee0 < group_order() && 0 <= ee1 < group_order(),
        0 <= z1 < group_order() && 0 <= zz1 < group_order(),
    ensures
        (e0 != ee0 && ((z0 - zz0) * pp.h@ - (e0 - ee0) * bc) % group_order() == 0) || (e1
            != ee1 && ((e1 - ee1) * pp.g@ + (z1 - zz1) * pp.h@ - (e1 - ee1) * bc)
            % group_order() == 0),
{
    lemma_order_pos();
    let n = group_order();
    let (g, h) = (pp.g@, pp.h@);
    if e0 != ee0 {
        lemma_add_absorb(c0, e0 * bc);
        lemma_add_absorb(c0, ee0 * bc);
        crate::arith::lemma_mod_eq_diff(z0 * h, c0 + e0 * bc);
        crate::arith::lemma_mod_eq_diff(zz0 * h, c0 + ee0 * bc);
        lemma_lin2(g, 0, h, z0);
        lemma_lin2(g, 0, h, zz0);
        lemma_mul_basics(g);
        lemma_small_mod(0, n as nat);
        crate::arith::lemma_mod_eq_diff(z0 * h - c0 - e0 * bc, zz0 * h - c0 - ee0 * bc);
        lemma_poly_difference(z0, zz0, e0, ee0, h, bc, c0);
    } else {
        assert(e1 != ee1);
        let x = (1 + e1) * g + z1 * h;
        let xx = (1 + ee1) * g + zz1 * h;
        lemma_reduced_fixed(z1);
        lemma_reduced_fixed(zz1);
        lemma_lin2(g, 1 + e1, h, z1);
        lemma_lin2(g, 1 + ee1, h, zz1);
        crate::arith::lemma_mod_eq_diff(x, c1 + e1 * bc);
        crate::arith::lemma_mod_eq_diff(xx, c1 + ee1 * bc);
        lemma_small_mod(0, n as nat);
        crate::arith::lemma_mod_eq_diff(x - c1 - e1 * bc, xx - c1 - ee1 * bc);
        lemma_poly_flip(e1, ee1, z1, zz1, g, h, bc, c1);
    }
}

proof fn lemma_poly_flip(e: int, ee: int, z: int, zz: int, g: int, h: int, b: int, c: int)
    ensures
        (((1 + e) * g + z * h) - c - e * b) - (((1 + ee) * g + zz * h) - c - ee * b) == (e - ee)
            * g + (z - zz) * h - (e - ee) * b,
{
    broadcast use group_mul_is_commutative_and_distributive;

}

} // verus!
