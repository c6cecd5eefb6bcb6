use certified_dp::bit_sigma;
use certified_dp::group::Scalar;
use certified_dp::pedersen::{self, setup, PublicParams};
use certified_dp::product_sigma;

fn params() -> PublicParams {
    setup(&[3u8; 32])
}

fn run_bit_proof(pp: &PublicParams, b: u32) -> bool {
    let (c, r) = pedersen::commit(&Scalar::from_u64(b as u64), pp);
    let (mut prover, comm) = bit_sigma::commit(pp, b, c, r);
    let (mut verifier, challenge) = bit_sigma::challenge(&comm);
    let response = bit_sigma::response(&mut prover, &challenge);
    bit_sigma::verify(pp, &mut verifier, &response)
}

#[test]
fn bit_sigma_accepts_both_bits() {
    let pp = params();
    for _ in 0..8 {
        assert!(run_bit_proof(&pp, 0));
        assert!(run_bit_proof(&pp, 1));
    }
}

#[test]
fn bit_sigma_rejects_commitment_to_two() {
    let pp = params();
    let mut rejected = 0u32;
    let mut trials = 0u32;
    for claimed in 0..2u32 {
        for field in 0..4u32 {
            for _ in 0..8 {
                let (c, r) = pedersen::commit(&Scalar::from_u64(2), &pp);
                let (mut prover, comm) = bit_sigma::commit(&pp, claimed, c, r);
                let (mut verifier, challenge) = bit_sigma::challenge(&comm);
                let mut response = bit_sigma::response(&mut prover, &challenge);
                let noise = Scalar::random();
                match field {
                    0 => response.z_0 = response.z_0.plus(&noise),
                    1 => response.z_1 = response.z_1.plus(&noise),
                    2 => response.e_0 = response.e_0.plus(&noise),
                    _ => response.e_1 = response.e_1.plus(&noise),
                }
                trials += 1;
                if !bit_sigma::verify(&pp, &mut verifier, &response) {
                    rejected += 1;
                }
            }
        }
    }
    assert!(rejected * 256 >= trials * 255);
}

#[test]
fn bit_sigma_rejects_a_tampered_response() {
    let pp = params();
    let (c, r) = pedersen::commit(&Scalar::one(), &pp);
    let (mut prover, comm) = bit_sigma::commit(&pp, 1, c, r);
    let (mut verifier, challenge) = bit_sigma::challenge(&comm);
    let mut response = bit_sigma::response(&mut prover, &challenge);
    response.z_1 = response.z_1.plus(&Scalar::one());
    assert!(!bit_sigma::verify(&pp, &mut verifier, &response));
}

fn run_product_proof(pp: &PublicParams, m1: u64, m2: u64, m3: Scalar) -> bool {
    let m1 = Scalar::from_u64(m1);
    let m2 = Scalar::from_u64(m2);
    let (c1, r1) = pedersen::commit(&m1, pp);
    let (c2, r2) = pedersen::commit(&m2, pp);
    let (c3, r3) = pedersen::commit(&m3, pp);
    let (mut prover, comm) = product_sigma::commit(pp, (m1, c1, r1), (m2, c2, r2), (m3, c3, r3));
    let (mut verifier, challenge) = product_sigma::challenge(&comm);
    let response = product_sigma::response(&mut prover, &challenge);
    product_sigma::verify(pp, &mut verifier, &response)
}

#[test]
fn product_sigma_accepts_correct_products() {
    let pp = params();
    for (a, b) in [(0u64, 0u64), (0, 1), (1, 0), (1, 1), (6, 7)] {
        let m3 = Scalar::from_u64(a * b);
        assert!(run_product_proof(&pp, a, b, m3));
    }
}

#[test]
fn product_sigma_rejects_flipped_products() {
    let pp = params();
    for (a, b) in [(0u64, 0u64), (0, 1), (1, 0), (1, 1), (6, 7)] {
        let m3 = Scalar::from_u64(a * b + 1);
        assert!(!run_product_proof(&pp, a, b, m3));
    }
}
