use certified_dp::commitment_phase::{
    calculate_monomial_sum, generate_monomial_sums, prover_commit_entry,
    prover_finish_commitment, prover_honest_commitment_phase, prover_respond_entry,
    verifier_challenge_entry, verifier_check_entry, verifier_finish_commitment,
    verifier_honest_commitment_phase, EntryProver, EntryVerifier,
};
use certified_dp::data::Data;
use certified_dp::group::{Point, Scalar};
use certified_dp::messages::{MonomialResponseTreeNode, QueryMessage};
use certified_dp::monomial::count_tree;
use certified_dp::pedersen;
use certified_dp::protocol::{
    or_vector, prover_answer_query, prover_randomness_accumulate, prover_randomness_phase_adjust,
    prover_randomness_phase_comm, prover_randomness_phase_response, prover_randomness_start,
    prover_setup, prover_setup_with_seed, verifer_randomness_phase_challenge,
    verifier_check_query, verifier_gen_census_query, verifier_gen_random_query, verifier_randomness_accumulate,
    verifier_randomness_phase_adjust, verifier_randomness_phase_check, verifier_randomness_start,
    verifier_setup, ProtocolError, ProverState, VerifierState,
};

struct Session {
    prover: ProverState,
    verifier: VerifierState,
    db: Data,
}

fn new_session(entries: Vec<u64>) -> Session {
    let (prover, setup_msg) = prover_setup_with_seed([5u8; 32]);
    let verifier = verifier_setup(&setup_msg);
    Session { prover, verifier, db: Data::from_entries(entries) }
}

struct Transcript {
    provers: Vec<EntryProver>,
    verifiers: Vec<EntryVerifier>,
    bit_commitments: Vec<Point>,
    tree_responses: Vec<Option<MonomialResponseTreeNode>>,
    responses: Vec<certified_dp::messages::BitSigmaResponseMessage>,
}

fn dishonest_transcript(s: &Session, d: usize, k: usize) -> Transcript {
    let pp = s.prover.pedersen_pp;
    let mut t = Transcript {
        provers: Vec::new(),
        verifiers: Vec::new(),
        bit_commitments: Vec::new(),
        tree_responses: Vec::new(),
        responses: Vec::new(),
    };
    for entry in s.db.entries.clone() {
        let (ep, bit_msg, tree) = prover_commit_entry(&pp, entry, d, k);
        let (ev, ch, tree_ch) = verifier_challenge_entry(&bit_msg, tree.as_ref(), d, k).unwrap();
        let (resp, tree_resp) = prover_respond_entry(&ep, &ch, tree_ch.as_ref(), k).unwrap();
        t.bit_commitments.push(bit_msg.commitments[0].b_comm);
        t.provers.push(ep);
        t.verifiers.push(ev);
        t.responses.push(resp);
        t.tree_responses.push(tree_resp);
    }
    t
}

fn check_transcript(s: &Session, t: &Transcript, k: usize) -> bool {
    let pp = s.verifier.pedersen_pp;
    for i in 0..t.verifiers.len() {
        if !verifier_check_entry(&pp, &t.verifiers[i], &t.responses[i], t.tree_responses[i].as_ref(), k) {
            return false;
        }
    }
    true
}

fn dishonest_commit(s: &mut Session, d: usize, k: usize) -> Transcript {
    let t = dishonest_transcript(s, d, k);
    assert!(check_transcript(s, &t, k));
    let pp = s.prover.pedersen_pp;
    assert!(prover_finish_commitment(&pp, &mut s.db, &t.provers, d, k));
    assert!(verifier_finish_commitment(&mut s.verifier, &t.verifiers, d, k));
    t
}

fn randomness(s: &mut Session, n: u32) -> Vec<u32> {
    prover_randomness_start(&mut s.prover);
    verifier_randomness_start(&mut s.verifier);
    let mut bits = Vec::new();
    for _ in 0..n {
        let comm = prover_randomness_phase_comm(&mut s.prover);
        let ch = verifer_randomness_phase_challenge(&mut s.verifier, &comm);
        let resp = prover_randomness_phase_response(&mut s.prover, &ch);
        let c = verifier_randomness_phase_check(&mut s.verifier, &resp).expect("round accepted");
        prover_randomness_accumulate(&mut s.prover);
        verifier_randomness_accumulate(&mut s.verifier, &c);
        bits.push(s.prover.final_b);
    }
    prover_randomness_phase_adjust(&mut s.prover, n);
    verifier_randomness_phase_adjust(&mut s.verifier, n);
    bits
}

fn count(entries: &[u64], mask: u64) -> u64 {
    entries.iter().filter(|e| *e & mask == mask).count() as u64
}

#[test]
fn four_records_two_term_query() {
    let entries = vec![0xd, 0xb, 0xa, 0xe];
    let mut s = new_session(entries.clone());
    dishonest_commit(&mut s, 4, 2);
    let n = 8 * (4u32.ilog2().pow(2) + 1);
    assert_eq!(n, 40);
    randomness(&mut s, n);
    let q = QueryMessage {
        coefficients: vec![(0b0001, Scalar::one()), (0b0110, Scalar::from_u64(2))],
    };
    let a = prover_answer_query(&s.prover, &s.db, &q).unwrap();
    assert_eq!(count(&entries, 0b0001), 2);
    assert_eq!(count(&entries, 0b0110), 1);
    let expected = Scalar::from_u64(2 + 2 * 1).plus(&s.prover.randomness_bit_sum);
    assert!(a.answer.equals(&expected));
    assert!(verifier_check_query(&s.verifier, &q.coefficients, &a));
}

#[test]
fn tampered_answer_is_rejected() {
    let mut s = new_session(vec![0xd, 0xb, 0xa, 0xe]);
    dishonest_commit(&mut s, 4, 2);
    randomness(&mut s, 40);
    let q = QueryMessage {
        coefficients: vec![(0b0001, Scalar::one()), (0b0110, Scalar::from_u64(2))],
    };
    let mut a = prover_answer_query(&s.prover, &s.db, &q).unwrap();
    assert!(verifier_check_query(&s.verifier, &q.coefficients, &a));
    let mut bytes = a.answer.to_bytes();
    bytes[0] ^= 1;
    a.answer = Scalar::from_bytes(bytes);
    assert!(!verifier_check_query(&s.verifier, &q.coefficients, &a));
}

#[test]
fn single_bit_records() {
    let entries = vec![1, 0, 1, 1, 0, 0, 1, 1];
    let mut s = new_session(entries.clone());
    let t = dishonest_commit(&mut s, 1, 1);
    assert_eq!(s.verifier.monomial_ids, vec![1u64]);
    let mut sum = Point::identity();
    for c in &t.bit_commitments {
        sum = sum.plus(c);
    }
    assert!(s.verifier.monomial_commitments.get(&1).unwrap().equals(&sum));
    randomness(&mut s, 16);
    let q = QueryMessage { coefficients: vec![(1, Scalar::one())] };
    let a = prover_answer_query(&s.prover, &s.db, &q).unwrap();
    let expected = Scalar::from_u64(5).plus(&s.prover.randomness_bit_sum);
    assert!(a.answer.equals(&expected));
    assert!(verifier_check_query(&s.verifier, &q.coefficients, &a));
}

#[test]
fn swapped_product_response_is_rejected() {
    let s = new_session(vec![0xb7]);
    let mut t = dishonest_transcript(&s, 8, 3);
    let tree = t.tree_responses[0].as_mut().unwrap();
    let a = tree.children[0].children[0].product_sigma_response.unwrap();
    let b = tree.children[0].children[1].product_sigma_response.unwrap();
    let mut a2 = a;
    a2.z_5 = b.z_5;
    tree.children[0].children[0].product_sigma_response = Some(a2);
    assert!(!check_transcript(&s, &t, 3));
}

#[test]
fn commitment_tree_covers_admissible_ids() {
    let mut s = new_session(vec![0x5, 0x9, 0xf]);
    dishonest_commit(&mut s, 4, 2);
    let mut ids = s.verifier.monomial_ids.clone();
    ids.sort();
    let expected: Vec<u64> = (1..16u64).filter(|m| m.count_ones() <= 2).collect();
    assert_eq!(ids, expected);
    let mut prover_ids: Vec<u64> = s.db.commitments.keys().copied().collect();
    prover_ids.sort();
    assert_eq!(prover_ids, expected);
}

#[test]
fn honest_and_dishonest_modes_agree() {
    let entries = vec![0xd, 0xb, 0xa, 0xe];
    let mut s = new_session(entries.clone());
    let m = prover_honest_commitment_phase(&s.prover, &mut s.db, 4, 2);
    verifier_honest_commitment_phase(&mut s.verifier, &m);
    let mut honest_db = Data::from_entries(entries.clone());
    std::mem::swap(&mut honest_db.commitments, &mut s.db.commitments);
    let mut honest_map = std::collections::HashMap::new();
    std::mem::swap(&mut honest_map, &mut s.verifier.monomial_commitments);
    s.verifier.monomial_ids.clear();
    dishonest_commit(&mut s, 4, 2);
    for (id, (value, _, _)) in honest_db.commitments.iter() {
        let (other, _, _) = s.db.commitments.get(id).unwrap();
        assert!(value.equals(other));
        assert!(value.equals(&Scalar::from_u64(count(&entries, *id))));
    }
    randomness(&mut s, 8);
    for _ in 0..100 {
        let coefficients = verifier_gen_random_query(&s.verifier, 3).unwrap();
        let q = QueryMessage { coefficients };
        let a = prover_answer_query(&s.prover, &s.db, &q).unwrap();
        let h = prover_answer_query(&s.prover, &honest_db, &q).unwrap();
        assert!(a.answer.equals(&h.answer));
        assert!(verifier_check_query(&s.verifier, &q.coefficients, &a));
        std::mem::swap(&mut honest_map, &mut s.verifier.monomial_commitments);
        assert!(verifier_check_query(&s.verifier, &q.coefficients, &h));
        std::mem::swap(&mut honest_map, &mut s.verifier.monomial_commitments);
    }
}

#[test]
fn noise_is_centred_and_opens() {
    let mut s = new_session(vec![1, 2]);
    let n = 30u32;
    let bits = randomness(&mut s, n);
    assert_eq!(bits.len(), 30);
    let ones: u64 = bits.iter().map(|b| *b as u64).sum();
    let expected = Scalar::from_u64(ones).minus(&Scalar::from_u64((n / 2) as u64));
    assert!(s.prover.randomness_bit_sum.equals(&expected));
    let noise = ones as i64 - (n / 2) as i64;
    assert!(-15 <= noise && noise <= 15);
    assert!(pedersen::verify(
        &s.verifier.randomness_bit_comm,
        &s.prover.randomness_bit_sum,
        &s.prover.randomness_bit_proof,
        &s.verifier.pedersen_pp,
    ));
}

#[test]
fn query_with_unknown_id_is_refused() {
    let mut s = new_session(vec![0x3]);
    dishonest_commit(&mut s, 2, 1);
    let q = QueryMessage { coefficients: vec![(0b11, Scalar::one())] };
    assert_eq!(prover_answer_query(&s.prover, &s.db, &q).err(), Some(ProtocolError::MissingMonomial));
    let a = prover_answer_query(
        &s.prover,
        &s.db,
        &QueryMessage { coefficients: vec![(0b01, Scalar::one())] },
    )
    .unwrap();
    assert!(!verifier_check_query(&s.verifier, &q.coefficients, &a));
}

#[test]
fn query_sparsity_is_bounded_by_ids() {
    let mut s = new_session(vec![0x3]);
    dishonest_commit(&mut s, 2, 1);
    assert_eq!(s.verifier.monomial_ids.len(), 2);
    assert_eq!(verifier_gen_random_query(&s.verifier, 3).err(), Some(ProtocolError::Sparsity));
    let q = verifier_gen_random_query(&s.verifier, 2).unwrap();
    assert_eq!(q.len(), 2);
    assert_ne!(q[0].0, q[1].0);
}

#[test]
fn rejected_round_is_reported() {
    let mut s = new_session(vec![1]);
    let comm = prover_randomness_phase_comm(&mut s.prover);
    let ch = verifer_randomness_phase_challenge(&mut s.verifier, &comm);
    let mut resp = prover_randomness_phase_response(&mut s.prover, &ch);
    resp.final_commitment = resp.final_commitment.plus(&Point::basepoint());
    assert!(verifier_randomness_phase_check(&mut s.verifier, &resp).is_none());
}

#[test]
fn setup_hands_the_seed_over() {
    let (p, msg) = prover_setup();
    let v = verifier_setup(&msg);
    assert!(p.pedersen_pp.g.equals(&v.pedersen_pp.g));
    assert!(p.pedersen_pp.h.equals(&v.pedersen_pp.h));
    assert!(p.c1.equals(&v.c1));
}

#[test]
fn monomial_sums_count_records() {
    let data = [0xdu64, 0xb, 0xa, 0xe];
    assert!(calculate_monomial_sum(0b0001, &data).equals(&Scalar::from_u64(2)));
    assert!(calculate_monomial_sum(0b1010, &data).equals(&Scalar::from_u64(3)));
    assert!(calculate_monomial_sum(0b0111, &data).equals(&Scalar::zero()));
    let sums = generate_monomial_sums(&data, 4, 2);
    assert_eq!(sums.len(), 10);
    for (id, s) in sums {
        assert!(s.equals(&Scalar::from_u64(count(&data, id))));
    }
}

#[test]
fn or_vector_combines_bits() {
    assert_eq!(or_vector(&vec![]), 0);
    assert_eq!(or_vector(&vec![0x4000000, 0x80000000, 1]), 0x84000001);
}

#[test]
fn malformed_flights_are_schema_errors() {
    let s = new_session(vec![0x3]);
    let pp = s.prover.pedersen_pp;
    let (_, bit_msg, tree) = prover_commit_entry(&pp, 0x3, 2, 2);
    assert!(verifier_challenge_entry(&bit_msg, tree.as_ref(), 3, 2).is_err());
    assert!(verifier_challenge_entry(&bit_msg, None, 2, 2).is_err());
    assert!(verifier_challenge_entry(&bit_msg, tree.as_ref(), 2, 1).is_err());
    assert!(verifier_challenge_entry(&bit_msg, tree.as_ref(), 2, 2).is_ok());
}

#[test]
fn unbound_commitment_tree_is_rejected() {
    let s = new_session(vec![0x3]);
    let pp = s.prover.pedersen_pp;
    let (_, bit_msg, tree) = prover_commit_entry(&pp, 0x1, 2, 2);
    let mut tree = tree.unwrap();
    let c = tree.children[1].commitment.unwrap();
    tree.children[1].commitment = Some(c.plus(&Point::basepoint()));
    assert_eq!(
        verifier_challenge_entry(&bit_msg, Some(&tree), 2, 2).err(),
        Some(ProtocolError::Schema)
    );
}

#[test]
fn census_query_covers_pattern_combinations() {
    let q = verifier_gen_census_query();
    assert_eq!(q.len(), 63);
    let minus_one = Scalar::one().negate();
    assert_eq!(q[0], (0x4000000, Scalar::one()));
    assert_eq!(q[6], (0x4000000 | 0x8000000, minus_one));
    assert!(q.contains(&(0x84000000, minus_one)));
    assert!(q.contains(&(0x4000000 | 0x8000000 | 0x10000000, Scalar::one())));
    assert_eq!(q[62], (0xfc000000, minus_one));
    let ids: std::collections::HashSet<u64> = q.iter().map(|t| t.0).collect();
    assert_eq!(ids.len(), 63);
}

#[test]
fn monomial_tree_node_count() {
    let s = new_session(vec![0x6]);
    let pp = s.prover.pedersen_pp;
    let (ep, _, _) = prover_commit_entry(&pp, 0x6, 4, 2);
    assert_eq!(count_tree(&ep.tree, 2), Some(1 + 4 + 6));
    assert_eq!(count_tree(&ep.tree, 1), None);
    let (ep, _, _) = prover_commit_entry(&pp, 0x6, 3, 3);
    assert_eq!(count_tree(&ep.tree, 3), Some(1 + 3 + 3 + 1));
}

#[test]
fn random_database_has_requested_size() {
    let d = Data::new(5);
    assert_eq!(d.entries.len(), 5);
    assert!(d.commitments.is_empty());
    let e = Data::new(5);
    assert_ne!(d.entries, e.entries);
}
