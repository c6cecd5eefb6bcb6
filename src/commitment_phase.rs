//! The commitment phase: committing to every monomial's count over the
//! database, either openly (honest mode) or with a bit proof for every bit
//! of every record and a product proof for every deeper monomial
//! (dishonest-safe mode).
use crate::bit_sigma;
use crate::data::Data;
use crate::group::{Point, Scalar};
use crate::messages::{
    BitSigmaChallengeMessage, BitSigmaCommitmentMessage, BitSigmaResponseMessage,
    CommitmentMapMessage, MonomialChallengeTreeNode, MonomialCommitmentTreeNode,
    MonomialResponseTreeNode,
};
use crate::monomial::{
    add_opening, add_point, all_open, answers, challenge_fits, challenged, check_commitment_tree,
    ids_name, lemma_binds_depth, set_point, tree_binds, added_log, added_opening, fold_logs,
    fold_openings, opening_view, opening_views, point_logs, prover_fits, verifier_fits, built,
    lemma_built_fits, lemma_challenged_fits, extract_commitments, extract_monomials, gen_challenge_tree,
    gen_monomial_tree, gen_response_tree, opening_holds, tree_accepts, verify_response_tree,
    MonomialProverTreeNode, MonomialVerifierTreeNode, Opening,
};
use crate::pedersen::{self, PublicParams};
use crate::protocol::{ProtocolError, ProverState, VerifierState};
use vstd::prelude::*;

verus! {

broadcast use vstd::std_specs::hash::group_hash_axioms, Point::lemma_range;

/// Whether the record has every bit of the monomial `m` set.
pub open spec fn satisfies(entry: u64, m: u64) -> bool {
    entry & m == m
}

/// How many records have every bit of the monomial `m` set.
pub open spec fn monomial_count(m: u64, data: Seq<u64>) -> nat
    decreases data.len(),
{
    if data.len() == 0 {
        0
    } else {
        monomial_count(m, data.drop_last()) + (if satisfies(data.last(), m) {
            1nat
        } else {
            0nat
        })
    }
}

/// The value of bit `i` of a record.
pub open spec fn bit_of(entry: u64, i: u64) -> int {
    if entry & (1u64 << i) == (1u64 << i) {
        1
    } else {
        0
    }
}

/// Every listed id comes with the number of records that satisfy it.
pub open spec fn counts_hold(sums: Seq<(u64, Scalar)>, data: Seq<u64>) -> bool {
    forall|j: int| 0 <= j < sums.len() ==> #[trigger] sums[j].1@ == monomial_count(sums[j].0, data)
}

// ---------------------------------------------------------------------------
// Honest mode.
// ---------------------------------------------------------------------------

/// The number of records that have every bit of `indices` set.
pub fn calculate_monomial_sum(indices: u64, data: &[u64]) -> (r: Scalar)
    ensures
        r@ == monomial_count(indices, data@),
{
    let mut cnt: u64 = 0;
    let mut i: usize = 0;
    while i < data.len()
        invariant
            i <= data@.len(),
            cnt == monomial_count(indices, data@.take(i as int)),
            cnt <= i,
        decreases data@.len() - i,
    {
        assert(data@.take(i + 1).drop_last() =~= data@.take(i as int));
        if data[i] & indices == indices {
            cnt = cnt + 1;
        }
        i = i + 1;
    }
    assert(data@.take(data@.len() as int) =~= data@);
    Scalar::from_u64(cnt)
}

/// The monomial ids that the enumeration from `indices` lists, in order:
/// each of the bits from `idx` up is left out or put in, until `dimension`
/// bits were decided or `max_degree` bits are set; the empty monomial is
/// left out.
pub open spec fn enumerated_ids(indices: u64, idx: u32, ones: u32, dimension: u32, max_degree: u32) -> Seq<
    u64,
>
    decreases dimension - idx,
{
    if idx >= dimension || ones >= max_degree {
        if ones > 0 {
            seq![indices]
        } else {
            Seq::<u64>::empty()
        }
    } else {
        enumerated_ids(indices, (idx + 1) as u32, ones, dimension, max_degree) + enumerated_ids(
            indices | (1u64 << idx as u64),
            (idx + 1) as u32,
            (ones + 1) as u32,
            dimension,
            max_degree,
        )
    }
}

/// The ids of a list of counted monomials.
pub open spec fn ids_of(sums: Seq<(u64, Scalar)>) -> Seq<u64> {
    sums.map_values(|t: (u64, Scalar)| t.0)
}

/// Appends every admissible monomial that extends `indices` (a mask of
/// `ones` bits below `current_idx`) by bits from `current_idx` up, with its
/// count over the records.
pub fn generate_monomial_sums_helper(
    indices: u64,
    current_idx: u32,
    ones: u32,
    data: &[u64],
    monomial_map: &mut Vec<(u64, Scalar)>,
    dimension: u32,
    max_degree: u32,
)
    requires
        dimension <= 64,
        current_idx <= dimension,
        ones <= max_degree,
        counts_hold(old(monomial_map)@, data@),
    ensures
        counts_hold(final(monomial_map)@, data@),
        ids_of(final(monomial_map)@) == ids_of(old(monomial_map)@) + enumerated_ids(
            indices,
            current_idx,
            ones,
            dimension,
            max_degree,
        ),
    decreases dimension - current_idx,
{
    if current_idx == dimension || ones == max_degree {
        if ones > 0 {
            let sum = calculate_monomial_sum(indices, data);
            monomial_map.push((indices, sum));
            assert(ids_of(monomial_map@) =~= ids_of(old(monomial_map)@) + seq![indices]);
        } else {
            assert(ids_of(monomial_map@) =~= ids_of(old(monomial_map)@) + Seq::<u64>::empty());
        }
        return;
    }
    let ghost start = ids_of(monomial_map@);
    generate_monomial_sums_helper(
        indices,
        current_idx + 1,
        ones,
        data,
        monomial_map,
        dimension,
        max_degree,
    );
    let ghost mid = ids_of(monomial_map@);
    generate_monomial_sums_helper(
        indices | (1u64 << current_idx as u64),
        current_idx + 1,
        ones + 1,
        data,
        monomial_map,
        dimension,
        max_degree,
    );
    assert(ids_of(monomial_map@) =~= start + enumerated_ids(
        indices,
        current_idx,
        ones,
        dimension,
        max_degree,
    ));
}

/// Every admissible monomial (1 to `max_degree` bits below `dimension`) with
/// its count over the records.
pub fn generate_monomial_sums(data: &[u64], dimension: u32, max_degree: u32) -> (r: Vec<
    (u64, Scalar),
>)
    requires
        dimension <= 64,
    ensures
        counts_hold(r@, data@),
        ids_of(r@) == enumerated_ids(0, 0, 0, dimension, max_degree),
{
    let mut map: Vec<(u64, Scalar)> = Vec::new();
    assert(ids_of(map@) =~= Seq::<u64>::empty());
    generate_monomial_sums_helper(0, 0, 0, data, &mut map, dimension, max_degree);
    assert(ids_of(map@) =~= enumerated_ids(0, 0, 0, dimension, max_degree));
    map
}

/// `m` with each `(id, c)` of `s` put in turn.
pub open spec fn inserted_points(m: Map<u64, Point>, s: Seq<(u64, Point)>) -> Map<u64, Point>
    decreases s.len(),
{
    if s.len() == 0 {
        m
    } else {
        inserted_points(m, s.drop_last()).insert(s.last().0, s.last().1)
    }
}

/// The commitments of an id-keyed map of openings.
pub open spec fn commitments_of(m: Map<u64, Opening>) -> Map<u64, Point> {
    m.map_values(|t: Opening| t.1)
}

/// The ids of a list of commitments.
pub open spec fn sent_ids(s: Seq<(u64, Point)>) -> Seq<u64> {
    s.map_values(|t: (u64, Point)| t.0)
}

/// Honest mode, prover: commits to every monomial's count, keeps the
/// openings, and sends the commitments.
pub fn prover_honest_commitment_phase(
    state: &ProverState,
    database: &mut Data,
    dimension: u32,
    max_degree: u32,
) -> (r: CommitmentMapMessage)
    requires
        dimension <= 64,
        all_open(state.pedersen_pp, old(database).commitments@),
    ensures
        final(database).entries@ == old(database).entries@,
        all_open(state.pedersen_pp, final(database).commitments@),
        forall|id: u64|
            #[trigger] final(database).commitments@.contains_key(id) && !old(
                database,
            ).commitments@.contains_key(id) ==> final(database).commitments@[id].0@
                == monomial_count(id, old(database).entries@),
        sent_ids(r.commitment_map@) == enumerated_ids(0, 0, 0, dimension, max_degree),
        commitments_of(final(database).commitments@) == inserted_points(
            commitments_of(old(database).commitments@),
            r.commitment_map@,
        ),
{
    let sums = generate_monomial_sums(&database.entries, dimension, max_degree);
    let mut m = CommitmentMapMessage { commitment_map: Vec::new() };
    let mut i: usize = 0;
    while i < sums.len()
        invariant
            i <= sums@.len(),
            database.entries@ == old(database).entries@,
            counts_hold(sums@, database.entries@),
            all_open(state.pedersen_pp, database.commitments@),
            forall|id: u64|
                #[trigger] database.commitments@.contains_key(id) && !old(
                    database,
                ).commitments@.contains_key(id) ==> database.commitments@[id].0@
                    == monomial_count(id, old(database).entries@),
            m.commitment_map.len() == i,
            sent_ids(m.commitment_map@) == ids_of(sums@.take(i as int)),
            commitments_of(database.commitments@) == inserted_points(
                commitments_of(old(database).commitments@),
                m.commitment_map@,
            ),
            ids_of(sums@) == enumerated_ids(0, 0, 0, dimension, max_degree),
        decreases sums@.len() - i,
    {
        let (monomial_id, monomial_sum) = sums[i];
        let (comm, proof) = pedersen::commit(&monomial_sum, &state.pedersen_pp);
        let ghost prev = m.commitment_map@;
        database.commitments.insert(monomial_id, (monomial_sum, comm, proof));
        m.commitment_map.push((monomial_id, comm));
        proof {
            assert(sums@[i as int].1@ == monomial_count(sums@[i as int].0, database.entries@));
            assert(m.commitment_map@.drop_last() =~= prev);
            assert(commitments_of(database.commitments@) =~= inserted_points(
                commitments_of(old(database).commitments@),
                m.commitment_map@,
            ));
            assert forall|k: int| 0 <= k < i + 1 implies #[trigger] sent_ids(m.commitment_map@)[k]
                == ids_of(sums@.take(i + 1))[k] by {
                if k < i {
                    assert(sent_ids(prev)[k] == ids_of(sums@.take(i as int))[k]);
                    assert(m.commitment_map@[k] == prev[k]);
                }
            }
            assert(sent_ids(m.commitment_map@) =~= ids_of(sums@.take(i + 1)));
        }
        i = i + 1;
    }
    assert(sums@.take(sums@.len() as int) =~= sums@);
    m
}

/// The verifier's list of ids names exactly its committed monomials.
pub open spec fn ids_match(state: &VerifierState) -> bool {
    ids_name(state.monomial_ids@, state.monomial_commitments@)
}

/// Honest mode, verifier: takes the prover's commitments as they come.
pub fn verifier_honest_commitment_phase(state: &mut VerifierState, m: &CommitmentMapMessage)
    requires
        ids_match(old(state)),
    ensures
        ids_match(final(state)),
        final(state).pedersen_pp == old(state).pedersen_pp,
        final(state).ready() == old(state).ready(),
        final(state).randomness_bit_comm == old(state).randomness_bit_comm,
        final(state).monomial_commitments@ == inserted_points(
            old(state).monomial_commitments@,
            m.commitment_map@,
        ),
{
    let mut i: usize = 0;
    while i < m.commitment_map.len()
        invariant
            i <= m.commitment_map@.len(),
            ids_match(state),
            state.pedersen_pp == old(state).pedersen_pp,
            state.c0 == old(state).c0,
            state.c1 == old(state).c1,
            state.cproof == old(state).cproof,
            state.randomness_bit_comm == old(state).randomness_bit_comm,
            state.monomial_commitments@ == inserted_points(
                old(state).monomial_commitments@,
                m.commitment_map@.take(i as int),
            ),
        decreases m.commitment_map@.len() - i,
    {
        let (id, c) = m.commitment_map[i];
        set_point(&mut state.monomial_commitments, &mut state.monomial_ids, id, c);
        assert(m.commitment_map@.take(i + 1).drop_last() =~= m.commitment_map@.take(i as int));
        i = i + 1;
    }
    assert(m.commitment_map@.take(m.commitment_map@.len() as int) =~= m.commitment_map@);
}

// ---------------------------------------------------------------------------
// Dishonest-safe mode.
// ---------------------------------------------------------------------------

/// Prover's proofs for one record: the bit provers, the bit openings, and
/// the monomial tree.
pub struct EntryProver {
    pub bit_provers: Vec<bit_sigma::Prover>,
    pub bits: Vec<Opening>,
    pub tree: MonomialProverTreeNode,
}

/// Verifier's proofs for one record.
pub struct EntryVerifier {
    pub bit_verifiers: Vec<bit_sigma::Verifier>,
    pub tree: Option<MonomialVerifierTreeNode>,
}

impl EntryProver {
    /// Every opening holds, the tree is at most `max_degree` deep, and each
    /// bit prover proves its bit's commitment.
    pub open spec fn wf(&self, pp: PublicParams, max_degree: nat) -> bool {
        &&& self.bit_provers.len() == self.bits.len()
        &&& forall|i: int| 0 <= i < self.bits.len() ==> #[trigger] opening_holds(pp, self.bits[i])
        &&& self.tree.wf(pp, max_degree)
    }
}

/// Dishonest-safe mode, prover, for one record: commits to each bit with a
/// bit proof and builds the record's monomial tree.  No tree is sent for
/// records of a single bit.
pub fn prover_commit_entry(pp: &PublicParams, entry: u64, dimension: usize, max_degree: usize) -> (r: (
    EntryProver,
    BitSigmaCommitmentMessage,
    Option<MonomialCommitmentTreeNode>,
))
    requires
        1 <= dimension <= 64,
    ensures
        r.0.wf(*pp, max_degree as nat),
        r.0.bits.len() == dimension,
        forall|i: int|
            0 <= i < dimension ==> (#[trigger] r.0.bits[i]).0@ == bit_of(entry, i as u64)
                && r.0.bit_provers[i].b as int == bit_of(entry, i as u64)
                && r.0.bit_provers[i].b_proof == r.0.bits[i].2,
        r.1.commitments.len() == dimension,
        forall|i: int| 0 <= i < dimension ==> (#[trigger] r.1.commitments[i]).b_comm == r.0.bits[i].1,
        r.2 is Some <==> dimension > 1,
        r.2 matches Some(c) ==> r.0.tree.mirrored_by(&c, max_degree as nat),
        r.0.tree.commitment is None && r.0.tree.product_sigma_prover is None,
        r.0.tree.children.len() == (if max_degree == 0 {
            0
        } else {
            dimension
        }),
        forall|i: int|
            #![trigger r.0.tree.children@[i]]
            0 <= i < r.0.tree.children.len() ==> built(
                r.0.bits@,
                &r.0.tree.children@[i],
                None,
                i,
                (max_degree - 1) as nat,
            ),
        prover_fits(&r.0.tree, 0, dimension as int, max_degree as nat),
{
    let mut bits: Vec<Opening> = Vec::new();
    let mut provers: Vec<bit_sigma::Prover> = Vec::new();
    let mut commitments: Vec<bit_sigma::Commitment> = Vec::new();
    let mut i: usize = 0;
    while i < dimension
        invariant
            i <= dimension <= 64,
            bits.len() == i,
            provers.len() == i,
            commitments.len() == i,
            forall|j: int| 0 <= j < i ==> #[trigger] opening_holds(*pp, bits[j]),
            forall|j: int|
                0 <= j < i ==> (#[trigger] bits[j]).0@ == bit_of(entry, j as u64)
                    && provers[j].b as int == bit_of(entry, j as u64)
                    && provers[j].b_proof == bits[j].2,
            forall|j: int| 0 <= j < i ==> (#[trigger] commitments[j]).b_comm == bits[j].1,
        decreases dimension - i,
    {
        let mask: u64 = 1u64 << i as u64;
        let bit: u32 = if entry & mask == mask {
            1
        } else {
            0
        };
        let b = Scalar::from_u64(bit as u64);
        let (comm, proof) = pedersen::commit(&b, pp);
        let (prover, commitment) = bit_sigma::commit(pp, bit, comm, proof);
        bits.push((b, comm, proof));
        provers.push(prover);
        commitments.push(commitment);
        i = i + 1;
    }
    let (children, comm_children) = gen_monomial_tree(pp, &bits, None, 0, 0, dimension, max_degree);
    let tree = MonomialProverTreeNode {
        commitment: None,
        product_sigma_prover: None,
        children,
    };
    proof {
        assert forall|i: int|
            #![trigger tree.children@[i]]
            0 <= i < tree.children.len() implies prover_fits(
            &tree.children@[i],
            i + 1,
            dimension as int,
            (max_degree - 1) as nat,
        ) by {
            lemma_built_fits(bits@, &tree.children@[i], None, i, (max_degree - 1) as nat);
        }
    }
    let msg = BitSigmaCommitmentMessage { commitments };
    if dimension == 1 {
        (EntryProver { bit_provers: provers, bits, tree }, msg, None)
    } else {
        let comm_root = MonomialCommitmentTreeNode {
            commitment: None,
            product_sigma_commitment: None,
            children: comm_children,
        };
        (EntryProver { bit_provers: provers, bits, tree }, msg, Some(comm_root))
    }
}

/// Dishonest-safe mode, prover, for one record: answers the bit challenges
/// and the challenge tree.  `None` where a challenge flight does not have
/// the shape of the record's proofs.
pub fn prover_respond_entry(
    ep: &EntryProver,
    challenge_m: &BitSigmaChallengeMessage,
    tree_challenge: Option<&MonomialChallengeTreeNode>,
    max_degree: usize,
) -> (r: Option<(BitSigmaResponseMessage, Option<MonomialResponseTreeNode>)>)
    ensures
        r is Some <==> (challenge_m.challenges.len() == ep.bit_provers.len() && (
        tree_challenge matches Some(c) ==> challenge_fits(&ep.tree, c, max_degree as nat))),
        r matches Some(x) ==> {
            &&& x.0.responses.len() == ep.bit_provers.len()
            &&& forall|i: int|
                0 <= i < ep.bit_provers.len() ==> {
                    let p = #[trigger] ep.bit_provers[i];
                    let z = x.0.responses[i];
                    (z.z_0@, z.z_1@, z.e_0@, z.e_1@) == bit_sigma::third_move(
                        p.b as int,
                        p.b_proof@,
                        p.r_b@,
                        p.e_not_b@,
                        p.z_not_b@,
                        challenge_m.challenges[i].e@,
                    )
                }
            &&& (x.1 is Some <==> tree_challenge is Some)
            &&& (tree_challenge matches Some(c) ==> x.1 matches Some(t) && answers(
                &ep.tree,
                c,
                &t,
                max_degree as nat,
            ))
        },
{
    if challenge_m.challenges.len() != ep.bit_provers.len() {
        return None;
    }
    let mut responses: Vec<bit_sigma::Response> = Vec::new();
    let mut i: usize = 0;
    while i < ep.bit_provers.len()
        invariant
            i <= ep.bit_provers.len(),
            challenge_m.challenges.len() == ep.bit_provers.len(),
            responses.len() == i,
            forall|j: int|
                0 <= j < i ==> {
                    let p = #[trigger] ep.bit_provers[j];
                    let z = responses[j];
                    (z.z_0@, z.z_1@, z.e_0@, z.e_1@) == bit_sigma::third_move(
                        p.b as int,
                        p.b_proof@,
                        p.r_b@,
                        p.e_not_b@,
                        p.z_not_b@,
                        challenge_m.challenges[j].e@,
                    )
                },
        decreases ep.bit_provers.len() - i,
    {
        let mut p = ep.bit_provers[i];
        let resp = bit_sigma::response(&mut p, &challenge_m.challenges[i]);
        responses.push(resp);
        i = i + 1;
    }
    let msg = BitSigmaResponseMessage { responses };
    match tree_challenge {
        None => Some((msg, None)),
        Some(c) => match gen_response_tree(&ep.tree, c, max_degree) {
            None => None,
            Some(t) => Some((msg, Some(t))),
        },
    }
}

/// Whether a record's proofs have the shape of the dimension: one bit for a
/// dimension of 1, else a tree with at most one child per remaining position
/// at every level and at most `max_degree` levels.
pub open spec fn entry_shaped(e: &EntryProver, dimension: int, max_degree: nat) -> bool {
    if dimension == 1 {
        e.bits.len() == 1
    } else {
        prover_fits(&e.tree, 0, dimension, max_degree)
    }
}

/// `m` after adding the openings of each record in turn: the single bit
/// under id 1 for a dimension of 1, else every tree node under its mask.
pub open spec fn fold_entries(
    m: Map<u64, (int, int, int)>,
    es: Seq<EntryProver>,
    dimension: int,
    max_degree: nat,
) -> Map<u64, (int, int, int)>
    decreases es.len(),
{
    if es.len() == 0 {
        m
    } else {
        let acc = fold_entries(m, es.drop_last(), dimension, max_degree);
        if dimension == 1 {
            added_opening(acc, 1, opening_view(es.last().bits[0]))
        } else {
            fold_openings(acc, &es.last().tree, 0, 0, max_degree)
        }
    }
}

/// Dishonest-safe mode, prover, once the verifier accepted: adds every
/// record's monomial openings into the database's map, summing per id.
/// `false` exactly where a record's proofs do not have the shape of the
/// dimension.
pub fn prover_finish_commitment(
    pp: &PublicParams,
    database: &mut Data,
    entries: &Vec<EntryProver>,
    dimension: usize,
    max_degree: usize,
) -> (ok: bool)
    requires
        1 <= dimension <= 64,
        forall|j: int| 0 <= j < entries.len() ==> #[trigger] entries[j].wf(*pp, max_degree as nat),
        all_open(*pp, old(database).commitments@),
    ensures
        final(database).entries@ == old(database).entries@,
        all_open(*pp, final(database).commitments@),
        ok <==> forall|j: int|
            0 <= j < entries.len() ==> #[trigger] entry_shaped(
                &entries@[j],
                dimension as int,
                max_degree as nat,
            ),
        ok ==> opening_views(final(database).commitments@) == fold_entries(
            opening_views(old(database).commitments@),
            entries@,
            dimension as int,
            max_degree as nat,
        ),
{
    let mut j: usize = 0;
    while j < entries.len()
        invariant
            1 <= dimension <= 64,
            j <= entries.len(),
            forall|k: int| 0 <= k < entries.len() ==> #[trigger] entries[k].wf(*pp, max_degree as nat),
            database.entries@ == old(database).entries@,
            all_open(*pp, database.commitments@),
            forall|k: int|
                0 <= k < j ==> #[trigger] entry_shaped(
                    &entries@[k],
                    dimension as int,
                    max_degree as nat,
                ),
            opening_views(database.commitments@) == fold_entries(
                opening_views(old(database).commitments@),
                entries@.take(j as int),
                dimension as int,
                max_degree as nat,
            ),
        decreases entries.len() - j,
    {
        let e = &entries[j];
        assert(e.wf(*pp, max_degree as nat));
        assert(entries@.take(j + 1).drop_last() =~= entries@.take(j as int));
        if dimension == 1 {
            if e.bits.len() != 1 {
                assert(!entry_shaped(&entries@[j as int], dimension as int, max_degree as nat));
                return false;
            }
            assert(opening_holds(*pp, e.bits[0]));
            add_opening(pp, &mut database.commitments, 1, e.bits[0]);
        } else {
            if !extract_monomials(
                pp,
                &e.tree,
                0,
                0,
                dimension,
                &mut database.commitments,
                max_degree,
            ) {
                assert(!entry_shaped(&entries@[j as int], dimension as int, max_degree as nat));
                return false;
            }
        }
        j = j + 1;
    }
    assert(entries@.take(entries@.len() as int) =~= entries@);
    true
}

/// Dishonest-safe mode, verifier, for one record: challenges the bit proofs
/// and the product proofs of the record's tree.  A flight whose shape does
/// not fit the dimension is a schema error.
pub fn verifier_challenge_entry(
    bit_sigma_comm_m: &BitSigmaCommitmentMessage,
    comm_node: Option<&MonomialCommitmentTreeNode>,
    dimension: usize,
    max_degree: usize,
) -> (r: Result<
    (EntryVerifier, BitSigmaChallengeMessage, Option<MonomialChallengeTreeNode>),
    ProtocolError,
>)
    ensures
        r is Ok <==> (bit_sigma_comm_m.commitments.len() == dimension && (comm_node is Some
            <==> dimension > 1) && (comm_node matches Some(c) ==> c.commitment is None
            && c.product_sigma_commitment is None && tree_binds(
            bit_commitments(bit_sigma_comm_m.commitments@),
            c,
            None,
            0,
            max_degree as nat,
        ))),
        r matches Err(e) ==> e == ProtocolError::Schema,
        r matches Ok(x) ==> {
            &&& x.0.bit_verifiers.len() == dimension
            &&& x.1.challenges.len() == dimension
            &&& forall|i: int|
                0 <= i < dimension ==> {
                    let v = #[trigger] x.0.bit_verifiers[i];
                    let c = bit_sigma_comm_m.commitments[i];
                    v.b_comm == c.b_comm && v.c_0 == c.c_0 && v.c_1 == c.c_1 && v.e
                        == x.1.challenges[i].e
                }
            &&& (x.0.tree is Some <==> dimension > 1)
            &&& (x.2 is Some <==> dimension > 1)
            &&& (comm_node matches Some(c) ==> x.0.tree matches Some(v) && x.2 matches Some(ch)
                && challenged(c, &v, &ch, max_degree as nat))
            &&& (x.0.tree matches Some(v) ==> verifier_fits(&v, 0, dimension as int, max_degree as nat))
        },
{
    if bit_sigma_comm_m.commitments.len() != dimension {
        return Err(ProtocolError::Schema);
    }
    if comm_node.is_some() != (dimension > 1) {
        return Err(ProtocolError::Schema);
    }
    let mut bits: Vec<Point> = Vec::new();
    let mut j: usize = 0;
    while j < dimension
        invariant
            j <= dimension,
            bit_sigma_comm_m.commitments.len() == dimension,
            bits@ == bit_commitments(bit_sigma_comm_m.commitments@.take(j as int)),
        decreases dimension - j,
    {
        bits.push(bit_sigma_comm_m.commitments[j].b_comm);
        j = j + 1;
        assert(bits@ =~= bit_commitments(bit_sigma_comm_m.commitments@.take(j as int)));
    }
    assert(bit_sigma_comm_m.commitments@.take(dimension as int) =~= bit_sigma_comm_m.commitments@);
    match comm_node {
        None => {},
        Some(c) => {
            if c.commitment.is_some() || c.product_sigma_commitment.is_some()
                || !check_commitment_tree(&bits, c, None, 0, max_degree) {
                return Err(ProtocolError::Schema);
            }
        },
    }
    let mut verifiers: Vec<bit_sigma::Verifier> = Vec::new();
    let mut challenges: Vec<bit_sigma::Challenge> = Vec::new();
    let mut j: usize = 0;
    while j < dimension
        invariant
            j <= dimension,
            bit_sigma_comm_m.commitments.len() == dimension,
            verifiers.len() == j,
            challenges.len() == j,
            forall|i: int|
                0 <= i < j ==> {
                    let v = #[trigger] verifiers[i];
                    let c = bit_sigma_comm_m.commitments[i];
                    v.b_comm == c.b_comm && v.c_0 == c.c_0 && v.c_1 == c.c_1 && v.e
                        == challenges[i].e
                },
        decreases dimension - j,
    {
        let (v, c) = bit_sigma::challenge(&bit_sigma_comm_m.commitments[j]);
        verifiers.push(v);
        challenges.push(c);
        j = j + 1;
    }
    let msg = BitSigmaChallengeMessage { challenges };
    match comm_node {
        None => Ok((EntryVerifier { bit_verifiers: verifiers, tree: None }, msg, None)),
        Some(c) => {
            proof {
                lemma_binds_depth(bits@, c, None, 0, max_degree as nat);
            }
            match gen_challenge_tree(c, max_degree) {
                None => Err(ProtocolError::Schema),
                Some((v, ch)) => {
                    proof {
                        lemma_challenged_fits(bits@, c, None, 0, &v, &ch, max_degree as nat);
                    }
                    Ok((EntryVerifier { bit_verifiers: verifiers, tree: Some(v) }, msg, Some(ch)))
                },
            }
        },
    }
}

/// The commitments under the bit proofs of a record.
pub open spec fn bit_commitments(cs: Seq<bit_sigma::Commitment>) -> Seq<Point> {
    cs.map_values(|c: bit_sigma::Commitment| c.b_comm)
}

/// Whether every bit proof and every product proof of a record accepts its
/// response.
pub open spec fn entry_accepts(
    pp: PublicParams,
    ev: &EntryVerifier,
    resp: &BitSigmaResponseMessage,
    tree_resp: Option<&MonomialResponseTreeNode>,
    max_degree: nat,
) -> bool {
    &&& resp.responses.len() == ev.bit_verifiers.len()
    &&& forall|i: int|
        0 <= i < ev.bit_verifiers.len() ==> {
            let v = #[trigger] ev.bit_verifiers[i];
            let z = resp.responses[i];
            bit_sigma::accepts(pp, v.b_comm@, v.c_0@, v.c_1@, v.e@, z.z_0@, z.z_1@, z.e_0@, z.e_1@)
        }
    &&& match (ev.tree, tree_resp) {
        (None, None) => true,
        (Some(t), Some(z)) => tree_accepts(pp, &t, z, max_degree),
        _ => false,
    }
}

/// Dishonest-safe mode, verifier, for one record: checks every proof.
pub fn verifier_check_entry(
    pp: &PublicParams,
    ev: &EntryVerifier,
    resp_m: &BitSigmaResponseMessage,
    resp_node: Option<&MonomialResponseTreeNode>,
    max_degree: usize,
) -> (r: bool)
    ensures
        r == entry_accepts(*pp, ev, resp_m, resp_node, max_degree as nat),
{
    if resp_m.responses.len() != ev.bit_verifiers.len() {
        return false;
    }
    let mut j: usize = 0;
    while j < ev.bit_verifiers.len()
        invariant
            j <= ev.bit_verifiers.len(),
            resp_m.responses.len() == ev.bit_verifiers.len(),
            forall|i: int|
                0 <= i < j ==> {
                    let v = #[trigger] ev.bit_verifiers[i];
                    let z = resp_m.responses[i];
                    bit_sigma::accepts(
                        *pp,
                        v.b_comm@,
                        v.c_0@,
                        v.c_1@,
                        v.e@,
                        z.z_0@,
                        z.z_1@,
                        z.e_0@,
                        z.e_1@,
                    )
                },
        decreases ev.bit_verifiers.len() - j,
    {
        let mut v = ev.bit_verifiers[j];
        if !bit_sigma::verify(pp, &mut v, &resp_m.responses[j]) {
            return false;
        }
        j = j + 1;
    }
    match (&ev.tree, resp_node) {
        (None, None) => true,
        (Some(t), Some(z)) => verify_response_tree(pp, t, z, max_degree),
        _ => false,
    }
}

/// Whether a record's proofs have the shape of the dimension: one bit proof
/// for a dimension of 1, else a tree with at most one child per remaining
/// position at every level and at most `max_degree` levels.
pub open spec fn entry_verifier_shaped(e: &EntryVerifier, dimension: int, max_degree: nat) -> bool {
    if dimension == 1 {
        e.bit_verifiers.len() == 1
    } else {
        e.tree matches Some(t) && verifier_fits(&t, 0, dimension, max_degree)
    }
}

/// `m` after adding the commitments of each record in turn: the single bit
/// commitment under id 1 for a dimension of 1, else every tree node's
/// commitment under its mask.
pub open spec fn fold_entry_logs(
    m: Map<u64, int>,
    es: Seq<EntryVerifier>,
    dimension: int,
    max_degree: nat,
) -> Map<u64, int>
    decreases es.len(),
{
    if es.len() == 0 {
        m
    } else {
        let acc = fold_entry_logs(m, es.drop_last(), dimension, max_degree);
        if dimension == 1 {
            added_log(acc, 1, es.last().bit_verifiers[0].b_comm@)
        } else {
            match es.last().tree {
                Some(t) => fold_logs(acc, &t, 0, 0, max_degree),
                None => acc,
            }
        }
    }
}

/// Dishonest-safe mode, verifier, once every record was accepted: adds every
/// record's monomial commitments into its map, summing per id.  `false`
/// exactly where a record's proofs do not have the shape of the dimension.
pub fn verifier_finish_commitment(
    state: &mut VerifierState,
    entries: &Vec<EntryVerifier>,
    dimension: usize,
    max_degree: usize,
) -> (ok: bool)
    requires
        1 <= dimension <= 64,
        ids_match(old(state)),
    ensures
        ids_match(final(state)),
        final(state).pedersen_pp == old(state).pedersen_pp,
        final(state).c0 == old(state).c0,
        final(state).c1 == old(state).c1,
        final(state).cproof == old(state).cproof,
        final(state).randomness_bit_comm == old(state).randomness_bit_comm,
        ok <==> forall|j: int|
            0 <= j < entries.len() ==> #[trigger] entry_verifier_shaped(
                &entries@[j],
                dimension as int,
                max_degree as nat,
            ),
        ok ==> point_logs(final(state).monomial_commitments@) == fold_entry_logs(
            point_logs(old(state).monomial_commitments@),
            entries@,
            dimension as int,
            max_degree as nat,
        ),
{
    let mut j: usize = 0;
    while j < entries.len()
        invariant
            1 <= dimension <= 64,
            j <= entries.len(),
            state.pedersen_pp == old(state).pedersen_pp,
            state.c0 == old(state).c0,
            state.c1 == old(state).c1,
            state.cproof == old(state).cproof,
            state.randomness_bit_comm == old(state).randomness_bit_comm,
            ids_match(state),
            forall|k: int|
                0 <= k < j ==> #[trigger] entry_verifier_shaped(
                    &entries@[k],
                    dimension as int,
                    max_degree as nat,
                ),
            point_logs(state.monomial_commitments@) == fold_entry_logs(
                point_logs(old(state).monomial_commitments@),
                entries@.take(j as int),
                dimension as int,
                max_degree as nat,
            ),
        decreases entries.len() - j,
    {
        let e = &entries[j];
        assert(entries@.take(j + 1).drop_last() =~= entries@.take(j as int));
        if dimension == 1 {
            if e.bit_verifiers.len() != 1 {
                assert(!entry_verifier_shaped(&entries@[j as int], dimension as int, max_degree as nat));
                return false;
            }
            add_point(
                &mut state.monomial_commitments,
                &mut state.monomial_ids,
                1,
                e.bit_verifiers[0].b_comm,
            );
        } else {
            match &e.tree {
                None => {
                    assert(!entry_verifier_shaped(&entries@[j as int], dimension as int, max_degree as nat));
                    return false;
                },
                Some(t) => {
                    if !extract_commitments(
                        t,
                        0,
                        0,
                        dimension,
                        &mut state.monomial_commitments,
                        &mut state.monomial_ids,
                        max_degree,
                    ) {
                        assert(!entry_verifier_shaped(&entries@[j as int], dimension as int, max_degree as nat));
                        return false;
                    }
                },
            }
        }
        j = j + 1;
    }
    assert(entries@.take(entries@.len() as int) =~= entries@);
    true
}

} // verus!
