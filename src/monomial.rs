//! Per-record trees of monomial commitments.
//!
//! A node at depth `t` stands for the monomial of the `t` bit positions on
//! its path, added in increasing order; the children of a node whose latest
//! position is `j` add the positions `j + 1, j + 2, ...` in turn, so child `i`
//! of a node expecting positions from `start` adds position `start + i`.
//! Nodes of depth one reuse the bit commitments; deeper nodes commit afresh
//! to the product and carry a product proof binding the parent's commitment,
//! the latest bit's commitment and their own.
use crate::group::{group_order, Point, Scalar};
use crate::messages::{
    MonomialChallengeTreeNode, MonomialCommitmentTreeNode, MonomialResponseTreeNode,
};
use crate::pedersen::{self, commitment, lemma_homomorphism, opens, PublicParams};
use crate::product_sigma;
use std::collections::HashMap;
use vstd::prelude::*;

verus! {

broadcast use vstd::std_specs::hash::group_hash_axioms, Point::lemma_range;

/// A committed value with its commitment and randomness.
pub type Opening = (Scalar, Point, Scalar);

/// Whether the commitment of `t` opens to its value and randomness.
pub open spec fn opening_holds(pp: PublicParams, t: Opening) -> bool {
    opens(pp, t.1@, t.0@, t.2@)
}

/// Whether every entry of an id-keyed map of openings holds.
pub open spec fn all_open(pp: PublicParams, m: Map<u64, Opening>) -> bool {
    forall|k: u64| #[trigger] m.contains_key(k) ==> opening_holds(pp, m[k])
}

/// Prover's node: the opening of its monomial and, below depth one, the
/// prover of its product proof.
#[derive(Debug)]
pub struct MonomialProverTreeNode {
    pub commitment: Option<(Scalar, Point, Scalar)>,
    pub product_sigma_prover: Option<product_sigma::Prover>,
    pub children: Vec<MonomialProverTreeNode>,
}

/// Verifier's node: the commitment of its monomial and, below depth one, the
/// verifier of its product proof.
#[derive(Debug)]
pub struct MonomialVerifierTreeNode {
    pub commitment: Option<Point>,
    pub product_sigma_verifier: Option<product_sigma::Verifier>,
    pub children: Vec<MonomialVerifierTreeNode>,
}

impl MonomialProverTreeNode {
    /// Every opening in the subtree holds, and the subtree is at most
    /// `height` levels deep.
    pub open spec fn wf(&self, pp: PublicParams, height: nat) -> bool
        decreases height,
    {
        &&& (self.commitment matches Some(t) ==> opening_holds(pp, t))
        &&& (height == 0 ==> self.children.len() == 0)
        &&& forall|i: int|
            #![trigger self.children@[i]]
            0 <= i < self.children.len() ==> self.children@[i].wf(pp, (height - 1) as nat)
    }

    /// The commitment tree `c`, at most `height` levels deep, carries this
    /// tree's commitments and has a product-proof commitment exactly where
    /// this tree has a product prover.
    pub open spec fn mirrored_by(&self, c: &MonomialCommitmentTreeNode, height: nat) -> bool
        decreases height,
    {
        &&& self.children.len() == c.children.len()
        &&& c.commitment == (match self.commitment {
            Some(t) => Some(t.1),
            None => None,
        })
        &&& (self.product_sigma_prover is Some) == (c.product_sigma_commitment is Some)
        &&& (height == 0 ==> self.children.len() == 0)
        &&& forall|i: int|
            #![trigger self.children@[i]]
            0 <= i < self.children.len() ==> self.children@[i].mirrored_by(
                &c.children@[i],
                (height - 1) as nat,
            )
    }
}

/// Whether every product proof of the verifier tree accepts the response in
/// the same place of the response tree, the two trees having one shape at
/// most `height` levels deep.
pub open spec fn tree_accepts(
    pp: PublicParams,
    v: &MonomialVerifierTreeNode,
    r: &MonomialResponseTreeNode,
    height: nat,
) -> bool
    decreases height,
{
    &&& v.children.len() == r.children.len()
    &&& (height == 0 ==> v.children.len() == 0)
    &&& (v.product_sigma_verifier matches Some(sv) ==> r.product_sigma_response matches Some(z)
        && product_sigma::accepts(
        pp,
        sv.c_1,
        sv.c1_prime@,
        sv.c2_prime@,
        sv.c3_prime@,
        (z.z_1@, z.z_2@, z.z_3@, z.z_4@, z.z_5@),
    ))
    &&& forall|i: int|
        #![trigger v.children@[i]]
        0 <= i < v.children.len() ==> tree_accepts(
            pp,
            &v.children@[i],
            &r.children@[i],
            (height - 1) as nat,
        )
}

/// Whether `node` is the node for bit position `b` below a node whose
/// opening is `parent` (none below the root), built over the bit openings
/// `bits` with at most `height` further levels: at depth one it reuses the
/// bit's opening and has no product prover; deeper, its value is the
/// parent's value times the bit's, and its product prover is over the
/// parent's opening, the bit's opening and its own.  Its children are the
/// nodes for the positions `b + 1, b + 2, ...` below `bits.len()` in turn,
/// none where `height` is 0.
pub open spec fn built(
    bits: Seq<Opening>,
    node: &MonomialProverTreeNode,
    parent: Option<Opening>,
    b: int,
    height: nat,
) -> bool
    decreases height,
{
    &&& node.commitment is Some
    &&& match parent {
        None => node.commitment.unwrap() == bits[b] && node.product_sigma_prover is None,
        Some(p) => {
            &&& node.commitment.unwrap().0@ == (p.0@ * bits[b].0@) % group_order()
            &&& node.product_sigma_prover is Some
            &&& (node.product_sigma_prover.unwrap().m_1, node.product_sigma_prover.unwrap().c_1,
                node.product_sigma_prover.unwrap().r_1) == p
            &&& (node.product_sigma_prover.unwrap().m_2, node.product_sigma_prover.unwrap().c_2,
                node.product_sigma_prover.unwrap().r_2) == bits[b]
            &&& (node.product_sigma_prover.unwrap().m_3, node.product_sigma_prover.unwrap().c_3,
                node.product_sigma_prover.unwrap().r_3) == node.commitment.unwrap()
        },
    }
    &&& node.children.len() == (if height == 0 {
        0
    } else {
        bits.len() - (b + 1)
    })
    &&& forall|j: int|
        #![trigger node.children@[j]]
        0 <= j < node.children.len() ==> built(
            bits,
            &node.children@[j],
            node.commitment,
            b + 1 + j,
            (height - 1) as nat,
        )
}

/// A built node has at most one child per remaining position at every level.
pub proof fn lemma_built_fits(
    bits: Seq<Opening>,
    node: &MonomialProverTreeNode,
    parent: Option<Opening>,
    b: int,
    height: nat,
)
    requires
        0 <= b < bits.len(),
        built(bits, node, parent, b, height),
    ensures
        prover_fits(node, b + 1, bits.len() as int, height),
    decreases height,
{
    assert forall|j: int|
        #![trigger node.children@[j]]
        0 <= j < node.children.len() implies prover_fits(
        &node.children@[j],
        b + 1 + j + 1,
        bits.len() as int,
        (height - 1) as nat,
    ) by {
        lemma_built_fits(bits, &node.children@[j], node.commitment, b + 1 + j, (height - 1) as nat);
    }
}

/// The children of a node expecting positions from `start` at depth
/// `degree`, whose own opening is `parent` (none at the root), together with
/// the commitment trees sent for them.
pub fn gen_monomial_tree(
    pp: &PublicParams,
    bits: &Vec<Opening>,
    parent: Option<Opening>,
    start: usize,
    degree: usize,
    dimension: usize,
    max_degree: usize,
) -> (r: (Vec<MonomialProverTreeNode>, Vec<MonomialCommitmentTreeNode>))
    requires
        bits.len() == dimension,
        start <= dimension,
        forall|i: int| 0 <= i < bits.len() ==> #[trigger] opening_holds(*pp, bits[i]),
        parent matches Some(t) ==> opening_holds(*pp, t),
    ensures
        r.0.len() == r.1.len(),
        start + r.0.len() <= dimension,
        degree >= max_degree ==> r.0.len() == 0,
        degree < max_degree ==> start + r.0.len() == dimension,
        forall|i: int|
            #![trigger r.0@[i]]
            0 <= i < r.0.len() ==> r.0@[i].wf(*pp, (max_degree - degree - 1) as nat)
                && r.0@[i].mirrored_by(&r.1@[i], (max_degree - degree - 1) as nat) && built(
                bits@,
                &r.0@[i],
                parent,
                start + i,
                (max_degree - degree - 1) as nat,
            ),
    decreases dimension - start,
{
    let mut ps: Vec<MonomialProverTreeNode> = Vec::new();
    let mut cs: Vec<MonomialCommitmentTreeNode> = Vec::new();
    if degree >= max_degree {
        return (ps, cs);
    }
    let mut i: usize = start;
    while i < dimension
        invariant
            start <= i <= dimension,
            bits.len() == dimension,
            degree < max_degree,
            forall|j: int| 0 <= j < bits.len() ==> #[trigger] opening_holds(*pp, bits[j]),
            parent matches Some(t) ==> opening_holds(*pp, t),
            ps.len() == cs.len(),
            ps.len() == i - start,
            forall|j: int|
                #![trigger ps@[j]]
                0 <= j < ps.len() ==> ps@[j].wf(*pp, (max_degree - degree - 1) as nat)
                    && ps@[j].mirrored_by(&cs@[j], (max_degree - degree - 1) as nat) && built(
                    bits@,
                    &ps@[j],
                    parent,
                    start + j,
                    (max_degree - degree - 1) as nat,
                ),
        decreases dimension - i,
    {
        let (node, prover, comm) = match parent {
            None => (bits[i], None, None),
            Some(t1) => {
                let t2 = bits[i];
                let m_3 = t1.0.times(&t2.0);
                let (c_3, r_3) = pedersen::commit(&m_3, pp);
                let (prover, comm) = product_sigma::commit(pp, t1, t2, (m_3, c_3, r_3));
                ((m_3, c_3, r_3), Some(prover), Some(comm))
            },
        };
        assert(opening_holds(*pp, node));
        let (gp, gc) = gen_monomial_tree(
            pp,
            bits,
            Some(node),
            i + 1,
            degree + 1,
            dimension,
            max_degree,
        );
        let p_child = MonomialProverTreeNode {
            commitment: Some(node),
            product_sigma_prover: prover,
            children: gp,
        };
        let c_child = MonomialCommitmentTreeNode {
            commitment: Some(node.1),
            product_sigma_commitment: comm,
            children: gc,
        };
        assert(p_child.wf(*pp, (max_degree - degree - 1) as nat));
        assert(p_child.mirrored_by(&c_child, (max_degree - degree - 1) as nat));
        assert(built(bits@, &p_child, parent, i as int, (max_degree - degree - 1) as nat));
        ps.push(p_child);
        cs.push(c_child);
        i = i + 1;
    }
    (ps, cs)
}

/// Whether the challenge tree `c` fits the prover tree `p`: one shape at
/// most `height` deep, with a product prover wherever a product proof is
/// challenged.
pub open spec fn challenge_fits(
    p: &MonomialProverTreeNode,
    c: &MonomialChallengeTreeNode,
    height: nat,
) -> bool
    decreases height,
{
    &&& p.children.len() == c.children.len()
    &&& (height == 0 ==> p.children.len() == 0)
    &&& (c.product_sigma_challenge is Some ==> p.product_sigma_prover is Some)
    &&& forall|i: int|
        #![trigger p.children@[i]]
        0 <= i < p.children.len() ==> challenge_fits(
            &p.children@[i],
            &c.children@[i],
            (height - 1) as nat,
        )
}

/// Whether the response tree `r` answers the challenge tree `c` as the
/// product provers of `p` answer, the three having one shape.
pub open spec fn answers(
    p: &MonomialProverTreeNode,
    c: &MonomialChallengeTreeNode,
    r: &MonomialResponseTreeNode,
    height: nat,
) -> bool
    decreases height,
{
    &&& p.children.len() == r.children.len()
    &&& (height == 0 ==> p.children.len() == 0)
    &&& match c.product_sigma_challenge {
        None => r.product_sigma_response is None,
        Some(ch) => p.product_sigma_prover matches Some(sp) && r.product_sigma_response matches Some(
            z,
        ) && (z.z_1@, z.z_2@, z.z_3@, z.z_4@, z.z_5@) == product_sigma::third_move(
            ch.e@,
            sp.m_1@,
            sp.r_1@,
            sp.m_2@,
            sp.r_2@,
            sp.r_3@,
            sp.b_1@,
            sp.b_2@,
            sp.b_3@,
            sp.b_4@,
            sp.b_5@,
        ),
    }
    &&& forall|i: int|
        #![trigger p.children@[i]]
        0 <= i < p.children.len() ==> answers(
            &p.children@[i],
            &c.children@[i],
            &r.children@[i],
            (height - 1) as nat,
        )
}

/// Answers a challenge tree with a response tree of the same shape; `None`
/// where the challenge tree does not fit the prover tree.
pub fn gen_response_tree(
    prover_node: &MonomialProverTreeNode,
    challenge_node: &MonomialChallengeTreeNode,
    height: usize,
) -> (r: Option<MonomialResponseTreeNode>)
    ensures
        r is Some <==> challenge_fits(prover_node, challenge_node, height as nat),
        r matches Some(resp) ==> answers(prover_node, challenge_node, &resp, height as nat),
    decreases height,
{
    if prover_node.children.len() != challenge_node.children.len() {
        return None;
    }
    if height == 0 && prover_node.children.len() > 0 {
        return None;
    }
    let product_sigma_response = match &challenge_node.product_sigma_challenge {
        None => None,
        Some(c) => match prover_node.product_sigma_prover {
            None => {
                return None;
            },
            Some(p) => {
                let mut sigma_p = p;
                Some(product_sigma::response(&mut sigma_p, c))
            },
        },
    };
    let mut children: Vec<MonomialResponseTreeNode> = Vec::new();
    let mut i: usize = 0;
    while i < prover_node.children.len()
        invariant
            i <= prover_node.children.len(),
            prover_node.children.len() == challenge_node.children.len(),
            height > 0 || prover_node.children.len() == 0,
            children.len() == i,
            forall|j: int|
                #![trigger prover_node.children@[j]]
                0 <= j < i ==> challenge_fits(
                    &prover_node.children@[j],
                    &challenge_node.children@[j],
                    (height - 1) as nat,
                ) && answers(
                    &prover_node.children@[j],
                    &challenge_node.children@[j],
                    &children@[j],
                    (height - 1) as nat,
                ),
        decreases prover_node.children.len() - i,
    {
        let child = gen_response_tree(
            &prover_node.children[i],
            &challenge_node.children[i],
            height - 1,
        );
        match child {
            None => {
                return None;
            },
            Some(c) => {
                children.push(c);
            },
        }
        i = i + 1;
    }
    let r = MonomialResponseTreeNode { product_sigma_response, children };
    assert(answers(prover_node, challenge_node, &r, height as nat));
    Some(r)
}

/// Whether the commitment tree is at most `height` levels deep.
pub open spec fn depth_le(c: &MonomialCommitmentTreeNode, height: nat) -> bool
    decreases height,
{
    &&& (height == 0 ==> c.children.len() == 0)
    &&& forall|i: int|
        #![trigger c.children@[i]]
        0 <= i < c.children.len() ==> depth_le(&c.children@[i], (height - 1) as nat)
}

/// Whether the verifier tree `v` and challenge tree `ch` were made for the
/// commitment tree `c`: one shape, the same commitments, and for each
/// product proof a verifier over its commitments whose shifted commitments
/// use the challenge drawn for it.
pub open spec fn challenged(
    c: &MonomialCommitmentTreeNode,
    v: &MonomialVerifierTreeNode,
    ch: &MonomialChallengeTreeNode,
    height: nat,
) -> bool
    decreases height,
{
    &&& c.children.len() == v.children.len()
    &&& c.children.len() == ch.children.len()
    &&& (height == 0 ==> c.children.len() == 0)
    &&& v.commitment == c.commitment
    &&& match c.product_sigma_commitment {
        None => v.product_sigma_verifier is None && ch.product_sigma_challenge is None,
        Some(pc) => v.product_sigma_verifier matches Some(sv) && ch.product_sigma_challenge matches Some(
            e,
        ) && sv.c_1 == pc.c_1 && sv.c_2 == pc.c_2 && sv.c_3 == pc.c_3 && sv.e == e.e
            && sv.c1_prime@ == (pc.alpha@ + e.e@ * pc.c_1@) % group_order() && sv.c2_prime@ == (
        pc.beta@ + e.e@ * pc.c_2@) % group_order() && sv.c3_prime@ == (pc.gamma@ + e.e@
            * pc.c_3@) % group_order(),
    }
    &&& forall|i: int|
        #![trigger c.children@[i]]
        0 <= i < c.children.len() ==> challenged(
            &c.children@[i],
            &v.children@[i],
            &ch.children@[i],
            (height - 1) as nat,
        )
}

/// The verifier's tree for a received commitment tree, and the challenges
/// drawn for its product proofs; `None` where the tree is deeper than `height`.
pub fn gen_challenge_tree(comm_node: &MonomialCommitmentTreeNode, height: usize) -> (r: Option<
    (MonomialVerifierTreeNode, MonomialChallengeTreeNode),
>)
    ensures
        r is Some <==> depth_le(comm_node, height as nat),
        r matches Some(t) ==> challenged(comm_node, &t.0, &t.1, height as nat),
    decreases height,
{
    if height == 0 && comm_node.children.len() > 0 {
        return None;
    }
    let (product_sigma_verifier, product_sigma_challenge) = match &comm_node.product_sigma_commitment {
        None => (None, None),
        Some(sc) => {
            let (v, c) = product_sigma::challenge(sc);
            (Some(v), Some(c))
        },
    };
    let mut vs: Vec<MonomialVerifierTreeNode> = Vec::new();
    let mut chs: Vec<MonomialChallengeTreeNode> = Vec::new();
    let mut i: usize = 0;
    while i < comm_node.children.len()
        invariant
            i <= comm_node.children.len(),
            height > 0 || comm_node.children.len() == 0,
            vs.len() == i,
            chs.len() == i,
            forall|j: int|
                #![trigger comm_node.children@[j]]
                0 <= j < i ==> depth_le(&comm_node.children@[j], (height - 1) as nat) && challenged(
                    &comm_node.children@[j],
                    &vs@[j],
                    &chs@[j],
                    (height - 1) as nat,
                ),
        decreases comm_node.children.len() - i,
    {
        match gen_challenge_tree(&comm_node.children[i], height - 1) {
            None => {
                return None;
            },
            Some((v, c)) => {
                vs.push(v);
                chs.push(c);
            },
        }
        i = i + 1;
    }
    let v = MonomialVerifierTreeNode {
        commitment: comm_node.commitment,
        product_sigma_verifier,
        children: vs,
    };
    let ch = MonomialChallengeTreeNode { product_sigma_challenge, children: chs };
    assert(challenged(comm_node, &v, &ch, height as nat));
    Some((v, ch))
}

/// A tree bound to the bit commitments is no deeper than its bound.
pub proof fn lemma_binds_depth(
    bits: Seq<Point>,
    node: &MonomialCommitmentTreeNode,
    parent: Option<Point>,
    start: int,
    height: nat,
)
    requires
        tree_binds(bits, node, parent, start, height),
    ensures
        depth_le(node, height),
    decreases height,
{
    assert forall|i: int| #![trigger node.children@[i]] 0 <= i < node.children.len() implies depth_le(
        &node.children@[i],
        (height - 1) as nat,
    ) by {
        lemma_binds_depth(
            bits,
            &node.children@[i],
            node.children@[i].commitment,
            start + i + 1,
            (height - 1) as nat,
        );
    }
}

/// Checks every product proof of the tree against the response tree; a
/// response tree of another shape is rejected.
pub fn verify_response_tree(
    pp: &PublicParams,
    verifier_node: &MonomialVerifierTreeNode,
    response_node: &MonomialResponseTreeNode,
    height: usize,
) -> (r: bool)
    ensures
        r == tree_accepts(*pp, verifier_node, response_node, height as nat),
    decreases height,
{
    if verifier_node.children.len() != response_node.children.len() {
        return false;
    }
    if height == 0 && verifier_node.children.len() > 0 {
        return false;
    }
    match verifier_node.product_sigma_verifier {
        None => {},
        Some(sv) => match &response_node.product_sigma_response {
            None => {
                return false;
            },
            Some(z) => {
                let mut sigma_v = sv;
                if !product_sigma::verify(pp, &mut sigma_v, z) {
                    return false;
                }
            },
        },
    }
    let mut i: usize = 0;
    while i < verifier_node.children.len()
        invariant
            i <= verifier_node.children.len(),
            verifier_node.children.len() == response_node.children.len(),
            height > 0 || verifier_node.children.len() == 0,
            forall|j: int|
                #![trigger verifier_node.children@[j]]
                0 <= j < i ==> tree_accepts(
                    *pp,
                    &verifier_node.children@[j],
                    &response_node.children@[j],
                    (height - 1) as nat,
                ),
        decreases verifier_node.children.len() - i,
    {
        if !verify_response_tree(
            pp,
            &verifier_node.children[i],
            &response_node.children[i],
            height - 1,
        ) {
            return false;
        }
        i = i + 1;
    }
    true
}

/// Adds the opening `v` into the map under `id`, summing with what is there.
pub fn add_opening(pp: &PublicParams, map: &mut HashMap<u64, Opening>, id: u64, v: Opening)
    requires
        all_open(*pp, old(map)@),
        opening_holds(*pp, v),
    ensures
        all_open(*pp, final(map)@),
        final(map)@.dom() == old(map)@.dom().insert(id),
        opening_views(final(map)@) == added_opening(opening_views(old(map)@), id, opening_view(v)),
{
    let cur = map.get(&id);
    let next = match cur {
        None => v,
        Some(t) => {
            let (m, c, r) = *t;
            let sum = (m.plus(&v.0), c.plus(&v.1), r.plus(&v.2));
            proof {
                lemma_homomorphism(*pp, 1, 1, m@, r@, v.0@, v.2@);
            }
            sum
        },
    };
    map.insert(id, next);
    assert(opening_views(map@) =~= added_opening(opening_views(old(map)@), id, opening_view(v)));
}

/// Whether `ids` lists exactly the keys of `m`, each once.
pub open spec fn ids_name(ids: Seq<u64>, m: Map<u64, Point>) -> bool {
    &&& ids.no_duplicates()
    &&& forall|k: u64| ids.contains(k) <==> #[trigger] m.contains_key(k)
}

/// Puts the point `v` in the map under `id`, listing `id` if it is new.
pub fn set_point(map: &mut HashMap<u64, Point>, ids: &mut Vec<u64>, id: u64, v: Point)
    requires
        ids_name(old(ids)@, old(map)@),
    ensures
        ids_name(final(ids)@, final(map)@),
        final(map)@ == old(map)@.insert(id, v),
{
    if !map.contains_key(&id) {
        ids.push(id);
        proof {
            assert forall|k: u64| ids@.contains(k) <==> #[trigger] map@.insert(
                id,
                v,
            ).contains_key(k) by {
                if k != id && ids@.contains(k) {
                    let j = choose|j: int| 0 <= j < ids@.len() && ids@[j] == k;
                    assert(old(ids)@[j] == k);
                }
                if k != id && old(ids)@.contains(k) {
                    let j = choose|j: int| 0 <= j < old(ids)@.len() && old(ids)@[j] == k;
                    assert(ids@[j] == k);
                }
                if k == id {
                    assert(ids@[ids@.len() - 1] == id);
                }
            }
            assert forall|x: int, y: int|
                0 <= x < ids@.len() && 0 <= y < ids@.len() && x != y implies ids@[x] != ids@[y] by {
                if x < old(ids)@.len() && y < old(ids)@.len() {
                } else if x < old(ids)@.len() {
                    assert(old(ids)@.contains(ids@[x]));
                } else {
                    assert(old(ids)@.contains(ids@[y]));
                }
            }
        }
    }
    map.insert(id, v);
}

/// Adds the point `v` into the map under `id`, summing with what is there,
/// and lists `id` if it is new.
pub fn add_point(map: &mut HashMap<u64, Point>, ids: &mut Vec<u64>, id: u64, v: Point)
    requires
        ids_name(old(ids)@, old(map)@),
    ensures
        ids_name(final(ids)@, final(map)@),
        final(map)@.dom() == old(map)@.dom().insert(id),
        final(map)@[id]@ == (if old(map)@.contains_key(id) {
            (old(map)@[id]@ + v@) % group_order()
        } else {
            v@
        }),
        forall|k: u64| k != id && old(map)@.contains_key(k) ==> final(map)@[k] == old(map)@[k],
        point_logs(final(map)@) == added_log(point_logs(old(map)@), id, v@),
{
    let next = match map.get(&id) {
        None => v,
        Some(c) => c.plus(&v),
    };
    set_point(map, ids, id, next);
    assert(point_logs(map@) =~= added_log(point_logs(old(map)@), id, v@));
}

/// The value, commitment and randomness of an opening, as field elements.
pub open spec fn opening_view(t: Opening) -> (int, int, int) {
    (t.0@, t.1@, t.2@)
}

/// The openings of an id-keyed map, as field elements.
pub open spec fn opening_views(m: Map<u64, Opening>) -> Map<u64, (int, int, int)> {
    m.map_values(|t: Opening| opening_view(t))
}

/// The commitments of an id-keyed map, as logarithms.
pub open spec fn point_logs(m: Map<u64, Point>) -> Map<u64, int> {
    m.map_values(|p: Point| p@)
}

/// `m` with `v` added, component by component, to the entry under `id`
/// (or put there, where there is none).
pub open spec fn added_opening(m: Map<u64, (int, int, int)>, id: u64, v: (int, int, int)) -> Map<
    u64,
    (int, int, int),
> {
    m.insert(
        id,
        if m.contains_key(id) {
            (
                (m[id].0 + v.0) % group_order(),
                (m[id].1 + v.1) % group_order(),
                (m[id].2 + v.2) % group_order(),
            )
        } else {
            v
        },
    )
}

/// `m` with `v` added to the entry under `id` (or put there, where there is none).
pub open spec fn added_log(m: Map<u64, int>, id: u64, v: int) -> Map<u64, int> {
    m.insert(
        id,
        if m.contains_key(id) {
            (m[id] + v) % group_order()
        } else {
            v
        },
    )
}

/// The mask of a node's child at bit position `b`.
pub open spec fn child_tag(tag: u64, b: int) -> u64 {
    tag | (1u64 << (b as u64))
}

/// Whether the prover tree, expecting positions from `start`, has at most
/// one child per position below `dimension`, at every level, and is at most
/// `height` deep.
pub open spec fn prover_fits(node: &MonomialProverTreeNode, start: int, dimension: int, height: nat) -> bool
    decreases height,
{
    &&& start + node.children.len() <= dimension
    &&& (height == 0 ==> node.children.len() == 0)
    &&& forall|i: int|
        #![trigger node.children@[i]]
        0 <= i < node.children.len() ==> prover_fits(
            &node.children@[i],
            start + i + 1,
            dimension,
            (height - 1) as nat,
        )
}

/// The same for a verifier tree.
pub open spec fn verifier_fits(
    node: &MonomialVerifierTreeNode,
    start: int,
    dimension: int,
    height: nat,
) -> bool
    decreases height,
{
    &&& start + node.children.len() <= dimension
    &&& (height == 0 ==> node.children.len() == 0)
    &&& forall|i: int|
        #![trigger node.children@[i]]
        0 <= i < node.children.len() ==> verifier_fits(
            &node.children@[i],
            start + i + 1,
            dimension,
            (height - 1) as nat,
        )
}

/// `m` after adding, node by node in preorder, each opening of the subtree
/// under the mask of its path: `tag` for the node itself, and the mask with
/// bit `start + i` set for its child `i`.
pub open spec fn fold_openings(
    m: Map<u64, (int, int, int)>,
    node: &MonomialProverTreeNode,
    tag: u64,
    start: int,
    height: nat,
) -> Map<u64, (int, int, int)>
    decreases height, node.children.len() as nat + 1,
{
    let own = match node.commitment {
        Some(t) => added_opening(m, tag, opening_view(t)),
        None => m,
    };
    fold_opening_children(own, node, tag, start, height, node.children.len() as nat)
}

/// `m` after folding the first `i` children of `node`.
pub open spec fn fold_opening_children(
    m: Map<u64, (int, int, int)>,
    node: &MonomialProverTreeNode,
    tag: u64,
    start: int,
    height: nat,
    i: nat,
) -> Map<u64, (int, int, int)>
    decreases height, i,
{
    if i == 0 || height == 0 || i > node.children.len() {
        m
    } else {
        fold_openings(
            fold_opening_children(m, node, tag, start, height, (i - 1) as nat),
            &node.children@[i - 1],
            child_tag(tag, start + i - 1),
            start + i,
            (height - 1) as nat,
        )
    }
}

/// `m` after adding, node by node in preorder, each commitment of the
/// subtree under the mask of its path.
pub open spec fn fold_logs(
    m: Map<u64, int>,
    node: &MonomialVerifierTreeNode,
    tag: u64,
    start: int,
    height: nat,
) -> Map<u64, int>
    decreases height, node.children.len() as nat + 1,
{
    let own = match node.commitment {
        Some(c) => added_log(m, tag, c@),
        None => m,
    };
    fold_log_children(own, node, tag, start, height, node.children.len() as nat)
}

/// `m` after folding the first `i` children of `node`.
pub open spec fn fold_log_children(
    m: Map<u64, int>,
    node: &MonomialVerifierTreeNode,
    tag: u64,
    start: int,
    height: nat,
    i: nat,
) -> Map<u64, int>
    decreases height, i,
{
    if i == 0 || height == 0 || i > node.children.len() {
        m
    } else {
        fold_logs(
            fold_log_children(m, node, tag, start, height, (i - 1) as nat),
            &node.children@[i - 1],
            child_tag(tag, start + i - 1),
            start + i,
            (height - 1) as nat,
        )
    }
}

/// Adds every opening of the subtree into the map, keyed by the bit mask of
/// its monomial; `tag` is the node's own mask.  `false` where the tree has
/// more children than positions remain below `dimension`, or is deeper than
/// `height`.
pub fn extract_monomials(
    pp: &PublicParams,
    prover_node: &MonomialProverTreeNode,
    tag: u64,
    start: usize,
    dimension: usize,
    map: &mut HashMap<u64, Opening>,
    height: usize,
) -> (ok: bool)
    requires
        dimension <= 64,
        start <= dimension,
        prover_node.wf(*pp, height as nat),
        all_open(*pp, old(map)@),
    ensures
        all_open(*pp, final(map)@),
        ok <==> prover_fits(prover_node, start as int, dimension as int, height as nat),
        ok ==> opening_views(final(map)@) == fold_openings(
            opening_views(old(map)@),
            prover_node,
            tag,
            start as int,
            height as nat,
        ),
    decreases height,
{
    if prover_node.children.len() > dimension - start {
        return false;
    }
    if height == 0 && prover_node.children.len() > 0 {
        return false;
    }
    match prover_node.commitment {
        None => {},
        Some(t) => {
            add_opening(pp, map, tag, t);
        },
    }
    let ghost own = opening_views(map@);
    let mut i: usize = 0;
    while i < prover_node.children.len()
        invariant
            dimension <= 64,
            start <= dimension,
            start + prover_node.children.len() <= dimension,
            i <= prover_node.children.len(),
            height > 0 || prover_node.children.len() == 0,
            prover_node.wf(*pp, height as nat),
            all_open(*pp, map@),
            own == (match prover_node.commitment {
                Some(t) => added_opening(opening_views(old(map)@), tag, opening_view(t)),
                None => opening_views(old(map)@),
            }),
            opening_views(map@) == fold_opening_children(
                own,
                prover_node,
                tag,
                start as int,
                height as nat,
                i as nat,
            ),
            forall|j: int|
                #![trigger prover_node.children@[j]]
                0 <= j < i ==> prover_fits(
                    &prover_node.children@[j],
                    start + j + 1,
                    dimension as int,
                    (height - 1) as nat,
                ),
        decreases prover_node.children.len() - i,
    {
        assert(prover_node.children@[i as int].wf(*pp, (height - 1) as nat));
        let bit = (start + i) as u64;
        let new_tag = tag | (1u64 << bit);
        assert(new_tag == child_tag(tag, start + (i + 1) - 1));
        if !extract_monomials(
            pp,
            &prover_node.children[i],
            new_tag,
            start + i + 1,
            dimension,
            map,
            height - 1,
        ) {
            return false;
        }
        i = i + 1;
    }
    true
}

/// Adds every commitment of the subtree into the map, keyed by the bit mask
/// of its monomial; `tag` is the node's own mask.  `false` where the tree has
/// more children than positions remain below `dimension`, or is deeper than
/// `height`.
pub fn extract_commitments(
    verifier_node: &MonomialVerifierTreeNode,
    tag: u64,
    start: usize,
    dimension: usize,
    map: &mut HashMap<u64, Point>,
    ids: &mut Vec<u64>,
    height: usize,
) -> (ok: bool)
    requires
        dimension <= 64,
        start <= dimension,
        ids_name(old(ids)@, old(map)@),
    ensures
        ids_name(final(ids)@, final(map)@),
        ok <==> verifier_fits(verifier_node, start as int, dimension as int, height as nat),
        ok ==> point_logs(final(map)@) == fold_logs(
            point_logs(old(map)@),
            verifier_node,
            tag,
            start as int,
            height as nat,
        ),
    decreases height,
{
    if verifier_node.children.len() > dimension - start {
        return false;
    }
    if height == 0 && verifier_node.children.len() > 0 {
        return false;
    }
    match verifier_node.commitment {
        None => {},
        Some(c) => {
            add_point(map, ids, tag, c);
        },
    }
    let ghost own = point_logs(map@);
    let mut i: usize = 0;
    while i < verifier_node.children.len()
        invariant
            dimension <= 64,
            start <= dimension,
            start + verifier_node.children.len() <= dimension,
            i <= verifier_node.children.len(),
            height > 0 || verifier_node.children.len() == 0,
            ids_name(ids@, map@),
            own == (match verifier_node.commitment {
                Some(c) => added_log(point_logs(old(map)@), tag, c@),
                None => point_logs(old(map)@),
            }),
            point_logs(map@) == fold_log_children(
                own,
                verifier_node,
                tag,
                start as int,
                height as nat,
                i as nat,
            ),
            forall|j: int|
                #![trigger verifier_node.children@[j]]
                0 <= j < i ==> verifier_fits(
                    &verifier_node.children@[j],
                    start + j + 1,
                    dimension as int,
                    (height - 1) as nat,
                ),
        decreases verifier_node.children.len() - i,
    {
        let bit = (start + i) as u64;
        let new_tag = tag | (1u64 << bit);
        assert(new_tag == child_tag(tag, start + (i + 1) - 1));
        if !extract_commitments(
            &verifier_node.children[i],
            new_tag,
            start + i + 1,
            dimension,
            map,
            ids,
            height - 1,
        ) {
            return false;
        }
        i = i + 1;
    }
    true
}

/// Whether the node at bit position `b`, below a node with commitment
/// `parent` (none below the root), is bound to the record's bit
/// commitments: at depth one its commitment is the bit's commitment; deeper,
/// its product proof is over the parent's commitment, the bit's commitment
/// and its own.
pub open spec fn node_binds(
    bits: Seq<Point>,
    node: &MonomialCommitmentTreeNode,
    parent: Option<Point>,
    b: int,
) -> bool {
    &&& node.commitment is Some
    &&& match parent {
        None => node.commitment.unwrap()@ == bits[b]@ && node.product_sigma_commitment is None,
        Some(p) => node.product_sigma_commitment matches Some(pc) && pc.c_1@ == p@ && pc.c_2@
            == bits[b]@ && pc.c_3@ == node.commitment.unwrap()@,
    }
}

/// Whether the subtree below `node` (whose commitment is `parent`, and whose
/// children add positions from `start`) is the canonical tree of at most
/// `height` further levels over the positions of `bits`, with every node
/// bound to the bit commitments.
pub open spec fn tree_binds(
    bits: Seq<Point>,
    node: &MonomialCommitmentTreeNode,
    parent: Option<Point>,
    start: int,
    height: nat,
) -> bool
    decreases height,
{
    &&& (height == 0 ==> node.children.len() == 0)
    &&& (height > 0 ==> start + node.children.len() == bits.len())
    &&& forall|i: int|
        #![trigger node.children@[i]]
        0 <= i < node.children.len() ==> node_binds(bits, &node.children@[i], parent, start + i)
            && tree_binds(
            bits,
            &node.children@[i],
            node.children@[i].commitment,
            start + i + 1,
            (height - 1) as nat,
        )
}

/// Checks that a received commitment tree is the canonical tree over the
/// record's bit commitments and that each node is bound to them.
pub fn check_commitment_tree(
    bits: &Vec<Point>,
    node: &MonomialCommitmentTreeNode,
    parent: Option<Point>,
    start: usize,
    height: usize,
) -> (r: bool)
    requires
        start <= bits.len(),
    ensures
        r == tree_binds(bits@, node, parent, start as int, height as nat),
    decreases height,
{
    if height == 0 {
        return node.children.len() == 0;
    }
    if node.children.len() != bits.len() - start {
        return false;
    }
    let mut i: usize = 0;
    while i < node.children.len()
        invariant
            height > 0,
            start <= bits.len(),
            start + node.children.len() == bits.len(),
            i <= node.children.len(),
            forall|j: int|
                #![trigger node.children@[j]]
                0 <= j < i ==> node_binds(bits@, &node.children@[j], parent, start + j)
                    && tree_binds(
                    bits@,
                    &node.children@[j],
                    node.children@[j].commitment,
                    start + j + 1,
                    (height - 1) as nat,
                ),
        decreases node.children.len() - i,
    {
        let child = &node.children[i];
        let b = start + i;
        let c = match child.commitment {
            None => {
                return false;
            },
            Some(c) => c,
        };
        match parent {
            None => {
                if !c.equals(&bits[b]) || child.product_sigma_commitment.is_some() {
                    return false;
                }
            },
            Some(p) => match &child.product_sigma_commitment {
                None => {
                    return false;
                },
                Some(pc) => {
                    if !pc.c_1.equals(&p) || !pc.c_2.equals(&bits[b]) || !pc.c_3.equals(&c) {
                        return false;
                    }
                },
            },
        }
        if !check_commitment_tree(bits, child, child.commitment, b + 1, height - 1) {
            return false;
        }
        i = i + 1;
    }
    true
}

/// The number of nodes of a prover tree at most `height` levels deep.
pub open spec fn tree_size(node: &MonomialProverTreeNode, height: nat) -> nat
    decreases height, node.children.len() as nat + 1,
{
    1 + children_size(node, height, node.children.len() as nat)
}

/// The number of nodes below the first `i` children of `node`.
pub open spec fn children_size(node: &MonomialProverTreeNode, height: nat, i: nat) -> nat
    decreases height, i,
{
    if i == 0 || height == 0 || i > node.children.len() {
        0
    } else {
        children_size(node, height, (i - 1) as nat) + tree_size(
            &node.children@[i - 1],
            (height - 1) as nat,
        )
    }
}

/// Counts the nodes of a prover tree; `None` where it is deeper than
/// `height` or has more nodes than a `usize` holds.
pub fn count_tree(node: &MonomialProverTreeNode, height: usize) -> (r: Option<usize>)
    ensures
        r matches Some(n) ==> n == tree_size(node, height as nat),
    decreases height,
{
    if height == 0 && node.children.len() > 0 {
        return None;
    }
    let mut count: usize = 1;
    let mut i: usize = 0;
    while i < node.children.len()
        invariant
            i <= node.children.len(),
            height > 0 || node.children.len() == 0,
            count == 1 + children_size(node, height as nat, i as nat),
        decreases node.children.len() - i,
    {
        match count_tree(&node.children[i], height - 1) {
            None => {
                return None;
            },
            Some(c) => {
                if c > usize::MAX - count {
                    return None;
                }
                count = count + c;
            },
        }
        i = i + 1;
    }
    Some(count)
}

/// The verifier tree made for a commitment tree that is bound to the bit
/// commitments has at most one child per remaining position at every level.
pub proof fn lemma_challenged_fits(
    bits: Seq<Point>,
    c: &MonomialCommitmentTreeNode,
    parent: Option<Point>,
    start: int,
    v: &MonomialVerifierTreeNode,
    ch: &MonomialChallengeTreeNode,
    height: nat,
)
    requires
        0 <= start <= bits.len(),
        tree_binds(bits, c, parent, start, height),
        challenged(c, v, ch, height),
    ensures
        verifier_fits(v, start, bits.len() as int, height),
    decreases height,
{
    assert forall|i: int|
        #![trigger v.children@[i]]
        0 <= i < v.children.len() implies verifier_fits(
        &v.children@[i],
        start + i + 1,
        bits.len() as int,
        (height - 1) as nat,
    ) by {
        assert(c.children@[i] == c.children@[i]);
        lemma_challenged_fits(
            bits,
            &c.children@[i],
            c.children@[i].commitment,
            start + i + 1,
            &v.children@[i],
            &ch.children@[i],
            (height - 1) as nat,
        );
    }
}

} // verus!
