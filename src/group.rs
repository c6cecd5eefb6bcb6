//! The prime-order group Ristretto255 and its scalar field.
//!
//! A scalar is held as its 32-byte little-endian encoding and stands for that
//! integer reduced modulo the group order.  A group element is held as its
//! canonical 32-byte encoding and stands for its discrete logarithm to the
//! base of the Ristretto basepoint.  The group is cyclic of prime order, so
//! this logarithm determines the element, and every group operation is
//! stated below as arithmetic on logarithms modulo the group order.
use curve25519_dalek::traits::{Identity, MultiscalarMul};
use vstd::prelude::*;

verus! {

/// The order of the Ristretto group, which is also the modulus of its scalars.
#[verifier::opaque]
pub open spec fn group_order() -> int {
    7237005577332262213973186563042994240857116359379907606001950938285454250989int
}

pub proof fn lemma_order_pos()
    ensures
        group_order() > 1,
{
    reveal(group_order);
}

/// Values reduced modulo the group order lie in `[0, order)`.
pub broadcast proof fn lemma_reduced_range(x: int)
    ensures
        0 <= #[trigger] (x % group_order()) < group_order(),
{
    lemma_order_pos();
}

/// The integer that a little-endian byte string encodes.
pub open spec fn le_value(b: Seq<u8>) -> nat
    decreases b.len(),
{
    if b.len() == 0 {
        0
    } else {
        b[0] as nat + 256 * le_value(b.subrange(1, b.len() as int))
    }
}

/// The field element that a 32-byte scalar encoding stands for.
pub open spec fn scalar_value(b: Seq<u8>) -> int {
    le_value(b) as int % group_order()
}

/// Whether `b` is the canonical encoding of an element of the Ristretto group.
pub uninterp spec fn is_ristretto(b: Seq<u8>) -> bool;

/// The discrete logarithm, to the base of the Ristretto basepoint, of the
/// element that the canonical encoding `b` stands for.
pub uninterp spec fn ristretto_log(b: Seq<u8>) -> int;

/// The group element an encoding stands for, as a logarithm in `[0, order)`.
pub open spec fn point_value(b: Seq<u8>) -> int {
    ristretto_log(b) % group_order()
}

/// The scalar that a ChaCha20 generator seeded with `seed` draws first.
pub uninterp spec fn chacha_first_scalar(seed: Seq<u8>) -> Seq<u8>;

// ---------------------------------------------------------------------------
// Calls into curve25519-dalek and rand.
// ---------------------------------------------------------------------------

/// Relies on `Scalar::from(u64)` and `Scalar::to_bytes`: the scalar holds
/// the integer `v`, written little-endian.
#[verifier::external_body]
fn dalek_scalar_from_u64(v: u64) -> (r: [u8; 32])
    ensures
        scalar_value(r@) == v as int,
{
    curve25519_dalek::Scalar::from(v).to_bytes()
}

/// Relies on `Scalar::add` (scalar addition modulo the group order), reading
/// each operand with `Scalar::from_bytes_mod_order`.
#[verifier::external_body]
fn dalek_scalar_add(a: &[u8; 32], b: &[u8; 32]) -> (r: [u8; 32])
    ensures
        scalar_value(r@) == (scalar_value(a@) + scalar_value(b@)) % group_order(),
{
    let x = curve25519_dalek::Scalar::from_bytes_mod_order(*a);
    let y = curve25519_dalek::Scalar::from_bytes_mod_order(*b);
    (x + y).to_bytes()
}

/// Relies on `Scalar::sub` (scalar subtraction modulo the group order).
#[verifier::external_body]
fn dalek_scalar_sub(a: &[u8; 32], b: &[u8; 32]) -> (r: [u8; 32])
    ensures
        scalar_value(r@) == (scalar_value(a@) - scalar_value(b@)) % group_order(),
{
    let x = curve25519_dalek::Scalar::from_bytes_mod_order(*a);
    let y = curve25519_dalek::Scalar::from_bytes_mod_order(*b);
    (x - y).to_bytes()
}

/// Relies on `Scalar::mul` (scalar multiplication modulo the group order).
#[verifier::external_body]
fn dalek_scalar_mul(a: &[u8; 32], b: &[u8; 32]) -> (r: [u8; 32])
    ensures
        scalar_value(r@) == (scalar_value(a@) * scalar_value(b@)) % group_order(),
{
    let x = curve25519_dalek::Scalar::from_bytes_mod_order(*a);
    let y = curve25519_dalek::Scalar::from_bytes_mod_order(*b);
    (x * y).to_bytes()
}

/// Relies on `Scalar`'s equality, which compares the reduced values.
#[verifier::external_body]
fn dalek_scalar_eq(a: &[u8; 32], b: &[u8; 32]) -> (r: bool)
    ensures
        r == (scalar_value(a@) == scalar_value(b@)),
{
    curve25519_dalek::Scalar::from_bytes_mod_order(*a)
        == curve25519_dalek::Scalar::from_bytes_mod_order(*b)
}

/// Relies on `Scalar::random` over the operating system's generator; nothing
/// is known of the value drawn.
#[verifier::external_body]
fn dalek_scalar_random() -> (r: [u8; 32]) {
    curve25519_dalek::Scalar::random(&mut rand::rngs::OsRng).to_bytes()
}

/// Relies on `ChaCha20Rng::from_seed` and `Scalar::random`: a generator seeded
/// with `seed` yields the same stream everywhere, so its first scalar is a
/// function of the seed alone.
#[verifier::external_body]
fn chacha_scalar(seed: &[u8; 32]) -> (r: [u8; 32])
    ensures
        r@ == chacha_first_scalar(seed@),
{
    let mut rng = <rand_chacha::ChaCha20Rng as rand::SeedableRng>::from_seed(*seed);
    curve25519_dalek::Scalar::random(&mut rng).to_bytes()
}

/// Relies on `Rng::gen_range(0..2)` over the operating system's generator,
/// which returns a value in the range.
#[verifier::external_body]
fn os_random_bit() -> (r: u32)
    ensures
        r < 2,
{
    rand::Rng::gen_range(&mut rand::rngs::OsRng, 0..2u32)
}

/// Relies on `Rng::gen` over the operating system's generator.
#[verifier::external_body]
fn os_random_u64() -> (r: u64) {
    rand::Rng::gen::<u64>(&mut rand::rngs::OsRng)
}

/// Relies on `Rng::gen` over the operating system's generator.
#[verifier::external_body]
fn os_random_seed() -> (r: [u8; 32]) {
    rand::Rng::gen::<[u8; 32]>(&mut rand::rngs::OsRng)
}

/// Relies on `Rng::gen_range(0..n)` over the operating system's generator,
/// which returns a value in the range; the range is not empty.
#[verifier::external_body]
fn os_random_below(n: usize) -> (r: usize)
    requires
        n > 0,
    ensures
        r < n,
{
    rand::Rng::gen_range(&mut rand::rngs::OsRng, 0..n)
}

/// Relies on `CompressedRistretto::decompress`, which succeeds exactly on
/// canonical encodings of group elements.
#[verifier::external_body]
fn ristretto_decodes(b: &[u8; 32]) -> (r: bool)
    ensures
        r == is_ristretto(b@),
{
    curve25519_dalek::ristretto::CompressedRistretto(*b).decompress().is_some()
}

/// Relies on `RISTRETTO_BASEPOINT_POINT`, the generator that logarithms are
/// taken to.
#[verifier::external_body]
fn ristretto_basepoint() -> (r: [u8; 32])
    ensures
        is_ristretto(r@),
        ristretto_log(r@) % group_order() == 1,
{
    curve25519_dalek::constants::RISTRETTO_BASEPOINT_POINT.compress().to_bytes()
}

/// Relies on `RistrettoPoint::identity`, the neutral element.
#[verifier::external_body]
fn ristretto_identity() -> (r: [u8; 32])
    ensures
        is_ristretto(r@),
        point_value(r@) == 0,
{
    curve25519_dalek::RistrettoPoint::identity().compress().to_bytes()
}

/// Relies on `RistrettoPoint::add`, the group operation.
#[verifier::external_body]
fn ristretto_add(a: &[u8; 32], b: &[u8; 32]) -> (r: [u8; 32])
    requires
        is_ristretto(a@),
        is_ristretto(b@),
    ensures
        is_ristretto(r@),
        point_value(r@) == (point_value(a@) + point_value(b@)) % group_order(),
{
    let x = curve25519_dalek::ristretto::CompressedRistretto(*a).decompress().unwrap();
    let y = curve25519_dalek::ristretto::CompressedRistretto(*b).decompress().unwrap();
    (x + y).compress().to_bytes()
}

/// Relies on `RistrettoPoint::sub`: the sum with the inverse element.
#[verifier::external_body]
fn ristretto_sub(a: &[u8; 32], b: &[u8; 32]) -> (r: [u8; 32])
    requires
        is_ristretto(a@),
        is_ristretto(b@),
    ensures
        is_ristretto(r@),
        point_value(r@) == (point_value(a@) - point_value(b@)) % group_order(),
{
    let x = curve25519_dalek::ristretto::CompressedRistretto(*a).decompress().unwrap();
    let y = curve25519_dalek::ristretto::CompressedRistretto(*b).decompress().unwrap();
    (x - y).compress().to_bytes()
}

/// Relies on `Scalar * RistrettoPoint`: the element taken `s` times.
#[verifier::external_body]
fn ristretto_mul(s: &[u8; 32], p: &[u8; 32]) -> (r: [u8; 32])
    requires
        is_ristretto(p@),
    ensures
        is_ristretto(r@),
        point_value(r@) == (scalar_value(s@) * point_value(p@)) % group_order(),
{
    let x = curve25519_dalek::Scalar::from_bytes_mod_order(*s);
    let y = curve25519_dalek::ristretto::CompressedRistretto(*p).decompress().unwrap();
    (x * y).compress().to_bytes()
}

/// Relies on `RistrettoPoint::multiscalar_mul`, which returns `s1·p1 + s2·p2`.
#[verifier::external_body]
fn ristretto_multiscalar_mul(s1: &[u8; 32], p1: &[u8; 32], s2: &[u8; 32], p2: &[u8; 32]) -> (r: [u8; 32])
    requires
        is_ristretto(p1@),
        is_ristretto(p2@),
    ensures
        is_ristretto(r@),
        point_value(r@) == (scalar_value(s1@) * point_value(p1@) + scalar_value(s2@)
            * point_value(p2@)) % group_order(),
{
    let a = curve25519_dalek::Scalar::from_bytes_mod_order(*s1);
    let b = curve25519_dalek::Scalar::from_bytes_mod_order(*s2);
    let x = curve25519_dalek::ristretto::CompressedRistretto(*p1).decompress().unwrap();
    let y = curve25519_dalek::ristretto::CompressedRistretto(*p2).decompress().unwrap();
    curve25519_dalek::RistrettoPoint::multiscalar_mul([a, b], [x, y]).compress().to_bytes()
}

/// Relies on `RistrettoPoint`'s equality, which holds exactly between equal
/// group elements.
#[verifier::external_body]
fn ristretto_eq(a: &[u8; 32], b: &[u8; 32]) -> (r: bool)
    requires
        is_ristretto(a@),
        is_ristretto(b@),
    ensures
        r == (point_value(a@) == point_value(b@)),
{
    let x = curve25519_dalek::ristretto::CompressedRistretto(*a).decompress().unwrap();
    let y = curve25519_dalek::ristretto::CompressedRistretto(*b).decompress().unwrap();
    x == y
}

// ---------------------------------------------------------------------------
// Scalars.
// ---------------------------------------------------------------------------

/// An element of the scalar field, held as 32 little-endian bytes.
#[derive(Clone, Copy, Debug, PartialEq, Eq)]
pub struct Scalar {
    pub bytes: [u8; 32],
}

impl View for Scalar {
    type V = int;

    open spec fn view(&self) -> int {
        scalar_value(self.bytes@)
    }
}

impl Scalar {
    /// The scalar with the given encoding, read modulo the group order.
    pub fn from_bytes(bytes: [u8; 32]) -> (r: Scalar)
        ensures
            r.bytes == bytes,
    {
        Scalar { bytes }
    }

    pub fn to_bytes(&self) -> (r: [u8; 32])
        ensures
            r == self.bytes,
    {
        self.bytes
    }

    pub fn from_u64(v: u64) -> (r: Scalar)
        ensures
            r@ == v as int,
    {
        Scalar { bytes: dalek_scalar_from_u64(v) }
    }

    pub fn zero() -> (r: Scalar)
        ensures
            r@ == 0,
    {
        Scalar::from_u64(0)
    }

    pub fn one() -> (r: Scalar)
        ensures
            r@ == 1,
    {
        Scalar::from_u64(1)
    }

    pub fn plus(&self, o: &Scalar) -> (r: Scalar)
        ensures
            r@ == (self@ + o@) % group_order(),
    {
        Scalar { bytes: dalek_scalar_add(&self.bytes, &o.bytes) }
    }

    pub fn minus(&self, o: &Scalar) -> (r: Scalar)
        ensures
            r@ == (self@ - o@) % group_order(),
    {
        Scalar { bytes: dalek_scalar_sub(&self.bytes, &o.bytes) }
    }

    pub fn times(&self, o: &Scalar) -> (r: Scalar)
        ensures
            r@ == (self@ * o@) % group_order(),
    {
        Scalar { bytes: dalek_scalar_mul(&self.bytes, &o.bytes) }
    }

    pub fn negate(&self) -> (r: Scalar)
        ensures
            r@ == (-self@) % group_order(),
    {
        Scalar::zero().minus(self)
    }

    /// Whether the two scalars stand for the same field element.
    pub fn equals(&self, o: &Scalar) -> (r: bool)
        ensures
            r == (self@ == o@),
    {
        dalek_scalar_eq(&self.bytes, &o.bytes)
    }

    /// A scalar drawn uniformly by the operating system's generator.
    pub fn random() -> (r: Scalar) {
        Scalar { bytes: dalek_scalar_random() }
    }

    /// The first scalar that a ChaCha20 generator seeded with `seed` draws.
    pub fn from_seed(seed: &[u8; 32]) -> (r: Scalar)
        ensures
            r.bytes@ == chacha_first_scalar(seed@),
    {
        Scalar { bytes: chacha_scalar(seed) }
    }
}

/// A bit drawn uniformly by the operating system's generator.
pub fn random_bit() -> (r: u32)
    ensures
        r < 2,
{
    os_random_bit()
}

/// A word drawn uniformly by the operating system's generator.
pub fn random_u64() -> (r: u64) {
    os_random_u64()
}

/// A 32-byte seed drawn uniformly by the operating system's generator.
pub fn random_seed() -> (r: [u8; 32]) {
    os_random_seed()
}

/// An index below `n` drawn uniformly by the operating system's generator.
pub fn random_below(n: usize) -> (r: usize)
    requires
        n > 0,
    ensures
        r < n,
{
    os_random_below(n)
}

// ---------------------------------------------------------------------------
// Group elements.
// ---------------------------------------------------------------------------

/// An element of the Ristretto group, held as its canonical encoding.
#[derive(Clone, Copy, Debug, PartialEq, Eq)]
pub struct Point {
    bytes: [u8; 32],
}

impl View for Point {
    type V = int;

    closed spec fn view(&self) -> int {
        point_value(self.bytes@)
    }
}

impl Point {
    #[verifier::type_invariant]
    spec fn encodes_element(self) -> bool {
        is_ristretto(self.bytes@)
    }

    /// Every element stands for a logarithm in `[0, order)`.
    pub broadcast proof fn lemma_range(p: Point)
        ensures
            0 <= #[trigger] p@ < group_order(),
    {
        lemma_reduced_range(ristretto_log(p.bytes@));
    }

    /// The element with the given encoding, if it is a canonical one.
    pub fn from_bytes(bytes: [u8; 32]) -> (r: Option<Point>)
        ensures
            r is Some <==> is_ristretto(bytes@),
            r matches Some(p) ==> p@ == point_value(bytes@),
    {
        if ristretto_decodes(&bytes) {
            Some(Point { bytes })
        } else {
            None
        }
    }

    pub fn to_bytes(&self) -> (r: [u8; 32])
        ensures
            point_value(r@) == self@,
    {
        self.bytes
    }

    /// The basepoint, the generator that logarithms are taken to.
    pub fn basepoint() -> (r: Point)
        ensures
            r@ == 1,
    {
        Point { bytes: ristretto_basepoint() }
    }

    /// The neutral element.
    pub fn identity() -> (r: Point)
        ensures
            r@ == 0,
    {
        Point { bytes: ristretto_identity() }
    }

    pub fn plus(&self, o: &Point) -> (r: Point)
        ensures
            r@ == (self@ + o@) % group_order(),
    {
        proof {
            use_type_invariant(self);
            use_type_invariant(o);
        }
        Point { bytes: ristretto_add(&self.bytes, &o.bytes) }
    }

    pub fn minus(&self, o: &Point) -> (r: Point)
        ensures
            r@ == (self@ - o@) % group_order(),
    {
        proof {
            use_type_invariant(self);
            use_type_invariant(o);
        }
        Point { bytes: ristretto_sub(&self.bytes, &o.bytes) }
    }

    /// The element taken `s` times.
    pub fn scale(&self, s: &Scalar) -> (r: Point)
        ensures
            r@ == (s@ * self@) % group_order(),
    {
        proof {
            use_type_invariant(self);
        }
        Point { bytes: ristretto_mul(&s.bytes, &self.bytes) }
    }

    /// The element `s1·p1 + s2·p2`.
    pub fn lin_comb(s1: &Scalar, p1: &Point, s2: &Scalar, p2: &Point) -> (r: Point)
        ensures
            r@ == (s1@ * p1@ + s2@ * p2@) % group_order(),
    {
        proof {
            use_type_invariant(p1);
            use_type_invariant(p2);
        }
        Point { bytes: ristretto_multiscalar_mul(&s1.bytes, &p1.bytes, &s2.bytes, &p2.bytes) }
    }

    /// Whether the two stand for the same group element.
    pub fn equals(&self, o: &Point) -> (r: bool)
        ensures
            r == (self@ == o@),
    {
        proof {
            use_type_invariant(self);
            use_type_invariant(o);
        }
        ristretto_eq(&self.bytes, &o.bytes)
    }
}

} // verus!
