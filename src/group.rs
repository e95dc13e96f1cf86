//! The group substrate: scalars modulo the group order, Ristretto points,
//! the two Pedersen generators, and hashing to a scalar.
//!
//! A scalar is modelled by its value modulo the group order `ℓ`. A point is
//! modelled by its discrete logarithm to the base of the Ristretto
//! basepoint, so that the group law becomes arithmetic modulo `ℓ`.
use curve25519_dalek::ristretto::CompressedRistretto;
use curve25519_dalek::scalar::Scalar as DalekScalar;
use curve25519_dalek::traits::MultiscalarMul;
use crate::modular::{lemma_cong_add, lemma_cong_mul, lemma_cong_reduce};
use vstd::arithmetic::div_mod::{lemma_add_mod_noop, lemma_mul_mod_noop_right, lemma_sub_mod_noop};
use vstd::prelude::*;

verus! {

/// The order `ℓ = 2^252 + 27742317777372353535851937790883648493` of the
/// Ristretto group.
pub open spec fn group_order() -> int {
    7237005577332262213973186563042994240857116359379907606001950938285454250989int
}

/// The natural number that a byte string encodes in little-endian order.
pub open spec fn le_value(b: Seq<u8>) -> nat
    decreases b.len(),
{
    if b.len() == 0 {
        0
    } else {
        b[0] as nat + 256 * le_value(b.subrange(1, b.len() as int))
    }
}

/// The discrete logarithm in `[0, ℓ)`, to the base of the Ristretto
/// basepoint, of the group element whose canonical encoding is `enc`.
/// Nothing computes it; it names a group element as a residue modulo `ℓ`.
pub uninterp spec fn point_log(enc: Seq<u8>) -> int;

/// Whether `enc` is the canonical encoding of a Ristretto group element.
pub uninterp spec fn is_point_encoding(enc: Seq<u8>) -> bool;

/// The Keccak-256 digest of `msg`.
pub uninterp spec fn keccak256_digest(msg: Seq<u8>) -> Seq<u8>;

/// The encoding of the point that Ristretto's hash-to-group map, fed by
/// SHA3-512, gives for `msg`.
pub uninterp spec fn sha3_512_to_point(msg: Seq<u8>) -> Seq<u8>;

/// The canonical encoding of the Ristretto basepoint.
pub open spec fn basepoint_encoding() -> Seq<u8> {
    seq![
        0xe2u8, 0xf2u8, 0xaeu8, 0x0au8, 0x6au8, 0xbcu8, 0x4eu8, 0x71u8,
        0xa8u8, 0x84u8, 0xa9u8, 0x61u8, 0xc5u8, 0x00u8, 0x51u8, 0x5fu8,
        0x58u8, 0xe3u8, 0x0bu8, 0x6au8, 0xa5u8, 0x82u8, 0xddu8, 0x8du8,
        0xb6u8, 0xa6u8, 0x59u8, 0x45u8, 0xe0u8, 0x8du8, 0x2du8, 0x76u8,
    ]
}

/// The encoding of the second Pedersen generator `H`, derived from the
/// basepoint's encoding by hashing to the group.
pub open spec fn second_generator_encoding() -> Seq<u8> {
    sha3_512_to_point(basepoint_encoding())
}

/// The discrete logarithm of `H`; unknown to everyone.
pub open spec fn h_log() -> int {
    point_log(second_generator_encoding()) % group_order()
}

/// The logarithm of the Pedersen commitment `v · G + r · H`.
pub open spec fn commitment_log(v: int, r: int) -> int {
    (v + r * h_log()) % group_order()
}

/// The opening equation `D + e · P = u · G + v · H` holds for the responses
/// `u = x + v · e`, `v' = y + r · e` to `D = x · G + y · H`, when `P` opens
/// to `(v, r)`.
pub proof fn lemma_opening_response(d: int, p: int, e: int, u: int, w: int, x: int, y: int, v: int, r: int)
    requires
        d == commitment_log(x, y),
        p == commitment_log(v, r),
        u == (x + v * e) % group_order(),
        w == (y + r * e) % group_order(),
    ensures
        (d + e * p) % group_order() == commitment_log(u, w),
{
    let l = group_order();
    let h = h_log();
    lemma_cong_reduce(x + y * h, l);
    lemma_cong_reduce(v + r * h, l);
    lemma_cong_mul(e, e, p, v + r * h, l);
    lemma_cong_add(d, x + y * h, e * p, e * (v + r * h), l);
    lemma_cong_reduce(x + v * e, l);
    lemma_cong_reduce(y + r * e, l);
    lemma_cong_mul(w, y + r * e, h, h, l);
    lemma_cong_add(u, x + v * e, w * h, (y + r * e) * h, l);
    assert(x + y * h + e * (v + r * h) == x + v * e + (y + r * e) * h) by (nonlinear_arith);
}

/// The Fiat–Shamir challenge of a transcript: its Keccak-256 digest read
/// as a little-endian number and reduced modulo `ℓ`.
pub open spec fn challenge(transcript: Seq<u8>) -> int {
    le_value(keccak256_digest(transcript)) as int % group_order()
}

/// An element of `ℤ_ℓ`, held as 32 little-endian bytes.
#[derive(Clone, Copy, Debug)]
pub struct Scalar {
    pub bytes: [u8; 32],
}

impl View for Scalar {
    type V = int;

    open spec fn view(&self) -> int {
        le_value(self.bytes@) as int % group_order()
    }
}

/// Relies on `Scalar::from(u64)` of curve25519-dalek: the scalar with that
/// value (every `u64` is below `ℓ`).
#[verifier::external_body]
pub(crate) fn scalar_from_u64(v: u64) -> (r: Scalar)
    ensures
        r@ == v as int,
{
    Scalar { bytes: DalekScalar::from(v).to_bytes() }
}

/// Relies on `Scalar::zero` of curve25519-dalek.
#[verifier::external_body]
pub(crate) fn scalar_zero() -> (r: Scalar)
    ensures
        r@ == 0,
{
    Scalar { bytes: DalekScalar::zero().to_bytes() }
}

/// Relies on scalar addition of curve25519-dalek, which reduces modulo `ℓ`.
#[verifier::external_body]
pub(crate) fn scalar_add(a: &Scalar, b: &Scalar) -> (r: Scalar)
    ensures
        r@ == (a@ + b@) % group_order(),
{
    let x = DalekScalar::from_bytes_mod_order(a.bytes);
    let y = DalekScalar::from_bytes_mod_order(b.bytes);
    Scalar { bytes: (x + y).to_bytes() }
}

/// Relies on scalar subtraction of curve25519-dalek, which reduces modulo `ℓ`.
#[verifier::external_body]
pub(crate) fn scalar_sub(a: &Scalar, b: &Scalar) -> (r: Scalar)
    ensures
        r@ == (a@ - b@) % group_order(),
{
    let x = DalekScalar::from_bytes_mod_order(a.bytes);
    let y = DalekScalar::from_bytes_mod_order(b.bytes);
    Scalar { bytes: (x - y).to_bytes() }
}

/// Relies on scalar multiplication of curve25519-dalek, which reduces modulo `ℓ`.
#[verifier::external_body]
pub(crate) fn scalar_mul(a: &Scalar, b: &Scalar) -> (r: Scalar)
    ensures
        r@ == (a@ * b@) % group_order(),
{
    let x = DalekScalar::from_bytes_mod_order(a.bytes);
    let y = DalekScalar::from_bytes_mod_order(b.bytes);
    Scalar { bytes: (x * y).to_bytes() }
}

/// Relies on scalar negation of curve25519-dalek, which reduces modulo `ℓ`.
#[verifier::external_body]
pub(crate) fn scalar_neg(a: &Scalar) -> (r: Scalar)
    ensures
        r@ == (-a@) % group_order(),
{
    let x = DalekScalar::from_bytes_mod_order(a.bytes);
    Scalar { bytes: (-x).to_bytes() }
}

/// Relies on `get_random_scalar` of wedpr_l_crypto_zkp_utils: a scalar drawn
/// from the thread's random generator. Nothing is promised of its value.
#[verifier::external_body]
pub(crate) fn random_scalar() -> (r: Scalar) {
    Scalar { bytes: wedpr_l_crypto_zkp_utils::get_random_scalar().to_bytes() }
}

/// Relies on `hash_to_scalar` of wedpr_l_crypto_zkp_utils: the Keccak-256
/// digest of the message, reduced modulo `ℓ` by `Scalar::from_bytes_mod_order`.
#[verifier::external_body]
pub(crate) fn hash_to_scalar(msg: &Vec<u8>) -> (r: Scalar)
    ensures
        r@ == le_value(keccak256_digest(msg@)) as int % group_order(),
{
    Scalar { bytes: wedpr_l_crypto_zkp_utils::hash_to_scalar(msg).to_bytes() }
}

/// Relies on `CompressedRistretto::decompress` of curve25519-dalek, which
/// succeeds exactly on canonical encodings of group elements.
#[verifier::external_body]
fn decodes(enc: [u8; 32]) -> (r: bool)
    ensures
        r == is_point_encoding(enc@),
{
    CompressedRistretto(enc).decompress().is_some()
}

/// Relies on `BASEPOINT_G1` of wedpr_l_crypto_zkp_utils, which is
/// curve25519-dalek's `RISTRETTO_BASEPOINT_POINT`, and on `compress`.
#[verifier::external_body]
fn basepoint_bytes() -> (r: [u8; 32])
    ensures
        r@ == basepoint_encoding(),
        is_point_encoding(r@),
        point_log(r@) == 1,
{
    wedpr_l_crypto_zkp_utils::BASEPOINT_G1.compress().to_bytes()
}

/// Relies on `BASEPOINT_G2` of wedpr_l_crypto_zkp_utils, which is
/// `RistrettoPoint::hash_from_bytes::<Sha3_512>` of the basepoint's encoding,
/// and on `compress`.
#[verifier::external_body]
fn second_generator_bytes() -> (r: [u8; 32])
    ensures
        r@ == sha3_512_to_point(basepoint_encoding()),
        is_point_encoding(r@),
{
    wedpr_l_crypto_zkp_utils::BASEPOINT_G2.compress().to_bytes()
}

/// Relies on point addition of curve25519-dalek, with `decompress` and
/// `compress` around it.
#[verifier::external_body]
fn ristretto_add(a: [u8; 32], b: [u8; 32]) -> (r: [u8; 32])
    requires
        is_point_encoding(a@),
        is_point_encoding(b@),
    ensures
        is_point_encoding(r@),
        point_log(r@) == (point_log(a@) + point_log(b@)) % group_order(),
{
    let p = CompressedRistretto(a).decompress().unwrap();
    let q = CompressedRistretto(b).decompress().unwrap();
    (p + q).compress().to_bytes()
}

/// Relies on point subtraction of curve25519-dalek, with `decompress` and
/// `compress` around it.
#[verifier::external_body]
fn ristretto_sub(a: [u8; 32], b: [u8; 32]) -> (r: [u8; 32])
    requires
        is_point_encoding(a@),
        is_point_encoding(b@),
    ensures
        is_point_encoding(r@),
        point_log(r@) == (point_log(a@) - point_log(b@)) % group_order(),
{
    let p = CompressedRistretto(a).decompress().unwrap();
    let q = CompressedRistretto(b).decompress().unwrap();
    (p - q).compress().to_bytes()
}

/// Relies on scalar-by-point multiplication of curve25519-dalek, with
/// `decompress` and `compress` around it.
#[verifier::external_body]
fn ristretto_mul(s: &Scalar, a: [u8; 32]) -> (r: [u8; 32])
    requires
        is_point_encoding(a@),
    ensures
        is_point_encoding(r@),
        point_log(r@) == (s@ * point_log(a@)) % group_order(),
{
    let p = CompressedRistretto(a).decompress().unwrap();
    (DalekScalar::from_bytes_mod_order(s.bytes) * p).compress().to_bytes()
}

/// Relies on `RistrettoPoint::multiscalar_mul` of curve25519-dalek on two
/// terms, with `decompress` and `compress` around it.
#[verifier::external_body]
fn ristretto_mul2(s: &Scalar, a: [u8; 32], t: &Scalar, b: [u8; 32]) -> (r: [u8; 32])
    requires
        is_point_encoding(a@),
        is_point_encoding(b@),
    ensures
        is_point_encoding(r@),
        point_log(r@) == (s@ * point_log(a@) + t@ * point_log(b@)) % group_order(),
{
    let p = CompressedRistretto(a).decompress().unwrap();
    let q = CompressedRistretto(b).decompress().unwrap();
    let x = DalekScalar::from_bytes_mod_order(s.bytes);
    let y = DalekScalar::from_bytes_mod_order(t.bytes);
    curve25519_dalek::ristretto::RistrettoPoint::multiscalar_mul(&[x, y], &[p, q]).compress().to_bytes()
}

/// Relies on point equality of curve25519-dalek: two group elements are
/// equal exactly when their canonical encodings are, and when their
/// logarithms are.
#[verifier::external_body]
fn ristretto_eq(a: [u8; 32], b: [u8; 32]) -> (r: bool)
    requires
        is_point_encoding(a@),
        is_point_encoding(b@),
    ensures
        r == (point_log(a@) % group_order() == point_log(b@) % group_order()),
        r == (a@ == b@),
{
    let p = CompressedRistretto(a).decompress().unwrap();
    let q = CompressedRistretto(b).decompress().unwrap();
    p == q
}

/// An element of the Ristretto group, held as its canonical encoding.
#[derive(Clone, Copy, Debug)]
pub struct Point {
    enc: [u8; 32],
}

impl Point {
    #[verifier::type_invariant]
    closed spec fn well_formed(self) -> bool {
        is_point_encoding(self.enc@)
    }

    /// The canonical encoding of this point.
    pub closed spec fn encoding(self) -> Seq<u8> {
        self.enc@
    }

    /// The first Pedersen generator `G`, the Ristretto basepoint.
    pub fn generator_g() -> (r: Point)
        ensures
            r.encoding() == basepoint_encoding(),
            r@ == 1,
    {
        Point { enc: basepoint_bytes() }
    }

    /// The second Pedersen generator `H`.
    pub fn generator_h() -> (r: Point)
        ensures
            r.encoding() == second_generator_encoding(),
            r@ == h_log(),
    {
        Point { enc: second_generator_bytes() }
    }

    /// The point whose canonical encoding is `bytes`, if there is one.
    pub fn from_bytes(bytes: [u8; 32]) -> (r: Option<Point>)
        ensures
            r.is_some() == is_point_encoding(bytes@),
            r matches Some(p) ==> p.encoding() == bytes@,
    {
        if decodes(bytes) {
            Some(Point { enc: bytes })
        } else {
            None
        }
    }

    /// The canonical encoding of this point.
    pub fn to_bytes(&self) -> (r: [u8; 32])
        ensures
            r@ == self.encoding(),
    {
        self.enc
    }

    /// The group sum `self + other`.
    pub fn plus(&self, other: &Point) -> (r: Point)
        ensures
            r@ == (self@ + other@) % group_order(),
    {
        proof {
            use_type_invariant(self);
            use_type_invariant(other);
            lemma_add_mod_noop(point_log(self.enc@), point_log(other.enc@), group_order());
        }
        Point { enc: ristretto_add(self.enc, other.enc) }
    }

    /// The group difference `self - other`.
    pub fn minus(&self, other: &Point) -> (r: Point)
        ensures
            r@ == (self@ - other@) % group_order(),
    {
        proof {
            use_type_invariant(self);
            use_type_invariant(other);
            lemma_sub_mod_noop(point_log(self.enc@), point_log(other.enc@), group_order());
        }
        Point { enc: ristretto_sub(self.enc, other.enc) }
    }

    /// The multiple `s · self`.
    pub fn scaled(&self, s: &Scalar) -> (r: Point)
        ensures
            r@ == (s@ * self@) % group_order(),
    {
        proof {
            use_type_invariant(self);
            lemma_mul_mod_noop_right(s@, point_log(self.enc@), group_order());
        }
        Point { enc: ristretto_mul(s, self.enc) }
    }

    /// The combination `s · p + t · q`.
    pub fn combine(s: &Scalar, p: &Point, t: &Scalar, q: &Point) -> (r: Point)
        ensures
            r@ == (s@ * p@ + t@ * q@) % group_order(),
    {
        proof {
            use_type_invariant(p);
            use_type_invariant(q);
            let l = group_order();
            lemma_cong_reduce(point_log(p.enc@), l);
            lemma_cong_reduce(point_log(q.enc@), l);
            lemma_cong_mul(s@, s@, point_log(p.enc@), p@, l);
            lemma_cong_mul(t@, t@, point_log(q.enc@), q@, l);
            lemma_cong_add(
                s@ * point_log(p.enc@),
                s@ * p@,
                t@ * point_log(q.enc@),
                t@ * q@,
                l,
            );
        }
        Point { enc: ristretto_mul2(s, p.enc, t, q.enc) }
    }

    /// The Pedersen commitment `s · G + t · H`.
    pub fn pedersen(s: &Scalar, t: &Scalar) -> (r: Point)
        ensures
            r@ == commitment_log(s@, t@),
    {
        let g = Point::generator_g();
        let h = Point::generator_h();
        Point::combine(s, &g, t, &h)
    }

    /// Whether `self` and `other` are the same group element.
    pub fn same_as(&self, other: &Point) -> (r: bool)
        ensures
            r == (self@ == other@),
            r == (self.encoding() == other.encoding()),
    {
        proof {
            use_type_invariant(self);
            use_type_invariant(other);
        }
        ristretto_eq(self.enc, other.enc)
    }
}

impl View for Point {
    type V = int;

    open spec fn view(&self) -> int {
        point_log(self.encoding()) % group_order()
    }
}

/// Appends the canonical encoding of `p` to a transcript.
pub(crate) fn append_point(transcript: &mut Vec<u8>, p: &Point)
    ensures
        final(transcript)@ == old(transcript)@ + p.encoding(),
{
    let bytes = p.to_bytes();
    let mut i: usize = 0;
    while i < 32
        invariant
            0 <= i <= 32,
            bytes@ == p.encoding(),
            transcript@ == old(transcript)@ + bytes@.subrange(0, i as int),
        decreases 32 - i,
    {
        transcript.push(bytes[i]);
        proof {
            assert(bytes@.subrange(0, i + 1) == bytes@.subrange(0, i as int).push(bytes@[i as int]));
        }
        i = i + 1;
    }
    proof {
        assert(bytes@.subrange(0, 32) == bytes@);
    }
}

} // verus!
