use crate::field::Scalar;
use lambdaworks_math::cyclic_group::IsGroup;
use lambdaworks_math::elliptic_curve::short_weierstrass::curves::bls12_381::curve::BLS12381Curve;
use lambdaworks_math::elliptic_curve::short_weierstrass::curves::bls12_381::pairing::BLS12381AtePairing;
use lambdaworks_math::elliptic_curve::short_weierstrass::curves::bls12_381::twist::BLS12381TwistCurve;
use lambdaworks_math::elliptic_curve::short_weierstrass::traits::Compress;
use lambdaworks_math::elliptic_curve::traits::{IsEllipticCurve, IsPairing};
use lambdaworks_math::field::element::FieldElement;
use lambdaworks_math::unsigned_integer::element::UnsignedInteger;
use vstd::prelude::*;

verus! {

/// The length of a compressed G1 encoding.
pub const G1_BYTES: usize = 48;

/// The length of a compressed G2 encoding.
pub const G2_BYTES: usize = 96;

/// What decompressing `b` as a G1 point gives, compressed again: `None`
/// where `b` is not the encoding of a point of the prime-order subgroup.
pub uninterp spec fn g1_decoded(b: Seq<u8>) -> Option<Seq<u8>>;

/// The encoding of the sum of the G1 points that `a` and `b` encode.
pub uninterp spec fn g1_sum(a: Seq<u8>, b: Seq<u8>) -> Seq<u8>;

/// The encoding of `k` times the G1 point that `p` encodes.
pub uninterp spec fn g1_scaled(p: Seq<u8>, k: int) -> Seq<u8>;

/// The encoding of the inverse of the G1 point that `p` encodes.
pub uninterp spec fn g1_negated(p: Seq<u8>) -> Seq<u8>;

/// What decompressing `b` as a G2 point gives, compressed again: `None`
/// where `b` is not the encoding of a point on the twist.
pub uninterp spec fn g2_decoded(b: Seq<u8>) -> Option<Seq<u8>>;

/// Whether the point on the twist that `b` encodes lies in the prime-order
/// subgroup G2.
pub uninterp spec fn g2_in_subgroup(b: Seq<u8>) -> bool;

/// The encoding of `k` times the G2 point that `p` encodes.
pub uninterp spec fn g2_scaled(p: Seq<u8>, k: int) -> Seq<u8>;

/// Whether the product of the pairings `e(g1s[k], g2s[k])` is the identity
/// of the target group (false where a point lies outside its subgroup).
pub uninterp spec fn pairing_product_is_one(g1s: Seq<Seq<u8>>, g2s: Seq<Seq<u8>>) -> bool;

/// The compressed encoding of the point at infinity: the compression and
/// infinity flags set, every other bit clear.
pub open spec fn g1_identity_encoding() -> Seq<u8> {
    seq![0xc0u8].add(Seq::new(47, |i: int| 0u8))
}

/// The compressed encoding of the standard generator of G1: its x
/// coordinate, big-endian, with the compression flag set; its y coordinate
/// is the smaller of the two roots, so the sign flag is clear.
pub open spec fn g1_generator_encoding() -> Seq<u8> {
    seq![
        0x97u8, 0xf1u8, 0xd3u8, 0xa7u8, 0x31u8, 0x97u8, 0xd7u8, 0x94u8,
        0x26u8, 0x95u8, 0x63u8, 0x8cu8, 0x4fu8, 0xa9u8, 0xacu8, 0x0fu8,
        0xc3u8, 0x68u8, 0x8cu8, 0x4fu8, 0x97u8, 0x74u8, 0xb9u8, 0x05u8,
        0xa1u8, 0x4eu8, 0x3au8, 0x3fu8, 0x17u8, 0x1bu8, 0xacu8, 0x58u8,
        0x6cu8, 0x55u8, 0xe8u8, 0x3fu8, 0xf9u8, 0x7au8, 0x1au8, 0xefu8,
        0xfbu8, 0x3au8, 0xf0u8, 0x0au8, 0xdbu8, 0x22u8, 0xc6u8, 0xbbu8,
    ]
}

/// The compressed encoding of the standard generator of G2: the imaginary
/// then the real part of its x coordinate, big-endian, with the compression
/// flag set; the sign flag is clear.
pub open spec fn g2_generator_encoding() -> Seq<u8> {
    seq![
        0x93u8, 0xe0u8, 0x2bu8, 0x60u8, 0x52u8, 0x71u8, 0x9fu8, 0x60u8,
        0x7du8, 0xacu8, 0xd3u8, 0xa0u8, 0x88u8, 0x27u8, 0x4fu8, 0x65u8,
        0x59u8, 0x6bu8, 0xd0u8, 0xd0u8, 0x99u8, 0x20u8, 0xb6u8, 0x1au8,
        0xb5u8, 0xdau8, 0x61u8, 0xbbu8, 0xdcu8, 0x7fu8, 0x50u8, 0x49u8,
        0x33u8, 0x4cu8, 0xf1u8, 0x12u8, 0x13u8, 0x94u8, 0x5du8, 0x57u8,
        0xe5u8, 0xacu8, 0x7du8, 0x05u8, 0x5du8, 0x04u8, 0x2bu8, 0x7eu8,
        0x02u8, 0x4au8, 0xa2u8, 0xb2u8, 0xf0u8, 0x8fu8, 0x0au8, 0x91u8,
        0x26u8, 0x08u8, 0x05u8, 0x27u8, 0x2du8, 0xc5u8, 0x10u8, 0x51u8,
        0xc6u8, 0xe4u8, 0x7au8, 0xd4u8, 0xfau8, 0x40u8, 0x3bu8, 0x02u8,
        0xb4u8, 0x51u8, 0x0bu8, 0x64u8, 0x7au8, 0xe3u8, 0xd1u8, 0x77u8,
        0x0bu8, 0xacu8, 0x03u8, 0x26u8, 0xa8u8, 0x05u8, 0xbbu8, 0xefu8,
        0xd4u8, 0x80u8, 0x56u8, 0xc8u8, 0xc1u8, 0x21u8, 0xbdu8, 0xb8u8,
    ]
}

/// `b` is the canonical encoding of a point of G2: it decodes, encodes
/// back to itself, and the point lies in the prime-order subgroup.
pub open spec fn g2_canonical(b: Seq<u8>) -> bool {
    g2_decoded(b) == Some(b) && g2_in_subgroup(b)
}

/// A point of BLS12-381's G1 group, held as its compressed encoding. Two
/// points are equal exactly when their encodings are.
#[derive(Clone, Copy, Debug, PartialEq, Eq)]
pub struct G1Point {
    pub(crate) bytes: [u8; 48],
}

/// A point of BLS12-381's G2 group (on the twist), held as its compressed
/// encoding.
#[derive(Clone, Copy, Debug, PartialEq, Eq)]
pub struct G2Point {
    pub(crate) bytes: [u8; 96],
}

impl View for G1Point {
    type V = Seq<u8>;

    closed spec fn view(&self) -> Seq<u8> {
        self.bytes@
    }
}

impl View for G2Point {
    type V = Seq<u8>;

    closed spec fn view(&self) -> Seq<u8> {
        self.bytes@
    }
}

/// The encodings of a sequence of G1 points.
pub open spec fn g1_views(v: Seq<G1Point>) -> Seq<Seq<u8>> {
    v.map_values(|p: G1Point| p@)
}

/// The encodings of a sequence of G2 points.
pub open spec fn g2_views(v: Seq<G2Point>) -> Seq<Seq<u8>> {
    v.map_values(|p: G2Point| p@)
}

impl G1Point {
    /// The bytes are the canonical encoding of a point of the subgroup.
    pub open spec fn wf(&self) -> bool {
        g1_decoded(self@) == Some(self@)
    }

    /// The point's compressed encoding.
    pub fn to_bytes(&self) -> (r: Vec<u8>)
        ensures
            r@ == self@,
    {
        let mut r: Vec<u8> = Vec::new();
        for k in 0..G1_BYTES
            invariant
                r@ == self.bytes@.subrange(0, k as int),
        {
            r.push(self.bytes[k]);
        }
        assert(r@ =~= self@);
        r
    }

    /// Reads a compressed encoding; `InvalidEncoding` where the bytes do not
    /// encode a point of the subgroup.
    pub fn from_bytes(b: &[u8]) -> (r: Result<G1Point, crate::error::KzgError>)
        ensures
            r is Ok <==> (b@.len() == G1_BYTES && g1_decoded(b@) is Some),
            r is Ok ==> r->Ok_0.wf() && r->Ok_0@ == g1_decoded(b@)->0,
            r is Err ==> r->Err_0 == crate::error::KzgError::InvalidEncoding,
    {
        if b.len() != G1_BYTES {
            return Err(crate::error::KzgError::InvalidEncoding);
        }
        match g1_decode(b) {
            Some(p) => Ok(p),
            None => Err(crate::error::KzgError::InvalidEncoding),
        }
    }

    /// The point at infinity.
    pub fn identity() -> (r: G1Point)
        ensures
            r.wf(),
            r@ == g1_identity_encoding(),
    {
        g1_identity()
    }

    /// The group's sum of two points.
    pub fn add(&self, other: &G1Point) -> (r: G1Point)
        requires
            self.wf(),
            other.wf(),
        ensures
            r.wf(),
            r@ == g1_sum(self@, other@),
    {
        g1_add(self, other)
    }

    /// `k` times the point.
    pub fn scale(&self, k: &Scalar) -> (r: G1Point)
        requires
            self.wf(),
            k.wf(),
        ensures
            r.wf(),
            r@ == g1_scaled(self@, k.value()),
    {
        g1_scale(self, k)
    }

    /// The group inverse of the point.
    pub fn neg(&self) -> (r: G1Point)
        requires
            self.wf(),
        ensures
            r.wf(),
            r@ == g1_negated(self@),
    {
        g1_neg(self)
    }

    /// The group's generator.
    pub fn generator() -> (r: G1Point)
        ensures
            r.wf(),
            r@ == g1_generator_encoding(),
    {
        g1_generator()
    }
}

impl G2Point {
    /// The bytes are the canonical encoding of a point of G2.
    pub open spec fn wf(&self) -> bool {
        g2_canonical(self@)
    }

    /// The point's compressed encoding.
    pub fn to_bytes(&self) -> (r: Vec<u8>)
        ensures
            r@ == self@,
    {
        let mut r: Vec<u8> = Vec::new();
        for k in 0..G2_BYTES
            invariant
                r@ == self.bytes@.subrange(0, k as int),
        {
            r.push(self.bytes[k]);
        }
        assert(r@ =~= self@);
        r
    }

    /// Reads a compressed encoding; `InvalidEncoding` where the bytes do not
    /// encode a point on the twist, or the point lies outside G2.
    pub fn from_bytes(b: &[u8]) -> (r: Result<G2Point, crate::error::KzgError>)
        ensures
            r is Ok <==> (b@.len() == G2_BYTES && g2_decoded(b@) is Some && g2_in_subgroup(
                g2_decoded(b@)->0,
            )),
            r is Ok ==> r->Ok_0.wf() && r->Ok_0@ == g2_decoded(b@)->0,
            r is Err ==> r->Err_0 == crate::error::KzgError::InvalidEncoding,
    {
        if b.len() != G2_BYTES {
            return Err(crate::error::KzgError::InvalidEncoding);
        }
        match g2_decode(b) {
            Some(p) => {
                if g2_subgroup_check(&p) {
                    Ok(p)
                } else {
                    Err(crate::error::KzgError::InvalidEncoding)
                }
            },
            None => Err(crate::error::KzgError::InvalidEncoding),
        }
    }

    /// `k` times the point, where its encoding is the canonical encoding of
    /// a point of G2; `None` otherwise.
    pub fn scale(&self, k: &Scalar) -> (r: Option<G2Point>)
        requires
            self.wf(),
            k.wf(),
        ensures
            r is Some <==> g2_canonical(g2_scaled(self@, k.value())),
            r is Some ==> r->0.wf() && r->0@ == g2_scaled(self@, k.value()),
    {
        let b = g2_scale(self, k);
        let p = match g2_decode(b.as_slice()) {
            Some(p) => p,
            None => return None,
        };
        let mut i: usize = 0;
        while i < G2_BYTES
            invariant
                i <= G2_BYTES,
                b@.len() == G2_BYTES,
                p@.len() == G2_BYTES,
                p@ == p.bytes@,
                g2_decoded(b@) is Some,
                p@ == g2_decoded(b@)->0,
                b@ == g2_scaled(self@, k.value()),
                forall|j: int| 0 <= j < i ==> p@[j] == b@[j],
            decreases G2_BYTES - i,
        {
            if p.bytes[i] != b[i] {
                assert(p@[i as int] != b@[i as int]);
                assert(p@ != b@);
                return None;
            }
            i = i + 1;
        }
        assert(p@ =~= b@);
        if g2_subgroup_check(&p) {
            Some(p)
        } else {
            None
        }
    }

    /// The generator of G2.
    pub fn generator() -> (r: G2Point)
        ensures
            r.wf(),
            r@ == g2_generator_encoding(),
    {
        g2_generator()
    }
}

/// Decoding the encoding of a well-formed G1 point gives the point back.
pub proof fn lemma_g1_round_trip(p: G1Point)
    requires
        p.wf(),
    ensures
        p@.len() == G1_BYTES,
        g1_decoded(p@) == Some(p@),
{
}

/// Relies on `BLS12381Curve::decompress_g1_point`, which accepts exactly the
/// encodings of subgroup points, and on `compress_g1_point`, which writes the
/// canonical encoding back.
#[verifier::external_body]
fn g1_decode(b: &[u8]) -> (r: Option<G1Point>)
    requires
        b@.len() == G1_BYTES,
    ensures
        r is Some <==> g1_decoded(b@) is Some,
        r is Some ==> r->0@ == g1_decoded(b@)->0 && r->0.wf(),
{
    let mut x: [u8; 48] = b.try_into().unwrap();
    match BLS12381Curve::decompress_g1_point(&mut x) {
        Ok(p) => Some(G1Point { bytes: BLS12381Curve::compress_g1_point(&p) }),
        Err(_) => None,
    }
}

/// Relies on `IsGroup::neutral_element` of lambdaworks' G1 point and on
/// `compress_g1_point`, which encodes it as the flag byte `0xc0` and zeros.
#[verifier::external_body]
fn g1_identity() -> (r: G1Point)
    ensures
        r.wf(),
        r@ == g1_identity_encoding(),
{
    let p = <BLS12381Curve as IsEllipticCurve>::PointRepresentation::neutral_element();
    G1Point { bytes: BLS12381Curve::compress_g1_point(&p) }
}

/// Relies on `IsEllipticCurve::generator` of `BLS12381Curve`, the standard
/// generator, and on `compress_g1_point`.
#[verifier::external_body]
fn g1_generator() -> (r: G1Point)
    ensures
        r.wf(),
        r@ == g1_generator_encoding(),
{
    G1Point { bytes: BLS12381Curve::compress_g1_point(&BLS12381Curve::generator()) }
}

/// Relies on `IsGroup::operate_with` of lambdaworks' G1 point: the group sum.
#[verifier::external_body]
fn g1_add(a: &G1Point, b: &G1Point) -> (r: G1Point)
    requires
        a.wf(),
        b.wf(),
    ensures
        r.wf(),
        r@ == g1_sum(a@, b@),
{
    let (mut x, mut y) = (a.bytes, b.bytes);
    let p = BLS12381Curve::decompress_g1_point(&mut x).unwrap();
    let q = BLS12381Curve::decompress_g1_point(&mut y).unwrap();
    G1Point { bytes: BLS12381Curve::compress_g1_point(&p.operate_with(&q)) }
}

/// Relies on `IsGroup::operate_with_self` of lambdaworks' G1 point: scalar
/// multiplication by the canonical representative of `k`.
#[verifier::external_body]
fn g1_scale(a: &G1Point, k: &Scalar) -> (r: G1Point)
    requires
        a.wf(),
        k.wf(),
    ensures
        r.wf(),
        r@ == g1_scaled(a@, k.value()),
{
    let mut x = a.bytes;
    let p = BLS12381Curve::decompress_g1_point(&mut x).unwrap();
    let e = UnsignedInteger::<4>::from_limbs([k.l0, k.l1, k.l2, k.l3]);
    G1Point { bytes: BLS12381Curve::compress_g1_point(&p.operate_with_self(e)) }
}

/// Relies on `IsGroup::neg` of lambdaworks' G1 point: the group inverse.
#[verifier::external_body]
fn g1_neg(a: &G1Point) -> (r: G1Point)
    requires
        a.wf(),
    ensures
        r.wf(),
        r@ == g1_negated(a@),
{
    let mut x = a.bytes;
    let p = BLS12381Curve::decompress_g1_point(&mut x).unwrap();
    G1Point { bytes: BLS12381Curve::compress_g1_point(&p.neg()) }
}

/// Relies on `BLS12381Curve::decompress_g2_point`, which accepts the
/// encodings of points on the twist (without a subgroup check), and on
/// `compress_g2_point`, whose output decompresses to the same point.
#[verifier::external_body]
fn g2_decode(b: &[u8]) -> (r: Option<G2Point>)
    requires
        b@.len() == G2_BYTES,
    ensures
        r is Some <==> g2_decoded(b@) is Some,
        r is Some ==> r->0@ == g2_decoded(b@)->0 && g2_decoded(r->0@) == Some(r->0@),
{
    let mut x: [u8; 96] = b.try_into().unwrap();
    match BLS12381Curve::decompress_g2_point(&mut x) {
        Ok(p) => Some(G2Point { bytes: BLS12381Curve::compress_g2_point(&p) }),
        Err(_) => None,
    }
}

/// Relies on `ShortWeierstrassProjectivePoint::<BLS12381TwistCurve>::is_in_subgroup`.
#[verifier::external_body]
fn g2_subgroup_check(p: &G2Point) -> (r: bool)
    requires
        g2_decoded(p@) is Some,
    ensures
        r == g2_in_subgroup(p@),
{
    let mut x = p.bytes;
    BLS12381Curve::decompress_g2_point(&mut x).unwrap().is_in_subgroup()
}

/// Relies on `IsEllipticCurve::generator` of `BLS12381TwistCurve`, the
/// standard generator, which lies in G2, and on `compress_g2_point`.
#[verifier::external_body]
fn g2_generator() -> (r: G2Point)
    ensures
        r.wf(),
        r@ == g2_generator_encoding(),
{
    G2Point { bytes: BLS12381Curve::compress_g2_point(&BLS12381TwistCurve::generator()) }
}

/// Relies on `IsGroup::operate_with_self` of lambdaworks' G2 point: scalar
/// multiplication by the canonical representative of `k`, compressed by
/// `compress_g2_point` into 96 bytes.
#[verifier::external_body]
fn g2_scale(a: &G2Point, k: &Scalar) -> (r: Vec<u8>)
    requires
        a.wf(),
        k.wf(),
    ensures
        r@ == g2_scaled(a@, k.value()),
        r@.len() == G2_BYTES,
{
    let mut x = a.bytes;
    let p = BLS12381Curve::decompress_g2_point(&mut x).unwrap();
    let e = UnsignedInteger::<4>::from_limbs([k.l0, k.l1, k.l2, k.l3]);
    BLS12381Curve::compress_g2_point(&p.operate_with_self(e)).to_vec()
}

/// Relies on `BLS12381AtePairing::compute_batch`: the product of the
/// pairings of the pairs, compared with one; an error (a point outside its
/// subgroup) reads as false.
#[verifier::external_body]
pub(crate) fn pairing_check(g1s: &Vec<G1Point>, g2s: &Vec<G2Point>) -> (r: bool)
    requires
        g1s.len() == g2s.len(),
        forall|k: int| 0 <= k < g1s.len() ==> (#[trigger] g1s[k]).wf(),
        forall|k: int| 0 <= k < g2s.len() ==> (#[trigger] g2s[k]).wf(),
    ensures
        r == pairing_product_is_one(g1_views(g1s@), g2_views(g2s@)),
{
    let mut ps = Vec::new();
    let mut qs = Vec::new();
    for (p, q) in g1s.iter().zip(g2s.iter()) {
        ps.push(BLS12381Curve::decompress_g1_point(&mut p.bytes.clone()).unwrap());
        qs.push(BLS12381Curve::decompress_g2_point(&mut q.bytes.clone()).unwrap());
    }
    let pairs: Vec<_> = ps.iter().zip(qs.iter()).collect();
    match BLS12381AtePairing::compute_batch(&pairs) {
        Ok(v) => v == FieldElement::one(),
        Err(_) => false,
    }
}

} // verus!
