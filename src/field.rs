use lambdaworks_math::elliptic_curve::short_weierstrass::curves::bls12_381::default_types::FrElement;
use lambdaworks_math::unsigned_integer::element::UnsignedInteger;
use crate::error::KzgError;
use lambdaworks_math::traits::ByteConversion;
use vstd::prelude::*;

verus! {

/// 2^64, the base of a limb.
pub open spec fn limb_base() -> int {
    18446744073709551616
}

/// The integer that four limbs hold, most significant limb first.
pub open spec fn limbs_value(l: Seq<u64>) -> int {
    ((l[0] as int * limb_base() + l[1] as int) * limb_base() + l[2] as int) * limb_base()
        + l[3] as int
}

/// The order r of BLS12-381's prime-order subgroup: the size of the scalar field.
pub open spec fn fr_modulus() -> int {
    limbs_value(seq![0x73eda753299d7d48u64, 0x3339d80809a1d805u64, 0x53bda402fffe5bfeu64, 0xffffffff00000001u64])
}

/// Field addition.
pub open spec fn fadd(a: int, b: int) -> int {
    (a + b) % fr_modulus()
}

/// Field subtraction.
pub open spec fn fsub(a: int, b: int) -> int {
    (a - b) % fr_modulus()
}

/// Field multiplication.
pub open spec fn fmul(a: int, b: int) -> int {
    (a * b) % fr_modulus()
}

/// A canonical field value: an integer in `[0, r)`.
pub open spec fn is_fr(v: int) -> bool {
    0 <= v < fr_modulus()
}

/// The field's order exceeds a limb's range, so every `u64` is a canonical
/// field value.
pub proof fn lemma_fr_modulus_bounds()
    ensures
        fr_modulus() > limb_base(),
{
}

/// `256^n`.
pub open spec fn pow256(n: nat) -> nat
    decreases n,
{
    if n == 0 {
        1
    } else {
        256 * pow256((n - 1) as nat)
    }
}

/// The integer that the bytes `b` hold, most significant first.
pub open spec fn be_value(b: Seq<u8>) -> nat
    decreases b.len(),
{
    if b.len() == 0 {
        0
    } else {
        be_value(b.drop_last()) * 256 + b.last() as nat
    }
}

/// The `n` low bytes of `x`, most significant first.
pub open spec fn be_bytes(x: nat, n: nat) -> Seq<u8>
    decreases n,
{
    if n == 0 {
        Seq::empty()
    } else {
        be_bytes(x / 256, (n - 1) as nat).push((x % 256) as u8)
    }
}

/// `be_bytes(x, n)` has `n` bytes.
pub proof fn lemma_be_bytes_len(x: nat, n: nat)
    ensures
        be_bytes(x, n).len() == n,
    decreases n,
{
    if n > 0 {
        lemma_be_bytes_len(x / 256, (n - 1) as nat);
    }
}

/// Writing `n` bytes of a number below `256^n` and reading them back gives
/// the number.
pub proof fn lemma_be_value_of_bytes(x: nat, n: nat)
    requires
        x < pow256(n),
    ensures
        be_value(be_bytes(x, n)) == x,
    decreases n,
{
    if n > 0 {
        assert(x / 256 < pow256((n - 1) as nat));
        lemma_be_value_of_bytes(x / 256, (n - 1) as nat);
        assert(be_bytes(x, n).drop_last() =~= be_bytes(x / 256, (n - 1) as nat));
    }
}

/// Reading bytes and writing the number back in as many bytes gives the
/// bytes.
pub proof fn lemma_be_bytes_of_value(b: Seq<u8>)
    ensures
        be_bytes(be_value(b), b.len()) == b,
        be_value(b) < pow256(b.len()),
    decreases b.len(),
{
    if b.len() > 0 {
        let d = b.drop_last();
        lemma_be_bytes_of_value(d);
        let v = be_value(b);
        assert(v / 256 == be_value(d));
        assert(v % 256 == b.last() as nat);
        assert(be_bytes(v, b.len()) =~= b);
    }
}

/// The scalar field fits in 32 bytes.
pub proof fn lemma_fr_fits_32_bytes()
    ensures
        fr_modulus() < pow256(32),
{
    reveal_with_fuel(pow256, 33);
}

/// Encoding a canonical field value in 32 big-endian bytes and reading it
/// back gives the value, and the reading accepts it as canonical.
pub proof fn lemma_scalar_round_trip(v: int)
    requires
        is_fr(v),
    ensures
        be_bytes(v as nat, 32).len() == 32,
        be_value(be_bytes(v as nat, 32)) == v,
        be_value(be_bytes(v as nat, 32)) < fr_modulus(),
{
    lemma_fr_fits_32_bytes();
    lemma_be_bytes_len(v as nat, 32);
    lemma_be_value_of_bytes(v as nat, 32);
}

/// An element of the scalar field, held as its canonical representative in
/// four 64-bit limbs, most significant first.
#[derive(Clone, Copy, Debug, PartialEq, Eq, Structural)]
pub struct Scalar {
    pub(crate) l0: u64,
    pub(crate) l1: u64,
    pub(crate) l2: u64,
    pub(crate) l3: u64,
}

impl Scalar {
    /// The integer this scalar stands for.
    pub closed spec fn value(&self) -> int {
        limbs_value(seq![self.l0, self.l1, self.l2, self.l3])
    }

    /// The limbs hold a canonical representative.
    pub open spec fn wf(&self) -> bool {
        is_fr(self.value())
    }

    pub fn from_u64(v: u64) -> (r: Scalar)
        ensures
            r.wf(),
            r.value() == v as int,
    {
        Scalar { l0: 0, l1: 0, l2: 0, l3: v }
    }

    pub fn zero() -> (r: Scalar)
        ensures
            r.wf(),
            r.value() == 0,
    {
        Scalar::from_u64(0)
    }

    pub fn one() -> (r: Scalar)
        ensures
            r.wf(),
            r.value() == 1,
    {
        Scalar::from_u64(1)
    }

    /// The 32-byte big-endian encoding of the scalar.
    pub fn to_bytes_be(&self) -> (r: Vec<u8>)
        requires
            self.wf(),
        ensures
            r@ == be_bytes(self.value() as nat, 32),
    {
        fr_to_bytes_be(self)
    }

    /// Reads a 32-byte big-endian encoding. `InvalidEncoding` unless there
    /// are exactly 32 bytes holding a number below the field's order.
    pub fn from_bytes_be(b: &[u8]) -> (r: Result<Scalar, KzgError>)
        ensures
            r is Ok <==> (b@.len() == 32 && be_value(b@) < fr_modulus()),
            r is Ok ==> r->Ok_0.wf() && r->Ok_0.value() == be_value(b@),
            r is Err ==> r->Err_0 == KzgError::InvalidEncoding,
    {
        if b.len() != 32 {
            return Err(KzgError::InvalidEncoding);
        }
        let s = fr_from_bytes_be(b);
        let e = fr_to_bytes_be(&s);
        proof {
            lemma_fr_fits_32_bytes();
            lemma_be_value_of_bytes(s.value() as nat, 32);
            lemma_be_bytes_len(s.value() as nat, 32);
            lemma_be_bytes_of_value(b@);
            if be_value(b@) < fr_modulus() {
                vstd::arithmetic::div_mod::lemma_small_mod(be_value(b@), fr_modulus() as nat);
            }
        }
        let mut k: usize = 0;
        while k < 32
            invariant
                k <= 32,
                b@.len() == 32,
                e@.len() == 32,
                be_value(b@) < fr_modulus() ==> e@ == b@,
                forall|i: int| 0 <= i < k ==> e@[i] == b@[i],
            decreases 32 - k,
        {
            if e[k] != b[k] {
                return Err(KzgError::InvalidEncoding);
            }
            k = k + 1;
        }
        assert(e@ =~= b@);
        Ok(s)
    }

    /// The 32-byte little-endian encoding of the scalar.
    pub fn to_bytes_le(&self) -> (r: Vec<u8>)
        requires
            self.wf(),
        ensures
            r@ == be_bytes(self.value() as nat, 32).reverse(),
    {
        let be = self.to_bytes_be();
        reversed(&be)
    }

    /// Reads a 32-byte little-endian encoding. `InvalidEncoding` unless
    /// there are exactly 32 bytes holding a number below the field's order.
    pub fn from_bytes_le(b: &[u8]) -> (r: Result<Scalar, KzgError>)
        ensures
            r is Ok <==> (b@.len() == 32 && be_value(b@.reverse()) < fr_modulus()),
            r is Ok ==> r->Ok_0.wf() && r->Ok_0.value() == be_value(b@.reverse()),
            r is Err ==> r->Err_0 == KzgError::InvalidEncoding,
    {
        let be = reversed(&vstd::slice::slice_to_vec(b));
        Scalar::from_bytes_be(be.as_slice())
    }

    /// Field addition.
    pub fn add(&self, other: &Scalar) -> (r: Scalar)
        requires
            self.wf(),
            other.wf(),
        ensures
            r.wf(),
            r.value() == fadd(self.value(), other.value()),
    {
        fr_add(self, other)
    }

    /// Field subtraction.
    pub fn sub(&self, other: &Scalar) -> (r: Scalar)
        requires
            self.wf(),
            other.wf(),
        ensures
            r.wf(),
            r.value() == fsub(self.value(), other.value()),
    {
        fr_sub(self, other)
    }

    /// Field multiplication.
    pub fn mul(&self, other: &Scalar) -> (r: Scalar)
        requires
            self.wf(),
            other.wf(),
        ensures
            r.wf(),
            r.value() == fmul(self.value(), other.value()),
    {
        fr_mul(self, other)
    }
}

/// Relies on `+` of lambdaworks' `FrElement` and on `representative`: the sum
/// modulo r, returned as its canonical representative.
#[verifier::external_body]
fn fr_add(a: &Scalar, b: &Scalar) -> (r: Scalar)
    requires
        a.wf(),
        b.wf(),
    ensures
        r.wf(),
        r.value() == fadd(a.value(), b.value()),
{
    let x = FrElement::from(&UnsignedInteger::from_limbs([a.l0, a.l1, a.l2, a.l3]));
    let y = FrElement::from(&UnsignedInteger::from_limbs([b.l0, b.l1, b.l2, b.l3]));
    let [l0, l1, l2, l3] = (x + y).representative().limbs;
    Scalar { l0, l1, l2, l3 }
}

/// Relies on `-` of lambdaworks' `FrElement` and on `representative`: the
/// difference modulo r, returned as its canonical representative.
#[verifier::external_body]
fn fr_sub(a: &Scalar, b: &Scalar) -> (r: Scalar)
    requires
        a.wf(),
        b.wf(),
    ensures
        r.wf(),
        r.value() == fsub(a.value(), b.value()),
{
    let x = FrElement::from(&UnsignedInteger::from_limbs([a.l0, a.l1, a.l2, a.l3]));
    let y = FrElement::from(&UnsignedInteger::from_limbs([b.l0, b.l1, b.l2, b.l3]));
    let [l0, l1, l2, l3] = (x - y).representative().limbs;
    Scalar { l0, l1, l2, l3 }
}

/// Relies on `*` of lambdaworks' `FrElement` and on `representative`: the
/// product modulo r, returned as its canonical representative.
#[verifier::external_body]
fn fr_mul(a: &Scalar, b: &Scalar) -> (r: Scalar)
    requires
        a.wf(),
        b.wf(),
    ensures
        r.wf(),
        r.value() == fmul(a.value(), b.value()),
{
    let x = FrElement::from(&UnsignedInteger::from_limbs([a.l0, a.l1, a.l2, a.l3]));
    let y = FrElement::from(&UnsignedInteger::from_limbs([b.l0, b.l1, b.l2, b.l3]));
    let [l0, l1, l2, l3] = (x * y).representative().limbs;
    Scalar { l0, l1, l2, l3 }
}

/// The bytes in the opposite order.
fn reversed(b: &Vec<u8>) -> (r: Vec<u8>)
    ensures
        r@ == b@.reverse(),
{
    let mut r: Vec<u8> = Vec::new();
    let mut k: usize = b.len();
    while k > 0
        invariant
            k <= b.len(),
            r@ == b@.subrange(k as int, b.len() as int).reverse(),
        decreases k,
    {
        k = k - 1;
        r.push(b[k]);
        assert(r@ =~= b@.subrange(k as int, b.len() as int).reverse());
    }
    assert(b@.subrange(0, b.len() as int) =~= b@);
    r
}

/// Relies on `ByteConversion::from_bytes_be` of lambdaworks' `FrElement`:
/// the 32 bytes read as a big-endian number, reduced modulo r.
#[verifier::external_body]
fn fr_from_bytes_be(b: &[u8]) -> (r: Scalar)
    requires
        b@.len() == 32,
    ensures
        r.wf(),
        r.value() == be_value(b@) as int % fr_modulus(),
{
    let x = FrElement::from_bytes_be(b).unwrap();
    let [l0, l1, l2, l3] = x.representative().limbs;
    Scalar { l0, l1, l2, l3 }
}

/// Relies on `ByteConversion::to_bytes_be` of lambdaworks' `FrElement`: the
/// canonical representative in 32 big-endian bytes.
#[verifier::external_body]
fn fr_to_bytes_be(a: &Scalar) -> (r: Vec<u8>)
    requires
        a.wf(),
    ensures
        r@ == be_bytes(a.value() as nat, 32),
{
    FrElement::from(&UnsignedInteger::from_limbs([a.l0, a.l1, a.l2, a.l3])).to_bytes_be()
}

} // verus!
