use bikzg::bytes::AsBytes;
use bikzg::error::KzgError;
use bikzg::field::Scalar;
use bikzg::group::{G1Point, G2Point};
use bikzg::msm::bls12_381_g1_msm;
use bikzg::polynomial::{divide_by_y_minus_b, evaluate_univariate, BivariatePolynomial};
use bikzg::scheme::BivariateKzg;
use bikzg::srs::Srs;
use lambdaworks_math::elliptic_curve::short_weierstrass::curves::bls12_381::curve::BLS12381Curve;
use lambdaworks_math::elliptic_curve::short_weierstrass::traits::Compress;
use lambdaworks_math::cyclic_group::IsGroup;
use lambdaworks_math::msm::pippenger;
use lambdaworks_math::traits::ByteConversion;
use lambdaworks_math::unsigned_integer::element::UnsignedInteger;

fn s(v: u64) -> Scalar {
    Scalar::from_u64(v)
}

fn modulus_bytes() -> Vec<u8> {
    let hex = "73eda753299d7d483339d80809a1d80553bda402fffe5bfeffffffff00000001";
    (0..32).map(|i| u8::from_str_radix(&hex[2 * i..2 * i + 2], 16).unwrap()).collect()
}

#[test]
fn scalar_arithmetic_wraps_modulo_the_order() {
    assert_eq!(s(2).add(&s(3)), s(5));
    assert_eq!(s(7).mul(&s(6)), s(42));
    assert_eq!(s(7).sub(&s(2)), s(5));
    let minus_one = s(0).sub(&s(1));
    let mut expected = modulus_bytes();
    expected[31] -= 1;
    assert_eq!(minus_one.to_bytes_be(), expected);
    assert_eq!(minus_one.add(&s(1)), s(0));
}

#[test]
fn scalar_bytes_round_trip() {
    for v in [0u64, 1, 48, 0xdead_beef, u64::MAX] {
        let x = s(v);
        let b = x.to_bytes_be();
        assert_eq!(b.len(), 32);
        assert_eq!(b[24..], v.to_be_bytes());
        assert_eq!(Scalar::from_bytes_be(&b), Ok(x));
    }
    let m1 = s(0).sub(&s(1));
    assert_eq!(Scalar::from_bytes_be(&m1.to_bytes_be()), Ok(m1));
}

#[test]
fn non_canonical_scalar_bytes_are_rejected() {
    assert_eq!(Scalar::from_bytes_be(&modulus_bytes()), Err(KzgError::InvalidEncoding));
    assert_eq!(Scalar::from_bytes_be(&[0xff; 32]), Err(KzgError::InvalidEncoding));
    assert_eq!(Scalar::from_bytes_be(&[0; 31]), Err(KzgError::InvalidEncoding));
}

#[test]
fn point_bytes_round_trip() {
    let g = G1Point::generator();
    for p in [g, g.scale(&s(12345)), G1Point::identity(), g.neg()] {
        let b = p.to_bytes();
        assert_eq!(b.len(), 48);
        assert_eq!(G1Point::from_bytes(&b), Ok(p));
    }
    let h = G2Point::generator().scale(&s(99)).unwrap();
    assert_eq!(G2Point::from_bytes(&h.to_bytes()), Ok(h));
    let mut id = vec![0u8; 48];
    id[0] = 0xc0;
    assert_eq!(G1Point::identity().to_bytes(), id);
}

#[test]
fn invalid_point_bytes_are_rejected() {
    assert_eq!(G1Point::from_bytes(&[0u8; 48]), Err(KzgError::InvalidEncoding));
    assert_eq!(G1Point::from_bytes(&[0u8; 47]), Err(KzgError::InvalidEncoding));
    let mut b = G1Point::generator().to_bytes();
    b[47] ^= 1;
    b[46] ^= 1;
    let decoded = G1Point::from_bytes(&b);
    assert!(decoded != Ok(G1Point::generator()));
    assert_eq!(G2Point::from_bytes(&[0u8; 96]), Err(KzgError::InvalidEncoding));
}

#[test]
fn generator_encoding() {
    let hex = "97f1d3a73197d7942695638c4fa9ac0fc3688c4f9774b905a14e3a3f171bac586c55e83ff97a1aeffb3af00adb22c6bb";
    let expected: Vec<u8> =
        (0..48).map(|i| u8::from_str_radix(&hex[2 * i..2 * i + 2], 16).unwrap()).collect();
    assert_eq!(G1Point::generator().to_bytes(), expected);
}

#[test]
fn group_operations() {
    let g = G1Point::generator();
    assert_eq!(g.add(&g), g.scale(&s(2)));
    assert_eq!(g.add(&g.neg()), G1Point::identity());
    assert_eq!(g.scale(&s(0)), G1Point::identity());
    assert_ne!(g.scale(&s(3)), g);
}

#[test]
fn msm_rejects_mismatched_lengths() {
    let g = G1Point::generator();
    assert_eq!(bls12_381_g1_msm(&vec![s(1), s(2)], &vec![g]), Err(KzgError::LengthMismatch));
    assert_eq!(bls12_381_g1_msm(&vec![], &vec![g]), Err(KzgError::LengthMismatch));
}

#[test]
fn msm_small_cases() {
    let g = G1Point::generator();
    let h = g.scale(&s(77));
    assert_eq!(bls12_381_g1_msm(&vec![], &vec![]), Ok(G1Point::identity()));
    assert_eq!(bls12_381_g1_msm(&vec![s(5)], &vec![g]), Ok(g.scale(&s(5))));
    assert_eq!(bls12_381_g1_msm(&vec![s(2), s(3)], &vec![g, h]), Ok(g.scale(&s(2 + 3 * 77))));
}

fn pippenger_of(scalars: &[Scalar], points: &[G1Point]) -> G1Point {
    let cs: Vec<UnsignedInteger<4>> = scalars
        .iter()
        .map(|c| UnsignedInteger::<4>::from_bytes_be(&c.to_bytes_be()).unwrap())
        .collect();
    let ps: Vec<_> = points
        .iter()
        .map(|p| {
            let mut b = p.to_bytes();
            BLS12381Curve::decompress_g1_point(&mut b).unwrap()
        })
        .collect();
    let r = pippenger::msm(&cs, &ps).unwrap();
    G1Point::from_bytes(&BLS12381Curve::compress_g1_point(&r)).unwrap()
}

#[test]
fn msm_matches_an_independent_msm() {
    let g = G1Point::generator();
    let mut seed: u64 = 0x9e37_79b9_7f4a_7c15;
    for n in [1usize, 2, 16] {
        let mut scalars = Vec::new();
        let mut points = Vec::new();
        for _ in 0..n {
            seed = seed.wrapping_mul(6364136223846793005).wrapping_add(1442695040888963407);
            let big = s(seed).mul(&s(seed ^ 0x5555)).mul(&s(seed.rotate_left(17)));
            scalars.push(big);
            points.push(g.scale(&s(seed >> 3)));
        }
        assert_eq!(bls12_381_g1_msm(&scalars, &points), Ok(pippenger_of(&scalars, &points)));
    }
}

#[test]
fn univariate_evaluation_and_division() {
    // Y^2 + 2Y + 3
    let c = vec![s(3), s(2), s(1)];
    assert_eq!(evaluate_univariate(&c, &s(4)), s(27));
    assert_eq!(evaluate_univariate(&vec![], &s(4)), s(0));
    let (q, r) = divide_by_y_minus_b(&c, &s(1));
    assert_eq!(q, vec![s(3), s(1), s(0)]);
    assert_eq!(r, s(6));
}

#[test]
fn bivariate_division_by_x_minus_a() {
    // 3 + 2X + XY divided by (X - 5): quotient 2 + Y, remainder 13 + 5Y.
    let f = BivariatePolynomial::new(2, 2, vec![vec![s(3)], vec![s(2), s(1)]]).unwrap();
    let (q, r) = f.divide_by_x_minus_a(&s(5));
    assert_eq!(r, vec![s(13), s(5), s(0)]);
    assert_eq!(q.coefficient(0, 0), s(2));
    assert_eq!(q.coefficient(0, 1), s(1));
    assert_eq!(q.coefficient(1, 0), s(0));
    assert_eq!(q.coefficient(2, 2), s(0));
    assert_eq!(q.max_deg_x(), 2);
    assert_eq!(f.coefficient(1, 1), s(1));
    assert_eq!(f.coefficient(5, 0), s(0));
    assert_eq!(evaluate_univariate(&r, &s(7)), f.evaluate(&s(5), &s(7)));
}

#[test]
fn zero_polynomial_evaluates_to_zero() {
    let z = BivariatePolynomial::zero(3, 1);
    assert_eq!(z.evaluate(&s(9), &s(10)), s(0));
    assert_eq!(z.max_deg_y(), 1);
}

#[test]
fn srs_table_access() {
    let srs = Srs::new_insecure(1, 2, &s(3), &s(5)).unwrap();
    let g = srs.g;
    assert_eq!(srs.g1_basis(0, 0), Ok(g.scale(&s(1))));
    assert_eq!(srs.g1_basis(1, 2), Ok(g.scale(&s(75))));
    assert_eq!(srs.g1_basis(2, 0), Err(KzgError::OutOfRange));
    assert_eq!(srs.g1_basis(0, 3), Err(KzgError::OutOfRange));
    let (h, tx, ty) = srs.verification_elements();
    assert_eq!(Some(tx), h.scale(&s(3)));
    assert_eq!(Some(ty), h.scale(&s(5)));
    assert_eq!(h, G2Point::generator());
}

#[test]
fn srs_dimension_mismatch_is_rejected() {
    let g = G1Point::generator();
    let h = G2Point::generator();
    let r = Srs::new(1, 1, vec![vec![g, g]], g, h, h, h);
    assert_eq!(r.err(), Some(KzgError::InvalidSrs));
    let r = Srs::new(1, 1, vec![vec![g, g], vec![g]], g, h, h, h);
    assert_eq!(r.err(), Some(KzgError::InvalidSrs));
    assert!(Srs::new(1, 1, vec![vec![g, g], vec![g, g]], g, h, h, h).is_ok());
}

#[test]
fn srs_loads_from_bytes() {
    let srs = Srs::new_insecure(1, 1, &s(3), &s(5)).unwrap();
    let table: Vec<Vec<Vec<u8>>> =
        srs.g1.iter().map(|row| row.iter().map(|p| p.to_bytes()).collect()).collect();
    let loaded = Srs::from_bytes(
        1,
        1,
        &table,
        &srs.g.to_bytes(),
        &srs.h.to_bytes(),
        &srs.tau_x_h.to_bytes(),
        &srs.tau_y_h.to_bytes(),
    )
    .unwrap();
    assert_eq!(loaded.g1, srs.g1);
    assert_eq!(loaded.tau_y_h, srs.tau_y_h);
    let mut bad = table.clone();
    bad[1][0] = vec![0u8; 48];
    let r = Srs::from_bytes(1, 1, &bad, &srs.g.to_bytes(), &srs.h.to_bytes(), &srs.h.to_bytes(), &srs.h.to_bytes());
    assert_eq!(r.err(), Some(KzgError::InvalidSrs));
    let r = Srs::from_bytes(2, 1, &table, &srs.g.to_bytes(), &srs.h.to_bytes(), &srs.h.to_bytes(), &srs.h.to_bytes());
    assert_eq!(r.err(), Some(KzgError::InvalidSrs));
}

#[test]
fn verify_from_bytes_and_single_byte_tampering() {
    let kzg = BivariateKzg::new(Srs::new_insecure(2, 2, &s(1234567), &s(7654321)).unwrap());
    let f = BivariatePolynomial::new(2, 2, vec![vec![s(3)], vec![s(2), s(1)]]).unwrap();
    let c = kzg.commit_bivariate(&f).unwrap().to_bytes();
    let (v, proof) = kzg.open(&f, &s(5), &s(7)).unwrap();
    let v = v.to_bytes_be();
    let p = BivariateKzg::proof_to_bytes(&proof);
    assert_eq!(p.len(), 96);
    assert_eq!(kzg.verify_bytes(&s(5), &s(7), &v, &c, &p), Ok(true));
    let mut v2 = v.clone();
    v2[31] ^= 1;
    assert_eq!(kzg.verify_bytes(&s(5), &s(7), &v2, &c, &p), Ok(false));
    for (k, bit) in [(47usize, 1u8), (0, 0x20)] {
        let mut c2 = c.clone();
        c2[k] ^= bit;
        assert_ne!(kzg.verify_bytes(&s(5), &s(7), &v, &c2, &p), Ok(true));
        let mut p2 = p.clone();
        p2[k] ^= bit;
        assert_ne!(kzg.verify_bytes(&s(5), &s(7), &v, &c, &p2), Ok(true));
        let mut p3 = p.clone();
        p3[48 + k] ^= bit;
        assert_ne!(kzg.verify_bytes(&s(5), &s(7), &v, &c, &p3), Ok(true));
    }
    assert_eq!(kzg.verify_bytes(&s(5), &s(7), &v, &c, &p[..95]), Err(KzgError::InvalidEncoding));
    assert_eq!(kzg.verify_bytes(&s(5), &s(7), &[0xff; 32], &c, &p), Err(KzgError::InvalidEncoding));
}

#[test]
fn commit_univariate_uses_the_first_row() {
    let srs = Srs::new_insecure(1, 2, &s(3), &s(5)).unwrap();
    let g = srs.g;
    let kzg = BivariateKzg::new(srs);
    // 1 + 2Y at tau_y = 5 gives 11.
    assert_eq!(kzg.commit_univariate(&vec![s(1), s(2)]), Ok(g.scale(&s(11))));
    assert_eq!(kzg.commit_univariate(&vec![s(1); 4]), Err(KzgError::DegreeExceeded));
}

#[test]
fn integers_as_little_endian_bytes() {
    assert_eq!(0x0403_0201u32.as_bytes(), vec![1, 2, 3, 4]);
    assert_eq!(0x0807_0605_0403_0201u64.as_bytes(), vec![1, 2, 3, 4, 5, 6, 7, 8]);
    assert_eq!(0u32.as_bytes(), vec![0; 4]);
}

#[test]
fn scalar_little_endian_bytes() {
    let x = s(0x0102);
    let le = x.to_bytes_le();
    assert_eq!(le[0], 2);
    assert_eq!(le[1], 1);
    assert!(le[2..].iter().all(|b| *b == 0));
    assert_eq!(Scalar::from_bytes_le(&le), Ok(x));
    let mut m = modulus_bytes();
    m.reverse();
    assert_eq!(Scalar::from_bytes_le(&m), Err(KzgError::InvalidEncoding));
    let y = s(0).sub(&s(12345));
    assert_eq!(Scalar::from_bytes_le(&y.to_bytes_le()), Ok(y));
}

#[test]
fn g2_generator_encoding() {
    let hex = "93e02b6052719f607dacd3a088274f65596bd0d09920b61ab5da61bbdc7f5049334cf11213945d57e5ac7d055d042b7e\
               024aa2b2f08f0a91260805272dc51051c6e47ad4fa403b02b4510b647ae3d1770bac0326a805bbefd48056c8c121bdb8";
    let expected: Vec<u8> =
        (0..96).map(|i| u8::from_str_radix(&hex[2 * i..2 * i + 2], 16).unwrap()).collect();
    assert_eq!(G2Point::generator().to_bytes(), expected);
}

#[test]
fn twist_points_outside_g2_are_rejected() {
    let mut found = false;
    for t in 1u8..=64 {
        let mut b = vec![0u8; 96];
        b[0] = 0x80;
        b[95] = t;
        let mut c = b.clone();
        if let Ok(q) = BLS12381Curve::decompress_g2_point(&mut c) {
            if !q.is_neutral_element() && !q.is_in_subgroup() {
                assert_eq!(G2Point::from_bytes(&b), Err(KzgError::InvalidEncoding));
                found = true;
                break;
            }
        }
    }
    assert!(found);
}
