use bikzg::error::KzgError;
use bikzg::field::Scalar;
use bikzg::group::G1Point;
use bikzg::polynomial::BivariatePolynomial;
use bikzg::scheme::BivariateKzg;
use bikzg::srs::Srs;

fn s(v: u64) -> Scalar {
    Scalar::from_u64(v)
}

fn scheme(dx: usize, dy: usize) -> BivariateKzg {
    BivariateKzg::new(Srs::new_insecure(dx, dy, &s(1234567), &s(7654321)).unwrap())
}

/// f(X, Y) = 3 + 2X + XY.
fn sample_poly() -> BivariatePolynomial {
    BivariatePolynomial::new(2, 2, vec![vec![s(3)], vec![s(2), s(1)]]).unwrap()
}

#[test]
fn concrete_open_and_verify() {
    let kzg = scheme(2, 2);
    let f = sample_poly();
    assert_eq!(f.evaluate(&s(5), &s(7)), s(48));
    let c = kzg.commit_bivariate(&f).unwrap();
    let (v, proof) = kzg.open(&f, &s(5), &s(7)).unwrap();
    assert_eq!(v, s(48));
    assert!(kzg.verify(&s(5), &s(7), &v, &c, &proof));
    assert!(!kzg.verify(&s(5), &s(8), &s(48), &c, &proof));
}

#[test]
fn tampered_value_commitment_or_proof_is_rejected() {
    let kzg = scheme(2, 2);
    let f = sample_poly();
    let c = kzg.commit_bivariate(&f).unwrap();
    let (v, (q1, q2)) = kzg.open(&f, &s(5), &s(7)).unwrap();
    assert!(kzg.verify(&s(5), &s(7), &v, &c, &(q1, q2)));
    assert!(!kzg.verify(&s(5), &s(7), &s(49), &c, &(q1, q2)));
    let other = G1Point::generator();
    assert!(!kzg.verify(&s(5), &s(7), &v, &other, &(q1, q2)));
    assert!(!kzg.verify(&s(5), &s(7), &v, &c, &(other, q2)));
    assert!(!kzg.verify(&s(5), &s(7), &v, &c, &(q1, other)));
}

#[test]
fn completeness_on_a_dense_polynomial() {
    let kzg = scheme(1, 2);
    let f = BivariatePolynomial::new(1, 2, vec![vec![s(1), s(2), s(3)], vec![s(4), s(5), s(6)]])
        .unwrap();
    let c = kzg.commit_bivariate(&f).unwrap();
    let (v, proof) = kzg.open(&f, &s(11), &s(13)).unwrap();
    // 1 + 2*13 + 3*169 + 11*(4 + 5*13 + 6*169) = 534 + 11*1083 = 12447
    assert_eq!(v, s(12447));
    assert!(kzg.verify(&s(11), &s(13), &v, &c, &proof));
}

#[test]
fn commitment_is_linear_and_deterministic() {
    let kzg = scheme(1, 1);
    let f = BivariatePolynomial::new(1, 1, vec![vec![s(1), s(2)], vec![s(3), s(4)]]).unwrap();
    let g = BivariatePolynomial::new(1, 1, vec![vec![s(10), s(20)], vec![s(30), s(40)]]).unwrap();
    let sum = BivariatePolynomial::new(1, 1, vec![vec![s(11), s(22)], vec![s(33), s(44)]]).unwrap();
    let cf = kzg.commit_bivariate(&f).unwrap();
    let cg = kzg.commit_bivariate(&g).unwrap();
    assert_eq!(kzg.commit_bivariate(&sum).unwrap(), cf.add(&cg));
    assert_eq!(kzg.commit_bivariate(&g).unwrap(), cf.scale(&s(10)));
    assert_eq!(kzg.commit_bivariate(&f).unwrap(), cf);
    assert_eq!(kzg.commit_bivariate(&f.add(&g)).unwrap(), cf.add(&cg));
    let c = s(0).sub(&s(3));
    assert_eq!(kzg.commit_bivariate(&f.scale(&c)).unwrap(), cf.scale(&c));
}

#[test]
fn polynomial_sum_and_multiple() {
    let f = BivariatePolynomial::new(1, 1, vec![vec![s(1), s(2)], vec![s(3), s(4)]]).unwrap();
    let g = BivariatePolynomial::new(1, 1, vec![vec![s(10)], vec![s(0), s(40)]]).unwrap();
    let h = f.add(&g);
    assert_eq!(h.coefficient(0, 0), s(11));
    assert_eq!(h.coefficient(0, 1), s(2));
    assert_eq!(h.coefficient(1, 1), s(44));
    let k = f.scale(&s(5));
    assert_eq!(k.coefficient(1, 0), s(15));
    assert_eq!(k.evaluate(&s(2), &s(3)), f.evaluate(&s(2), &s(3)).mul(&s(5)));
}

#[test]
fn degree_beyond_srs_is_rejected() {
    let kzg = scheme(1, 1);
    let f = sample_poly();
    assert_eq!(kzg.commit_bivariate(&f), Err(KzgError::DegreeExceeded));
    assert_eq!(kzg.open(&f, &s(1), &s(2)).err(), Some(KzgError::DegreeExceeded));
}

#[test]
fn coefficient_beyond_bounds_is_rejected() {
    let r = BivariatePolynomial::new(1, 1, vec![vec![s(1), s(2), s(3)]]);
    assert_eq!(r.err(), Some(KzgError::DegreeExceeded));
    let r = BivariatePolynomial::new(0, 1, vec![vec![s(1)], vec![s(2)]]);
    assert_eq!(r.err(), Some(KzgError::DegreeExceeded));
}

#[test]
fn commitment_batches_follow_the_rows() {
    let kzg = scheme(2, 2);
    let f = BivariatePolynomial::new(1, 1, vec![vec![s(1), s(2)], vec![s(3), s(4)]]).unwrap();
    let (scalars, points) = kzg.commitment_batches(&f).unwrap();
    assert_eq!(scalars, vec![s(1), s(2), s(3), s(4)]);
    assert_eq!(points.len(), 4);
    assert_eq!(points[1], kzg.srs.g1_basis(0, 1).unwrap());
    assert_eq!(points[2], kzg.srs.g1_basis(1, 0).unwrap());
    assert_eq!(kzg.commitment_batches(&sample_poly()).map(|b| b.0.len()), Ok(9));
    let big = BivariatePolynomial::zero(3, 0);
    assert_eq!(kzg.commitment_batches(&big).err(), Some(KzgError::DegreeExceeded));
}
