use crate::error::KzgError;
use crate::field::Scalar;
use crate::group::{g1_decoded, g1_negated, g1_scaled, g1_sum, g1_views, pairing_check, pairing_product_is_one, G1Point, G2Point};
use crate::msm::{all_g1, bls12_381_g1_msm, msm_spec};
use crate::field::{be_value, fmul, fr_modulus, fsub};
use crate::srs::g1_decodes;
use vstd::slice::slice_subrange;
use crate::polynomial::{
    all_fr, bi_eval, column, eval, is_table, lemma_division_identity, quotient, values,
    BivariatePolynomial,
};
use crate::srs::Srs;
use vstd::prelude::*;

verus! {

/// The rows of a table, one after another.
pub open spec fn flat<A>(c: Seq<Seq<A>>) -> Seq<A>
    decreases c.len(),
{
    if c.len() == 0 {
        Seq::empty()
    } else {
        flat(c.drop_last()) + c.last()
    }
}

/// The first `n` rows and `m` columns of the reference string's basis.
pub open spec fn basis_block(srs: Srs, n: int, m: int) -> Seq<Seq<Seq<u8>>> {
    Seq::new(n as nat, |i: int| Seq::new(m as nat, |j: int| srs.basis(i, j)))
}

/// The commitment to the `n` by `m` coefficient table `c`:
/// `sum_{i,j} c[i][j] * basis(i, j)`, summed row by row.
pub open spec fn commitment_of(c: Seq<Seq<int>>, srs: Srs, n: int, m: int) -> Seq<u8> {
    msm_spec(flat(c), flat(basis_block(srs, n, m)))
}

/// The commitment to the polynomial in Y alone with coefficients `c`:
/// `sum_j c[j] * basis(0, j)`.
pub open spec fn univariate_commitment_of(c: Seq<int>, srs: Srs) -> Seq<u8> {
    msm_spec(c, Seq::new(c.len(), |j: int| srs.basis(0, j)))
}

/// The quotient of the `n` by `m` table `c` by `(X - a)`, column by column.
pub open spec fn x_quotient(c: Seq<Seq<int>>, a: int, n: int, m: int) -> Seq<Seq<int>> {
    Seq::new(n as nat, |i: int| Seq::new(m as nat, |j: int| quotient(column(c, j), a)[i]))
}

/// The remainder of `c` by `(X - a)`: the polynomial in Y `c(a, Y)`.
pub open spec fn x_remainder(c: Seq<Seq<int>>, a: int, m: int) -> Seq<int> {
    Seq::new(m as nat, |j: int| eval(column(c, j), a))
}

/// The point whose pairing with `h` the verification equation compares:
/// `C - v G + x Q1 + y Q2`.
pub open spec fn verification_point(
    srs: Srs,
    x: int,
    y: int,
    v: int,
    c: Seq<u8>,
    q1: Seq<u8>,
    q2: Seq<u8>,
) -> Seq<u8> {
    g1_sum(
        g1_sum(g1_sum(c, g1_negated(g1_scaled(srs.g@, v))), g1_scaled(q1, x)),
        g1_scaled(q2, y),
    )
}

/// The verification equation `e(C - v G, h) = e(Q1, tau_x h - x h) e(Q2, tau_y h - y h)`,
/// in the form `e(C - v G + x Q1 + y Q2, h) e(-Q1, tau_x h) e(-Q2, tau_y h) = 1`.
pub open spec fn verify_spec(
    srs: Srs,
    x: int,
    y: int,
    v: int,
    c: Seq<u8>,
    q1: Seq<u8>,
    q2: Seq<u8>,
) -> bool {
    pairing_product_is_one(
        seq![verification_point(srs, x, y, v, c, q1, q2), g1_negated(q1), g1_negated(q2)],
        seq![srs.h@, srs.tau_x_h@, srs.tau_y_h@],
    )
}

/// The identity behind an opening at `(x, y)`, coefficient by coefficient:
/// with `q1` the quotient of `c` by `(X - x)`, `r` the remainder `c(x, Y)`,
/// `q2` the quotient of `r` by `(Y - y)` and `v = c(x, y)`,
/// `c(X, Y) - r(Y) = (X - x) q1(X, Y)` and `r(Y) - v = (Y - y) q2(Y)`; so
/// `c(X, Y) - v = (X - x) q1(X, Y) + (Y - y) q2(Y)`.
pub proof fn lemma_open_identity(c: Seq<Seq<int>>, n: int, m: int, x: int, y: int)
    requires
        n > 0,
        m > 0,
        is_table(c, n, m),
    ensures
        ({
            let q1 = x_quotient(c, x, n, m);
            let r = x_remainder(c, x, m);
            &&& forall|j: int| 0 <= j < m ==> #[trigger] c[0][j] == fsub(r[j], fmul(x, q1[0][j]))
            &&& forall|i: int, j: int|
                1 <= i < n && 0 <= j < m ==> #[trigger] c[i][j] == fsub(
                    q1[i - 1][j],
                    fmul(x, q1[i][j]),
                )
            &&& forall|j: int| 0 <= j < m ==> #[trigger] q1[n - 1][j] == 0
        }),
        ({
            let r = x_remainder(c, x, m);
            let q2 = quotient(r, y);
            &&& eval(r, y) == bi_eval(c, x, y)
            &&& r[0] == fsub(bi_eval(c, x, y), fmul(y, q2[0]))
            &&& forall|j: int| 1 <= j < m ==> #[trigger] r[j] == fsub(q2[j - 1], fmul(y, q2[j]))
            &&& q2[m - 1] == 0
        }),
{
    let q1 = x_quotient(c, x, n, m);
    let r = x_remainder(c, x, m);
    assert forall|j: int| 0 <= j < m implies #[trigger] c[0][j] == fsub(r[j], fmul(x, q1[0][j]))
        && q1[n - 1][j] == 0 by {
        lemma_column_identity(c, n, m, x, j);
    }
    assert forall|i: int, j: int| 1 <= i < n && 0 <= j < m implies #[trigger] c[i][j] == fsub(
        q1[i - 1][j],
        fmul(x, q1[i][j]),
    ) by {
        lemma_column_identity(c, n, m, x, j);
    }
    assert forall|k: int| 0 <= k < r.len() implies crate::field::is_fr(#[trigger] r[k]) by {
        crate::field::lemma_fr_modulus_bounds();
        crate::polynomial::lemma_eval_is_fr(column(c, k), x);
    }
    lemma_division_identity(r, y);
    crate::polynomial::lemma_eval_by_columns(c, m, x, y);
    assert(r =~= Seq::new(m as nat, |j: int| eval(column(c, j), x)));
}

proof fn lemma_column_identity(c: Seq<Seq<int>>, n: int, m: int, x: int, j: int)
    requires
        n > 0,
        0 <= j < m,
        is_table(c, n, m),
    ensures
        c[0][j] == fsub(x_remainder(c, x, m)[j], fmul(x, x_quotient(c, x, n, m)[0][j])),
        x_quotient(c, x, n, m)[n - 1][j] == 0,
        forall|i: int|
            1 <= i < n ==> #[trigger] c[i][j] == fsub(
                x_quotient(c, x, n, m)[i - 1][j],
                fmul(x, x_quotient(c, x, n, m)[i][j]),
            ),
{
    let q1 = x_quotient(c, x, n, m);
    let col = column(c, j);
    assert forall|k: int| 0 <= k < col.len() implies crate::field::is_fr(#[trigger] col[k]) by {
        assert(col[k] == c[k][j]);
    }
    lemma_division_identity(col, x);
    let qc = quotient(col, x);
    assert(q1[0][j] == qc[0]);
    assert(q1[n - 1][j] == qc[n - 1]);
    assert(col[0] == c[0][j]);
    assert forall|i: int| 1 <= i < n implies #[trigger] c[i][j] == fsub(
        q1[i - 1][j],
        fmul(x, q1[i][j]),
    ) by {
        assert(col[i] == c[i][j]);
        assert(q1[i][j] == qc[i]);
        assert(q1[i - 1][j] == qc[i - 1]);
    }
}

/// A commitment depends on the coefficients and the reference string
/// alone: equal coefficient tables of equal bounds commit to the same point.
pub proof fn lemma_commit_deterministic(
    kzg: BivariateKzg,
    f: BivariatePolynomial,
    g: BivariatePolynomial,
)
    requires
        f@ == g@,
        f.deg_x() == g.deg_x(),
        f.deg_y() == g.deg_y(),
    ensures
        commitment_of(f@, kzg.srs, (f.deg_x() + 1) as int, (f.deg_y() + 1) as int)
            == commitment_of(g@, kzg.srs, (g.deg_x() + 1) as int, (g.deg_y() + 1) as int),
{
}

/// The bivariate KZG commitment scheme over a reference string.
#[derive(Clone, Debug)]
pub struct BivariateKzg {
    pub srs: Srs,
}

impl BivariateKzg {
    pub open spec fn wf(&self) -> bool {
        self.srs.wf()
    }

    /// Whether `p`'s degree bounds exceed the reference string.
    pub open spec fn exceeds(&self, p: BivariatePolynomial) -> bool {
        p.deg_x() > self.srs.max_deg_x || p.deg_y() > self.srs.max_deg_y
    }

    pub fn new(srs: Srs) -> (r: BivariateKzg)
        ensures
            r.srs == srs,
    {
        BivariateKzg { srs }
    }

    /// The batches whose multi-scalar multiplication is the commitment to
    /// `p`: its coefficients row by row, and the matching basis elements.
    /// `DegreeExceeded` exactly when `p`'s bounds exceed the reference
    /// string's.
    pub fn commitment_batches(&self, p: &BivariatePolynomial) -> (r: Result<
        (Vec<Scalar>, Vec<G1Point>),
        KzgError,
    >)
        requires
            self.wf(),
            p.wf(),
        ensures
            r is Err <==> self.exceeds(*p),
            r is Err ==> r->Err_0 == KzgError::DegreeExceeded,
            r is Ok ==> {
                let (scalars, points) = r->Ok_0;
                &&& all_fr(scalars@)
                &&& all_g1(points@)
                &&& scalars.len() == points.len()
                &&& values(scalars@) == flat(p@)
                &&& g1_views(points@) == flat(
                    basis_block(self.srs, (p.deg_x() + 1) as int, (p.deg_y() + 1) as int),
                )
            },
    {
        if p.max_deg_x > self.srs.max_deg_x || p.max_deg_y > self.srs.max_deg_y {
            return Err(KzgError::DegreeExceeded);
        }
        let n = p.max_deg_x + 1;
        let m = p.max_deg_y + 1;
        let ghost c = p@;
        let ghost b = basis_block(self.srs, n as int, m as int);
        let mut scalars: Vec<Scalar> = Vec::new();
        let mut points: Vec<G1Point> = Vec::new();
        assert(c.subrange(0, 0) =~= Seq::<Seq<int>>::empty());
        assert(b.subrange(0, 0) =~= Seq::<Seq<Seq<u8>>>::empty());
        for i in 0..n
            invariant
                self.wf(),
                p.wf(),
                n == p.max_deg_x + 1,
                m == p.max_deg_y + 1,
                n <= self.srs.max_deg_x + 1,
                m <= self.srs.max_deg_y + 1,
                c == p@,
                b == basis_block(self.srs, n as int, m as int),
                all_fr(scalars@),
                all_g1(points@),
                scalars.len() == points.len(),
                values(scalars@) == flat(c.subrange(0, i as int)),
                g1_views(points@) == flat(b.subrange(0, i as int)),
        {
            let ghost sprefix = values(scalars@);
            let ghost prefix = g1_views(points@);
            assert(p.coeffs@[i as int].len() == m && all_fr(p.coeffs@[i as int]@));
            assert(self.srs.g1@[i as int].len() == self.srs.max_deg_y + 1);
            for j in 0..m
                invariant
                    self.wf(),
                    p.wf(),
                    i < n,
                    n == p.max_deg_x + 1,
                    m == p.max_deg_y + 1,
                    n <= self.srs.max_deg_x + 1,
                    m <= self.srs.max_deg_y + 1,
                    c == p@,
                    b == basis_block(self.srs, n as int, m as int),
                    all_fr(scalars@),
                    all_g1(points@),
                    scalars.len() == points.len(),
                    values(scalars@) == sprefix + c[i as int].subrange(0, j as int),
                    g1_views(points@) == prefix + b[i as int].subrange(0, j as int),
            {
                assert(p.coeffs@[i as int]@[j as int].wf());
                assert(self.srs.g1@[i as int]@[j as int].wf());
                let ghost sv = values(scalars@);
                let ghost pv = g1_views(points@);
                scalars.push(p.coeffs[i][j]);
                points.push(self.srs.g1[i][j]);
                assert(values(scalars@) =~= sv.push(c[i as int][j as int]));
                assert(g1_views(points@) =~= pv.push(b[i as int][j as int]));
                assert(c[i as int].subrange(0, j + 1) =~= c[i as int].subrange(0, j as int).push(
                    c[i as int][j as int],
                ));
                assert(b[i as int].subrange(0, j + 1) =~= b[i as int].subrange(0, j as int).push(
                    b[i as int][j as int],
                ));
            }
            assert(c[i as int].subrange(0, m as int) =~= c[i as int]);
            assert(b[i as int].subrange(0, m as int) =~= b[i as int]);
            assert(c.subrange(0, i + 1).drop_last() =~= c.subrange(0, i as int));
            assert(b.subrange(0, i + 1).drop_last() =~= b.subrange(0, i as int));
        }
        assert(c.subrange(0, n as int) =~= c);
        assert(b.subrange(0, n as int) =~= b);
        Ok((scalars, points))
    }

    /// Commits to `p`: `sum_{i,j} p[i][j] * basis(i, j)`, by one
    /// multi-scalar multiplication. `DegreeExceeded` exactly when `p`'s
    /// bounds exceed the reference string's.
    pub fn commit_bivariate(&self, p: &BivariatePolynomial) -> (r: Result<G1Point, KzgError>)
        requires
            self.wf(),
            p.wf(),
        ensures
            r is Err <==> self.exceeds(*p),
            r is Err ==> r->Err_0 == KzgError::DegreeExceeded,
            r is Ok ==> r->Ok_0.wf() && r->Ok_0@ == commitment_of(
                p@,
                self.srs,
                (p.deg_x() + 1) as int,
                (p.deg_y() + 1) as int,
            ),
    {
        match self.commitment_batches(p) {
            Ok((scalars, points)) => bls12_381_g1_msm(&scalars, &points),
            Err(e) => Err(e),
        }
    }

    /// Commits to the polynomial in Y alone with coefficients `coeffs`:
    /// `sum_j coeffs[j] * basis(0, j)`. `DegreeExceeded` exactly when it
    /// has more coefficients than the reference string has columns.
    pub fn commit_univariate(&self, coeffs: &Vec<Scalar>) -> (r: Result<G1Point, KzgError>)
        requires
            self.wf(),
            all_fr(coeffs@),
        ensures
            r is Err <==> coeffs.len() > self.srs.max_deg_y + 1,
            r is Err ==> r->Err_0 == KzgError::DegreeExceeded,
            r is Ok ==> r->Ok_0.wf() && r->Ok_0@ == univariate_commitment_of(
                values(coeffs@),
                self.srs,
            ),
    {
        if coeffs.len() > self.srs.max_deg_y + 1 {
            return Err(KzgError::DegreeExceeded);
        }
        let m = coeffs.len();
        assert(self.srs.g1@[0].len() == self.srs.max_deg_y + 1);
        let mut points: Vec<G1Point> = Vec::new();
        for j in 0..m
            invariant
                self.wf(),
                m == coeffs.len(),
                m <= self.srs.max_deg_y + 1,
                all_g1(points@),
                g1_views(points@) =~= Seq::new(j as nat, |k: int| self.srs.basis(0, k)),
        {
            assert(self.srs.g1@[0]@[j as int].wf());
            let ghost pv = g1_views(points@);
            points.push(self.srs.g1[0][j]);
            assert(g1_views(points@) =~= pv.push(self.srs.basis(0, j as int)));
        }
        bls12_381_g1_msm(coeffs, &points)
    }

    /// Opens `p` at `(x, y)`: returns `v = p(x, y)` and the proof
    /// `(commit(q1), commit(q2))`, where `q1` is the quotient of `p` by
    /// `(X - x)`, and `q2` that of the remainder `p(x, Y)` by `(Y - y)`.
    /// `DegreeExceeded` exactly as for `commit_bivariate`.
    pub fn open(&self, p: &BivariatePolynomial, x: &Scalar, y: &Scalar) -> (r: Result<
        (Scalar, (G1Point, G1Point)),
        KzgError,
    >)
        requires
            self.wf(),
            p.wf(),
            x.wf(),
            y.wf(),
        ensures
            r is Err <==> self.exceeds(*p),
            r is Err ==> r->Err_0 == KzgError::DegreeExceeded,
            r is Ok ==> {
                let (v, (q1, q2)) = r->Ok_0;
                let n = (p.deg_x() + 1) as int;
                let m = (p.deg_y() + 1) as int;
                &&& v.wf()
                &&& v.value() == bi_eval(p@, x.value(), y.value())
                &&& q1.wf()
                &&& q1@ == commitment_of(x_quotient(p@, x.value(), n, m), self.srs, n, m)
                &&& q2.wf()
                &&& q2@ == univariate_commitment_of(
                    quotient(x_remainder(p@, x.value(), m), y.value()),
                    self.srs,
                )
            },
    {
        if p.max_deg_x > self.srs.max_deg_x || p.max_deg_y > self.srs.max_deg_y {
            return Err(KzgError::DegreeExceeded);
        }
        let v = p.evaluate(x, y);
        let (q1, rem) = p.divide_by_x_minus_a(x);
        let (q2, _) = crate::polynomial::divide_by_y_minus_b(&rem, y);
        let ghost n = (p.deg_x() + 1) as int;
        let ghost m = (p.deg_y() + 1) as int;
        assert(q1@ =~= x_quotient(p@, x.value(), n, m)) by {
            assert forall|i: int| 0 <= i < n implies #[trigger] q1@[i] =~= x_quotient(
                p@,
                x.value(),
                n,
                m,
            )[i] by {
                assert(q1.coeffs@[i].len() == m);
            }
        }
        assert(values(rem@) =~= x_remainder(p@, x.value(), m));
        assert(values(q2@).len() == q2.len());
        assert(q2.len() == rem.len());
        let c1 = match self.commit_bivariate(&q1) {
            Ok(c) => c,
            Err(e) => return Err(e),
        };
        let c2 = match self.commit_univariate(&q2) {
            Ok(c) => c,
            Err(e) => return Err(e),
        };
        Ok((v, (c1, c2)))
    }

    /// Checks an opening: true exactly when the pairing equation
    /// `e(C - v G, h) = e(Q1, tau_x h - x h) e(Q2, tau_y h - y h)` holds.
    pub fn verify(
        &self,
        x: &Scalar,
        y: &Scalar,
        evaluation: &Scalar,
        commitment: &G1Point,
        proof: &(G1Point, G1Point),
    ) -> (r: bool)
        requires
            self.wf(),
            x.wf(),
            y.wf(),
            evaluation.wf(),
            commitment.wf(),
            proof.0.wf(),
            proof.1.wf(),
        ensures
            r == verify_spec(
                self.srs,
                x.value(),
                y.value(),
                evaluation.value(),
                commitment@,
                proof.0@,
                proof.1@,
            ),
    {
        let (q1, q2) = proof;
        let vg = self.srs.g.scale(evaluation);
        let a = commitment.add(&vg.neg());
        let a = a.add(&q1.scale(x));
        let a = a.add(&q2.scale(y));
        let g1s: Vec<G1Point> = vec![a, q1.neg(), q2.neg()];
        let g2s: Vec<G2Point> = vec![self.srs.h, self.srs.tau_x_h, self.srs.tau_y_h];
        assert(g1_views(g1s@) =~= seq![a@, g1_negated(q1@), g1_negated(q2@)]);
        assert(crate::group::g2_views(g2s@) =~= seq![self.srs.h@, self.srs.tau_x_h@, self.srs.tau_y_h@]);
        pairing_check(&g1s, &g2s)
    }

    /// The encoding of an opening proof: the two points' encodings, one
    /// after the other.
    pub fn proof_to_bytes(proof: &(G1Point, G1Point)) -> (r: Vec<u8>)
        ensures
            r@ == proof.0@ + proof.1@,
    {
        let mut r = proof.0.to_bytes();
        let mut b = proof.1.to_bytes();
        r.append(&mut b);
        r
    }

    /// Checks an opening given as bytes: the evaluation as 32 big-endian
    /// bytes, the commitment and the two proof points as compressed
    /// encodings. `InvalidEncoding` exactly when one of them does not
    /// decode; otherwise the result of `verify` on the decoded values.
    pub fn verify_bytes(
        &self,
        x: &Scalar,
        y: &Scalar,
        evaluation: &[u8],
        commitment: &[u8],
        proof: &[u8],
    ) -> (r: Result<bool, KzgError>)
        requires
            self.wf(),
            x.wf(),
            y.wf(),
        ensures
            r is Ok <==> {
                &&& evaluation@.len() == 32
                &&& be_value(evaluation@) < fr_modulus()
                &&& g1_decodes(commitment@)
                &&& proof@.len() == 2 * crate::group::G1_BYTES
                &&& g1_decodes(proof@.subrange(0, 48))
                &&& g1_decodes(proof@.subrange(48, 96))
            },
            r is Err ==> r->Err_0 == KzgError::InvalidEncoding,
            r is Ok ==> r->Ok_0 == verify_spec(
                self.srs,
                x.value(),
                y.value(),
                be_value(evaluation@) as int,
                g1_decoded(commitment@)->0,
                g1_decoded(proof@.subrange(0, 48))->0,
                g1_decoded(proof@.subrange(48, 96))->0,
            ),
    {
        let v = match Scalar::from_bytes_be(evaluation) {
            Ok(v) => v,
            Err(e) => return Err(e),
        };
        let c = match G1Point::from_bytes(commitment) {
            Ok(c) => c,
            Err(e) => return Err(e),
        };
        if proof.len() != 96 {
            return Err(KzgError::InvalidEncoding);
        }
        let q1 = match G1Point::from_bytes(slice_subrange(proof, 0, 48)) {
            Ok(q) => q,
            Err(e) => return Err(e),
        };
        let q2 = match G1Point::from_bytes(slice_subrange(proof, 48, 96)) {
            Ok(q) => q,
            Err(e) => return Err(e),
        };
        Ok(self.verify(x, y, &v, &c, &(q1, q2)))
    }
}

} // verus!
