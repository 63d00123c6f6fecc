use crate::error::KzgError;
use crate::field::{fadd, fmul, fr_modulus, fsub, is_fr, Scalar};
use vstd::arithmetic::div_mod::{lemma_add_mod_noop, lemma_add_mod_noop_right, lemma_mul_mod_noop_right};
use vstd::prelude::*;

verus! {

/// The values of a sequence of scalars.
pub open spec fn values(v: Seq<Scalar>) -> Seq<int> {
    v.map_values(|s: Scalar| s.value())
}

/// Every scalar of the sequence is canonical.
pub open spec fn all_fr(v: Seq<Scalar>) -> bool {
    forall|k: int| 0 <= k < v.len() ==> #[trigger] v[k].wf()
}

/// The value at `x` of the univariate polynomial with coefficients `s`
/// (`s[k]` the coefficient of degree k), computed in the scalar field.
pub open spec fn eval(s: Seq<int>, x: int) -> int
    decreases s.len(),
{
    if s.len() == 0 {
        0
    } else {
        fadd(s[0], fmul(x, eval(s.drop_first(), x)))
    }
}

/// The coefficients of the quotient of `s` by `(X - a)`: coefficient k is
/// the value at `a` of the terms of `s` above degree k, shifted down.
/// The sequence keeps the length of `s`; its top coefficient is zero.
pub open spec fn quotient(s: Seq<int>, a: int) -> Seq<int> {
    Seq::new(s.len(), |k: int| eval(s.subrange(k + 1, s.len() as int), a))
}

/// Column `j` of a coefficient table: the coefficients of `Y^j`, by degree in X.
pub open spec fn column(c: Seq<Seq<int>>, j: int) -> Seq<int> {
    Seq::new(c.len(), |i: int| c[i][j])
}

/// The value at `(x, y)` of the bivariate polynomial with coefficients
/// `c[i][j]` of `X^i Y^j`.
pub open spec fn bi_eval(c: Seq<Seq<int>>, x: int, y: int) -> int {
    eval(Seq::new(c.len(), |i: int| eval(c[i], y)), x)
}

/// The values of a table of scalars.
pub open spec fn table_values(t: Seq<Vec<Scalar>>) -> Seq<Seq<int>> {
    Seq::new(t.len(), |i: int| values(t[i]@))
}

/// A rectangular table of `n` rows of `m` field values each.
pub open spec fn is_table(c: Seq<Seq<int>>, n: int, m: int) -> bool {
    &&& c.len() == n
    &&& forall|i: int| 0 <= i < n ==> (#[trigger] c[i]).len() == m
    &&& forall|i: int, j: int| 0 <= i < n && 0 <= j < m ==> is_fr(#[trigger] c[i][j])
}

/// `raw` placed in an `n` by `m` table, zero where it has no entry.
pub open spec fn padded(raw: Seq<Seq<int>>, n: int, m: int) -> Seq<Seq<int>> {
    Seq::new(
        n as nat,
        |i: int|
            Seq::new(
                m as nat,
                |j: int|
                    if i < raw.len() && j < raw[i].len() {
                        raw[i][j]
                    } else {
                        0
                    },
            ),
    )
}

/// Every row of `raw` fits within `n` rows of `m` entries.
pub open spec fn fits(raw: Seq<Seq<int>>, n: int, m: int) -> bool {
    raw.len() <= n && forall|i: int| 0 <= i < raw.len() ==> (#[trigger] raw[i]).len() <= m
}

proof fn lemma_eval_suffix(s: Seq<int>, k: int, x: int)
    requires
        0 <= k < s.len(),
    ensures
        eval(s.subrange(k, s.len() as int), x) == fadd(
            s[k],
            fmul(x, eval(s.subrange(k + 1, s.len() as int), x)),
        ),
{
    assert(s.subrange(k, s.len() as int).drop_first() =~= s.subrange(k + 1, s.len() as int));
}

/// A vector of `m` zero scalars.
fn zeros(m: usize) -> (v: Vec<Scalar>)
    ensures
        v.len() == m,
        all_fr(v@),
        forall|k: int| 0 <= k < m ==> (#[trigger] v[k]).value() == 0,
{
    let mut v: Vec<Scalar> = Vec::new();
    for k in 0..m
        invariant
            v.len() == k,
            all_fr(v@),
            forall|i: int| 0 <= i < k ==> (#[trigger] v[i]).value() == 0,
    {
        v.push(Scalar::zero());
    }
    v
}

/// Evaluates the univariate polynomial with coefficients `coeffs` at `x`,
/// by Horner's rule.
pub fn evaluate_univariate(coeffs: &Vec<Scalar>, x: &Scalar) -> (r: Scalar)
    requires
        all_fr(coeffs@),
        x.wf(),
    ensures
        r.wf(),
        r.value() == eval(values(coeffs@), x.value()),
{
    let n = coeffs.len();
    let ghost s = values(coeffs@);
    let mut acc = Scalar::zero();
    let mut k: usize = n;
    assert(s.subrange(n as int, n as int).len() == 0);
    while k > 0
        invariant
            k <= n,
            n == coeffs.len(),
            s == values(coeffs@),
            all_fr(coeffs@),
            x.wf(),
            acc.wf(),
            acc.value() == eval(s.subrange(k as int, n as int), x.value()),
        decreases k,
    {
        k = k - 1;
        proof {
            lemma_eval_suffix(s, k as int, x.value());
        }
        let t = x.mul(&acc);
        acc = coeffs[k].add(&t);
    }
    assert(s.subrange(0, n as int) =~= s);
    acc
}

/// Synthetic division of a univariate polynomial by `(Y - b)`: returns the
/// quotient, of the same length as `coeffs` with a zero top coefficient,
/// and the remainder, which is the polynomial's value at `b`.
pub fn divide_by_y_minus_b(coeffs: &Vec<Scalar>, b: &Scalar) -> (res: (Vec<Scalar>, Scalar))
    requires
        all_fr(coeffs@),
        b.wf(),
    ensures
        all_fr(res.0@),
        values(res.0@) == quotient(values(coeffs@), b.value()),
        res.1.wf(),
        res.1.value() == eval(values(coeffs@), b.value()),
{
    let n = coeffs.len();
    let ghost s = values(coeffs@);
    let mut q = zeros(n);
    let mut acc = Scalar::zero();
    let mut k: usize = n;
    assert(s.subrange(n as int, n as int).len() == 0);
    while k > 0
        invariant
            k <= n,
            n == coeffs.len(),
            s == values(coeffs@),
            all_fr(coeffs@),
            b.wf(),
            acc.wf(),
            acc.value() == eval(s.subrange(k as int, n as int), b.value()),
            q.len() == n,
            all_fr(q@),
            forall|i: int|
                k <= i < n ==> (#[trigger] q[i]).value() == eval(
                    s.subrange(i + 1, n as int),
                    b.value(),
                ),
        decreases k,
    {
        k = k - 1;
        proof {
            lemma_eval_suffix(s, k as int, b.value());
        }
        q.set(k, acc);
        let t = b.mul(&acc);
        acc = coeffs[k].add(&t);
    }
    assert(s.subrange(0, n as int) =~= s);
    assert(values(q@) =~= quotient(s, b.value()));
    (q, acc)
}


/// A polynomial in X and Y with declared degree bounds: `coeffs[i][j]` is
/// the coefficient of `X^i Y^j`, for `i <= max_deg_x` and `j <= max_deg_y`.
/// The table is dense; an absent term has coefficient zero.
#[derive(Clone, Debug)]
pub struct BivariatePolynomial {
    pub coeffs: Vec<Vec<Scalar>>,
    pub max_deg_x: usize,
    pub max_deg_y: usize,
}

impl View for BivariatePolynomial {
    type V = Seq<Seq<int>>;

    open spec fn view(&self) -> Seq<Seq<int>> {
        table_values(self.coeffs@)
    }
}

impl BivariatePolynomial {
    pub open spec fn deg_x(&self) -> nat {
        self.max_deg_x as nat
    }

    pub open spec fn deg_y(&self) -> nat {
        self.max_deg_y as nat
    }

    /// The table has `max_deg_x + 1` rows of `max_deg_y + 1` canonical scalars.
    pub open spec fn wf(&self) -> bool {
        &&& self.max_deg_x < usize::MAX
        &&& self.max_deg_y < usize::MAX
        &&& self.coeffs.len() == self.max_deg_x + 1
        &&& forall|i: int|
            0 <= i < self.coeffs.len() ==> (#[trigger] self.coeffs@[i]).len() == self.max_deg_y
                + 1 && all_fr(self.coeffs@[i]@)
    }

    /// Builds the polynomial of degree at most `max_deg_x` in X and
    /// `max_deg_y` in Y whose coefficient of `X^i Y^j` is `coeffs[i][j]`,
    /// zero where `coeffs` has no entry. A coefficient beyond the bounds is
    /// rejected with `DegreeExceeded`.
    pub fn new(max_deg_x: usize, max_deg_y: usize, coeffs: Vec<Vec<Scalar>>) -> (r: Result<
        BivariatePolynomial,
        KzgError,
    >)
        requires
            max_deg_x < usize::MAX,
            max_deg_y < usize::MAX,
            forall|i: int| 0 <= i < coeffs.len() ==> all_fr(#[trigger] coeffs@[i]@),
        ensures
            r is Ok <==> fits(
                table_values(coeffs@),
                max_deg_x + 1,
                max_deg_y + 1,
            ),
            r is Err ==> r->Err_0 == KzgError::DegreeExceeded,
            r is Ok ==> {
                let p = r->Ok_0;
                &&& p.wf()
                &&& p.deg_x() == max_deg_x
                &&& p.deg_y() == max_deg_y
                &&& p@ == padded(
                    table_values(coeffs@),
                    max_deg_x + 1,
                    max_deg_y + 1,
                )
            },
    {
        let ghost raw = table_values(coeffs@);
        let n = max_deg_x + 1;
        let m = max_deg_y + 1;
        if coeffs.len() > n {
            return Err(KzgError::DegreeExceeded);
        }
        let mut k: usize = 0;
        while k < coeffs.len()
            invariant
                k <= coeffs.len(),
                n == max_deg_x + 1,
                m == max_deg_y + 1,
                coeffs.len() <= n,
                raw == table_values(coeffs@),
                forall|i: int| 0 <= i < k ==> (#[trigger] coeffs@[i]).len() <= m,
            decreases coeffs.len() - k,
        {
            if coeffs[k].len() > m {
                assert(raw[k as int] == values(coeffs@[k as int]@));
                assert(raw[k as int].len() > m);
                assert(!fits(raw, n as int, m as int));
                return Err(KzgError::DegreeExceeded);
            }
            k = k + 1;
        }
        assert forall|i: int| 0 <= i < raw.len() implies (#[trigger] raw[i]).len() <= m by {
            assert(raw[i] == values(coeffs@[i]@));
        }
        let mut table: Vec<Vec<Scalar>> = Vec::new();
        for i in 0..n
            invariant
                n == max_deg_x + 1,
                m == max_deg_y + 1,
                coeffs.len() <= n,
                forall|i: int| 0 <= i < coeffs.len() ==> (#[trigger] coeffs@[i]).len() <= m,
                forall|i: int| 0 <= i < coeffs.len() ==> all_fr(#[trigger] coeffs@[i]@),
                raw == table_values(coeffs@),
                table.len() == i,
                forall|r: int|
                    0 <= r < i ==> (#[trigger] table@[r]).len() == m && all_fr(table@[r]@),
                forall|r: int|
                    0 <= r < i ==> values(#[trigger] table@[r]@) == padded(raw, n as int, m as int)[r],
        {
            let mut row: Vec<Scalar> = Vec::new();
            for j in 0..m
                invariant
                    m == max_deg_y + 1,
                    i < n,
                    coeffs.len() <= n,
                    forall|i: int| 0 <= i < coeffs.len() ==> (#[trigger] coeffs@[i]).len() <= m,
                    forall|i: int| 0 <= i < coeffs.len() ==> all_fr(#[trigger] coeffs@[i]@),
                    raw == table_values(coeffs@),
                    row.len() == j,
                    all_fr(row@),
                    forall|jj: int|
                        0 <= jj < j ==> (#[trigger] row@[jj]).value() == padded(
                            raw,
                            n as int,
                            m as int,
                        )[i as int][jj],
            {
                if i < coeffs.len() && j < coeffs[i].len() {
                    row.push(coeffs[i][j]);
                } else {
                    row.push(Scalar::zero());
                }
            }
            assert(values(row@) =~= padded(raw, n as int, m as int)[i as int]);
            table.push(row);
        }
        let p = BivariatePolynomial { coeffs: table, max_deg_x, max_deg_y };
        assert(p@ =~= padded(raw, n as int, m as int));
        Ok(p)
    }

    /// The zero polynomial with the given degree bounds.
    pub fn zero(max_deg_x: usize, max_deg_y: usize) -> (r: BivariatePolynomial)
        requires
            max_deg_x < usize::MAX,
            max_deg_y < usize::MAX,
        ensures
            r.wf(),
            r.deg_x() == max_deg_x,
            r.deg_y() == max_deg_y,
            forall|i: int, j: int|
                0 <= i <= max_deg_x && 0 <= j <= max_deg_y ==> #[trigger] r@[i][j] == 0,
    {
        let mut table: Vec<Vec<Scalar>> = Vec::new();
        for i in 0..max_deg_x + 1
            invariant
                max_deg_y < usize::MAX,
                table.len() == i,
                forall|r: int|
                    0 <= r < i ==> (#[trigger] table@[r]).len() == max_deg_y + 1 && all_fr(
                        table@[r]@,
                    ) && forall|j: int| 0 <= j <= max_deg_y ==> (#[trigger] table@[r]@[j]).value() == 0,
        {
            table.push(zeros(max_deg_y + 1));
        }
        BivariatePolynomial { coeffs: table, max_deg_x, max_deg_y }
    }

    pub fn max_deg_x(&self) -> (r: usize)
        ensures
            r == self.deg_x(),
    {
        self.max_deg_x
    }

    pub fn max_deg_y(&self) -> (r: usize)
        ensures
            r == self.deg_y(),
    {
        self.max_deg_y
    }

    /// The coefficient of `X^i Y^j`; zero beyond the degree bounds.
    pub fn coefficient(&self, i: usize, j: usize) -> (r: Scalar)
        requires
            self.wf(),
        ensures
            r.wf(),
            i <= self.deg_x() && j <= self.deg_y() ==> r.value() == self@[i as int][j as int],
            !(i <= self.deg_x() && j <= self.deg_y()) ==> r.value() == 0,
    {
        if i <= self.max_deg_x && j <= self.max_deg_y {
            assert(self.coeffs@[i as int]@[j as int].wf());
            self.coeffs[i][j]
        } else {
            Scalar::zero()
        }
    }

    /// The polynomial's value at `(x, y)`: each row is evaluated at `y`, then
    /// the row values at `x`.
    pub fn evaluate(&self, x: &Scalar, y: &Scalar) -> (r: Scalar)
        requires
            self.wf(),
            x.wf(),
            y.wf(),
        ensures
            r.wf(),
            r.value() == bi_eval(self@, x.value(), y.value()),
    {
        let n = self.coeffs.len();
        let mut rows: Vec<Scalar> = Vec::new();
        for i in 0..n
            invariant
                n == self.coeffs.len(),
                self.wf(),
                y.wf(),
                rows.len() == i,
                all_fr(rows@),
                forall|k: int| 0 <= k < i ==> (#[trigger] rows@[k]).value() == eval(self@[k], y.value()),
        {
            assert(self.coeffs@[i as int].len() == self.max_deg_y + 1);
            rows.push(evaluate_univariate(&self.coeffs[i], y));
        }
        assert(values(rows@) =~= Seq::new(self@.len(), |i: int| eval(self@[i], y.value())));
        evaluate_univariate(&rows, x)
    }

    /// The coefficient-wise sum of two polynomials of the same bounds.
    pub fn add(&self, other: &BivariatePolynomial) -> (r: BivariatePolynomial)
        requires
            self.wf(),
            other.wf(),
            self.deg_x() == other.deg_x(),
            self.deg_y() == other.deg_y(),
        ensures
            r.wf(),
            r.deg_x() == self.deg_x(),
            r.deg_y() == self.deg_y(),
            forall|i: int, j: int|
                0 <= i <= self.deg_x() && 0 <= j <= self.deg_y() ==> #[trigger] r@[i][j] == fadd(
                    self@[i][j],
                    other@[i][j],
                ),
    {
        let mut table: Vec<Vec<Scalar>> = Vec::new();
        for i in 0..self.max_deg_x + 1
            invariant
                self.wf(),
                other.wf(),
                self.deg_x() == other.deg_x(),
                self.deg_y() == other.deg_y(),
                table.len() == i,
                forall|a: int|
                    0 <= a < i ==> (#[trigger] table@[a]).len() == self.max_deg_y + 1 && all_fr(
                        table@[a]@,
                    ),
                forall|a: int, b: int|
                    0 <= a < i && 0 <= b <= self.max_deg_y ==> (#[trigger] table@[a]@[b]).value()
                        == fadd(self@[a][b], other@[a][b]),
        {
            assert(self.coeffs@[i as int].len() == self.max_deg_y + 1);
            assert(other.coeffs@[i as int].len() == self.max_deg_y + 1);
            let mut row: Vec<Scalar> = Vec::new();
            for j in 0..self.max_deg_y + 1
                invariant
                    self.wf(),
                    other.wf(),
                    i <= self.max_deg_x,
                    self.deg_x() == other.deg_x(),
                    self.deg_y() == other.deg_y(),
                    self.coeffs@[i as int].len() == self.max_deg_y + 1,
                    other.coeffs@[i as int].len() == self.max_deg_y + 1,
                    row.len() == j,
                    all_fr(row@),
                    forall|b: int|
                        0 <= b < j ==> (#[trigger] row@[b]).value() == fadd(
                            self@[i as int][b],
                            other@[i as int][b],
                        ),
            {
                assert(self.coeffs@[i as int]@[j as int].wf());
                assert(other.coeffs@[i as int]@[j as int].wf());
                row.push(self.coeffs[i][j].add(&other.coeffs[i][j]));
            }
            table.push(row);
        }
        let r = BivariatePolynomial {
            coeffs: table,
            max_deg_x: self.max_deg_x,
            max_deg_y: self.max_deg_y,
        };
        assert forall|i: int, j: int|
            0 <= i <= self.deg_x() && 0 <= j <= self.deg_y() implies #[trigger] r@[i][j] == fadd(
            self@[i][j],
            other@[i][j],
        ) by {
            assert(r@[i][j] == r.coeffs@[i]@[j].value());
        }
        r
    }

    /// Every coefficient multiplied by `k`.
    pub fn scale(&self, k: &Scalar) -> (r: BivariatePolynomial)
        requires
            self.wf(),
            k.wf(),
        ensures
            r.wf(),
            r.deg_x() == self.deg_x(),
            r.deg_y() == self.deg_y(),
            forall|i: int, j: int|
                0 <= i <= self.deg_x() && 0 <= j <= self.deg_y() ==> #[trigger] r@[i][j] == fmul(
                    k.value(),
                    self@[i][j],
                ),
    {
        let mut table: Vec<Vec<Scalar>> = Vec::new();
        for i in 0..self.max_deg_x + 1
            invariant
                self.wf(),
                k.wf(),
                table.len() == i,
                forall|a: int|
                    0 <= a < i ==> (#[trigger] table@[a]).len() == self.max_deg_y + 1 && all_fr(
                        table@[a]@,
                    ),
                forall|a: int, b: int|
                    0 <= a < i && 0 <= b <= self.max_deg_y ==> (#[trigger] table@[a]@[b]).value()
                        == fmul(k.value(), self@[a][b]),
        {
            assert(self.coeffs@[i as int].len() == self.max_deg_y + 1);
            let mut row: Vec<Scalar> = Vec::new();
            for j in 0..self.max_deg_y + 1
                invariant
                    self.wf(),
                    k.wf(),
                    i <= self.max_deg_x,
                    self.coeffs@[i as int].len() == self.max_deg_y + 1,
                    row.len() == j,
                    all_fr(row@),
                    forall|b: int|
                        0 <= b < j ==> (#[trigger] row@[b]).value() == fmul(
                            k.value(),
                            self@[i as int][b],
                        ),
            {
                assert(self.coeffs@[i as int]@[j as int].wf());
                row.push(k.mul(&self.coeffs[i][j]));
            }
            table.push(row);
        }
        let r = BivariatePolynomial {
            coeffs: table,
            max_deg_x: self.max_deg_x,
            max_deg_y: self.max_deg_y,
        };
        assert forall|i: int, j: int|
            0 <= i <= self.deg_x() && 0 <= j <= self.deg_y() implies #[trigger] r@[i][j] == fmul(
            k.value(),
            self@[i][j],
        ) by {
            assert(r@[i][j] == r.coeffs@[i]@[j].value());
        }
        r
    }

    /// Synthetic division by `(X - a)`, the polynomial read as one in X whose
    /// coefficients are polynomials in Y. Returns the quotient, with the same
    /// degree bounds and a zero top row, and the remainder, a polynomial in Y
    /// whose coefficient of `Y^j` is column j's value at `a`: the formal
    /// polynomial `evaluate(a, Y)`.
    pub fn divide_by_x_minus_a(&self, a: &Scalar) -> (res: (BivariatePolynomial, Vec<Scalar>))
        requires
            self.wf(),
            a.wf(),
        ensures
            res.0.wf(),
            res.0.deg_x() == self.deg_x(),
            res.0.deg_y() == self.deg_y(),
            forall|i: int, j: int|
                0 <= i <= self.deg_x() && 0 <= j <= self.deg_y() ==> #[trigger] res.0@[i][j]
                    == quotient(column(self@, j), a.value())[i],
            res.1.len() == self.deg_y() + 1,
            all_fr(res.1@),
            forall|j: int|
                0 <= j <= self.deg_y() ==> #[trigger] values(res.1@)[j] == eval(
                    column(self@, j),
                    a.value(),
                ),
    {
        let n = self.coeffs.len();
        let m = self.max_deg_y + 1;
        let ghost c = self@;
        let mut q: Vec<Vec<Scalar>> = Vec::new();
        for i in 0..n
            invariant
                q.len() == i,
                forall|r: int| 0 <= r < i ==> (#[trigger] q@[r]).len() == m && all_fr(q@[r]@),
        {
            q.push(zeros(m));
        }
        let mut acc = zeros(m);
        let mut k: usize = n;
        proof {
            assert forall|j: int| 0 <= j < m implies (#[trigger] acc@[j]).value() == eval(
                column(c, j).subrange(n as int, n as int),
                a.value(),
            ) by {
                assert(column(c, j).subrange(n as int, n as int).len() == 0);
            }
        }
        while k > 0
            invariant
                k <= n,
                n == self.coeffs.len(),
                m == self.max_deg_y + 1,
                c == self@,
                self.wf(),
                a.wf(),
                acc.len() == m,
                all_fr(acc@),
                forall|j: int|
                    0 <= j < m ==> (#[trigger] acc@[j]).value() == eval(
                        column(c, j).subrange(k as int, n as int),
                        a.value(),
                    ),
                q.len() == n,
                forall|r: int| 0 <= r < n ==> (#[trigger] q@[r]).len() == m && all_fr(q@[r]@),
                forall|r: int, j: int|
                    k <= r < n && 0 <= j < m ==> (#[trigger] q@[r]@[j]).value() == eval(
                        column(c, j).subrange(r + 1, n as int),
                        a.value(),
                    ),
            decreases k,
        {
            k = k - 1;
            assert(self.coeffs@[k as int].len() == m && all_fr(self.coeffs@[k as int]@));
            let mut next: Vec<Scalar> = Vec::new();
            for j in 0..m
                invariant
                    k < n,
                    n == self.coeffs.len(),
                    m == self.max_deg_y + 1,
                    self.coeffs@[k as int].len() == m,
                    all_fr(self.coeffs@[k as int]@),
                    a.wf(),
                    acc.len() == m,
                    all_fr(acc@),
                    next.len() == j,
                    all_fr(next@),
                    forall|jj: int|
                        0 <= jj < j ==> (#[trigger] next@[jj]).value() == fadd(
                            self.coeffs@[k as int]@[jj].value(),
                            fmul(a.value(), acc@[jj].value()),
                        ),
            {
                let t = a.mul(&acc[j]);
                next.push(self.coeffs[k][j].add(&t));
            }
            proof {
                assert forall|j: int| 0 <= j < m implies (#[trigger] next@[j]).value() == eval(
                    column(c, j).subrange(k as int, n as int),
                    a.value(),
                ) by {
                    lemma_eval_suffix(column(c, j), k as int, a.value());
                    assert(column(c, j)[k as int] == self.coeffs@[k as int]@[j].value());
                }
            }
            q.set(k, acc);
            acc = next;
        }
        let quot = BivariatePolynomial {
            coeffs: q,
            max_deg_x: self.max_deg_x,
            max_deg_y: self.max_deg_y,
        };
        proof {
            assert forall|i: int, j: int|
                0 <= i <= self.deg_x() && 0 <= j <= self.deg_y() implies #[trigger] quot@[i][j]
                == quotient(column(self@, j), a.value())[i] by {
                assert(quot@[i][j] == quot.coeffs@[i]@[j].value());
            }
            assert forall|j: int| 0 <= j <= self.deg_y() implies #[trigger] values(acc@)[j] == eval(
                column(self@, j),
                a.value(),
            ) by {
                assert(column(c, j).subrange(0, n as int) =~= column(c, j));
            }
        }
        (quot, acc)
    }
}

/// The value of a polynomial in the field is a canonical field value.
pub proof fn lemma_eval_is_fr(s: Seq<int>, x: int)
    ensures
        crate::field::is_fr(eval(s, x)),
    decreases s.len(),
{
    crate::field::lemma_fr_modulus_bounds();
    if s.len() > 0 {
        vstd::arithmetic::div_mod::lemma_mod_bound(
            s[0] + fmul(x, eval(s.drop_first(), x)),
            fr_modulus(),
        );
    }
}

/// The value at `x` of the polynomial with coefficients `s`, over the
/// integers.
pub open spec fn int_eval(s: Seq<int>, x: int) -> int
    decreases s.len(),
{
    if s.len() == 0 {
        0
    } else {
        s[0] + x * int_eval(s.drop_first(), x)
    }
}

/// Evaluation in the field is evaluation over the integers, reduced.
pub proof fn lemma_eval_is_reduced(s: Seq<int>, x: int)
    ensures
        eval(s, x) == int_eval(s, x) % fr_modulus(),
    decreases s.len(),
{
    crate::field::lemma_fr_modulus_bounds();
    if s.len() > 0 {
        let r = fr_modulus();
        let t = int_eval(s.drop_first(), x);
        let e = eval(s.drop_first(), x);
        lemma_eval_is_reduced(s.drop_first(), x);
        assert(e == t % r);
        lemma_mul_mod_noop_right(x, t, r);
        assert(fmul(x, e) == (x * t) % r);
        lemma_add_mod_noop_right(s[0], x * t, r);
        assert(eval(s, x) == fadd(s[0], fmul(x, e)));
        assert(int_eval(s, x) == s[0] + x * t);
    } else {
        vstd::arithmetic::div_mod::lemma_small_mod(0, fr_modulus() as nat);
    }
}

/// Coefficients congruent modulo r give congruent values.
proof fn lemma_int_eval_congruent(s: Seq<int>, t: Seq<int>, x: int)
    requires
        s.len() == t.len(),
        forall|k: int| 0 <= k < s.len() ==> #[trigger] (s[k] % fr_modulus()) == t[k] % fr_modulus(),
    ensures
        int_eval(s, x) % fr_modulus() == int_eval(t, x) % fr_modulus(),
    decreases s.len(),
{
    crate::field::lemma_fr_modulus_bounds();
    if s.len() > 0 {
        let r = fr_modulus();
        let a = int_eval(s.drop_first(), x);
        let b = int_eval(t.drop_first(), x);
        assert forall|k: int| 0 <= k < s.drop_first().len() implies #[trigger] (s.drop_first()[k]
            % fr_modulus()) == t.drop_first()[k] % fr_modulus() by {
            assert(s.drop_first()[k] == s[k + 1]);
            assert(s[k + 1] % r == t[k + 1] % r);
        }
        lemma_int_eval_congruent(s.drop_first(), t.drop_first(), x);
        lemma_mul_mod_noop_right(x, a, r);
        lemma_mul_mod_noop_right(x, b, r);
        assert(s[0] % r == t[0] % r);
        lemma_add_mod_noop(s[0], x * a, r);
        lemma_add_mod_noop(t[0], x * b, r);
    }
}

/// Over the integers, `a + x g` evaluates to `a(y) + x g(y)`.
proof fn lemma_int_eval_linear(a: Seq<int>, g: Seq<int>, x: int, y: int)
    requires
        a.len() == g.len(),
    ensures
        int_eval(Seq::new(a.len(), |j: int| a[j] + x * g[j]), y) == int_eval(a, y) + x * int_eval(
            g,
            y,
        ),
    decreases a.len(),
{
    let s = Seq::new(a.len(), |j: int| a[j] + x * g[j]);
    if a.len() > 0 {
        let a1 = a.drop_first();
        let g1 = g.drop_first();
        assert(s.drop_first() =~= Seq::new(a1.len(), |j: int| a1[j] + x * g1[j]));
        lemma_int_eval_linear(a1, g1, x, y);
        let ea = int_eval(a1, y);
        let eg = int_eval(g1, y);
        assert(y * (ea + x * eg) == y * ea + x * (y * eg)) by (nonlinear_arith);
        assert(x * (g[0] + y * eg) == x * g[0] + x * (y * eg)) by (nonlinear_arith);
    }
}

/// A table's value over the integers, summing rows first.
spec fn int_by_rows(c: Seq<Seq<int>>, x: int, y: int) -> int {
    int_eval(Seq::new(c.len(), |i: int| int_eval(c[i], y)), x)
}

/// A table's value over the integers, summing columns first.
spec fn int_by_columns(c: Seq<Seq<int>>, m: int, x: int, y: int) -> int {
    int_eval(Seq::new(m as nat, |j: int| int_eval(column(c, j), x)), y)
}

proof fn lemma_int_eval_zeros(m: int, y: int)
    requires
        m >= 0,
    ensures
        int_eval(Seq::new(m as nat, |j: int| 0int), y) == 0,
    decreases m,
{
    if m > 0 {
        assert(Seq::new(m as nat, |j: int| 0int).drop_first() =~= Seq::new(
            (m - 1) as nat,
            |j: int| 0int,
        ));
        lemma_int_eval_zeros(m - 1, y);
    }
}

/// Over the integers, summing by rows and by columns agree.
proof fn lemma_int_sum_swap(c: Seq<Seq<int>>, m: int, x: int, y: int)
    requires
        m >= 0,
        forall|i: int| 0 <= i < c.len() ==> (#[trigger] c[i]).len() == m,
    ensures
        int_by_rows(c, x, y) == int_by_columns(c, m, x, y),
    decreases c.len(),
{
    if c.len() == 0 {
        assert(Seq::new(m as nat, |j: int| int_eval(column(c, j), x)) =~= Seq::new(
            m as nat,
            |j: int| 0int,
        ));
        lemma_int_eval_zeros(m, y);
    } else {
        let rest = c.drop_first();
        lemma_int_sum_swap(rest, m, x, y);
        let rows = Seq::new(c.len(), |i: int| int_eval(c[i], y));
        assert(rows.drop_first() =~= Seq::new(rest.len(), |i: int| int_eval(rest[i], y)));
        let g = Seq::new(m as nat, |j: int| int_eval(column(rest, j), x));
        let a = c[0];
        let cols = Seq::new(m as nat, |j: int| int_eval(column(c, j), x));
        assert forall|j: int| 0 <= j < m implies #[trigger] cols[j] == a[j] + x * g[j] by {
            assert(column(c, j).drop_first() =~= column(rest, j));
        }
        assert(cols =~= Seq::new(a.len(), |j: int| a[j] + x * g[j]));
        lemma_int_eval_linear(a, g, x, y);
    }
}

/// Evaluating the remainder of the division by `(X - x)` at `y` gives the
/// polynomial's value at `(x, y)`: summing by columns first or by rows first
/// agree.
pub proof fn lemma_eval_by_columns(c: Seq<Seq<int>>, m: int, x: int, y: int)
    requires
        m >= 0,
        forall|i: int| 0 <= i < c.len() ==> (#[trigger] c[i]).len() == m,
    ensures
        eval(Seq::new(m as nat, |j: int| eval(column(c, j), x)), y) == bi_eval(c, x, y),
{
    let r = fr_modulus();
    crate::field::lemma_fr_modulus_bounds();
    let rows = Seq::new(c.len(), |i: int| eval(c[i], y));
    let irows = Seq::new(c.len(), |i: int| int_eval(c[i], y));
    let cols = Seq::new(m as nat, |j: int| eval(column(c, j), x));
    let icols = Seq::new(m as nat, |j: int| int_eval(column(c, j), x));
    lemma_eval_is_reduced(rows, x);
    lemma_eval_is_reduced(cols, y);
    assert forall|k: int| 0 <= k < rows.len() implies #[trigger] (rows[k] % r) == irows[k] % r by {
        lemma_eval_is_reduced(c[k], y);
        vstd::arithmetic::div_mod::lemma_mod_twice(irows[k], r);
    }
    assert forall|k: int| 0 <= k < cols.len() implies #[trigger] (cols[k] % r) == icols[k] % r by {
        lemma_eval_is_reduced(column(c, k), x);
        vstd::arithmetic::div_mod::lemma_mod_twice(icols[k], r);
    }
    lemma_int_eval_congruent(rows, irows, x);
    lemma_int_eval_congruent(cols, icols, y);
    lemma_int_sum_swap(c, m, x, y);
}

/// The coefficient-wise field sum of two sequences of equal length.
pub open spec fn pointwise_sum(s: Seq<int>, t: Seq<int>) -> Seq<int> {
    Seq::new(s.len(), |j: int| fadd(s[j], t[j]))
}

/// Univariate evaluation is additive: `(s + t)(x) = s(x) + t(x)`.
pub proof fn lemma_eval_additive(s: Seq<int>, t: Seq<int>, x: int)
    requires
        s.len() == t.len(),
    ensures
        eval(pointwise_sum(s, t), x) == fadd(eval(s, x), eval(t, x)),
{
    let r = fr_modulus();
    crate::field::lemma_fr_modulus_bounds();
    let u = pointwise_sum(s, t);
    let w = Seq::new(s.len(), |j: int| s[j] + 1 * t[j]);
    assert forall|k: int| 0 <= k < u.len() implies #[trigger] (u[k] % r) == w[k] % r by {
        vstd::arithmetic::div_mod::lemma_mod_twice(s[k] + t[k], r);
    }
    lemma_eval_is_reduced(u, x);
    lemma_eval_is_reduced(s, x);
    lemma_eval_is_reduced(t, x);
    lemma_int_eval_congruent(u, w, x);
    lemma_int_eval_linear(s, t, 1, x);
    lemma_add_mod_noop(int_eval(s, x), int_eval(t, x), r);
}

/// Univariate evaluation is homogeneous: `(k s)(x) = k s(x)`.
pub proof fn lemma_eval_homogeneous(s: Seq<int>, k: int, x: int)
    ensures
        eval(Seq::new(s.len(), |j: int| fmul(k, s[j])), x) == fmul(k, eval(s, x)),
{
    let r = fr_modulus();
    crate::field::lemma_fr_modulus_bounds();
    let u = Seq::new(s.len(), |j: int| fmul(k, s[j]));
    let z = Seq::new(s.len(), |j: int| 0int);
    let w = Seq::new(z.len(), |j: int| z[j] + k * s[j]);
    assert forall|i: int| 0 <= i < u.len() implies #[trigger] (u[i] % r) == w[i] % r by {
        vstd::arithmetic::div_mod::lemma_mod_twice(k * s[i], r);
    }
    lemma_eval_is_reduced(u, x);
    lemma_eval_is_reduced(s, x);
    lemma_int_eval_congruent(u, w, x);
    lemma_int_eval_linear(z, s, k, x);
    lemma_int_eval_zeros(s.len() as int, x);
    assert(z =~= Seq::new(s.len() as nat, |j: int| 0int));
    lemma_mul_mod_noop_right(k, int_eval(s, x), r);
}

/// Evaluation of bivariate polynomials is linear: for `n` by `m` tables,
/// `(f + g)(x, y) = f(x, y) + g(x, y)` and `(k f)(x, y) = k f(x, y)`.
pub proof fn lemma_evaluate_linear(
    f: Seq<Seq<int>>,
    g: Seq<Seq<int>>,
    k: int,
    n: int,
    m: int,
    x: int,
    y: int,
)
    requires
        is_table(f, n, m),
        is_table(g, n, m),
    ensures
        bi_eval(Seq::new(n as nat, |i: int| pointwise_sum(f[i], g[i])), x, y) == fadd(
            bi_eval(f, x, y),
            bi_eval(g, x, y),
        ),
        bi_eval(Seq::new(n as nat, |i: int| Seq::new(m as nat, |j: int| fmul(k, f[i][j]))), x, y)
            == fmul(k, bi_eval(f, x, y)),
{
    let h = Seq::new(n as nat, |i: int| pointwise_sum(f[i], g[i]));
    let rf = Seq::new(f.len(), |i: int| eval(f[i], y));
    let rg = Seq::new(g.len(), |i: int| eval(g[i], y));
    let rh = Seq::new(h.len(), |i: int| eval(h[i], y));
    assert forall|i: int| 0 <= i < n implies #[trigger] rh[i] == pointwise_sum(rf, rg)[i] by {
        lemma_eval_additive(f[i], g[i], y);
    }
    assert(rh =~= pointwise_sum(rf, rg));
    lemma_eval_additive(rf, rg, x);
    let sc = Seq::new(n as nat, |i: int| Seq::new(m as nat, |j: int| fmul(k, f[i][j])));
    let rs = Seq::new(sc.len(), |i: int| eval(sc[i], y));
    assert forall|i: int| 0 <= i < n implies #[trigger] rs[i] == fmul(k, rf[i]) by {
        assert(sc[i] =~= Seq::new(f[i].len(), |j: int| fmul(k, f[i][j])));
        lemma_eval_homogeneous(f[i], k, y);
    }
    assert(rs =~= Seq::new(rf.len(), |i: int| fmul(k, rf[i])));
    lemma_eval_homogeneous(rf, k, x);
}

/// Synthetic division is exact: if `q` and `r` are the quotient and the
/// remainder of `s` by `(X - a)`, then `s(X) = (X - a) q(X) + r`,
/// coefficient by coefficient: `s[0] = r - a q[0]`,
/// `s[k] = q[k-1] - a q[k]` above, and the top coefficient of `q` is zero.
pub proof fn lemma_division_identity(s: Seq<int>, a: int)
    requires
        s.len() > 0,
        forall|k: int| 0 <= k < s.len() ==> is_fr(#[trigger] s[k]),
    ensures
        s[0] == fsub(eval(s, a), fmul(a, quotient(s, a)[0])),
        forall|k: int|
            1 <= k < s.len() ==> #[trigger] s[k] == fsub(
                quotient(s, a)[k - 1],
                fmul(a, quotient(s, a)[k]),
            ),
        quotient(s, a)[s.len() - 1] == 0,
{
    let n = s.len() as int;
    let q = quotient(s, a);
    crate::field::lemma_fr_modulus_bounds();
    assert(s.subrange(n, n).len() == 0);
    assert(s.subrange(0, n) =~= s);
    assert forall|k: int| 0 <= k < n implies #[trigger] s[k] == fsub(
        eval(s.subrange(k, n), a),
        fmul(a, q[k]),
    ) by {
        lemma_eval_suffix(s, k, a);
        let u = fmul(a, q[k]);
        let m = crate::field::fr_modulus();
        vstd::arithmetic::div_mod::lemma_sub_mod_noop(s[k] + u, u, m);
        vstd::arithmetic::div_mod::lemma_small_mod(u as nat, m as nat);
        vstd::arithmetic::div_mod::lemma_small_mod(s[k] as nat, m as nat);
        vstd::arithmetic::div_mod::lemma_mod_bound(a * q[k], m);
    }
    assert forall|k: int| 1 <= k < n implies #[trigger] s[k] == fsub(q[k - 1], fmul(a, q[k])) by {
        assert(q[k - 1] == eval(s.subrange(k, n), a));
    }
}

} // verus!
