use crate::error::KzgError;
use crate::field::{fmul, Scalar};
use crate::group::{
    g1_decoded, g1_generator_encoding, g1_scaled, g2_canonical, g2_decoded, g2_generator_encoding,
    g2_in_subgroup, g2_scaled, G1Point, G2Point, G1_BYTES, G2_BYTES,
};
use vstd::prelude::*;

verus! {

/// `x^k` in the scalar field.
pub open spec fn fpow(x: int, k: nat) -> int
    decreases k,
{
    if k == 0 {
        1
    } else {
        fmul(x, fpow(x, (k - 1) as nat))
    }
}

/// A structured reference string: the commitment basis
/// `g1[i][j] = (tau_x^i tau_y^j) G` for `i <= max_deg_x`, `j <= max_deg_y`,
/// and the verification elements `g`, `h`, `tau_x h`, `tau_y h`.
#[derive(Clone, Debug)]
pub struct Srs {
    pub g1: Vec<Vec<G1Point>>,
    pub max_deg_x: usize,
    pub max_deg_y: usize,
    pub g: G1Point,
    pub h: G2Point,
    pub tau_x_h: G2Point,
    pub tau_y_h: G2Point,
}

/// A table of `n` rows of `m` well-formed points each.
pub open spec fn is_g1_table(t: Seq<Vec<G1Point>>, n: int, m: int) -> bool {
    &&& t.len() == n
    &&& forall|i: int| 0 <= i < n ==> (#[trigger] t[i]).len() == m
    &&& forall|i: int, j: int| 0 <= i < n && 0 <= j < m ==> (#[trigger] t[i]@[j]).wf()
}

/// `b` is the encoding of a G1 point.
pub open spec fn g1_decodes(b: Seq<u8>) -> bool {
    b.len() == G1_BYTES && g1_decoded(b) is Some
}

/// `b` is the encoding of a point of G2.
pub open spec fn g2_decodes(b: Seq<u8>) -> bool {
    b.len() == G2_BYTES && g2_decoded(b) is Some && g2_in_subgroup(g2_decoded(b)->0)
}

/// An encoded table of `n` rows of `m` points, each of which decodes.
pub open spec fn g1_bytes_table_ok(t: Seq<Vec<Vec<u8>>>, n: int, m: int) -> bool {
    &&& t.len() == n
    &&& forall|i: int| 0 <= i < n ==> (#[trigger] t[i]).len() == m
    &&& forall|i: int, j: int| 0 <= i < n && 0 <= j < m ==> g1_decodes(#[trigger] t[i]@[j]@)
}

impl Srs {
    /// The table matches the declared dimensions and every point is well formed.
    pub open spec fn wf(&self) -> bool {
        &&& self.max_deg_x < usize::MAX
        &&& self.max_deg_y < usize::MAX
        &&& is_g1_table(self.g1@, self.max_deg_x + 1, self.max_deg_y + 1)
        &&& self.g.wf()
        &&& self.h.wf()
        &&& self.tau_x_h.wf()
        &&& self.tau_y_h.wf()
    }

    /// The encoding of basis element `(i, j)`.
    pub open spec fn basis(&self, i: int, j: int) -> Seq<u8> {
        self.g1@[i]@[j]@
    }

    /// Takes a table and verification elements loaded from a setup
    /// artifact. `InvalidSrs` exactly when the table is not
    /// `max_deg_x + 1` rows of `max_deg_y + 1` points.
    pub fn new(
        max_deg_x: usize,
        max_deg_y: usize,
        g1: Vec<Vec<G1Point>>,
        g: G1Point,
        h: G2Point,
        tau_x_h: G2Point,
        tau_y_h: G2Point,
    ) -> (r: Result<Srs, KzgError>)
        requires
            max_deg_x < usize::MAX,
            max_deg_y < usize::MAX,
            forall|i: int, j: int|
                0 <= i < g1.len() && 0 <= j < g1@[i].len() ==> (#[trigger] g1@[i]@[j]).wf(),
            g.wf(),
            h.wf(),
            tau_x_h.wf(),
            tau_y_h.wf(),
        ensures
            r is Ok <==> (g1.len() == max_deg_x + 1 && forall|i: int|
                0 <= i < g1.len() ==> (#[trigger] g1@[i]).len() == max_deg_y + 1),
            r is Err ==> r->Err_0 == KzgError::InvalidSrs,
            r is Ok ==> {
                let s = r->Ok_0;
                &&& s.wf()
                &&& s.g1@ == g1@
                &&& s.max_deg_x == max_deg_x
                &&& s.max_deg_y == max_deg_y
                &&& s.g == g
                &&& s.h == h
                &&& s.tau_x_h == tau_x_h
                &&& s.tau_y_h == tau_y_h
            },
    {
        if g1.len() != max_deg_x + 1 {
            return Err(KzgError::InvalidSrs);
        }
        let mut i: usize = 0;
        while i < g1.len()
            invariant
                i <= g1.len(),
                max_deg_y < usize::MAX,
                forall|k: int| 0 <= k < i ==> (#[trigger] g1@[k]).len() == max_deg_y + 1,
            decreases g1.len() - i,
        {
            if g1[i].len() != max_deg_y + 1 {
                return Err(KzgError::InvalidSrs);
            }
            i = i + 1;
        }
        Ok(Srs { g1, max_deg_x, max_deg_y, g, h, tau_x_h, tau_y_h })
    }

    /// Loads a reference string from its encoded table and verification
    /// elements. `InvalidSrs` exactly when the table is not `max_deg_x + 1`
    /// rows of `max_deg_y + 1` entries, or an entry or element does not
    /// decode to a point.
    pub fn from_bytes(
        max_deg_x: usize,
        max_deg_y: usize,
        g1: &Vec<Vec<Vec<u8>>>,
        g: &Vec<u8>,
        h: &Vec<u8>,
        tau_x_h: &Vec<u8>,
        tau_y_h: &Vec<u8>,
    ) -> (r: Result<Srs, KzgError>)
        requires
            max_deg_x < usize::MAX,
            max_deg_y < usize::MAX,
        ensures
            r is Ok <==> (g1_bytes_table_ok(g1@, max_deg_x + 1, max_deg_y + 1) && g1_decodes(g@)
                && g2_decodes(h@) && g2_decodes(tau_x_h@) && g2_decodes(tau_y_h@)),
            r is Err ==> r->Err_0 == KzgError::InvalidSrs,
            r is Ok ==> {
                let s = r->Ok_0;
                &&& s.wf()
                &&& s.max_deg_x == max_deg_x
                &&& s.max_deg_y == max_deg_y
                &&& forall|i: int, j: int|
                    0 <= i <= max_deg_x && 0 <= j <= max_deg_y ==> #[trigger] s.basis(i, j)
                        == g1_decoded(g1@[i]@[j]@)->0
                &&& s.g@ == g1_decoded(g@)->0
                &&& s.h@ == g2_decoded(h@)->0
                &&& s.tau_x_h@ == g2_decoded(tau_x_h@)->0
                &&& s.tau_y_h@ == g2_decoded(tau_y_h@)->0
            },
    {
        let n = max_deg_x + 1;
        let m = max_deg_y + 1;
        if g1.len() != n {
            return Err(KzgError::InvalidSrs);
        }
        let mut table: Vec<Vec<G1Point>> = Vec::new();
        for i in 0..n
            invariant
                n == max_deg_x + 1,
                m == max_deg_y + 1,
                g1.len() == n,
                forall|a: int| 0 <= a < i ==> (#[trigger] g1@[a]).len() == m,
                forall|a: int, b: int|
                    0 <= a < i && 0 <= b < m ==> g1_decodes(#[trigger] g1@[a]@[b]@),
                is_g1_table(table@, i as int, m as int),
                forall|a: int, b: int|
                    0 <= a < i && 0 <= b < m ==> #[trigger] table@[a]@[b]@ == g1_decoded(
                        g1@[a]@[b]@,
                    )->0,
        {
            if g1[i].len() != m {
                return Err(KzgError::InvalidSrs);
            }
            let mut row: Vec<G1Point> = Vec::new();
            for j in 0..m
                invariant
                    i < n,
                    m == max_deg_y + 1,
                    g1.len() == n,
                    g1@[i as int].len() == m,
                    row.len() == j,
                    forall|b: int| 0 <= b < j ==> g1_decodes(#[trigger] g1@[i as int]@[b]@),
                    forall|b: int| 0 <= b < j ==> (#[trigger] row@[b]).wf(),
                    forall|b: int|
                        0 <= b < j ==> #[trigger] row@[b]@ == g1_decoded(g1@[i as int]@[b]@)->0,
            {
                match G1Point::from_bytes(g1[i][j].as_slice()) {
                    Ok(p) => row.push(p),
                    Err(_) => {
                        assert(!g1_decodes(g1@[i as int]@[j as int]@));
                        return Err(KzgError::InvalidSrs);
                    },
                }
            }
            table.push(row);
        }
        let g = match G1Point::from_bytes(g.as_slice()) {
            Ok(p) => p,
            Err(_) => return Err(KzgError::InvalidSrs),
        };
        let h = match G2Point::from_bytes(h.as_slice()) {
            Ok(p) => p,
            Err(_) => return Err(KzgError::InvalidSrs),
        };
        let tau_x_h = match G2Point::from_bytes(tau_x_h.as_slice()) {
            Ok(p) => p,
            Err(_) => return Err(KzgError::InvalidSrs),
        };
        let tau_y_h = match G2Point::from_bytes(tau_y_h.as_slice()) {
            Ok(p) => p,
            Err(_) => return Err(KzgError::InvalidSrs),
        };
        Ok(Srs { g1: table, max_deg_x, max_deg_y, g, h, tau_x_h, tau_y_h })
    }

    /// Builds a reference string from known secrets `tau_x`, `tau_y`:
    /// basis element `(i, j)` is `(tau_x^i tau_y^j) G`. Whoever knows the
    /// secrets can forge openings: this is for tests and local setups only.
    pub fn new_insecure(max_deg_x: usize, max_deg_y: usize, tau_x: &Scalar, tau_y: &Scalar) -> (r:
        Result<Srs, KzgError>)
        requires
            max_deg_x < usize::MAX,
            max_deg_y < usize::MAX,
            tau_x.wf(),
            tau_y.wf(),
        ensures
            r is Ok <==> (g2_canonical(g2_scaled(g2_generator_encoding(), tau_x.value()))
                && g2_canonical(g2_scaled(g2_generator_encoding(), tau_y.value()))),
            r is Err ==> r->Err_0 == KzgError::InvalidSrs,
            r is Ok ==> {
                let s = r->Ok_0;
                &&& s.wf()
                &&& s.max_deg_x == max_deg_x
                &&& s.max_deg_y == max_deg_y
                &&& forall|i: int, j: int|
                    0 <= i <= max_deg_x && 0 <= j <= max_deg_y ==> #[trigger] s.basis(i, j)
                        == g1_scaled(
                        s.g@,
                        fmul(fpow(tau_x.value(), i as nat), fpow(tau_y.value(), j as nat)),
                    )
                &&& s.g@ == g1_generator_encoding()
                &&& s.h@ == g2_generator_encoding()
                &&& s.tau_x_h@ == g2_scaled(s.h@, tau_x.value())
                &&& s.tau_y_h@ == g2_scaled(s.h@, tau_y.value())
            },
    {
        let g = G1Point::generator();
        let h = G2Point::generator();
        let mut table: Vec<Vec<G1Point>> = Vec::new();
        let mut px = Scalar::one();
        for i in 0..max_deg_x + 1
            invariant
                max_deg_y < usize::MAX,
                tau_x.wf(),
                tau_y.wf(),
                g.wf(),
                px.wf(),
                px.value() == fpow(tau_x.value(), i as nat),
                is_g1_table(table@, i as int, max_deg_y + 1),
                forall|a: int, b: int|
                    0 <= a < i && 0 <= b <= max_deg_y ==> #[trigger] table@[a]@[b]@ == g1_scaled(
                        g@,
                        fmul(fpow(tau_x.value(), a as nat), fpow(tau_y.value(), b as nat)),
                    ),
        {
            let mut row: Vec<G1Point> = Vec::new();
            let mut py = Scalar::one();
            for j in 0..max_deg_y + 1
                invariant
                    tau_y.wf(),
                    g.wf(),
                    px.wf(),
                    py.wf(),
                    py.value() == fpow(tau_y.value(), j as nat),
                    row.len() == j,
                    forall|b: int| 0 <= b < j ==> (#[trigger] row@[b]).wf(),
                    forall|b: int|
                        0 <= b < j ==> #[trigger] row@[b]@ == g1_scaled(
                            g@,
                            fmul(px.value(), fpow(tau_y.value(), b as nat)),
                        ),
            {
                let e = px.mul(&py);
                row.push(g.scale(&e));
                py = py.mul(tau_y);
                proof {
                    assert(fpow(tau_y.value(), (j + 1) as nat) == fmul(
                        tau_y.value(),
                        fpow(tau_y.value(), j as nat),
                    ));
                    vstd::arithmetic::mul::lemma_mul_is_commutative(
                        tau_y.value(),
                        fpow(tau_y.value(), j as nat),
                    );
                }
            }
            table.push(row);
            px = px.mul(tau_x);
            proof {
                vstd::arithmetic::mul::lemma_mul_is_commutative(
                    tau_x.value(),
                    fpow(tau_x.value(), i as nat),
                );
            }
        }
        let tau_x_h = match h.scale(tau_x) {
            Some(p) => p,
            None => return Err(KzgError::InvalidSrs),
        };
        let tau_y_h = match h.scale(tau_y) {
            Some(p) => p,
            None => return Err(KzgError::InvalidSrs),
        };
        Ok(Srs { g1: table, max_deg_x, max_deg_y, g, h, tau_x_h, tau_y_h })
    }

    /// Basis element `(i, j)`; `OutOfRange` beyond the table.
    pub fn g1_basis(&self, i: usize, j: usize) -> (r: Result<G1Point, KzgError>)
        requires
            self.wf(),
        ensures
            r is Ok <==> (i <= self.max_deg_x && j <= self.max_deg_y),
            r is Ok ==> r->Ok_0 == self.g1@[i as int]@[j as int],
            r is Err ==> r->Err_0 == KzgError::OutOfRange,
    {
        if i <= self.max_deg_x && j <= self.max_deg_y {
            Ok(self.g1[i][j])
        } else {
            Err(KzgError::OutOfRange)
        }
    }

    /// The verification elements `(h, tau_x h, tau_y h)`.
    pub fn verification_elements(&self) -> (r: (G2Point, G2Point, G2Point))
        ensures
            r == (self.h, self.tau_x_h, self.tau_y_h),
    {
        (self.h, self.tau_x_h, self.tau_y_h)
    }
}

} // verus!
