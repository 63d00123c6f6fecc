use crate::error::KzgError;
use crate::field::Scalar;
use crate::group::{g1_identity_encoding, g1_scaled, g1_sum, g1_views, G1Point};
use crate::polynomial::{all_fr, values};
use vstd::prelude::*;

verus! {

/// The multi-scalar multiplication `sum_k scalars[k] * points[k]`, summed
/// from the first pair to the last, starting from the point at infinity.
pub open spec fn msm_spec(scalars: Seq<int>, points: Seq<Seq<u8>>) -> Seq<u8>
    decreases scalars.len(),
{
    if scalars.len() == 0 {
        g1_identity_encoding()
    } else {
        g1_sum(
            msm_spec(scalars.drop_last(), points.drop_last()),
            g1_scaled(points.last(), scalars.last()),
        )
    }
}

/// Every point of the sequence is well formed.
pub open spec fn all_g1(v: Seq<G1Point>) -> bool {
    forall|k: int| 0 <= k < v.len() ==> #[trigger] v[k].wf()
}

/// Multi-scalar multiplication on the CPU: `sum_k scalars[k] * points[k]`,
/// accumulated in order. Fails with `LengthMismatch` exactly when the two
/// batches differ in length.
pub fn bls12_381_g1_msm(scalars: &Vec<Scalar>, points: &Vec<G1Point>) -> (r: Result<
    G1Point,
    KzgError,
>)
    requires
        all_fr(scalars@),
        all_g1(points@),
    ensures
        r is Err <==> scalars.len() != points.len(),
        r is Err ==> r->Err_0 == KzgError::LengthMismatch,
        r is Ok ==> r->Ok_0.wf() && r->Ok_0@ == msm_spec(values(scalars@), g1_views(points@)),
{
    if scalars.len() != points.len() {
        return Err(KzgError::LengthMismatch);
    }
    let n = scalars.len();
    let ghost s = values(scalars@);
    let ghost p = g1_views(points@);
    let mut acc = G1Point::identity();
    for k in 0..n
        invariant
            n == scalars.len(),
            n == points.len(),
            s == values(scalars@),
            p == g1_views(points@),
            all_fr(scalars@),
            all_g1(points@),
            acc.wf(),
            acc@ == msm_spec(s.subrange(0, k as int), p.subrange(0, k as int)),
    {
        let t = points[k].scale(&scalars[k]);
        proof {
            let s_next = s.subrange(0, k + 1);
            let p_next = p.subrange(0, k + 1);
            assert(s_next.drop_last() =~= s.subrange(0, k as int));
            assert(p_next.drop_last() =~= p.subrange(0, k as int));
        }
        acc = acc.add(&t);
    }
    assert(s.subrange(0, n as int) =~= s);
    assert(p.subrange(0, n as int) =~= p);
    Ok(acc)
}

} // verus!
