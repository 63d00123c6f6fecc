use vstd::prelude::*;

verus! {

/// The `n` low bytes of `x`, least significant first.
pub open spec fn le_bytes(x: nat, n: nat) -> Seq<u8>
    decreases n,
{
    if n == 0 {
        Seq::empty()
    } else {
        seq![(x % 256) as u8] + le_bytes(x / 256, (n - 1) as nat)
    }
}

/// Serialisation without arguments.
pub trait AsBytes {
    /// The bytes that `as_bytes` returns.
    spec fn bytes_spec(&self) -> Seq<u8>;

    fn as_bytes(&self) -> (r: Vec<u8>)
        ensures
            r@ == self.bytes_spec(),
    ;
}

/// The `n` low bytes of `x`, least significant first.
fn low_bytes(x: u64, n: usize) -> (r: Vec<u8>)
    ensures
        r@ == le_bytes(x as nat, n as nat),
{
    let mut r: Vec<u8> = Vec::new();
    let mut v: u64 = x;
    for k in 0..n
        invariant
            r@ + le_bytes(v as nat, (n - k) as nat) == le_bytes(x as nat, n as nat),
    {
        let ghost rest = le_bytes((v / 256) as nat, (n - k - 1) as nat);
        assert(le_bytes(v as nat, (n - k) as nat) == seq![(v % 256) as u8] + rest);
        r.push((v % 256) as u8);
        v = v / 256;
        assert(r@ + rest =~= r@.drop_last() + (seq![r@.last()] + rest));
    }
    assert(r@ + le_bytes(v as nat, 0) =~= r@);
    r
}

impl AsBytes for u32 {
    open spec fn bytes_spec(&self) -> Seq<u8> {
        le_bytes(*self as nat, 4)
    }

    /// The four little-endian bytes.
    fn as_bytes(&self) -> (r: Vec<u8>) {
        low_bytes(*self as u64, 4)
    }
}

impl AsBytes for u64 {
    open spec fn bytes_spec(&self) -> Seq<u8> {
        le_bytes(*self as nat, 8)
    }

    /// The eight little-endian bytes.
    fn as_bytes(&self) -> (r: Vec<u8>) {
        low_bytes(*self, 8)
    }
}

} // verus!
