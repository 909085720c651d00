//! Picture-quality metrics: the squared error behind PSNR for golden comparisons of decoded
//! frames.
use vstd::prelude::*;

verus! {

/// `(x - y)²`.
pub open spec fn squared_diff(x: u8, y: u8) -> nat {
    let d = if x >= y { (x - y) as nat } else { (y - x) as nat };
    d * d
}

/// The sum of the squared sample differences of the first `n` samples.
pub open spec fn sse_prefix(a: Seq<u8>, b: Seq<u8>, n: int) -> nat
    decreases n,
{
    if n <= 0 {
        0
    } else {
        sse_prefix(a, b, n - 1) + squared_diff(a[n - 1], b[n - 1])
    }
}

/// The sum of squared errors of two sample buffers: `None` when their lengths differ or they
/// are empty.
pub open spec fn sse_of(a: Seq<u8>, b: Seq<u8>) -> Option<nat> {
    if a.len() != b.len() || a.len() == 0 {
        None
    } else {
        Some(sse_prefix(a, b, a.len() as int))
    }
}

proof fn lemma_sse_bound(a: Seq<u8>, b: Seq<u8>, n: int)
    requires
        0 <= n,
    ensures
        sse_prefix(a, b, n) <= 65025 * n,
    decreases n,
{
    if n > 0 {
        lemma_sse_bound(a, b, n - 1);
        let x = a[n - 1];
        let y = b[n - 1];
        let d: nat = if x >= y { (x - y) as nat } else { (y - x) as nat };
        assert(d <= 255);
        assert(d * d <= 65025) by (nonlinear_arith)
            requires
                d <= 255,
        ;
    }
}

/// The sum of squared sample differences of two 8-bit sample buffers of equal length; `None`
/// if the lengths differ or the buffers are empty. PSNR is `10 log10(255² n / sse)`.
pub fn sum_squared_error(a: &[u8], b: &[u8]) -> (r: Option<u64>)
    requires
        a@.len() * 65025 <= u64::MAX,
    ensures
        match r {
            Some(v) => sse_of(a@, b@) == Some(v as nat),
            None => sse_of(a@, b@) is None,
        },
{
    if a.len() != b.len() || a.len() == 0 {
        return None;
    }
    let mut sse: u64 = 0;
    let mut i: usize = 0;
    while i < a.len()
        invariant
            a@.len() == b@.len(),
            a@.len() * 65025 <= u64::MAX,
            i <= a@.len(),
            sse == sse_prefix(a@, b@, i as int),
        decreases a@.len() - i,
    {
        let x = a[i];
        let y = b[i];
        let d: u64 = if x >= y { (x - y) as u64 } else { (y - x) as u64 };
        proof {
            lemma_sse_bound(a@, b@, i + 1);
            assert(d * d <= 65025) by (nonlinear_arith)
                requires
                    d <= 255,
            ;
            assert(65025 * (i + 1) <= a@.len() * 65025) by (nonlinear_arith)
                requires
                    i + 1 <= a@.len(),
            ;
        }
        sse = sse + d * d;
        i = i + 1;
    }
    Some(sse)
}

proof fn lemma_sse_prefix_zero_iff(a: Seq<u8>, b: Seq<u8>, n: int)
    requires
        0 <= n <= a.len(),
        n <= b.len(),
    ensures
        sse_prefix(a, b, n) == 0 <==> forall|i: int| 0 <= i < n ==> a[i] == b[i],
    decreases n,
{
    if n > 0 {
        lemma_sse_prefix_zero_iff(a, b, n - 1);
        let x = a[n - 1];
        let y = b[n - 1];
        let d = if x >= y { (x - y) as nat } else { (y - x) as nat };
        assert(d * d == 0 <==> d == 0) by (nonlinear_arith);
        if sse_prefix(a, b, n) == 0 {
            assert forall|i: int| 0 <= i < n implies a[i] == b[i] by {
                if i < n - 1 {
                }
            }
        }
    }
}

/// Two sample buffers of one non-zero length have no squared error exactly when they are
/// equal (so their PSNR is infinite exactly then).
pub proof fn lemma_sse_zero_iff_equal(a: Seq<u8>, b: Seq<u8>)
    requires
        a.len() == b.len(),
        a.len() > 0,
    ensures
        sse_of(a, b) == Some(0nat) <==> a == b,
{
    lemma_sse_prefix_zero_iff(a, b, a.len() as int);
    if sse_of(a, b) == Some(0nat) {
        assert(a =~= b);
    }
}

} // verus!
