use vstd::prelude::*;
use crate::color::Rgb;

verus! {

/// Largest per-sample contribution to the quantized distance:
/// three channels, each differing by at most 255.
pub const MAX_SAMPLE_DIST: i32 = 195075;

/// Most samples a signature may carry so that the quantized distance
/// accumulates in an `i32` without overflow.
pub const MAX_SIGNATURE_SAMPLES: usize = 11000;

/// Squared channel-wise difference between two color samples.
pub open spec fn sample_dist(a: Rgb, b: Rgb) -> int {
    (a.r - b.r) * (a.r - b.r) + (a.g - b.g) * (a.g - b.g) + (a.b - b.b) * (a.b - b.b)
}

/// Sum of the squared sample differences over the first `n` samples.
pub open spec fn sum_sq_diff(a: Seq<Rgb>, b: Seq<Rgb>, n: int) -> int
    decreases n,
{
    if n <= 0 {
        0
    } else {
        sum_sq_diff(a, b, n - 1) + sample_dist(a[n - 1], b[n - 1])
    }
}

/// Quantized distance between two signatures: the sum of squared
/// channel differences, or the `i32` sentinel when the lengths differ.
pub open spec fn quantized_dist(a: Seq<Rgb>, b: Seq<Rgb>) -> int {
    if a.len() != b.len() {
        i32::MAX as int
    } else {
        sum_sq_diff(a, b, a.len() as int)
    }
}

proof fn lemma_sample_dist_bounds(a: Rgb, b: Rgb)
    ensures
        0 <= (a.r - b.r) * (a.r - b.r) <= 65025,
        0 <= (a.g - b.g) * (a.g - b.g) <= 65025,
        0 <= (a.b - b.b) * (a.b - b.b) <= 65025,
        0 <= sample_dist(a, b) <= MAX_SAMPLE_DIST,
{
    let dr = a.r - b.r;
    let dg = a.g - b.g;
    let db = a.b - b.b;
    assert(0 <= dr * dr <= 65025 && 0 <= dg * dg <= 65025 && 0 <= db * db <= 65025)
        by (nonlinear_arith)
        requires
            -255 <= dr <= 255,
            -255 <= dg <= 255,
            -255 <= db <= 255,
    ;
}

pub proof fn lemma_sum_sq_diff_bounds(a: Seq<Rgb>, b: Seq<Rgb>, n: int)
    requires
        0 <= n,
    ensures
        0 <= sum_sq_diff(a, b, n) <= n * MAX_SAMPLE_DIST,
    decreases n,
{
    if n > 0 {
        lemma_sum_sq_diff_bounds(a, b, n - 1);
        lemma_sample_dist_bounds(a[n - 1], b[n - 1]);
    }
}

/// The quantized distance of a signature against itself is zero.
pub proof fn lemma_quantized_dist_self_zero(a: Seq<Rgb>)
    ensures
        quantized_dist(a, a) == 0,
{
    lemma_sum_sq_diff_self_zero(a, a.len() as int);
}

proof fn lemma_sum_sq_diff_self_zero(a: Seq<Rgb>, n: int)
    ensures
        sum_sq_diff(a, a, n) == 0,
    decreases n,
{
    if n > 0 {
        lemma_sum_sq_diff_self_zero(a, n - 1);
    }
}

/// The quantized distance is symmetric in its two arguments.
pub proof fn lemma_quantized_dist_symmetric(a: Seq<Rgb>, b: Seq<Rgb>)
    ensures
        quantized_dist(a, b) == quantized_dist(b, a),
{
    lemma_sum_sq_diff_symmetric(a, b, a.len() as int);
}

proof fn lemma_sum_sq_diff_symmetric(a: Seq<Rgb>, b: Seq<Rgb>, n: int)
    ensures
        sum_sq_diff(a, b, n) == sum_sq_diff(b, a, n),
    decreases n,
{
    if n > 0 {
        lemma_sum_sq_diff_symmetric(a, b, n - 1);
        let x = a[n - 1];
        let y = b[n - 1];
        assert((x.r - y.r) * (x.r - y.r) == (y.r - x.r) * (y.r - x.r)) by (nonlinear_arith);
        assert((x.g - y.g) * (x.g - y.g) == (y.g - x.g) * (y.g - x.g)) by (nonlinear_arith);
        assert((x.b - y.b) * (x.b - y.b) == (y.b - x.b) * (y.b - x.b)) by (nonlinear_arith);
    }
}

/// Quantized signature distance: the sum over all samples of the squared
/// per-channel differences, or `i32::MAX` when the lengths differ.
pub fn compare_thumbs_u8(a: &Vec<Rgb>, b: &Vec<Rgb>) -> (r: i32)
    requires
        a@.len() <= MAX_SIGNATURE_SAMPLES,
    ensures
        r == quantized_dist(a@, b@),
{
    if a.len() != b.len() {
        return i32::MAX;
    }
    let mut diff: i32 = 0;
    let mut i: usize = 0;
    while i < a.len()
        invariant
            a@.len() == b@.len() <= MAX_SIGNATURE_SAMPLES,
            i <= a@.len(),
            diff == sum_sq_diff(a@, b@, i as int),
            0 <= diff <= i * MAX_SAMPLE_DIST,
        decreases a@.len() - i,
    {
        let x = a[i];
        let y = b[i];
        proof {
            lemma_sample_dist_bounds(x, y);
            lemma_sum_sq_diff_bounds(a@, b@, i as int);
        }
        let dr: i32 = x.r as i32 - y.r as i32;
        let dg: i32 = x.g as i32 - y.g as i32;
        let db: i32 = x.b as i32 - y.b as i32;
        diff = diff + dr * dr + dg * dg + db * db;
        i = i + 1;
    }
    diff
}

} // verus!
