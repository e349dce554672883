//! Pure motion-detection primitives.
//!
//! Four per-frame operations: a brightness-normalized luminance
//! [`difference`], fixed-threshold [`binarize`]-ation, a temporal
//! [`and_mask`] of two consecutive difference masks, and the motion
//! [`score`] (the count of changed pixels). All of them require
//! identically-shaped inputs and are stateless per call.

use vstd::prelude::*;

use crate::frame::{Frame, MAX_PIXELS};

verus! {

/// Default binarization threshold: a pixel registers as changed when its
/// difference luminance is strictly above this value.
pub const DEFAULT_LUM_THRESHOLD: u8 = 64;

/// Default absolute tolerance of the temporal AND: two mask pixels count
/// as "close" when they differ by strictly less than this value.
pub const DEFAULT_TOLERANCE: u8 = 50;

/// Absolute difference of two mathematical integers.
pub open spec fn abs_diff(x: int, y: int) -> int {
    if x >= y {
        x - y
    } else {
        y - x
    }
}

/// Sum of all pixel luminances of a buffer.
pub open spec fn sum_lum(s: Seq<u8>) -> nat
    decreases s.len(),
{
    if s.len() == 0 {
        0
    } else {
        sum_lum(s.drop_last()) + s.last() as nat
    }
}

/// Number of pixels strictly brighter than `threshold`.
pub open spec fn count_above(s: Seq<u8>, threshold: u8) -> nat
    decreases s.len(),
{
    if s.len() == 0 {
        0
    } else {
        count_above(s.drop_last(), threshold) + (if s.last() > threshold {
            1nat
        } else {
            0nat
        })
    }
}

/// One pixel of the brightness-normalized difference of two frames whose
/// brightness sums are `bri_a` and `bri_b`:
/// `|a*bri_b - b*bri_a| * 2 / (bri_a + bri_b)`, clamped to a byte.
/// When both sums are zero (two pure black frames) the division is
/// skipped and the pixel is zero.
pub open spec fn diff_pixel(a: u8, b: u8, bri_a: nat, bri_b: nat) -> u8 {
    if bri_a + bri_b == 0 {
        0
    } else {
        let v = abs_diff(a * bri_b, b * bri_a) * 2 / (bri_a + bri_b) as int;
        if v > 255 {
            255
        } else {
            v as u8
        }
    }
}

/// The brightness-normalized difference of two equally long pixel buffers.
pub open spec fn diff_seq(a: Seq<u8>, b: Seq<u8>) -> Seq<u8> {
    Seq::new(a.len(), |i: int| diff_pixel(a[i], b[i], sum_lum(a), sum_lum(b)))
}

/// Binarization: `255` where the pixel is strictly above `threshold`,
/// else `0`.
pub open spec fn binarize_seq(s: Seq<u8>, threshold: u8) -> Seq<u8> {
    Seq::new(s.len(), |i: int| if s[i] > threshold {
        255u8
    } else {
        0u8
    })
}

/// One pixel of the temporal AND: keep `a` where the two mask pixels are
/// within `tolerance` of each other, else `0`.
pub open spec fn and_pixel(a: u8, b: u8, tolerance: u8) -> u8 {
    if abs_diff(a as int, b as int) < tolerance {
        a
    } else {
        0
    }
}

/// The temporal AND of two equally long masks.
pub open spec fn and_seq(a: Seq<u8>, b: Seq<u8>, tolerance: u8) -> Seq<u8> {
    Seq::new(a.len(), |i: int| and_pixel(a[i], b[i], tolerance))
}

/// A buffer is a binarized mask: every pixel is `0` or `255`.
pub open spec fn is_binary(s: Seq<u8>) -> bool {
    forall|i: int| 0 <= i < s.len() ==> s[i] == 0 || s[i] == 255
}

proof fn lemma_sum_lum_take_step(s: Seq<u8>, i: int)
    requires
        0 <= i < s.len(),
    ensures
        sum_lum(s.take(i + 1)) == sum_lum(s.take(i)) + s[i],
{
    assert(s.take(i + 1).drop_last() =~= s.take(i));
    assert(s.take(i + 1).last() == s[i]);
}

/// The brightness sum of a buffer is at most 255 per pixel.
pub proof fn lemma_sum_lum_bound(s: Seq<u8>)
    ensures
        sum_lum(s) <= s.len() * 255,
    decreases s.len(),
{
    if s.len() > 0 {
        lemma_sum_lum_bound(s.drop_last());
    }
}

proof fn lemma_count_above_take_step(s: Seq<u8>, threshold: u8, i: int)
    requires
        0 <= i < s.len(),
    ensures
        count_above(s.take(i + 1), threshold) == count_above(s.take(i), threshold) + (if s[i]
            > threshold {
            1nat
        } else {
            0nat
        }),
{
    assert(s.take(i + 1).drop_last() =~= s.take(i));
    assert(s.take(i + 1).last() == s[i]);
}

/// Sum of all pixel luminances of a frame (`brightness(x)` of the
/// difference formula).
pub fn brightness(f: &Frame) -> (r: u64)
    requires
        f.wf(),
    ensures
        r == sum_lum(f@),
{
    let n = f.data.len();
    let mut sum: u64 = 0;
    let mut i: usize = 0;
    while i < n
        invariant
            f.wf(),
            n == f@.len(),
            i <= n,
            sum == sum_lum(f@.take(i as int)),
            sum <= i * 255,
        decreases n - i,
    {
        proof {
            lemma_sum_lum_take_step(f@, i as int);
        }
        sum = sum + f.data[i] as u64;
        i = i + 1;
    }
    proof {
        assert(f@.take(n as int) =~= f@);
    }
    sum
}

/// Brightness-normalized per-pixel difference of two equally shaped
/// frames. Normalizing by the two overall brightness sums keeps a global
/// exposure drift from registering as motion; two pure black frames
/// yield an all-zero result.
pub fn difference(a: &Frame, b: &Frame) -> (r: Frame)
    requires
        a.wf(),
        b.wf(),
        a.same_dims(b),
    ensures
        r.wf(),
        r.same_dims(a),
        r@ == diff_seq(a@, b@),
{
    let bri_a = brightness(a);
    let bri_b = brightness(b);
    proof {
        lemma_sum_lum_bound(a@);
        lemma_sum_lum_bound(b@);
    }
    let n = a.data.len();
    let mut data: Vec<u8> = Vec::new();
    let mut i: usize = 0;
    while i < n
        invariant
            a.wf(),
            b.wf(),
            a.same_dims(b),
            n == a@.len(),
            a@.len() == b@.len(),
            bri_a == sum_lum(a@),
            bri_b == sum_lum(b@),
            bri_a <= 255 * MAX_PIXELS,
            bri_b <= 255 * MAX_PIXELS,
            i <= n,
            data@.len() == i,
            forall|j: int|
                0 <= j < i ==> data@[j] == diff_pixel(a@[j], b@[j], sum_lum(a@), sum_lum(b@)),
        decreases n - i,
    {
        let p: u8;
        if bri_a == 0 && bri_b == 0 {
            p = 0;
        } else {
            proof {
                assert((a@[i as int] as u64) * bri_b <= 255 * (255 * MAX_PIXELS))
                    by (nonlinear_arith)
                    requires
                        a@[i as int] <= 255,
                        bri_b <= 255 * MAX_PIXELS,
                ;
                assert((b@[i as int] as u64) * bri_a <= 255 * (255 * MAX_PIXELS))
                    by (nonlinear_arith)
                    requires
                        b@[i as int] <= 255,
                        bri_a <= 255 * MAX_PIXELS,
                ;
            }
            let ax = (a.data[i] as u64) * bri_b;
            let bx = (b.data[i] as u64) * bri_a;
            let d = if ax >= bx {
                ax - bx
            } else {
                bx - ax
            };
            let v = d * 2 / (bri_a + bri_b);
            p = if v > 255 {
                255
            } else {
                v as u8
            };
        }
        data.push(p);
        i = i + 1;
    }
    let r = Frame { width: a.width, height: a.height, data };
    proof {
        assert(r@ =~= diff_seq(a@, b@));
    }
    r
}

/// Binarizes a difference frame with the given threshold.
pub fn binarize(f: &Frame, threshold: u8) -> (r: Frame)
    requires
        f.wf(),
    ensures
        r.wf(),
        r.same_dims(f),
        r@ == binarize_seq(f@, threshold),
        is_binary(r@),
{
    let n = f.data.len();
    let mut data: Vec<u8> = Vec::new();
    let mut i: usize = 0;
    while i < n
        invariant
            f.wf(),
            n == f@.len(),
            i <= n,
            data@.len() == i,
            forall|j: int|
                0 <= j < i ==> data@[j] == (if f@[j] > threshold {
                    255u8
                } else {
                    0u8
                }),
        decreases n - i,
    {
        data.push(if f.data[i] > threshold {
            255
        } else {
            0
        });
        i = i + 1;
    }
    let r = Frame { width: f.width, height: f.height, data };
    proof {
        assert(r@ =~= binarize_seq(f@, threshold));
    }
    r
}

/// Temporal AND of the current and the previous difference mask: a pixel
/// stays set only where the two masks are within `tolerance` of each
/// other, which suppresses single-frame sensor noise.
pub fn and_mask(a: &Frame, b: &Frame, tolerance: u8) -> (r: Frame)
    requires
        a.wf(),
        b.wf(),
        a.same_dims(b),
    ensures
        r.wf(),
        r.same_dims(a),
        r@ == and_seq(a@, b@, tolerance),
{
    let n = a.data.len();
    let mut data: Vec<u8> = Vec::new();
    let mut i: usize = 0;
    while i < n
        invariant
            a.wf(),
            b.wf(),
            a.same_dims(b),
            n == a@.len(),
            a@.len() == b@.len(),
            i <= n,
            data@.len() == i,
            forall|j: int| 0 <= j < i ==> data@[j] == and_pixel(a@[j], b@[j], tolerance),
        decreases n - i,
    {
        let pa = a.data[i];
        let pb = b.data[i];
        let close = if pa >= pb {
            pa - pb < tolerance
        } else {
            pb - pa < tolerance
        };
        data.push(if close {
            pa
        } else {
            0
        });
        i = i + 1;
    }
    let r = Frame { width: a.width, height: a.height, data };
    proof {
        assert(r@ =~= and_seq(a@, b@, tolerance));
    }
    r
}

/// Motion magnitude of a mask: the number of pixels strictly above
/// `threshold`.
pub fn score(f: &Frame, threshold: u8) -> (r: u32)
    requires
        f.wf(),
    ensures
        r == count_above(f@, threshold),
{
    let n = f.data.len();
    let mut count: u32 = 0;
    let mut i: usize = 0;
    while i < n
        invariant
            f.wf(),
            n == f@.len(),
            i <= n,
            count == count_above(f@.take(i as int), threshold),
            count <= i,
        decreases n - i,
    {
        proof {
            lemma_count_above_take_step(f@, threshold, i as int);
        }
        if f.data[i] > threshold {
            count = count + 1;
        }
        i = i + 1;
    }
    proof {
        assert(f@.take(n as int) =~= f@);
    }
    count
}

/// The difference of a frame with itself is all-zero, so its binarized
/// mask scores zero at any threshold.
pub proof fn lemma_identical_frames_score_zero(a: Seq<u8>, threshold: u8)
    ensures
        diff_seq(a, a) == Seq::new(a.len(), |i: int| 0u8),
        count_above(binarize_seq(diff_seq(a, a), threshold), threshold) == 0,
{
    assert(diff_seq(a, a) =~= Seq::new(a.len(), |i: int| 0u8));
    let m = binarize_seq(diff_seq(a, a), threshold);
    assert(forall|i: int| 0 <= i < m.len() ==> m[i] == 0u8);
    lemma_count_above_all_below(m, threshold);
}

/// A mask with no pixel above the threshold scores zero.
pub proof fn lemma_count_above_all_below(s: Seq<u8>, threshold: u8)
    requires
        forall|i: int| 0 <= i < s.len() ==> s[i] <= threshold,
    ensures
        count_above(s, threshold) == 0,
    decreases s.len(),
{
    if s.len() > 0 {
        assert(forall|i: int|
            0 <= i < s.drop_last().len() ==> s.drop_last()[i] <= threshold);
        lemma_count_above_all_below(s.drop_last(), threshold);
    }
}

/// The score is monotonic in the pixel-wise magnitude of change: if every
/// pixel that clears the threshold in `a` also clears it in `b`, then `a`
/// scores no higher than `b`.
pub proof fn lemma_score_monotonic(a: Seq<u8>, b: Seq<u8>, threshold: u8)
    requires
        a.len() == b.len(),
        forall|i: int| 0 <= i < a.len() ==> (a[i] > threshold ==> b[i] > threshold),
    ensures
        count_above(a, threshold) <= count_above(b, threshold),
    decreases a.len(),
{
    if a.len() > 0 {
        assert(forall|i: int|
            0 <= i < a.drop_last().len() ==> (a.drop_last()[i] > threshold ==> b.drop_last()[i]
                > threshold));
        lemma_score_monotonic(a.drop_last(), b.drop_last(), threshold);
    }
}

/// The temporal AND of a mask with itself keeps the mask unchanged for
/// any positive tolerance (both tolerance checks pass at every pixel),
/// so in particular the operation is idempotent.
pub proof fn lemma_and_mask_idempotent(m: Seq<u8>, tolerance: u8)
    requires
        tolerance > 0,
    ensures
        and_seq(m, m, tolerance) == m,
        and_seq(and_seq(m, m, tolerance), and_seq(m, m, tolerance), tolerance) == and_seq(
            m,
            m,
            tolerance,
        ),
{
    assert(and_seq(m, m, tolerance) =~= m);
}

} // verus!
