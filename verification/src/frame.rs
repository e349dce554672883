//! Owned rectangular grayscale pixel buffers.
//!
//! A [`Frame`] holds one byte of luminance per pixel in row-major order.
//! The same type carries both captured frames and binarized difference
//! masks; a mask is a frame whose pixels are all `0` or `255`.

use vstd::prelude::*;

verus! {

/// Upper bound on the number of pixels a well-formed frame may hold.
///
/// Keeps every intermediate of the detector arithmetic inside `u64`
/// (a brightness sum is at most `255 * MAX_PIXELS`, and a weighted
/// pixel product at most `255 * 255 * MAX_PIXELS`).
pub const MAX_PIXELS: usize = 0x0400_0000;

/// One grayscale image at a fixed resolution, one byte per pixel,
/// row-major. Immutable once produced.
#[derive(Clone)]
pub struct Frame {
    pub width: usize,
    pub height: usize,
    pub data: Vec<u8>,
}

impl View for Frame {
    type V = Seq<u8>;

    open spec fn view(&self) -> Seq<u8> {
        self.data@
    }
}

impl Frame {
    /// The buffer length matches the declared dimensions and the whole
    /// frame is small enough for the detector's fixed-width arithmetic.
    pub open spec fn wf(&self) -> bool {
        &&& self@.len() == self.width * self.height
        &&& self.width * self.height <= MAX_PIXELS
    }

    /// Two frames have the same shape.
    pub open spec fn same_dims(&self, other: &Frame) -> bool {
        self.width == other.width && self.height == other.height
    }

    /// Number of pixels.
    pub fn len(&self) -> (n: usize)
        ensures
            n == self@.len(),
    {
        self.data.len()
    }

    /// Builds a frame from an existing pixel buffer, checking that the
    /// buffer length matches the dimensions; returns `None` on mismatch
    /// or when the frame would exceed `MAX_PIXELS`.
    pub fn new(width: usize, height: usize, data: Vec<u8>) -> (r: Option<Frame>)
        ensures
            r is Some <==> data@.len() == width * height && width * height <= MAX_PIXELS,
            r matches Some(f) ==> f.width == width && f.height == height && f@ == data@ && f.wf(),
    {
        proof {
            assert((width as u128) * (height as u128) < u128::MAX) by (nonlinear_arith)
                requires
                    width as u128 <= u64::MAX,
                    height as u128 <= u64::MAX,
            ;
        }
        let pixels: u128 = (width as u128) * (height as u128);
        if pixels == data.len() as u128 && data.len() <= MAX_PIXELS {
            Some(Frame { width, height, data })
        } else {
            None
        }
    }

    /// A frame of the given shape with every pixel set to `value`.
    pub fn filled(width: usize, height: usize, value: u8) -> (r: Frame)
        requires
            width * height <= MAX_PIXELS,
        ensures
            r.width == width,
            r.height == height,
            r.wf(),
            forall|i: int| 0 <= i < r@.len() ==> r@[i] == value,
    {
        let n: usize = width * height;
        let data: Vec<u8> = vec![value; n];
        Frame { width, height, data }
    }
}

/// Extracts a grayscale frame from an interleaved luma-plus-chroma
/// (YUYV) byte buffer by keeping only the luma samples: every second
/// byte, starting at the first. Returns `None` when the number of luma
/// samples does not match the requested dimensions, or when the frame
/// would be too large.
pub fn from_yuyv_vec(data: &Vec<u8>, width: usize, height: usize) -> (r: Option<Frame>)
    requires
        data@.len() < usize::MAX,
    ensures
        r is Some <==> (data@.len() + 1) / 2 == width * height && width * height <= MAX_PIXELS,
        r matches Some(f) ==> {
            &&& f.width == width
            &&& f.height == height
            &&& f.wf()
            &&& f@.len() == (data@.len() + 1) / 2
            &&& forall|i: int| 0 <= i < f@.len() ==> f@[i] == data@[2 * i]
        },
{
    let n = data.len();
    let mut luma: Vec<u8> = Vec::new();
    let mut i: usize = 0;
    while i < n
        invariant
            n == data@.len(),
            n < usize::MAX,
            i % 2 == 0,
            i <= n + 1,
            2 * luma@.len() == i,
            forall|j: int| 0 <= j < luma@.len() ==> luma@[j] == data@[2 * j],
        decreases n + 1 - i,
    {
        luma.push(data[i]);
        i = i + 2;
    }
    Frame::new(width, height, luma)
}

/// Lossy color-depth reduction: shifts every pixel right by `step`
/// bits, in preparation for a palette-indexed encoding.
pub fn reduce_color(f: &Frame, step: u8) -> (r: Frame)
    requires
        f.wf(),
        step < 8,
    ensures
        r.wf(),
        r.same_dims(f),
        r@.len() == f@.len(),
        forall|i: int| 0 <= i < r@.len() ==> r@[i] == f@[i] >> step,
{
    let n = f.data.len();
    let mut data: Vec<u8> = Vec::new();
    let mut i: usize = 0;
    while i < n
        invariant
            f.wf(),
            step < 8,
            n == f@.len(),
            i <= n,
            data@.len() == i,
            forall|j: int| 0 <= j < i ==> data@[j] == f@[j] >> step,
        decreases n - i,
    {
        data.push(f.data[i] >> step);
        i = i + 1;
    }
    Frame { width: f.width, height: f.height, data }
}

} // verus!
