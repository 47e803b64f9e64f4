//! The secondary grayscale/noise pixel filter: a per-pixel pass over a
//! BGR-padded input producing either a passthrough-with-noise frame of the
//! same layout or a single-channel grayscale frame.

use vstd::prelude::*;
use vstd::arithmetic::div_mod::{
    lemma_div_pos_is_pos, lemma_fundamental_div_mod, lemma_fundamental_div_mod_converse_div,
    lemma_mod_bound,
};
use vstd::arithmetic::mul::{
    lemma_mul_inequality, lemma_mul_is_commutative, lemma_mul_is_distributive_add_other_way,
};
use crate::frame::PixelLayout;
use crate::rng::rand_byte_between;

verus! {

/// Upper bound of the per-channel noise draw.
pub const NOISE_MAX: u8 = 12;

/// Draws the filter's per-pixel noise bytes: size independent uniform
/// draws, each at most NOISE_MAX.
pub fn generate_random_array(size: usize) -> (a: Vec<u8>)
    ensures
        a.len() == size,
        forall|i: int| 0 <= i < a@.len() ==> a@[i] <= NOISE_MAX,
{
    let mut a: Vec<u8> = Vec::new();
    let mut i: usize = 0;
    while i < size
        invariant
            i <= size,
            a.len() == i,
            forall|k: int| 0 <= k < a@.len() ==> a@[k] <= NOISE_MAX,
        decreases size - i,
    {
        a.push(rand_byte_between(0, NOISE_MAX));
        i += 1;
    }
    a
}

/// Combines one pixel with its noise draw. The combination presently
/// leaves the pixel unchanged: the draw is made and discarded, and the
/// output pixel is the input pixel byte for byte.
pub fn video_tv_filter(rand: &Vec<u8>, in_p: &Vec<u8>) -> (out_p: Vec<u8>)
    ensures
        out_p@ == in_p@,
{
    let mut out_p: Vec<u8> = Vec::new();
    let mut i: usize = 0;
    while i < in_p.len()
        invariant
            i <= in_p.len(),
            out_p@ == in_p@.subrange(0, i as int),
        decreases in_p.len() - i,
    {
        out_p.push(in_p[i]);
        i += 1;
    }
    proof {
        assert(out_p@ =~= in_p@);
    }
    out_p
}

/// Converts one BGR-padded pixel for the grayscale path. No weighted luma
/// combination is applied and the shift and invert tunables have no
/// observable effect: the pixel comes back byte for byte, and the caller
/// takes its first channel as the output value.
pub fn bgrx_to_gray(in_p: &Vec<u8>, shift: u8, invert: bool) -> (out_p: Vec<u8>)
    ensures
        out_p@ == in_p@,
{
    let mut out_p: Vec<u8> = Vec::new();
    let mut i: usize = 0;
    while i < in_p.len()
        invariant
            i <= in_p.len(),
            out_p@ == in_p@.subrange(0, i as int),
        decreases in_p.len() - i,
    {
        out_p.push(in_p[i]);
        i += 1;
    }
    proof {
        assert(out_p@ =~= in_p@);
    }
    out_p
}

/// Whether byte j of the output belongs to the filter's written region:
/// its row must exist and it must sit left of the row's padding.
pub open spec fn is_tv_byte(j: int, region: int, height: int, stride: int) -> bool {
    &&& 0 <= j
    &&& j / stride < height
    &&& j % stride < region
}

/// The input byte that output byte (q, r) mirrors: byte r of input row q
/// for the same-layout path, and the first channel of pixel r for the
/// grayscale path.
pub open spec fn tv_source_index(q: int, r: int, in_stride: int, gray: bool) -> int {
    if gray {
        q * in_stride + 4 * r
    } else {
        q * in_stride + r
    }
}

/// Byte j's classification for height y + 1, when row y's written region
/// starts at byte row_start = y * stride.
proof fn lemma_tv_byte_split(
    j: int,
    region: int,
    y: int,
    stride: int,
    row_start: int,
    len: int,
)
    requires
        0 <= j < len,
        1 <= stride,
        region <= stride,
        0 <= y,
        row_start == y * stride,
    ensures
        is_tv_byte(j, region, y + 1, stride) == (is_tv_byte(j, region, y, stride) || (row_start
            <= j < row_start + region)),
        row_start <= j < row_start + region ==> j / stride == y && j % stride == j - row_start
            && !is_tv_byte(j, region, y, stride),
        !(row_start <= j < row_start + region) && j / stride == y ==> !is_tv_byte(
            j,
            region,
            y + 1,
            stride,
        ),
{
    lemma_fundamental_div_mod(j, stride);
    lemma_mod_bound(j, stride);
    lemma_div_pos_is_pos(j, stride);
    lemma_mul_is_commutative(y, stride);
    if row_start <= j < row_start + region {
        lemma_fundamental_div_mod_converse_div(j, stride, y, j - row_start);
    }
}

/// Copies nbytes bytes of one row from the input to the output, one pixel
/// at a time through the noise combination; every other output byte keeps
/// its value.
fn tv_copy_row(
    in_data: &Vec<u8>,
    out_data: &mut Vec<u8>,
    in_start: usize,
    out_start: usize,
    width: usize,
)
    requires
        in_start + width * 4 <= in_data.len(),
        out_start + width * 4 <= old(out_data).len(),
    ensures
        final(out_data)@.len() == old(out_data)@.len(),
        forall|k: int|
            0 <= k < 4 * width ==> #[trigger] final(out_data)@[out_start + k] == in_data@[in_start
                + k],
        forall|j: int|
            #![trigger final(out_data)@[j]]
            0 <= j < old(out_data)@.len() && !(out_start <= j < out_start + 4 * width) ==> final(out_data)@[j] == old(out_data)@[j],
{
    let mut x: usize = 0;
    while x < width
        invariant
            x <= width,
            in_start + width * 4 <= in_data.len(),
            out_start + width * 4 <= out_data.len(),
            out_data.len() == old(out_data).len(),
            forall|k: int|
                0 <= k < 4 * x ==> #[trigger] out_data@[out_start + k] == in_data@[in_start + k],
            forall|j: int|
                #![trigger out_data@[j]]
                0 <= j < out_data@.len() && !(out_start <= j < out_start + 4 * x) ==> out_data@[j]
                    == old(out_data)@[j],
        decreases width - x,
    {
        let mut in_p: Vec<u8> = Vec::new();
        in_p.push(in_data[in_start + 4 * x]);
        in_p.push(in_data[in_start + 4 * x + 1]);
        in_p.push(in_data[in_start + 4 * x + 2]);
        in_p.push(in_data[in_start + 4 * x + 3]);
        let rand = generate_random_array(3);
        let filtered = video_tv_filter(&rand, &in_p);
        out_data.set(out_start + 4 * x, filtered[0]);
        out_data.set(out_start + 4 * x + 1, filtered[1]);
        out_data.set(out_start + 4 * x + 2, filtered[2]);
        out_data.set(out_start + 4 * x + 3, filtered[3]);
        x += 1;
    }
}

/// Writes the grayscale value of width pixels of one input row into the
/// output row: each output byte is the first channel of its pixel; every
/// other output byte keeps its value.
fn tv_gray_row(
    in_data: &Vec<u8>,
    out_data: &mut Vec<u8>,
    in_start: usize,
    out_start: usize,
    width: usize,
    shift: u8,
    invert: bool,
)
    requires
        in_start + width * 4 <= in_data.len(),
        out_start + width <= old(out_data).len(),
    ensures
        final(out_data)@.len() == old(out_data)@.len(),
        forall|k: int|
            0 <= k < width ==> #[trigger] final(out_data)@[out_start + k] == in_data@[in_start + 4
                * k],
        forall|j: int|
            #![trigger final(out_data)@[j]]
            0 <= j < old(out_data)@.len() && !(out_start <= j < out_start + width) ==> final(out_data)@[j] == old(out_data)@[j],
{
    let mut x: usize = 0;
    while x < width
        invariant
            x <= width,
            in_start + width * 4 <= in_data.len(),
            out_start + width <= out_data.len(),
            out_data.len() == old(out_data).len(),
            forall|k: int|
                0 <= k < x ==> #[trigger] out_data@[out_start + k] == in_data@[in_start + 4 * k],
            forall|j: int|
                #![trigger out_data@[j]]
                0 <= j < out_data@.len() && !(out_start <= j < out_start + x) ==> out_data@[j]
                    == old(out_data)@[j],
        decreases width - x,
    {
        let mut in_p: Vec<u8> = Vec::new();
        in_p.push(in_data[in_start + 4 * x]);
        in_p.push(in_data[in_start + 4 * x + 1]);
        in_p.push(in_data[in_start + 4 * x + 2]);
        in_p.push(in_data[in_start + 4 * x + 3]);
        let gray = bgrx_to_gray(&in_p, shift, invert);
        out_data.set(out_start + x, gray[0]);
        x += 1;
    }
}

/// Transforms one frame through the secondary filter: the same-layout
/// path copies every pixel through the noise combination, the grayscale
/// path takes each pixel's first channel; row padding in the output is
/// never touched.
pub fn tv_transform_frame(
    in_data: &Vec<u8>,
    out_data: &mut Vec<u8>,
    width: usize,
    height: usize,
    in_stride: usize,
    out_stride: usize,
    out_layout: PixelLayout,
    shift: u8,
    invert: bool,
)
    requires
        width * 4 <= in_stride,
        in_stride * height <= in_data.len(),
        out_layout == PixelLayout::Bgrx ==> width * 4 <= out_stride,
        out_layout == PixelLayout::Gray8 ==> width <= out_stride,
        1 <= out_stride,
        out_stride * height <= old(out_data).len(),
    ensures
        final(out_data)@.len() == old(out_data)@.len(),
        (forall|j: int|
            #![trigger final(out_data)@[j]]
            0 <= j < old(out_data)@.len() && !is_tv_byte(
                j,
                tv_region(width as int, out_layout),
                height as int,
                out_stride as int,
            ) ==> final(out_data)@[j] == old(out_data)@[j]),
        (forall|j: int|
            #![trigger final(out_data)@[j]]
            0 <= j < old(out_data)@.len() && is_tv_byte(
                j,
                tv_region(width as int, out_layout),
                height as int,
                out_stride as int,
            ) ==> final(out_data)@[j] == in_data@[tv_source_index(
                j / out_stride as int,
                j % out_stride as int,
                in_stride as int,
                out_layout == PixelLayout::Gray8,
            )]),
{
    let region: usize = if out_layout == PixelLayout::Bgrx {
        width * 4
    } else {
        width
    };
    let gray = out_layout == PixelLayout::Gray8;
    let mut y: usize = 0;
    let mut in_off: usize = 0;
    let mut out_off: usize = 0;
    while y < height
        invariant
            y <= height,
            in_off == y * in_stride,
            out_off == y * out_stride,
            region == tv_region(width as int, out_layout),
            gray == (out_layout == PixelLayout::Gray8),
            region <= out_stride,
            1 <= out_stride,
            width * 4 <= in_stride,
            in_stride * height <= in_data.len(),
            out_stride * height <= out_data.len(),
            out_data.len() == old(out_data).len(),
            forall|j: int|
                #![trigger out_data@[j]]
                0 <= j < out_data@.len() && !is_tv_byte(
                    j,
                    region as int,
                    y as int,
                    out_stride as int,
                ) ==> out_data@[j] == old(out_data)@[j],
            forall|j: int|
                #![trigger out_data@[j]]
                0 <= j < out_data@.len() && is_tv_byte(
                    j,
                    region as int,
                    y as int,
                    out_stride as int,
                ) ==> out_data@[j] == in_data@[tv_source_index(
                    j / out_stride as int,
                    j % out_stride as int,
                    in_stride as int,
                    gray,
                )],
        decreases height - y,
    {
        let ghost yi = y as int;
        let ghost osi = out_stride as int;
        let ghost isi = in_stride as int;
        let ghost out_offi = out_off as int;
        let ghost in_offi = in_off as int;
        proof {
            lemma_mul_inequality(yi + 1, height as int, osi);
            lemma_mul_is_commutative(height as int, osi);
            lemma_mul_is_distributive_add_other_way(osi, yi, 1);
            lemma_mul_inequality(yi + 1, height as int, isi);
            lemma_mul_is_commutative(height as int, isi);
            lemma_mul_is_distributive_add_other_way(isi, yi, 1);
        }
        let ghost prev = out_data@;
        if gray {
            tv_gray_row(in_data, out_data, in_off, out_off, width, shift, invert);
        } else {
            tv_copy_row(in_data, out_data, in_off, out_off, width);
        }
        proof {
            assert forall|j: int| 0 <= j < out_data@.len() implies ((!is_tv_byte(
                j,
                region as int,
                yi + 1,
                osi,
            ) ==> out_data@[j] == old(out_data)@[j]) && (is_tv_byte(j, region as int, yi + 1, osi)
                ==> out_data@[j] == in_data@[tv_source_index(j / osi, j % osi, isi, gray)])) by {
                lemma_tv_byte_split(j, region as int, yi, osi, out_offi, out_data@.len() as int);
                if out_offi <= j < out_offi + region {
                    // a byte written by this row's pass
                    assert(j % osi == j - out_offi);
                    if gray {
                        assert(out_data@[out_offi + (j - out_offi)] == in_data@[in_offi + 4 * (j
                            - out_offi)]);
                    } else {
                        assert(out_data@[out_offi + (j - out_offi)] == in_data@[in_offi + (j
                            - out_offi)]);
                    }
                } else {
                    // untouched by this row's pass
                    assert(out_data@[j] == prev[j]);
                }
            }
        }
        y += 1;
        in_off += in_stride;
        out_off += out_stride;
    }
}

/// How many bytes of each output row the filter writes: the full pixel
/// span for the same-layout path, one byte per pixel for grayscale.
pub open spec fn tv_region(width: int, out_layout: PixelLayout) -> int {
    if out_layout == PixelLayout::Gray8 {
        width
    } else {
        4 * width
    }
}

} // verus!
