//! The horizontal noise bander: a per-frame selection of scanlines, each
//! overwritten with flat random luminance, every other row left exactly as
//! the previous stage produced it.

use vstd::prelude::*;
use vstd::arithmetic::div_mod::{
    lemma_div_pos_is_pos, lemma_fundamental_div_mod, lemma_fundamental_div_mod_converse_div,
    lemma_fundamental_div_mod_converse_mod, lemma_mod_bound,
};
use vstd::arithmetic::mul::{
    lemma_mul_inequality, lemma_mul_is_commutative, lemma_mul_is_distributive_add_other_way,
};
use crate::rng::{rand_u8_between, rand_usize_below};

verus! {

/// Lowest luminance the bander writes: pure black is avoided.
pub const BAND_LUMA_MIN: u8 = 16;
/// Highest luminance the bander writes: pure white is avoided.
pub const BAND_LUMA_MAX: u8 = 234;

/// Draws the bander's row selection for one frame: count independent
/// uniform draws below height. Duplicates are allowed; a row drawn twice
/// is overwritten once, with no observable difference.
pub fn select_rows(count: u32, height: usize) -> (rows: Vec<usize>)
    requires
        height >= 1,
    ensures
        rows.len() == count,
        forall|i: int| 0 <= i < rows@.len() ==> rows@[i] < height,
{
    let mut rows: Vec<usize> = Vec::new();
    let mut i: u32 = 0;
    while i < count
        invariant
            i <= count,
            rows.len() == i,
            height >= 1,
            forall|k: int| 0 <= k < rows@.len() ==> rows@[k] < height,
        decreases count - i,
    {
        rows.push(rand_usize_below(height));
        i += 1;
    }
    rows
}

/// Whether the selection set holds row y.
fn row_selected(rows: &Vec<usize>, y: usize) -> (b: bool)
    ensures
        b == rows@.contains(y),
{
    let mut i: usize = 0;
    while i < rows.len()
        invariant
            i <= rows.len(),
            forall|k: int| 0 <= k < i ==> rows@[k] != y,
        decreases rows.len() - i,
    {
        if rows[i] == y {
            return true;
        }
        i += 1;
    }
    false
}

/// Whether byte j of a banded frame lies in one of the three color
/// channels of a pixel on a selected row: its row must be a drawn one and
/// it must sit left of the row's padding.
pub open spec fn is_band_byte(
    j: int,
    width: int,
    height: int,
    stride: int,
    rows: Seq<usize>,
) -> bool {
    &&& 0 <= j
    &&& j / stride < height
    &&& rows.contains((j / stride) as usize)
    &&& j % stride < 4 * width
    &&& (j % stride) % 4 < 3
}

/// The whole effect of one banding pass: every covered byte carries a
/// luminance inside the restricted band, the three channels of one pixel
/// carry the same value, and every byte off the selected rows — padding
/// and fourth channels included — is exactly what the previous stage left.
pub open spec fn banded(
    old_d: Seq<u8>,
    new_d: Seq<u8>,
    width: int,
    height: int,
    stride: int,
    rows: Seq<usize>,
) -> bool {
    &&& new_d.len() == old_d.len()
    &&& forall|j: int|
        #![trigger new_d[j]]
        0 <= j < new_d.len() && !is_band_byte(j, width, height, stride, rows) ==> new_d[j]
            == old_d[j]
    &&& forall|j: int|
        #![trigger new_d[j]]
        0 <= j < new_d.len() && is_band_byte(j, width, height, stride, rows) ==> (BAND_LUMA_MIN
            <= new_d[j] <= BAND_LUMA_MAX && new_d[j] == new_d[j - (j % stride) % 4])
}

/// Whether byte j lies in one of the three color channels of the row that
/// starts at byte row_start.
pub open spec fn is_row_noise_byte(j: int, row_start: int, width: int) -> bool {
    &&& row_start <= j < row_start + 4 * width
    &&& (j - row_start) % 4 < 3
}

/// Overwrites the three color channels of every pixel of one row with one
/// shared per-pixel luminance draw from the restricted band; the fourth
/// channel and everything outside the row keep their bytes.
#[verifier::rlimit(60)]
fn flatten_row(dest: &mut Vec<u8>, row_start: usize, width: usize)
    requires
        row_start + width * 4 <= old(dest).len(),
    ensures
        final(dest)@.len() == old(dest)@.len(),
        forall|j: int|
            #![trigger final(dest)@[j]]
            0 <= j < old(dest)@.len() && !is_row_noise_byte(j, row_start as int, width as int)
                ==> final(dest)@[j] == old(dest)@[j],
        forall|j: int|
            #![trigger final(dest)@[j]]
            0 <= j < old(dest)@.len() && is_row_noise_byte(j, row_start as int, width as int)
                ==> (BAND_LUMA_MIN <= final(dest)@[j] <= BAND_LUMA_MAX && final(dest)@[j]
                == final(dest)@[j - (j - row_start as int) % 4]),
{
    let mut x: usize = 0;
    let mut off: usize = row_start;
    while x < width
        invariant
            off == row_start + 4 * x,
            x <= width,
            row_start + width * 4 <= dest.len(),
            dest.len() == old(dest).len(),
            forall|j: int|
                #![trigger dest@[j]]
                0 <= j < dest@.len() && !(row_start <= j < row_start + 4 * x && (j
                    - row_start as int) % 4 < 3) ==> dest@[j] == old(dest)@[j],
            forall|j: int|
                #![trigger dest@[j]]
                0 <= j < dest@.len() && (row_start <= j < row_start + 4 * x && (j
                    - row_start as int) % 4 < 3) ==> (BAND_LUMA_MIN <= dest@[j] <= BAND_LUMA_MAX
                    && dest@[j] == dest@[j - (j - row_start as int) % 4]),
        decreases width - x,
    {
        let luma = rand_u8_between(BAND_LUMA_MIN, BAND_LUMA_MAX);
        let ghost prev = dest@;
        dest.set(off, luma);
        dest.set(off + 1, luma);
        dest.set(off + 2, luma);
        proof {
            let rsi = row_start as int;
            let xi = x as int;
            let offi = off as int;
            assert forall|j: int| 0 <= j < dest@.len() implies ((!(rsi <= j < rsi + 4 * (xi + 1)
                && (j - rsi) % 4 < 3) ==> dest@[j] == old(dest)@[j]) && ((rsi <= j < rsi + 4 * (
            xi + 1) && (j - rsi) % 4 < 3) ==> (BAND_LUMA_MIN <= dest@[j] <= BAND_LUMA_MAX
                && dest@[j] == dest@[j - (j - rsi) % 4]))) by {
                if rsi <= j {
                    let d = j - rsi;
                    lemma_mod_bound(d, 4);
                    lemma_fundamental_div_mod(d, 4);
                    if offi <= j < offi + 4 {
                        // one byte of the pixel just flattened
                        lemma_fundamental_div_mod_converse_mod(d, 4, xi, d - 4 * xi);
                        assert(d % 4 == j - offi);
                    } else if j < offi {
                        // a byte of an earlier pixel: untouched, and so is
                        // its pixel's first channel
                        assert(dest@[j] == prev[j]);
                        if d % 4 < 3 && j < rsi + 4 * xi {
                            assert(dest@[j - d % 4] == prev[j - d % 4]);
                        }
                    } else {
                        // beyond the flattened pixel: untouched, outside both
                        // spans
                        assert(dest@[j] == prev[j]);
                    }
                }
            }
        }
        x += 1;
        off += 4;
    }
}

/// Applies the noise bander over a frame of height rows of stride bytes:
/// every selected row has its pixels flattened to band luminance, every
/// unselected row is left byte-for-byte as it was.
pub fn apply_noise_rows(
    dest: &mut Vec<u8>,
    width: usize,
    height: usize,
    stride: usize,
    rows: &Vec<usize>,
)
    requires
        1 <= stride,
        width * 4 <= stride,
        stride * height <= old(dest).len(),
    ensures
        final(dest)@.len() == old(dest)@.len(),
        banded(old(dest)@, final(dest)@, width as int, height as int, stride as int, rows@),
{
    let len = dest.len();
    let mut y: usize = 0;
    let mut off: usize = 0;
    while y < height
        invariant
            off == y * stride,
            y <= height,
            1 <= stride,
            width * 4 <= stride,
            stride * height <= len,
            len == dest.len(),
            dest.len() == old(dest).len(),
            forall|j: int|
                #![trigger dest@[j]]
                0 <= j < len && !is_band_byte(j, width as int, y as int, stride as int, rows@)
                    ==> dest@[j] == old(dest)@[j],
            forall|j: int|
                #![trigger dest@[j]]
                0 <= j < len && is_band_byte(j, width as int, y as int, stride as int, rows@)
                    ==> (BAND_LUMA_MIN <= dest@[j] <= BAND_LUMA_MAX && dest@[j] == dest@[j - (j
                    % stride as int) % 4]),
        decreases height - y,
    {
        let ghost yi = y as int;
        let ghost si = stride as int;
        let ghost offi = off as int;
        let ghost wi = width as int;
        proof {
            lemma_mul_inequality(yi + 1, height as int, si);
            lemma_mul_is_commutative(height as int, si);
            lemma_mul_is_distributive_add_other_way(si, yi, 1);
        }
        if row_selected(rows, y) {
            let ghost prev = dest@;
            flatten_row(dest, off, width);
            proof {
                assert forall|j: int| 0 <= j < len implies ((!is_band_byte(
                    j,
                    wi,
                    yi + 1,
                    si,
                    rows@,
                ) ==> dest@[j] == old(dest)@[j]) && (is_band_byte(j, wi, yi + 1, si, rows@) ==> (
                BAND_LUMA_MIN <= dest@[j] <= BAND_LUMA_MAX && dest@[j] == dest@[j - (j % si)
                    % 4]))) by {
                    lemma_band_byte_split(j, wi, yi, si, rows@, offi, len as int);
                    lemma_fundamental_div_mod(j, si);
                    lemma_mod_bound(j, si);
                    lemma_div_pos_is_pos(j, si);
                    let q = j / si;
                    let r = j % si;
                    if !is_row_noise_byte(j, offi, wi) {
                        // flattening left this byte as the earlier rows had it
                        if is_band_byte(j, wi, yi, si, rows@) {
                            // an earlier selected row: the byte and its pixel's
                            // first channel both lie below row y's start
                            lemma_mul_inequality(q + 1, yi, si);
                            lemma_mul_is_distributive_add_other_way(si, q, 1);
                            lemma_mul_is_commutative(q, si);
                            assert(j < offi);
                            lemma_mod_bound(r, 4);
                            assert(!is_row_noise_byte(j - r % 4, offi, wi));
                        }
                    }
                }
            }
        } else {
            proof {
                assert forall|j: int|
                    0 <= j < len implies is_band_byte(j, width as int, yi + 1, si, rows@)
                    == is_band_byte(j, width as int, yi, si, rows@) by {
                    if 0 <= j {
                        lemma_fundamental_div_mod(j, si);
                        lemma_mod_bound(j, si);
                        lemma_div_pos_is_pos(j, si);
                        if j / si == yi {
                            assert(!rows@.contains((j / si) as usize));
                        }
                    }
                }
            }
        }
        y += 1;
        off += stride;
    }
}

/// Byte j's banding classification for height y + 1, when row y starts at
/// byte row_start = y * stride: the byte is covered either by an earlier
/// row or by row y's own noise span, never both.
proof fn lemma_band_byte_split(
    j: int,
    width: int,
    y: int,
    stride: int,
    rows: Seq<usize>,
    row_start: int,
    len: int,
)
    requires
        0 <= j < len,
        1 <= stride,
        4 * width <= stride,
        0 <= y,
        row_start == y * stride,
        rows.contains(y as usize),
    ensures
        is_band_byte(j, width, y + 1, stride, rows) == (is_band_byte(j, width, y, stride, rows)
            || is_row_noise_byte(j, row_start, width)),
        is_row_noise_byte(j, row_start, width) ==> j / stride == y && j % stride == j - row_start
            && !is_band_byte(j, width, y, stride, rows),
        !is_row_noise_byte(j, row_start, width) && j / stride == y ==> !is_band_byte(
            j,
            width,
            y + 1,
            stride,
            rows,
        ),
{
    lemma_fundamental_div_mod(j, stride);
    lemma_mod_bound(j, stride);
    lemma_div_pos_is_pos(j, stride);
    let q = j / stride;
    let r = j % stride;
    lemma_mul_is_commutative(y, stride);
    if is_row_noise_byte(j, row_start, width) {
        // j sits in row y's noise span, so its row index is y
        lemma_fundamental_div_mod_converse_div(j, stride, y, j - row_start);
        assert(q == y);
        assert(r == j - row_start);
    } else {
        if q == y {
            // j is in row y but outside the noise span: not a band byte
            assert(r == j - row_start);
        }
    }
}

} // verus!
