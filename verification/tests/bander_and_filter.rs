//! Tests for the horizontal noise bander and the secondary TV filter.

use agingtv::frame::PixelLayout;
use agingtv::noise::{apply_noise_rows, select_rows};
use agingtv::tvfilter::{
    bgrx_to_gray, generate_random_array, tv_transform_frame, video_tv_filter,
};

#[test]
fn select_rows_count_and_range() {
    let rows = select_rows(100, 5);
    assert_eq!(rows.len(), 100);
    assert!(rows.iter().all(|&r| r < 5));
    // a uniform draw over five rows does not return one row a hundred times
    assert!(rows.iter().any(|&r| r != rows[0]));
}

#[test]
fn apply_noise_rows_touches_only_selection() {
    let width = 2usize;
    let height = 3usize;
    let stride = 12usize;
    let before: Vec<u8> = (0..36u8).collect();
    let mut dest = before.clone();
    let rows: Vec<usize> = vec![1];
    apply_noise_rows(&mut dest, width, height, stride, &rows);
    // rows 0 and 2 byte-identical
    assert_eq!(&dest[0..12], &before[0..12]);
    assert_eq!(&dest[24..36], &before[24..36]);
    // row 1: two flattened pixels, alpha and padding untouched
    for x in 0..width {
        let base = 12 + 4 * x;
        let luma = dest[base];
        assert!((16..=234).contains(&luma));
        assert_eq!(dest[base + 1], luma);
        assert_eq!(dest[base + 2], luma);
        assert_eq!(dest[base + 3], before[base + 3]);
    }
    assert_eq!(&dest[20..24], &before[20..24]);
}

#[test]
fn band_luma_avoids_black_and_white() {
    // flatten a large black row: every written byte leaves pure black,
    // stays under pure white, and the draws are not all one value
    let width = 64usize;
    let mut dest: Vec<u8> = vec![0; 256];
    let rows: Vec<usize> = vec![0];
    apply_noise_rows(&mut dest, width, 1, 256, &rows);
    let mut lumas: Vec<u8> = Vec::new();
    for x in 0..width {
        let luma = dest[4 * x];
        assert!((16..=234).contains(&luma));
        lumas.push(luma);
    }
    assert!(lumas.iter().any(|&l| l != lumas[0]));
}

#[test]
fn duplicate_rows_flatten_once() {
    let before: Vec<u8> = vec![0; 8];
    let mut dest = before.clone();
    let rows: Vec<usize> = vec![0, 0, 0];
    apply_noise_rows(&mut dest, 2, 1, 8, &rows);
    let luma = dest[0];
    assert!((16..=234).contains(&luma));
    assert_eq!(dest[1], luma);
    assert_eq!(dest[2], luma);
    assert_eq!(dest[3], 0);
}

#[test]
fn generate_random_array_bounds() {
    let a = generate_random_array(100);
    assert_eq!(a.len(), 100);
    assert!(a.iter().all(|&v| v <= 12));
    assert!(a.iter().any(|&v| v != a[0]));
}

#[test]
fn video_tv_filter_passes_pixel_through() {
    let noise: Vec<u8> = vec![3, 7, 11];
    let pixel: Vec<u8> = vec![10, 20, 30, 40];
    assert_eq!(video_tv_filter(&noise, &pixel), pixel);
}

#[test]
fn bgrx_to_gray_hands_pixel_back() {
    let pixel: Vec<u8> = vec![10, 20, 30, 40];
    assert_eq!(bgrx_to_gray(&pixel, 5, true), pixel);
    assert_eq!(bgrx_to_gray(&pixel, 0, false), pixel);
}

#[test]
fn tv_filter_same_layout_copies_pixels_and_keeps_padding() {
    let width = 2usize;
    let height = 2usize;
    let in_stride = 12usize;
    let out_stride = 12usize;
    let input: Vec<u8> = (100..124u8).collect();
    let mut out: Vec<u8> = vec![7; 24];
    tv_transform_frame(
        &input, &mut out, width, height, in_stride, out_stride, PixelLayout::Bgrx, 0, false,
    );
    for y in 0..height {
        // the pixel span is copied
        assert_eq!(
            &out[y * out_stride..y * out_stride + 8],
            &input[y * in_stride..y * in_stride + 8]
        );
        // the padding keeps the output buffer's old bytes
        assert_eq!(&out[y * out_stride + 8..(y + 1) * out_stride], &[7, 7, 7, 7]);
    }
}

#[test]
fn tv_filter_gray_takes_first_channel() {
    let width = 3usize;
    let height = 2usize;
    let in_stride = 12usize;
    let out_stride = 4usize;
    let input: Vec<u8> = (0..24u8).collect();
    let mut out: Vec<u8> = vec![9; 8];
    tv_transform_frame(
        &input, &mut out, width, height, in_stride, out_stride, PixelLayout::Gray8, 0, false,
    );
    for y in 0..height {
        for x in 0..width {
            assert_eq!(out[y * out_stride + x], input[y * in_stride + 4 * x]);
        }
        // the single padding byte per row is untouched
        assert_eq!(out[y * out_stride + 3], 9);
    }
}
