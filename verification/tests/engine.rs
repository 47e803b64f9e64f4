//! End-to-end and component tests for the aging engine.

use agingtv::aging::{age_channel, age_step, aging_pass, coloraging};
use agingtv::config::Settings;
use agingtv::frame::{transform_frame, PixelLayout};
use agingtv::scratch::{brighten_channel, new_scratch_field, scratch_one, scratching, Scratch};

fn settings(scratch_lines: u32, color_aging: bool) -> Settings {
    Settings { scratch_lines, color_aging, pits: true, dusts: true }
}

#[test]
fn default_settings_values() {
    let s = Settings::default();
    assert_eq!(s.scratch_lines, 7);
    assert!(s.color_aging);
    assert!(s.pits);
    assert!(s.dusts);
}

#[test]
fn age_step_decrements_and_clamps() {
    // a unit draw moves the accumulator down by one
    assert_eq!(age_step(0x18, 0x80), 0x17);
    assert_eq!(age_step(0x18, 0xff), 0x17);
    // a zero top bit leaves it alone
    assert_eq!(age_step(0x18, 0x00), 0x18);
    assert_eq!(age_step(0x18, 0x7f), 0x18);
    // values above the cap are clamped down to it
    assert_eq!(age_step(0x30, 0x00), 0x18);
    // a unit draw from zero saturates at zero
    assert_eq!(age_step(0x00, 0x80), 0x00);
    assert_eq!(age_step(0x01, 0x80), 0x00);
    assert_eq!(age_step(0x00, 0x00), 0x00);
}

#[test]
fn age_channel_exact_values() {
    // 100 loses a quarter (25), gains the cap (24): 99
    assert_eq!(age_channel(100, 0x18, 0x00), 99);
    // a draw with bit 7 set lands a 0x10 noise grain on top
    assert_eq!(age_channel(100, 0x18, 0x80), 115);
    // wrapping is modulo 256
    assert_eq!(age_channel(0, 0xff, 0x00), 0xff);
}

#[test]
fn brighten_channel_exact_values() {
    assert_eq!(brighten_channel(100), 132);
    assert_eq!(brighten_channel(0xff), 0x1f);
    assert_eq!(brighten_channel(0), 0x20);
}

#[test]
fn coloraging_shifts_channels_and_keeps_alpha() {
    let src: Vec<u8> = vec![10, 10, 10, 40, 200, 200, 200, 255];
    let mut dest: Vec<u8> = vec![0; 8];
    let mut c: u8 = 0x18;
    coloraging(&src, &mut dest, 2, &mut c);
    assert!(c == 0x17 || c == 0x18);
    // alpha bytes are copied unchanged
    assert_eq!(dest[3], 40);
    assert_eq!(dest[7], 255);
    // each pixel's channels share one draw: 10 -> 8 + c + {0, 16}
    for k in 0..3 {
        let v = dest[k];
        let base = 8 + c as i32;
        assert!(v as i32 == base || v as i32 == base + 16, "channel {v}");
        assert_eq!(dest[k], dest[0]);
    }
    // 200 -> 200 - 50 + c + {0, 16}
    for k in 4..7 {
        let v = dest[k];
        let base = 150 + c as i32;
        assert!(v as i32 == base || v as i32 == base + 16, "channel {v}");
        assert_eq!(dest[k], dest[4]);
    }
}

#[test]
fn aging_pass_disabled_is_byte_identical() {
    let src: Vec<u8> = (0..64u8).collect();
    let mut dest: Vec<u8> = vec![0xaa; 64];
    let mut c: u8 = 0x18;
    aging_pass(false, &src, &mut dest, 16, &mut c);
    assert_eq!(dest, src);
    assert_eq!(c, 0x18);
}

#[test]
fn scratch_field_has_configured_cardinality() {
    assert_eq!(new_scratch_field(7).len(), 7);
    assert_eq!(new_scratch_field(0).len(), 0);
}

#[test]
fn dormant_scratch_never_writes() {
    let before: Vec<u8> = (0..128u8).collect();
    for _ in 0..50 {
        let mut s = Scratch { life: 0, x: 77, dx: -5, init: 3 };
        let mut dest = before.clone();
        scratch_one(&mut s, &mut dest, 8, 4, 32);
        assert_eq!(dest, before);
        // it either stayed dormant or reactivated within bounds
        if s.life > 0 {
            assert!(s.life >= 2 && s.life <= 33);
            assert!(s.x >= 0 && s.x <= 7 * 256);
            assert!(s.dx >= -256 && s.dx <= 255);
            assert!(s.init >= 1 && s.init < 4);
        } else {
            assert_eq!((s.life, s.x, s.dx, s.init), (0, 77, -5, 3));
        }
    }
}

#[test]
fn active_scratch_draws_column_and_ages() {
    // width 4, height 4, no padding; all pixels 100
    let mut dest: Vec<u8> = vec![100; 64];
    let mut s = Scratch { life: 5, x: 256, dx: 0, init: 1 };
    scratch_one(&mut s, &mut dest, 4, 4, 16);
    assert_eq!(s.life, 4);
    assert_eq!(s.x, 256);
    assert_eq!(s.init, 0);
    // rows 1..4, pixel column 1: the three channels brightened to 132
    for y in 0..4usize {
        for x in 0..4usize {
            for k in 0..4usize {
                let j = y * 16 + x * 4 + k;
                if y >= 1 && x == 1 && k < 3 {
                    assert_eq!(dest[j], 132, "byte {j}");
                } else {
                    assert_eq!(dest[j], 100, "byte {j}");
                }
            }
        }
    }
}

#[test]
fn scratch_dies_when_it_leaves_the_field() {
    let before: Vec<u8> = vec![100; 64];
    let mut dest = before.clone();
    let mut s = Scratch { life: 5, x: 4 * 256, dx: 300, init: 0 };
    scratch_one(&mut s, &mut dest, 4, 4, 16);
    assert_eq!(s.life, 0);
    assert_eq!(dest, before);

    let mut s = Scratch { life: 5, x: 0, dx: -1, init: 0 };
    scratch_one(&mut s, &mut dest, 4, 4, 16);
    assert_eq!(s.life, 0);
    assert_eq!(dest, before);
}

#[test]
fn scratch_on_right_edge_draws_nothing() {
    // a position exactly on the right edge survives the bound check but
    // addresses no pixel column: life still falls, nothing is drawn
    let before: Vec<u8> = vec![50; 64];
    let mut dest = before.clone();
    let mut s = Scratch { life: 5, x: 4 * 256, dx: 0, init: 0 };
    scratch_one(&mut s, &mut dest, 4, 4, 16);
    assert_eq!(s.life, 4);
    assert_eq!(s.x, 4 * 256);
    assert_eq!(dest, before);
}

#[test]
fn scratch_respects_row_padding() {
    // width 2 with stride 12: four padding bytes per row stay untouched
    let before: Vec<u8> = vec![7; 24];
    let mut dest = before.clone();
    let mut s = Scratch { life: 5, x: 256, dx: 0, init: 0 };
    scratch_one(&mut s, &mut dest, 2, 2, 12);
    assert_eq!(s.life, 4);
    for y in 0..2usize {
        for j in 0..12usize {
            let v = dest[y * 12 + j];
            if (4..7).contains(&j) {
                // brightened 7: (7 & 0xfe) + 0x20 = 0x26, carry nibble clear
                assert_eq!(v, 0x26, "row {y} byte {j}");
            } else {
                assert_eq!(v, 7, "row {y} byte {j}");
            }
        }
    }
}

#[test]
fn single_scratch_field_draws_deterministically() {
    // one artifact at column 0 with three frames of life: rows 0..2 of
    // column 0 brightened, everything else untouched, life down by one
    let mut field: Vec<Scratch> = vec![Scratch { life: 3, x: 0, dx: 0, init: 0 }];
    let mut dest: Vec<u8> = vec![0; 32];
    scratching(&mut field, &mut dest, 4, 2, 16);
    assert_eq!(field.len(), 1);
    assert_eq!(field[0].life, 2);
    assert_eq!(field[0].x, 0);
    assert_eq!(field[0].init, 0);
    for j in 0..32usize {
        if j == 0 || j == 1 || j == 2 || j == 16 || j == 17 || j == 18 {
            assert_eq!(dest[j], 0x20, "byte {j}");
        } else {
            assert_eq!(dest[j], 0, "byte {j}");
        }
    }
}

#[test]
fn all_dormant_field_never_writes() {
    let before: Vec<u8> = (0..128u8).collect();
    for _ in 0..20 {
        let mut field: Vec<Scratch> = vec![
            Scratch { life: 0, x: 1, dx: 2, init: 3 },
            Scratch { life: -4, x: 5, dx: 6, init: 7 },
            Scratch { life: 0, x: 0, dx: 0, init: 0 },
        ];
        let mut dest = before.clone();
        scratching(&mut field, &mut dest, 8, 4, 32);
        assert_eq!(dest, before);
        assert_eq!(field.len(), 3);
    }
}

#[test]
fn empty_field_scratching_is_a_no_op() {
    let before: Vec<u8> = (0..255u8).collect();
    let mut dest = before.clone();
    let mut field: Vec<Scratch> = new_scratch_field(0);
    scratching(&mut field, &mut dest, 5, 5, 20);
    assert_eq!(dest, before);
    assert!(field.is_empty());
}

#[test]
fn pure_copy_frame_is_identical_and_idempotent() {
    // aging off, empty field, zero noise rows: one run copies, two runs
    // land on the same bytes
    let s = settings(0, false);
    let width = 4usize;
    let height = 2usize;
    let stride = 16usize;
    let input: Vec<u8> = (0..32u8).map(|b| b.wrapping_mul(7)).collect();
    let mut field = new_scratch_field(0);
    let mut age: u8 = 0x18;

    let mut once: Vec<u8> = vec![0; 32];
    transform_frame(
        &s, &mut field, &mut age, &input, &mut once, width, height, stride, stride,
        PixelLayout::Bgrx,
    );
    assert_eq!(once, input);
    assert_eq!(age, 0x18);

    let mut twice: Vec<u8> = vec![0; 32];
    transform_frame(
        &s, &mut field, &mut age, &once, &mut twice, width, height, stride, stride,
        PixelLayout::Bgrx,
    );
    assert_eq!(twice, input);
    assert!(field.is_empty());
}

#[test]
fn aging_only_frame_shifts_channels_within_bounds() {
    // the 4 x 2 scenario: every pixel (100, 100, 100, 255), aging on,
    // accumulator at the cap, no scratches, no noise rows
    let s = settings(0, true);
    let width = 4usize;
    let height = 2usize;
    let stride = 16usize;
    let mut input: Vec<u8> = Vec::new();
    for _ in 0..8 {
        input.extend_from_slice(&[100, 100, 100, 255]);
    }
    let mut field = new_scratch_field(0);
    let mut age: u8 = 0x18;
    let mut out: Vec<u8> = vec![0; 32];
    transform_frame(
        &s, &mut field, &mut age, &input, &mut out, width, height, stride, stride,
        PixelLayout::Bgrx,
    );
    assert!(age == 0x17 || age == 0x18);
    for p in 0..8usize {
        // alpha unchanged in every pixel
        assert_eq!(out[4 * p + 3], 255);
        // channels of one pixel share one draw and sit in the
        // deterministic band: 75 + age + {0, 16}
        let lo = 75 + age;
        for k in 0..3usize {
            let v = out[4 * p + k];
            assert!(v == lo || v == lo + 16, "pixel {p} channel {v}");
            assert_eq!(v, out[4 * p]);
        }
    }
}

#[test]
fn zero_scratch_lines_still_runs_the_bander_with_zero_rows() {
    // the bander reuses scratch_lines for its row draws, so zero lines
    // means zero rows and the aging output passes through untouched
    let s = settings(0, false);
    let input: Vec<u8> = (0..64u8).collect();
    let mut field = new_scratch_field(0);
    let mut age: u8 = 0;
    let mut out: Vec<u8> = vec![9; 64];
    transform_frame(
        &s, &mut field, &mut age, &input, &mut out, 4, 4, 16, 16, PixelLayout::Bgrx,
    );
    assert_eq!(out, input);
}

#[test]
fn one_pixel_frame_pure_copy() {
    let s = settings(0, false);
    let input: Vec<u8> = vec![1, 2, 3, 4];
    let mut field = new_scratch_field(0);
    let mut age: u8 = 0;
    let mut out: Vec<u8> = vec![0; 4];
    transform_frame(
        &s, &mut field, &mut age, &input, &mut out, 1, 1, 4, 4, PixelLayout::Bgrx,
    );
    assert_eq!(out, input);
}

#[test]
fn full_field_frame_ages_every_artifact() {
    // a populated field: every artifact that was active loses exactly one
    // life or dies; the frame completes whatever the randomness does
    let s = settings(7, true);
    let width = 8usize;
    let height = 8usize;
    let stride = 32usize;
    let input: Vec<u8> = vec![100; 256];
    let mut field = new_scratch_field(7);
    let before = field.clone();
    let mut age: u8 = 0x18;
    let mut out: Vec<u8> = vec![0; 256];
    transform_frame(
        &s, &mut field, &mut age, &input, &mut out, width, height, stride, stride,
        PixelLayout::Bgrx,
    );
    assert_eq!(field.len(), 7);
    assert!(age <= 0x18);
    for (pre, post) in before.iter().zip(field.iter()) {
        if pre.life > 0 {
            assert!(post.life == pre.life - 1 || post.life == 0);
        }
    }
}

#[test]
fn noise_rows_flatten_only_selected_rows() {
    // aging off, empty field, three row draws: every output row is either
    // the input row or a flat band row
    let s = settings(3, false);
    let width = 4usize;
    let height = 8usize;
    let stride = 16usize;
    let input: Vec<u8> = (0..128u8).collect();
    let mut field = new_scratch_field(0);
    let mut age: u8 = 0;
    let mut out: Vec<u8> = vec![0; 128];
    transform_frame(
        &s, &mut field, &mut age, &input, &mut out, width, height, stride, stride,
        PixelLayout::Bgrx,
    );
    for y in 0..height {
        let row = &out[y * stride..y * stride + stride];
        let orig = &input[y * stride..y * stride + stride];
        if row == orig {
            continue;
        }
        // a banded row: per pixel one luma on the three channels, alpha kept
        for x in 0..width {
            let luma = row[4 * x];
            assert!((16..=234).contains(&luma));
            assert_eq!(row[4 * x + 1], luma);
            assert_eq!(row[4 * x + 2], luma);
            assert_eq!(row[4 * x + 3], orig[4 * x + 3]);
        }
    }
}
