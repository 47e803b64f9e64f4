//! The per-frame dispatcher: reads one configuration snapshot and applies
//! the color-aging transform, the scratch renderer and the horizontal
//! noise bander in sequence to one mapped frame.

use vstd::prelude::*;
use vstd::arithmetic::div_mod::lemma_remainder_lower;
use crate::aging::{aged_accumulator, aging_applied, aging_pass, AGE_CAP};
use crate::config::Settings;
use crate::noise::{apply_noise_rows, banded, select_rows};
use crate::scratch::{field_scratched, life_stepped, scratching, Scratch};

verus! {

/// The two pixel layouts the engine emits: 4-byte BGR plus one padding
/// byte, or single-channel grayscale.
#[derive(Clone, Copy, PartialEq, Eq, Structural)]
pub enum PixelLayout {
    Bgrx,
    Gray8,
}

/// The configuration under which a frame transform is a pure copy: aging
/// off, no artifacts in the field, and no noise-row draws.
pub open spec fn pure_copy_config(s: Settings, scratch_count: int) -> bool {
    &&& !s.color_aging
    &&& s.scratch_lines == 0
    &&& scratch_count == 0
}

/// Law: under the pure-copy configuration the pipeline is idempotent.
/// transform_frame's contract makes each such run yield exactly its input
/// bytes and leave the accumulator and the field untouched, so a second
/// run on the first run's output ends on the same bytes as the first: no
/// hidden state survives between runs.
pub proof fn lemma_pure_copy_idempotent(
    s: Settings,
    scratch_count: int,
    input: Seq<u8>,
    once: Seq<u8>,
    twice: Seq<u8>,
)
    requires
        pure_copy_config(s, scratch_count),
        once == input,
        twice == once,
    ensures
        twice == input,
{
}

/// The full staged effect of one frame: an aging (or copy) buffer, the
/// scratch field's fold over it, and — for the BGR-padded layout — a
/// banding pass over some row selection of the configured size.
pub open spec fn frame_staged(
    s: Settings,
    pre_f: Seq<Scratch>,
    post_f: Seq<Scratch>,
    in_d: Seq<u8>,
    pre_out: Seq<u8>,
    post_out: Seq<u8>,
    age0: u8,
    age1: u8,
    width: int,
    height: int,
    in_stride: int,
    out_stride: int,
    out_layout: PixelLayout,
) -> bool {
    exists|mid_aged: Seq<u8>, mid_scratched: Seq<u8>|
        {
            &&& (s.color_aging ==> aging_applied(
                in_d,
                pre_out,
                mid_aged,
                in_stride * height / 4,
                age0,
                age1,
            ))
            &&& (!s.color_aging ==> mid_aged == in_d && age1 == age0)
            &&& #[trigger] field_scratched(
                pre_f,
                post_f,
                mid_aged,
                mid_scratched,
                width,
                height,
                out_stride,
            )
            &&& (out_layout == PixelLayout::Bgrx ==> (exists|rows: Seq<usize>|
                {
                    &&& rows.len() == s.scratch_lines
                    &&& (forall|i: int| #![trigger rows[i]] 0 <= i < rows.len() ==> rows[i] < height)
                    &&& #[trigger] banded(mid_scratched, post_out, width, height, out_stride, rows)
                }))
            &&& (out_layout != PixelLayout::Bgrx ==> post_out == mid_scratched)
        }
}

/// Transforms one frame: ages (or plainly copies) the input into the
/// output buffer, advances and draws the scratch field over it, then — for
/// the BGR-padded layout — overwrites the noise bander's selected rows.
/// Reports nothing: the per-frame path has no recoverable error, and every
/// geometry obligation — buffer sizes, strides, the 4-byte-layout
/// invariants — is a precondition that the host must reject loudly.
pub fn transform_frame(
    settings: &Settings,
    scratches: &mut Vec<Scratch>,
    age: &mut u8,
    in_data: &Vec<u8>,
    out_data: &mut Vec<u8>,
    width: usize,
    height: usize,
    in_stride: usize,
    out_stride: usize,
    out_layout: PixelLayout,
)
    requires
        old(out_data).len() == in_data.len(),
        1 <= width,
        1 <= height,
        width * 4 <= in_stride,
        in_stride * height <= in_data.len(),
        width * 4 <= out_stride,
        out_stride * height <= old(out_data).len(),
        out_layout == PixelLayout::Bgrx ==> (in_data.len() % 4 == 0 && old(out_data).len() % 4
            == 0 && old(out_data).len() as int / out_stride as int == in_data.len() as int
            / in_stride as int),
        old(scratches).len() > 0 ==> width * 256 <= i32::MAX,
        (exists|k: int|
            #![trigger old(scratches)@[k]]
            0 <= k < old(scratches).len() && old(scratches)@[k].life <= 0) ==> (2 <= height
            && height <= i32::MAX),
    ensures
        final(out_data)@.len() == old(out_data)@.len(),
        final(scratches).len() == old(scratches).len(),
        // the three stages in order, with the field's fold in the middle
        frame_staged(
            *settings,
            old(scratches)@,
            final(scratches)@,
            in_data@,
            old(out_data)@,
            final(out_data)@,
            *old(age),
            *final(age),
            width as int,
            height as int,
            in_stride as int,
            out_stride as int,
            out_layout,
        ),
        // every artifact that was active lost exactly one life or died
        forall|k: int|
            0 <= k < old(scratches).len() ==> #[trigger] life_stepped(
                old(scratches)@[k],
                final(scratches)@[k],
            ),
        // the accumulator moves only when aging runs, and stays clamped
        settings.color_aging ==> (*final(age) <= AGE_CAP && (exists|d: u8|
            *final(age) == #[trigger] aged_accumulator(*old(age), d))),
        !settings.color_aging ==> *final(age) == *old(age),
        // aging off, no artifacts, no noise rows: the frame is an exact copy
        pure_copy_config(*settings, old(scratches).len() as int) ==> final(out_data)@ == in_data@
            && final(scratches)@ == old(scratches)@,
        // aging on, no artifacts, no noise rows: the frame is exactly the
        // color-aging transform's output
        (settings.color_aging && old(scratches).len() == 0 && settings.scratch_lines == 0)
            ==> aging_applied(
            in_data@,
            old(out_data)@,
            final(out_data)@,
            (in_stride * height / 4) as int,
            *old(age),
            *final(age),
        ),
        // aging off, no artifacts: the output is the input except on the
        // bander's selected rows
        (!settings.color_aging && old(scratches).len() == 0 && out_layout == PixelLayout::Bgrx)
            ==> (exists|rows: Seq<usize>|
            {
                &&& rows.len() == settings.scratch_lines
                &&& (forall|i: int| #![trigger rows[i]] 0 <= i < rows.len() ==> rows[i] < height)
                &&& #[trigger] banded(
                    in_data@,
                    final(out_data)@,
                    width as int,
                    height as int,
                    out_stride as int,
                    rows,
                )
            }),
{
    let video_size = in_stride * height / 4;
    proof {
        lemma_remainder_lower(in_stride as int * height as int, 4);
    }
    aging_pass(settings.color_aging, in_data, out_data, video_size, age);
    let ghost after_aging = out_data@;

    scratching(scratches, out_data, width, height, out_stride);
    let ghost after_scratch = out_data@;

    if out_layout == PixelLayout::Bgrx {
        let rows = select_rows(settings.scratch_lines, height);
        apply_noise_rows(out_data, width, height, out_stride, &rows);
        proof {
            if settings.scratch_lines == 0 {
                assert forall|j: int| 0 <= j < after_scratch.len() implies out_data@[j]
                    == after_scratch[j] by {
                    assert(!rows@.contains((j / out_stride as int) as usize));
                }
                assert(out_data@ =~= after_scratch);
            }
            if old(scratches).len() == 0 && !settings.color_aging {
                assert(after_scratch == in_data@);
                assert(banded(
                    in_data@,
                    out_data@,
                    width as int,
                    height as int,
                    out_stride as int,
                    rows@,
                ));
            }
        }
    }
    proof {
        assert(field_scratched(
            old(scratches)@,
            scratches@,
            after_aging,
            after_scratch,
            width as int,
            height as int,
            out_stride as int,
        ));
    }
}

} // verus!
