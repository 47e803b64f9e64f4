//! The color-aging transform: a darkened, color-shifted copy of a 4-byte
//! pixel buffer, driven by a persistent single-byte age accumulator.

use vstd::prelude::*;
use vstd::wrapping::u8_specs;
use crate::rng::rand_u8_between;

verus! {

/// Upper clamp of the age accumulator.
pub const AGE_CAP: u8 = 0x18;

/// What one frame does to the age accumulator: subtract the top bit of a
/// full-range draw (0 or 1), saturating at 0, then clamp to the cap — the
/// step lands exactly on clamp(c - delta, 0, AGE_CAP). The accumulator
/// never exceeds the cap and never goes below zero.
pub open spec fn aged_accumulator(c: u8, draw: u8) -> u8 {
    let delta = draw >> 7;
    let lowered: u8 = if c >= delta {
        (c - delta) as u8
    } else {
        0
    };
    if lowered > AGE_CAP {
        AGE_CAP
    } else {
        lowered
    }
}

/// One aged color channel: the channel loses a quarter of itself (rounded
/// through the 0xfc mask), gains the accumulator, and gains a noise bit
/// worth 0x10 taken from bit 7 of the per-pixel draw — all modulo 256.
pub open spec fn aged_channel(a: u8, c: u8, draw: u8) -> u8 {
    let faded = u8_specs::wrapping_sub(a, (a & 0xfc) >> 2);
    let plus_age = u8_specs::wrapping_add(faded, c);
    u8_specs::wrapping_add(plus_age, (draw >> 3) & 0x10)
}

/// Pixel i of dst is pixel i of src aged under accumulator c: the three
/// color channels share one draw, and the fourth (padding) byte is copied
/// unchanged.
pub open spec fn pixel_aged(src: Seq<u8>, dst: Seq<u8>, i: int, c: u8) -> bool {
    &&& (exists|d: u8|
        {
            &&& dst[4 * i] == #[trigger] aged_channel(src[4 * i], c, d)
            &&& dst[4 * i + 1] == aged_channel(src[4 * i + 1], c, d)
            &&& dst[4 * i + 2] == aged_channel(src[4 * i + 2], c, d)
        })
    &&& dst[4 * i + 3] == src[4 * i + 3]
}

/// The whole effect of one color-aging call: the accumulator stepped once
/// and clamped, every pixel below video_area aged under the new
/// accumulator, and every byte from 4 * video_area on untouched.
pub open spec fn aging_applied(
    src: Seq<u8>,
    old_dst: Seq<u8>,
    new_dst: Seq<u8>,
    video_area: int,
    c0: u8,
    c1: u8,
) -> bool {
    &&& new_dst.len() == old_dst.len()
    &&& c1 <= AGE_CAP
    &&& (exists|d: u8| c1 == #[trigger] aged_accumulator(c0, d))
    &&& (forall|i: int| 0 <= i < video_area ==> #[trigger] pixel_aged(src, new_dst, i, c1))
    &&& (forall|j: int| 4 * video_area <= j < new_dst.len() ==> new_dst[j] == old_dst[j])
}

/// Law: one accumulator step is exactly clamp(a - delta, 0, AGE_CAP) for
/// the drawn unit delta (the draw's top bit, 0 or 1): the accumulator
/// never exceeds the cap and never goes below zero, and from any value in
/// [1, AGE_CAP] it lands exactly on the old value minus the unit.
pub proof fn lemma_age_accumulator_clamp(a: u8, draw: u8)
    ensures
        aged_accumulator(a, draw) <= AGE_CAP,
        draw >> 7 <= 1,
        aged_accumulator(a, draw) == (if a - (draw >> 7) < 0 {
            0
        } else if a - (draw >> 7) > AGE_CAP {
            AGE_CAP
        } else {
            (a - (draw >> 7)) as u8
        }),
        1 <= a <= AGE_CAP ==> aged_accumulator(a, draw) == a - (draw >> 7),
{
    assert(draw >> 7 <= 1) by (bit_vector);
}

/// Advances the age accumulator by one frame.
pub fn age_step(c: u8, draw: u8) -> (r: u8)
    ensures
        r == aged_accumulator(c, draw),
{
    let delta = draw >> 7;
    let lowered = if c >= delta {
        c - delta
    } else {
        0
    };
    if lowered > AGE_CAP {
        AGE_CAP
    } else {
        lowered
    }
}

/// Ages one color channel under accumulator c with the pixel's draw.
pub fn age_channel(a: u8, c: u8, draw: u8) -> (r: u8)
    ensures
        r == aged_channel(a, c, draw),
{
    let quarter = (a & 0xfc) >> 2;
    a.wrapping_sub(quarter).wrapping_add(c).wrapping_add((draw >> 3) & 0x10)
}

/// A byte-identical copy of one pixel of pixel_aged, carried across an
/// update that leaves the pixel's four bytes alone.
proof fn lemma_pixel_aged_stable(src: Seq<u8>, d1: Seq<u8>, d2: Seq<u8>, i: int, c: u8)
    requires
        pixel_aged(src, d1, i, c),
        d2[4 * i] == d1[4 * i],
        d2[4 * i + 1] == d1[4 * i + 1],
        d2[4 * i + 2] == d1[4 * i + 2],
        d2[4 * i + 3] == d1[4 * i + 3],
    ensures
        pixel_aged(src, d2, i, c),
{
    let d = choose|d: u8|
        {
            &&& d1[4 * i] == #[trigger] aged_channel(src[4 * i], c, d)
            &&& d1[4 * i + 1] == aged_channel(src[4 * i + 1], c, d)
            &&& d1[4 * i + 2] == aged_channel(src[4 * i + 2], c, d)
        };
    assert(d2[4 * i] == aged_channel(src[4 * i], c, d));
}

/// The color-aging transform over the first video_area 4-byte pixels:
/// steps the accumulator once, then writes every pixel of src aged under
/// the new accumulator into dest. Bytes of dest beyond the pixel area are
/// left as they were.
pub fn coloraging(src: &Vec<u8>, dest: &mut Vec<u8>, video_area: usize, c: &mut u8)
    requires
        video_area * 4 <= src.len(),
        video_area * 4 <= old(dest).len(),
    ensures
        aging_applied(
            src@,
            old(dest)@,
            final(dest)@,
            video_area as int,
            *old(c),
            *final(c),
        ),
{
    let frame_draw = rand_u8_between(0, 255);
    let c_tmp = age_step(*c, frame_draw);
    let mut i: usize = 0;
    while i < video_area
        invariant
            i <= video_area,
            video_area * 4 <= src.len(),
            video_area * 4 <= dest.len(),
            dest.len() == old(dest).len(),
            forall|k: int| 0 <= k < i ==> #[trigger] pixel_aged(src@, dest@, k, c_tmp),
            forall|j: int| 4 * i <= j < dest.len() ==> dest[j] == old(dest)[j],
        decreases video_area - i,
    {
        let offset = i * 4;
        let a_r = src[offset];
        let a_g = src[offset + 1];
        let a_b = src[offset + 2];
        let a_x = src[offset + 3];

        let draw = rand_u8_between(0, 255);
        let dest_r = age_channel(a_r, c_tmp, draw);
        let dest_g = age_channel(a_g, c_tmp, draw);
        let dest_b = age_channel(a_b, c_tmp, draw);

        let ghost before = dest@;
        dest.set(offset, dest_r);
        dest.set(offset + 1, dest_g);
        dest.set(offset + 2, dest_b);
        dest.set(offset + 3, a_x);

        proof {
            assert(dest@[4 * i as int] == aged_channel(src@[4 * i as int], c_tmp, draw));
            assert(pixel_aged(src@, dest@, i as int, c_tmp));
            assert forall|k: int| 0 <= k < i implies #[trigger] pixel_aged(
                src@,
                dest@,
                k,
                c_tmp,
            ) by {
                lemma_pixel_aged_stable(src@, before, dest@, k, c_tmp);
            }
        }
        i += 1;
    }
    *c = c_tmp;
}

/// Copies src into dest byte for byte.
fn copy_into(src: &Vec<u8>, dest: &mut Vec<u8>)
    requires
        old(dest).len() == src.len(),
    ensures
        final(dest)@ == src@,
{
    let mut i: usize = 0;
    while i < src.len()
        invariant
            i <= src.len(),
            dest.len() == src.len(),
            forall|k: int| 0 <= k < i ==> dest@[k] == src@[k],
        decreases src.len() - i,
    {
        dest.set(i, src[i]);
        i += 1;
    }
    proof {
        assert(dest@ =~= src@);
    }
}

/// The dispatcher's aging stage: the color-aging transform when it is
/// enabled, and an exact byte-for-byte copy — accumulator untouched — when
/// it is not.
pub fn aging_pass(enabled: bool, src: &Vec<u8>, dest: &mut Vec<u8>, video_area: usize, c: &mut u8)
    requires
        enabled ==> video_area * 4 <= src.len() && video_area * 4 <= old(dest).len(),
        !enabled ==> old(dest).len() == src.len(),
    ensures
        final(dest)@.len() == old(dest)@.len(),
        !enabled ==> final(dest)@ == src@ && *final(c) == *old(c),
        enabled ==> aging_applied(
            src@,
            old(dest)@,
            final(dest)@,
            video_area as int,
            *old(c),
            *final(c),
        ),
{
    if enabled {
        coloraging(src, dest, video_area, c);
    } else {
        copy_into(src, dest);
    }
}

} // verus!
