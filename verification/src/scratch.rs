//! Vertical scratch artifacts: a fixed-cardinality field of simulated film
//! scratches, each with a lifetime, a fixed-point horizontal position and
//! velocity, and a one-shot vertical start offset.

use vstd::prelude::*;
use vstd::wrapping::{i32_specs, u8_specs};
use vstd::arithmetic::div_mod::{
    lemma_div_is_ordered, lemma_div_multiples_vanish, lemma_div_pos_is_pos,
    lemma_fundamental_div_mod, lemma_fundamental_div_mod_converse_div, lemma_mod_bound,
};
use vstd::arithmetic::mul::{
    lemma_mul_inequality, lemma_mul_is_commutative, lemma_mul_is_distributive_add_other_way,
    lemma_mul_nonnegative,
};
use crate::rng::{rand_i32, rand_u32, rand_usize_below};

verus! {

/// One simulated vertical film scratch.
///
/// life > 0 means the artifact is active and visible; life <= 0 means it is
/// dormant and eligible for a random reactivation. x and dx are fixed-point
/// with 256 units per pixel column, so the drawn column is x / 256. init is
/// the vertical start row of the artifact's first visible frame; it is
/// consumed (reset to 0) the first time the artifact draws.
#[derive(Clone, Copy)]
pub struct Scratch {
    pub life: i32,
    pub x: i32,
    pub dx: i32,
    pub init: i32,
}

impl Default for Scratch {
    /// A freshly initialized artifact carries fully random fields; the
    /// first frames it lives through normalize it into the regular
    /// dormant/active cycle.
    fn default() -> Scratch {
        Scratch { life: rand_i32(), x: rand_i32(), dx: rand_i32(), init: rand_i32() }
    }
}

/// Builds the scratch field at its configured cardinality, as the start
/// hook does before any frame is processed.
pub fn new_scratch_field(scratch_lines: u32) -> (field: Vec<Scratch>)
    ensures
        field.len() == scratch_lines,
{
    let mut field: Vec<Scratch> = Vec::new();
    let mut i: u32 = 0;
    while i < scratch_lines
        invariant
            i <= scratch_lines,
            field.len() == i,
        decreases scratch_lines - i,
    {
        field.push(Scratch::default());
        i += 1;
    }
    field
}

/// The artifact's position after one frame of drift: x advanced by dx with
/// two's-complement wraparound.
pub open spec fn next_x(s: Scratch) -> i32 {
    i32_specs::wrapping_add(s.x, s.dx)
}

/// Whether a fixed-point position still lies over the frame, in the
/// inclusive band [0, width * 256]. A position exactly on the right edge
/// survives the bound check but addresses no pixel column, so it draws
/// nothing that frame.
pub open spec fn in_field(nx: i32, width: int) -> bool {
    0 <= nx <= width * 256
}

/// The first row a frame's streak covers: the artifact's start offset on
/// its first visible frame, and row 0 from then on. A non-positive offset
/// (possible in a freshly randomized artifact) starts at row 0.
pub open spec fn start_row_of(s: Scratch) -> int {
    if s.init <= 0 {
        0
    } else {
        s.init as int
    }
}

/// The bounds a random reactivation establishes: a small positive
/// lifetime, a position on a real pixel column, a small velocity, and a
/// non-zero start row inside the frame.
pub open spec fn activated(s: Scratch, width: int, height: int) -> bool {
    &&& 2 <= s.life <= 33
    &&& 0 <= s.x <= (width - 1) * 256
    &&& -256 <= s.dx <= 255
    &&& 1 <= s.init < height
}

/// One brightened color channel: low bit cleared, a 0x20 quantization step
/// added modulo 256, then a rounding correction or-ed in from the carry
/// nibble.
pub open spec fn brightened(v: u8) -> u8 {
    let a = u8_specs::wrapping_add(v & 0xfe, 0x20);
    let b = a & 0x10;
    a | ((b - (b >> 4)) as u8)
}

/// Brightens one color channel of a streak pixel.
pub fn brighten_channel(v: u8) -> (r: u8)
    ensures
        r == brightened(v),
{
    let a = (v & 0xfe).wrapping_add(0x20);
    let b = a & 0x10;
    proof {
        assert(b >> 4 <= b) by (bit_vector);
    }
    a | (b - (b >> 4))
}

/// Whether byte j is covered by a streak at byte base of each row, with
/// stride bytes to a row, over rows [y1, y2): j must sit in one of the
/// first three channels of the streak's pixel in a covered row.
pub open spec fn is_scratch_byte(j: int, base: int, stride: int, y1: int, y2: int) -> bool {
    &&& base <= j
    &&& (j - base) % stride < 3
    &&& y1 <= (j - base) / stride < y2
}

/// The whole effect of drawing one streak: every covered byte brightened,
/// every other byte untouched.
pub open spec fn streak_drawn(
    old_d: Seq<u8>,
    new_d: Seq<u8>,
    base: int,
    stride: int,
    y1: int,
    y2: int,
) -> bool {
    &&& new_d.len() == old_d.len()
    &&& forall|j: int|
        0 <= j < old_d.len() ==> #[trigger] new_d[j] == (if is_scratch_byte(
            j,
            base,
            stride,
            y1,
            y2,
        ) {
            brightened(old_d[j])
        } else {
            old_d[j]
        })
}

/// Draws one vertical streak: brightens the three color channels of the
/// pixel at byte base = col * 4 in every row of [y1, y2), advancing stride
/// bytes per row, and leaves every other byte — row padding included —
/// exactly as it was.
fn draw_streak(dest: &mut Vec<u8>, stride: usize, col: usize, y1: usize, y2: usize)
    requires
        col * 4 + 4 <= stride,
        y2 * stride <= old(dest).len(),
    ensures
        final(dest)@.len() == old(dest)@.len(),
        streak_drawn(
            old(dest)@,
            final(dest)@,
            col as int * 4,
            stride as int,
            y1 as int,
            y2 as int,
        ),
{
    let base = col * 4;
    let mut y: usize = 0;
    let mut off: usize = base;
    while y < y2
        invariant
            base == col * 4,
            col * 4 + 4 <= stride,
            y <= y2,
            y2 * stride <= dest.len(),
            dest.len() == old(dest).len(),
            y < y2 ==> off == base + y * stride,
            forall|j: int|
                0 <= j < dest.len() ==> #[trigger] dest@[j] == (if is_scratch_byte(
                    j,
                    base as int,
                    stride as int,
                    y1 as int,
                    y as int,
                ) {
                    brightened(old(dest)@[j])
                } else {
                    old(dest)@[j]
                }),
        decreases y2 - y,
    {
        proof {
            // row y's pixel fits: base + y * stride + 4 <= y2 * stride <= len
            lemma_mul_is_distributive_add_other_way(stride as int, y as int, 1);
            lemma_mul_inequality(y as int + 1, y2 as int, stride as int);
        }
        let ghost prev = dest@;
        if y >= y1 {
            let b0 = dest[off];
            dest.set(off, brighten_channel(b0));
            let b1 = dest[off + 1];
            dest.set(off + 1, brighten_channel(b1));
            let b2 = dest[off + 2];
            dest.set(off + 2, brighten_channel(b2));
        }
        proof {
            let bi = base as int;
            let si = stride as int;
            let li = dest@.len() as int;
            let yi = y as int;
            let offi = off as int;
            assert forall|j: int|
                0 <= j < li implies #[trigger] dest@[j] == (if is_scratch_byte(
                j,
                bi,
                si,
                y1 as int,
                yi + 1,
            ) {
                brightened(old(dest)@[j])
            } else {
                old(dest)@[j]
            }) by {
                lemma_mul_nonnegative(yi, si);
                if bi <= j {
                    let d = j - bi;
                    lemma_fundamental_div_mod(d, si);
                    lemma_mod_bound(d, si);
                    lemma_div_pos_is_pos(d, si);
                    let q = d / si;
                    let r = d % si;
                    if q == yi {
                        assert(d == si * yi + r);
                        assert(offi == bi + yi * si);
                        lemma_mul_is_commutative(si, yi);
                        assert(j == offi + r);
                        // the previous rows' map says this byte was untouched
                        assert(!is_scratch_byte(j, bi, si, y1 as int, yi));
                        assert(prev[j] == old(dest)@[j]);
                    } else {
                        // a byte of another row: untouched this iteration
                        if j == offi || j == offi + 1 || j == offi + 2 {
                            lemma_fundamental_div_mod_converse_div(d, si, yi, j - offi);
                            assert(false);
                        }
                        assert(dest@[j] == prev[j]);
                    }
                } else {
                    // before the streak's first pixel: never touched
                    assert(j < offi);
                }
            }
        }
        y += 1;
        if y < y2 {
            proof {
                lemma_mul_is_distributive_add_other_way(stride as int, y as int, 1);
                lemma_mul_inequality(y as int + 1, y2 as int, stride as int);
            }
            off += stride;
        }
    }
}

/// How one frame may change an artifact's remaining lifetime: an active
/// artifact loses exactly one frame of life, or dies at once by drifting
/// out of the field.
pub open spec fn life_stepped(pre: Scratch, post: Scratch) -> bool {
    pre.life > 0 ==> (post.life == pre.life - 1 || post.life == 0)
}

/// Everything one frame does to one artifact and to the buffer on its
/// account. A dormant artifact draws nothing and either keeps its fields
/// or reactivates within bounds. An active artifact drifts by dx; leaving
/// the field kills it at once with nothing drawn; otherwise its life falls
/// by exactly one, its start offset is consumed, and — unless it sits
/// exactly on the right edge, where no pixel column exists — its column
/// x / 256 is brightened over the frame's visible row range: the whole
/// height while it stays alive, a random prefix on its final frame.
pub open spec fn scratch_step(
    pre: Scratch,
    post: Scratch,
    pre_d: Seq<u8>,
    post_d: Seq<u8>,
    width: int,
    height: int,
    stride: int,
) -> bool {
    let nx = next_x(pre);
    &&& post_d.len() == pre_d.len()
    &&& (pre.life <= 0 ==> post_d == pre_d && (post == pre || activated(post, width, height)))
    &&& (pre.life > 0 ==> post.x == nx && post.dx == pre.dx)
    &&& (pre.life > 0 && !in_field(nx, width) ==> post.life == 0 && post.init == pre.init
        && post_d == pre_d)
    &&& (pre.life > 0 && in_field(nx, width) ==> post.life == pre.life - 1 && post.init == 0)
    &&& (pre.life > 0 && in_field(nx, width) && nx == width * 256 ==> post_d == pre_d)
    &&& (pre.life > 0 && in_field(nx, width) && nx < width * 256 ==> (exists|rows_end: int|
        {
            &&& (post.life > 0 ==> rows_end == height)
            &&& (post.life <= 0 ==> 0 <= rows_end < height)
            &&& #[trigger] streak_drawn(
                pre_d,
                post_d,
                (nx as int / 256) * 4,
                stride,
                start_row_of(pre),
                rows_end,
            )
        }))
}

/// Advances one artifact by one frame and draws it into the output
/// buffer, exactly as scratch_step describes.
pub fn scratch_one(s: &mut Scratch, dest: &mut Vec<u8>, width: usize, height: usize, stride: usize)
    requires
        1 <= width,
        1 <= height,
        width * 256 <= i32::MAX,
        width * 4 <= stride,
        stride * height <= old(dest).len(),
        old(s).life <= 0 ==> (2 <= height && height <= i32::MAX),
    ensures
        final(dest)@.len() == old(dest)@.len(),
        scratch_step(
            *old(s),
            *final(s),
            old(dest)@,
            final(dest)@,
            width as int,
            height as int,
            stride as int,
        ),
{
    if s.life > 0 {
        s.x = s.x.wrapping_add(s.dx);
        if s.x < 0 || s.x > (width as i32) * 256 {
            s.life = 0;
            return ;
        }
        let col = (s.x as usize) / 256;
        proof {
            lemma_div_is_ordered(s.x as int, width as int * 256, 256);
            lemma_div_multiples_vanish(width as int, 256);
            assert(col <= width);
            if s.x < (width as i32) * 256 {
                // a strictly interior position addresses a real column
                lemma_div_is_ordered(s.x as int, width as int * 256 - 1, 256);
                lemma_fundamental_div_mod_converse_div(
                    width as int * 256 - 1,
                    256,
                    width as int - 1,
                    255,
                );
            }
        }
        let y1_raw = if s.init != 0 {
            let t = s.init;
            s.init = 0;
            t
        } else {
            0
        };
        let y1: usize = if y1_raw <= 0 {
            0
        } else {
            y1_raw as usize
        };
        s.life = s.life - 1;
        let rows_end: usize = if s.life > 0 {
            height
        } else {
            rand_usize_below(height)
        };
        if col < width {
            proof {
                lemma_mul_inequality(rows_end as int, height as int, stride as int);
                lemma_mul_is_commutative(height as int, stride as int);
            }
            draw_streak(dest, stride, col, y1, rows_end);
            proof {
                assert(streak_drawn(
                    old(dest)@,
                    dest@,
                    (next_x(*old(s)) as int / 256) * 4,
                    stride as int,
                    start_row_of(*old(s)),
                    rows_end as int,
                ));
            }
        }
    } else {
        if rand_u32() & 0xF0000000 == 0 {
            let life_draw = rand_u32();
            proof {
                assert(life_draw >> 27 <= 31) by (bit_vector);
            }
            s.life = 2 + (life_draw >> 27) as i32;
            let col_draw = rand_usize_below(width);
            s.x = (col_draw as i32) * 256;
            let dx_draw = rand_u32();
            proof {
                assert(dx_draw >> 23 <= 511) by (bit_vector);
            }
            s.dx = (dx_draw >> 23) as i32 - 256;
            let init_draw = rand_usize_below(height - 1);
            s.init = (init_draw + 1) as i32;
        }
    }
}

/// The whole field pass as a fold of scratch_step: each artifact in field
/// order relates its predecessor's buffer to an intermediate one, and the
/// last intermediate is the pass's output.
pub open spec fn field_scratched(
    pre_f: Seq<Scratch>,
    post_f: Seq<Scratch>,
    pre_d: Seq<u8>,
    post_d: Seq<u8>,
    width: int,
    height: int,
    stride: int,
) -> bool
    decreases pre_f.len(),
{
    if pre_f.len() == 0 {
        post_f.len() == 0 && post_d == pre_d
    } else {
        &&& post_f.len() == pre_f.len()
        &&& (exists|mid: Seq<u8>|
            {
                &&& #[trigger] scratch_step(pre_f[0], post_f[0], pre_d, mid, width, height, stride)
                &&& field_scratched(
                    pre_f.subrange(1, pre_f.len() as int),
                    post_f.subrange(1, post_f.len() as int),
                    mid,
                    post_d,
                    width,
                    height,
                    stride,
                )
            })
    }
}

/// Extends a field fold by one artifact stepped at its end.
proof fn lemma_field_scratched_snoc(
    pre_f: Seq<Scratch>,
    post_f: Seq<Scratch>,
    s_pre: Scratch,
    s_post: Scratch,
    d0: Seq<u8>,
    d1: Seq<u8>,
    d2: Seq<u8>,
    width: int,
    height: int,
    stride: int,
)
    requires
        field_scratched(pre_f, post_f, d0, d1, width, height, stride),
        scratch_step(s_pre, s_post, d1, d2, width, height, stride),
    ensures
        field_scratched(pre_f.push(s_pre), post_f.push(s_post), d0, d2, width, height, stride),
    decreases pre_f.len(),
{
    let pre2 = pre_f.push(s_pre);
    let post2 = post_f.push(s_post);
    if pre_f.len() == 0 {
        assert(pre2.subrange(1, pre2.len() as int) =~= Seq::<Scratch>::empty());
        assert(post2.subrange(1, post2.len() as int) =~= Seq::<Scratch>::empty());
        assert(scratch_step(pre2[0], post2[0], d0, d2, width, height, stride));
        assert(field_scratched(
            pre2.subrange(1, pre2.len() as int),
            post2.subrange(1, post2.len() as int),
            d2,
            d2,
            width,
            height,
            stride,
        ));
    } else {
        let tail_pre = pre_f.subrange(1, pre_f.len() as int);
        let tail_post = post_f.subrange(1, post_f.len() as int);
        let mid = choose|mid: Seq<u8>|
            {
                &&& #[trigger] scratch_step(pre_f[0], post_f[0], d0, mid, width, height, stride)
                &&& field_scratched(tail_pre, tail_post, mid, d1, width, height, stride)
            };
        lemma_field_scratched_snoc(
            tail_pre,
            tail_post,
            s_pre,
            s_post,
            mid,
            d1,
            d2,
            width,
            height,
            stride,
        );
        assert(pre2.subrange(1, pre2.len() as int) =~= tail_pre.push(s_pre));
        assert(post2.subrange(1, post2.len() as int) =~= tail_post.push(s_post));
        assert(scratch_step(pre2[0], post2[0], d0, mid, width, height, stride));
    }
}

/// Law: a frame in which every artifact is dormant draws nothing — the
/// buffer after the field pass is byte-identical to the buffer before it,
/// whether or not artifacts reactivated.
pub proof fn lemma_dormant_field_draws_nothing(
    pre_f: Seq<Scratch>,
    post_f: Seq<Scratch>,
    pre_d: Seq<u8>,
    post_d: Seq<u8>,
    width: int,
    height: int,
    stride: int,
)
    requires
        field_scratched(pre_f, post_f, pre_d, post_d, width, height, stride),
        forall|k: int| 0 <= k < pre_f.len() ==> #[trigger] pre_f[k].life <= 0,
    ensures
        post_d == pre_d,
    decreases pre_f.len(),
{
    if pre_f.len() > 0 {
        let tail_pre = pre_f.subrange(1, pre_f.len() as int);
        let tail_post = post_f.subrange(1, post_f.len() as int);
        let mid = choose|mid: Seq<u8>|
            {
                &&& #[trigger] scratch_step(pre_f[0], post_f[0], pre_d, mid, width, height, stride)
                &&& field_scratched(tail_pre, tail_post, mid, post_d, width, height, stride)
            };
        assert(pre_f[0].life <= 0);
        assert forall|k: int| 0 <= k < tail_pre.len() implies #[trigger] tail_pre[k].life
            <= 0 by {
            assert(pre_f[k + 1].life <= 0);
        }
        lemma_dormant_field_draws_nothing(
            tail_pre,
            tail_post,
            mid,
            post_d,
            width,
            height,
            stride,
        );
    }
}

/// Advances the whole scratch field by one frame, drawing every live
/// streak into the output buffer in field order: the buffers before and
/// after stand in the field_scratched fold of scratch_step. An empty
/// field leaves the buffer untouched. A frame needs two rows only if some
/// artifact is dormant (a reactivation draws a start row below the last).
pub fn scratching(
    scratches: &mut Vec<Scratch>,
    dest: &mut Vec<u8>,
    width: usize,
    height: usize,
    stride: usize,
)
    requires
        old(scratches).len() > 0 ==> (1 <= width && 1 <= height && width * 256 <= i32::MAX
            && width * 4 <= stride && stride * height <= old(dest).len()),
        (exists|k: int|
            0 <= k < old(scratches).len() && #[trigger] old(scratches)@[k].life <= 0) ==> (2
            <= height && height <= i32::MAX),
    ensures
        final(scratches).len() == old(scratches).len(),
        final(dest)@.len() == old(dest)@.len(),
        field_scratched(
            old(scratches)@,
            final(scratches)@,
            old(dest)@,
            final(dest)@,
            width as int,
            height as int,
            stride as int,
        ),
        old(scratches).len() == 0 ==> final(dest)@ == old(dest)@ && final(scratches)@ == old(
            scratches,
        )@,
        forall|k: int|
            0 <= k < old(scratches).len() ==> #[trigger] life_stepped(
                old(scratches)@[k],
                final(scratches)@[k],
            ),
{
    proof {
        assert(old(scratches)@.subrange(0, 0) =~= Seq::<Scratch>::empty());
        assert(scratches@.subrange(0, 0) =~= Seq::<Scratch>::empty());
    }
    if scratches.len() == 0 {
        proof {
            assert(old(scratches)@.subrange(0, 0) =~= old(scratches)@);
            assert(scratches@.subrange(0, 0) =~= scratches@);
        }
        return ;
    }
    let n = scratches.len();
    let mut i: usize = 0;
    while i < n
        invariant
            n == scratches.len(),
            scratches.len() == old(scratches).len(),
            dest.len() == old(dest).len(),
            i <= n,
            1 <= width,
            1 <= height,
            width * 256 <= i32::MAX,
            width * 4 <= stride,
            stride * height <= dest.len(),
            (exists|k: int|
                0 <= k < old(scratches).len() && #[trigger] old(scratches)@[k].life <= 0) ==> (2
                <= height && height <= i32::MAX),
            forall|k: int| i <= k < n ==> scratches@[k] == old(scratches)@[k],
            forall|k: int|
                0 <= k < i ==> #[trigger] life_stepped(old(scratches)@[k], scratches@[k]),
            field_scratched(
                old(scratches)@.subrange(0, i as int),
                scratches@.subrange(0, i as int),
                old(dest)@,
                dest@,
                width as int,
                height as int,
                stride as int,
            ),
        decreases n - i,
    {
        let ghost pre_elem = scratches@[i as int];
        let ghost pre_prefix = old(scratches)@.subrange(0, i as int);
        let ghost post_prefix = scratches@.subrange(0, i as int);
        let ghost d1 = dest@;
        let mut sc = scratches[i];
        proof {
            if sc.life <= 0 {
                assert(0 <= i < old(scratches).len() && old(scratches)@[i as int].life <= 0);
            }
        }
        scratch_one(&mut sc, dest, width, height, stride);
        scratches.set(i, sc);
        proof {
            lemma_field_scratched_snoc(
                pre_prefix,
                post_prefix,
                pre_elem,
                sc,
                old(dest)@,
                d1,
                dest@,
                width as int,
                height as int,
                stride as int,
            );
            assert(old(scratches)@.subrange(0, i as int + 1) =~= pre_prefix.push(pre_elem));
            assert(scratches@.subrange(0, i as int + 1) =~= post_prefix.push(sc));
        }
        i += 1;
    }
    proof {
        assert(old(scratches)@.subrange(0, n as int) =~= old(scratches)@);
        assert(scratches@.subrange(0, n as int) =~= scratches@);
    }
}

} // verus!
