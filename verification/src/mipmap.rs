//! Backend-agnostic mip-chain generation for RGBA8 textures.
//!
//! Levels come from a 2x2 box filter in stored space; each halves both axes with
//! floor division, so every level has the dimensions `max(1, base >> level)`.

use vstd::arithmetic::power2::pow2;
use vstd::prelude::*;

verus! {

/// One level: dimensions and tightly packed RGBA8 pixels.
#[derive(Debug)]
pub struct MipLevel {
    pub width: u32,
    pub height: u32,
    pub pixels: Vec<u8>,
}

/// The larger of two numbers.
pub open spec fn larger(a: int, b: int) -> int {
    if a >= b {
        a
    } else {
        b
    }
}

/// The smaller of two numbers.
pub open spec fn smaller(a: int, b: int) -> int {
    if a <= b {
        a
    } else {
        b
    }
}

/// The longest axis of a texture, at least one.
pub open spec fn longest(width: u32, height: u32) -> int {
    larger(larger(width as int, height as int), 1)
}

/// An axis at a mip level: level zero is the base, each further level
/// `max(1, base >> level)`.
pub open spec fn extent(base: u32, level: nat) -> int {
    if level == 0 {
        base as int
    } else {
        larger(1, base as int / pow2(level) as int)
    }
}

/// Channel `c` of texel `(x, y)` in an image `width` texels wide.
pub open spec fn texel(pixels: Seq<u8>, width: int, x: int, y: int, c: int) -> u8 {
    pixels[(y * width + x) * 4 + c]
}

/// The box-filtered channel of destination texel `(x, y)`: the mean of its 2x2
/// source block rounded to nearest, source indices clamped at the edge.
pub open spec fn box_mean(src: MipLevel, x: int, y: int, c: int) -> int {
    let x0 = smaller(2 * x, src.width - 1);
    let x1 = smaller(2 * x + 1, src.width - 1);
    let y0 = smaller(2 * y, src.height - 1);
    let y1 = smaller(2 * y + 1, src.height - 1);
    let w = src.width as int;
    (texel(src.pixels@, w, x0, y0, c) + texel(src.pixels@, w, x1, y0, c) + texel(
        src.pixels@,
        w,
        x0,
        y1,
        c,
    ) + texel(src.pixels@, w, x1, y1, c) + 2) / 4
}

/// Every texel of `out` is the box mean of its block in `src`.
pub open spec fn box_filtered(src: MipLevel, out: Seq<u8>, dw: int, dh: int) -> bool {
    forall|x: int, y: int, c: int|
        0 <= x < dw && 0 <= y < dh && 0 <= c < 4 ==> #[trigger] texel(out, dw, x, y, c) == box_mean(
            src,
            x,
            y,
            c,
        )
}

/// The number of mip levels down to 1x1: `floor(log2(max(w, h, 1))) + 1`.
pub fn mip_level_count(width: u32, height: u32) -> (r: u32)
    ensures
        1 <= r <= 32,
        pow2((r - 1) as nat) <= longest(width, height) < pow2(r as nat),
{
    let side: u32 = if width >= height {
        width
    } else {
        height
    };
    let max_dim: u32 = if side >= 1 {
        side
    } else {
        1
    };
    let zeros: u32 = max_dim.leading_zeros();
    proof {
        vstd::std_specs::bits::axiom_u32_leading_zeros(max_dim);
        let top = (31 - zeros) as u32;
        let bit = max_dim >> top;
        assert(bit & 1u32 != 0u32 ==> bit != 0u32) by (bit_vector);
        vstd::bits::lemma_u32_shr_is_div(max_dim, top);
        vstd::arithmetic::power2::lemma_pow2_pos(top as nat);
        assert(max_dim as nat >= pow2(top as nat)) by {
            if (max_dim as nat) < pow2(top as nat) {
                vstd::arithmetic::div_mod::lemma_basic_div(max_dim as int, pow2(top as nat) as int);
            }
        }
        if zeros == 0 {
            vstd::arithmetic::power2::lemma2_to64();
        } else {
            let above = (32 - zeros) as u32;
            vstd::bits::lemma_u32_shr_is_div(max_dim, above);
            vstd::arithmetic::power2::lemma_pow2_pos(above as nat);
            assert((max_dim as nat) < pow2(above as nat)) by {
                if max_dim as nat >= pow2(above as nat) {
                    vstd::arithmetic::div_mod::lemma_div_non_zero(
                        max_dim as int,
                        pow2(above as nat) as int,
                    );
                }
            }
        }
    }
    32 - zeros
}

/// Row-major indices stay below the rows that follow.
proof fn lemma_row_major(x: int, y: int, w: int, rows: int)
    requires
        0 <= x < w,
        0 <= y < rows,
    ensures
        0 <= y * w,
        y * w + x < rows * w,
        y * w + w <= rows * w,
{
    assert(y * w + w <= rows * w) by (nonlinear_arith)
        requires
            0 <= x < w,
            0 <= y < rows,
    ;
    assert(0 <= y * w) by (nonlinear_arith)
        requires
            0 <= y,
            0 < w,
    ;
}

/// The byte index of a texel channel of a packed image.
fn byte_index(x: usize, y: usize, width: usize, height: usize, c: usize, len: usize) -> (r: usize)
    requires
        x < width,
        y < height,
        c < 4,
        len >= width * height * 4,
    ensures
        r == (y * width + x) * 4 + c,
        r < len,
{
    proof {
        lemma_row_major(x as int, y as int, width as int, height as int);
        assert(height * width == width * height) by (nonlinear_arith);
    }
    (y * width + x) * 4 + c
}

/// One channel of the box mean.
fn box_channel(src: &MipLevel, x: usize, y: usize, c: usize) -> (r: u8)
    requires
        src.width > 0,
        src.height > 0,
        src.pixels@.len() >= src.width * src.height * 4,
        2 * x + 1 <= usize::MAX,
        2 * y + 1 <= usize::MAX,
        c < 4,
    ensures
        r == box_mean(*src, x as int, y as int, c as int),
{
    let sw: usize = src.width as usize;
    let sh: usize = src.height as usize;
    let y0: usize = if 2 * y <= sh - 1 {
        2 * y
    } else {
        sh - 1
    };
    let y1: usize = if 2 * y + 1 <= sh - 1 {
        2 * y + 1
    } else {
        sh - 1
    };
    let x0: usize = if 2 * x <= sw - 1 {
        2 * x
    } else {
        sw - 1
    };
    let x1: usize = if 2 * x + 1 <= sw - 1 {
        2 * x + 1
    } else {
        sw - 1
    };
    let len: usize = src.pixels.len();
    let p00: u8 = src.pixels[byte_index(x0, y0, sw, sh, c, len)];
    let p01: u8 = src.pixels[byte_index(x1, y0, sw, sh, c, len)];
    let p10: u8 = src.pixels[byte_index(x0, y1, sw, sh, c, len)];
    let p11: u8 = src.pixels[byte_index(x1, y1, sw, sh, c, len)];
    let sum: u32 = p00 as u32 + p01 as u32 + p10 as u32 + p11 as u32;
    ((sum + 2) / 4) as u8
}

/// The bytes of `now` past a place are those of `was`.
pub open spec fn same_past(was: Seq<u8>, now: Seq<u8>, at: int) -> bool {
    &&& now.len() == was.len()
    &&& forall|i: int| at <= i < now.len() ==> #[trigger] now[i] == was[i]
}

/// Average each of `dw` by `dh` destination texels from its 2x2 block of `src`, source
/// indices clamped at the edge. What `dst` holds past them is kept.
pub fn downsample_box(src: &MipLevel, dw: u32, dh: u32, dst: &mut Vec<u8>)
    requires
        src.width > 0,
        src.height > 0,
        src.pixels@.len() >= src.width * src.height * 4,
        old(dst)@.len() >= dw * dh * 4,
    ensures
        box_filtered(*src, final(dst)@, dw as int, dh as int),
        same_past(old(dst)@, final(dst)@, dw * dh * 4),
{
    let ghost all = dst@;
    let room: usize = dst.len();
    let mut y: u32 = 0;
    assert(0 * dw == 0) by (nonlinear_arith);
    while y < dh
        invariant
            src.width > 0,
            src.height > 0,
            src.pixels@.len() >= src.width * src.height * 4,
            room >= dw * dh * 4,
            dst@.len() == room,
            y <= dh,
            box_filtered(*src, dst@, dw as int, y as int),
            same_past(all, dst@, y * dw * 4),
        decreases dh - y,
    {
        let mut x: u32 = 0;
        let ghost rows = dst@;
        proof {
            assert((y + 1) * dw == y * dw + dw) by (nonlinear_arith);
            assert((y + 1) * dw <= dw * dh) by (nonlinear_arith)
                requires
                    y < dh,
            ;
            assert(0 <= y * dw) by (nonlinear_arith);
        }
        while x < dw
            invariant
                src.width > 0,
                src.height > 0,
                src.pixels@.len() >= src.width * src.height * 4,
                room >= dw * dh * 4,
                dst@.len() == room,
                rows.len() == room,
                y < dh,
                x <= dw,
                0 <= y * dw,
                y * dw + dw <= dw * dh,
                forall|i: int| 0 <= i < y * dw * 4 ==> #[trigger] dst@[i] == rows[i],
                same_past(all, dst@, (y * dw + x) * 4),
                forall|i: int, c: int|
                    0 <= i < x && 0 <= c < 4 ==> #[trigger] texel(dst@, dw as int, i, y as int, c)
                        == box_mean(*src, i, y as int, c),
            decreases dw - x,
        {
            let ghost was = dst@;
            proof {
                assert(dw <= dw * dh && dh <= dw * dh) by (nonlinear_arith)
                    requires
                        0 < dw,
                        0 < dh,
                ;
            }
            let at: usize = (y as usize * dw as usize + x as usize) * 4;
            let r: u8 = box_channel(src, x as usize, y as usize, 0);
            let g: u8 = box_channel(src, x as usize, y as usize, 1);
            let b: u8 = box_channel(src, x as usize, y as usize, 2);
            let a: u8 = box_channel(src, x as usize, y as usize, 3);
            dst.set(at, r);
            dst.set(at + 1, g);
            dst.set(at + 2, b);
            dst.set(at + 3, a);
            proof {
                assert forall|i: int, c: int| 0 <= i < x + 1 && 0 <= c < 4 implies #[trigger] texel(
                    dst@,
                    dw as int,
                    i,
                    y as int,
                    c,
                ) == box_mean(*src, i, y as int, c) by {
                    if i < x {
                        assert(texel(was, dw as int, i, y as int, c) == box_mean(
                            *src,
                            i,
                            y as int,
                            c,
                        ));
                    } else {
                        assert(dst@[at + c] == box_mean(*src, i, y as int, c));
                    }
                }
            }
            x = x + 1;
        }
        proof {
            assert forall|i: int, j: int, c: int|
                0 <= i < dw && 0 <= j < y + 1 && 0 <= c < 4 implies #[trigger] texel(
                dst@,
                dw as int,
                i,
                j,
                c,
            ) == box_mean(*src, i, j, c) by {
                if j < y {
                    lemma_row_major(i, j, dw as int, y as int);
                    assert(texel(rows, dw as int, i, j, c) == box_mean(*src, i, j, c));
                }
            }
        }
        y = y + 1;
    }
    proof {
        assert(dh * dw == dw * dh) by (nonlinear_arith);
    }
}

/// Halving an axis goes from one level's extent to the next.
proof fn lemma_extent_halves(base: u32, level: nat)
    requires
        base > 0,
    ensures
        extent(base, level) > 0,
        extent(base, level + 1) == larger(1, extent(base, level) / 2),
        extent(base, level) <= base,
{
    vstd::arithmetic::power2::lemma_pow2_pos(level);
    vstd::arithmetic::power2::lemma_pow2_unfold(level + 1);
    let p = pow2(level) as int;
    if level == 0 {
        vstd::arithmetic::power2::lemma2_to64();
    } else {
        vstd::arithmetic::div_mod::lemma_div_denominator(base as int, p, 2);
        assert(p * 2 == 2 * p);
        vstd::arithmetic::div_mod::lemma_div_is_ordered_by_denominator(base as int, 1, p);
        assert(base as int / 1 == base);
    }
}

/// One level is well formed: its pixel buffer is packed.
pub open spec fn packed(level: MipLevel) -> bool {
    level.pixels@.len() == level.width * level.height * 4
}

/// Whether a chain is the mip chain of an image.
pub open spec fn is_mip_chain(chain: Seq<MipLevel>, width: u32, height: u32, rgba8: Seq<u8>) -> bool {
    &&& chain.len() > 0
    &&& chain[0].pixels@ == rgba8.subrange(0, width * height * 4)
    &&& forall|k: int|
        0 <= k < chain.len() ==> {
            &&& (#[trigger] chain[k]).width == extent(width, k as nat)
            &&& chain[k].height == extent(height, k as nat)
            &&& packed(chain[k])
        }
    &&& forall|k: int|
        0 < k < chain.len() ==> box_filtered(
            chain[k - 1],
            (#[trigger] chain[k]).pixels@,
            chain[k].width as int,
            chain[k].height as int,
        )
}

/// Build the full mip chain of an RGBA8 image. Level zero is the input's first
/// `width * height * 4` bytes; each further level box-filters the one above it.
pub fn generate_mip_chain(width: u32, height: u32, rgba8: &[u8]) -> (chain: Vec<MipLevel>)
    requires
        width * height * 4 <= rgba8@.len(),
        (width > 0 && height > 0) || (width <= 1 && height <= 1),
    ensures
        is_mip_chain(chain@, width, height, rgba8@),
        pow2((chain.len() - 1) as nat) <= longest(width, height) < pow2(chain.len() as nat),
{
    let count: u32 = mip_level_count(width, height);
    let available: usize = rgba8.len();
    proof {
        assert(0 <= width * height) by (nonlinear_arith);
        assert(width * height * 4 <= available);
    }
    let base_len: usize = width as usize * height as usize * 4;
    let mut base: Vec<u8> = Vec::new();
    let mut i: usize = 0;
    while i < base_len
        invariant
            i <= base_len <= rgba8@.len(),
            base@ == rgba8@.subrange(0, i as int),
        decreases base_len - i,
    {
        base.push(rgba8[i]);
        i = i + 1;
        assert(base@ =~= rgba8@.subrange(0, i as int));
    }
    let mut levels: Vec<MipLevel> = Vec::new();
    levels.push(MipLevel { width, height, pixels: base });
    if width == 0 || height == 0 {
        proof {
            vstd::arithmetic::power2::lemma2_to64();
            if count >= 3 {
                vstd::arithmetic::power2::lemma_pow2_strictly_increases(1, (count - 1) as nat);
            }
        }
        return levels;
    }
    proof {
        assert(width <= width * height && height <= width * height) by (nonlinear_arith)
            requires
                width > 0,
                height > 0,
        ;
    }
    let mut level: u32 = 1;
    while level < count
        invariant
            1 <= level <= count,
            levels@.len() == level,
            width > 0,
            height > 0,
            2 * width <= usize::MAX,
            2 * height <= usize::MAX,
            is_mip_chain(levels@, width, height, rgba8@),
        decreases count - level,
    {
        let at: usize = levels.len() - 1;
        proof {
            lemma_extent_halves(width, at as nat);
            lemma_extent_halves(height, at as nat);
        }
        let half_w: u32 = levels[at].width / 2;
        let half_h: u32 = levels[at].height / 2;
        let dw: u32 = if half_w >= 1 {
            half_w
        } else {
            1
        };
        let dh: u32 = if half_h >= 1 {
            half_h
        } else {
            1
        };
        let held: usize = levels[at].pixels.len();
        proof {
            let (w, h) = (levels@[at as int].width, levels@[at as int].height);
            assert(dw * dh <= w * h && 0 <= dw * dh) by (nonlinear_arith)
                requires
                    dw <= w,
                    dh <= h,
            ;
            assert(packed(levels@[at as int]));
            assert(dw * dh * 4 <= held);
        }
        let mut pixels: Vec<u8> = vec![0u8; dw as usize * dh as usize * 4];
        downsample_box(&levels[at], dw, dh, &mut pixels);
        let ghost was = levels@;
        levels.push(MipLevel { width: dw, height: dh, pixels });
        proof {
            assert forall|k: int| 0 < k < levels@.len() implies box_filtered(
                levels@[k - 1],
                (#[trigger] levels@[k]).pixels@,
                levels@[k].width as int,
                levels@[k].height as int,
            ) by {
                assert(levels@[k - 1] == was[k - 1]);
                if k < was.len() {
                    assert(levels@[k] == was[k]);
                }
            }
        }
        level = level + 1;
    }
    levels
}

/// The mip chain ends at a single texel.
pub proof fn law_chain_ends_at_one(width: u32, height: u32, count: nat)
    requires
        width > 0,
        height > 0,
        count > 0,
        longest(width, height) < pow2(count),
        pow2((count - 1) as nat) <= longest(width, height),
    ensures
        extent(width, (count - 1) as nat) == 1,
        extent(height, (count - 1) as nat) == 1,
{
    let k = (count - 1) as nat;
    vstd::arithmetic::power2::lemma_pow2_pos(k);
    vstd::arithmetic::power2::lemma_pow2_unfold(count);
    vstd::arithmetic::power2::lemma2_to64();
    if k > 0 {
        lemma_quotient_below_two(width as int, pow2(k) as int);
        lemma_quotient_below_two(height as int, pow2(k) as int);
    }
}

proof fn lemma_quotient_below_two(n: int, p: int)
    requires
        0 < p,
        0 <= n < 2 * p,
    ensures
        0 <= n / p <= 1,
{
    assert(0 <= n / p <= 1) by (nonlinear_arith)
        requires
            0 < p,
            0 <= n < 2 * p,
    ;
}

/// Averaging keeps a flat image flat: where all four texels of a block hold the
/// same value, so does the result.
pub proof fn law_flat_block_is_kept(src: MipLevel, x: int, y: int, c: int, v: u8)
    requires
        src.width > 0,
        src.height > 0,
        packed(src),
        0 <= x,
        0 <= y,
        0 <= c < 4,
        forall|i: int, j: int|
            0 <= i < src.width && 0 <= j < src.height ==> #[trigger] texel(
                src.pixels@,
                src.width as int,
                i,
                j,
                c,
            ) == v,
    ensures
        box_mean(src, x, y, c) == v,
{
}

/// A filtered texel is the mean of its block, each of the four texels weighing the same,
/// to the nearest whole number and up from a half: four times it is at most two above
/// their sum and less than two below it. A block that reaches past the edge repeats the
/// last row or column.
pub proof fn law_filtered_texel_is_the_nearest_mean(
    src: MipLevel,
    out: Seq<u8>,
    dw: int,
    dh: int,
    x: int,
    y: int,
    c: int,
)
    requires
        src.width > 0,
        src.height > 0,
        box_filtered(src, out, dw, dh),
        0 <= x < dw,
        0 <= y < dh,
        0 <= c < 4,
    ensures
        ({
            let w = src.width as int;
            let last_x = w - 1;
            let last_y = src.height - 1;
            let left = if 2 * x < w { 2 * x } else { last_x };
            let right = if 2 * x + 1 < w { 2 * x + 1 } else { last_x };
            let top = if 2 * y < src.height { 2 * y } else { last_y };
            let bottom = if 2 * y + 1 < src.height { 2 * y + 1 } else { last_y };
            let sum = src.pixels@[(top * w + left) * 4 + c] + src.pixels@[(top * w + right) * 4 + c]
                + src.pixels@[(bottom * w + left) * 4 + c] + src.pixels@[(bottom * w + right) * 4
                + c];
            let mean = out[(y * dw + x) * 4 + c];
            sum - 2 < 4 * mean <= sum + 2
        }),
{
    let r = texel(out, dw, x, y, c);
    assert(r == box_mean(src, x, y, c));
}

/// Each level is half as wide and half as high as the one above it, rounded down and at
/// least one, holds four bytes a texel, and is filtered from it; the first is the first
/// bytes of the image.
pub proof fn law_each_level_halves(
    chain: Seq<MipLevel>,
    width: u32,
    height: u32,
    rgba8: Seq<u8>,
    k: int,
)
    requires
        is_mip_chain(chain, width, height, rgba8),
        0 <= k < chain.len(),
        width > 0,
        height > 0,
        width * height * 4 <= rgba8.len(),
    ensures
        chain[0].width == width && chain[0].height == height,
        chain[0].pixels@ == rgba8.subrange(0, width * height * 4),
        chain[k].pixels@.len() == chain[k].width * chain[k].height * 4,
        k > 0 ==> chain[k].width == if chain[k - 1].width >= 2 {
            chain[k - 1].width / 2
        } else {
            1
        },
        k > 0 ==> chain[k].height == if chain[k - 1].height >= 2 {
            chain[k - 1].height / 2
        } else {
            1
        },
        k > 0 ==> box_filtered(
            chain[k - 1],
            chain[k].pixels@,
            chain[k].width as int,
            chain[k].height as int,
        ),
{
    let at = chain[k];
    let first = chain[0];
    if k > 0 {
        let above = chain[k - 1];
        lemma_extent_halves(width, (k - 1) as nat);
        lemma_extent_halves(height, (k - 1) as nat);
    }
}

} // verus!
