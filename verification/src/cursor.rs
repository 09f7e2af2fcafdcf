//! The pointer that a cursor sprite draws: an arrow with an outline in contrast to it.
//!
//! Positions are computed by functions that the caller hands in.

use crate::float_bits::{FloatBits, Vec3, Vec4, one, zero};
use vstd::prelude::*;

verus! {

/// The corners of an arrow.
pub const ARROW_CORNERS: usize = 7;

/// The patterns of the corners' horizontal places: the tip at zero, the height one.
pub const ARROW_X: [u32; 7] = [
    0x0000_0000,
    0x0000_0000,
    0x3e57_0a3d,
    0x3eb3_3333,
    0x3f00_0000,
    0x3eb3_3333,
    0x3f1e_b852,
];

/// The patterns of the corners' vertical places, downwards.
pub const ARROW_Y: [u32; 7] = [
    0x0000_0000,
    0x3f5c_28f6,
    0x3f26_6666,
    0x3f80_0000,
    0x3f6e_147b,
    0x3f17_0a3d,
    0x3f17_0a3d,
];

/// The indices of an arrow: a fan over the head, and the tail.
pub const ARROW_INDICES: usize = 15;

/// The corners of an arrow's triangles.
pub const ARROW_TRIS: [u16; 15] = [0, 1, 2, 0, 2, 5, 0, 5, 6, 2, 3, 4, 2, 4, 5];

/// The stamps of an outline.
pub const OUTLINE_STAMPS: usize = 8;

/// The patterns of the stamps' horizontal directions.
pub const OUTLINE_X: [u32; 8] = [
    0x3f80_0000,
    0xbf80_0000,
    0x0000_0000,
    0x0000_0000,
    0x3f34_fdf4,
    0xbf34_fdf4,
    0x3f34_fdf4,
    0xbf34_fdf4,
];

/// The patterns of the stamps' vertical directions.
pub const OUTLINE_Y: [u32; 8] = [
    0x0000_0000,
    0x0000_0000,
    0x3f80_0000,
    0xbf80_0000,
    0x3f34_fdf4,
    0x3f34_fdf4,
    0xbf34_fdf4,
    0xbf34_fdf4,
];

/// The pattern of the outline's width as a part of the height, 0.085.
pub const OUTLINE_RATIO_BITS: u32 = 0x3dae_147b;

/// The pattern of the height in pixels of a cursor without one, 22.
pub const DEFAULT_CURSOR_PX_BITS: u32 = 0x41b0_0000;

/// The pattern of the luma above which a fill is light, a half.
pub const LIGHT_LUMA_BITS: u32 = 0x3f00_0000;

/// A vertex of the overlay. A first texture coordinate below zero fills with the
/// colour, and the second is the alpha.
#[derive(Debug, Clone, Copy)]
pub struct TextVertex {
    pub pos: (FloatBits, FloatBits),
    pub uv: (FloatBits, FloatBits),
    pub color: Vec3,
}

/// A draw of the overlay.
#[derive(Debug)]
pub struct TextDrawCall {
    pub vertices: Vec<TextVertex>,
    pub indices: Vec<u16>,
    pub atlas_slot: usize,
    pub clip_rect: Option<Vec4>,
}

/// What a cursor sprite draws with.
#[derive(Debug, Clone, Copy)]
pub struct CursorSprite {
    pub visible: bool,
    pub height: FloatBits,
    pub tint: Vec4,
}

/// Minus one.
pub open spec fn minus_one() -> FloatBits {
    FloatBits { bits: 0xbf80_0000 }
}

/// A colour of three equal patterns but for the last.
pub open spec fn is_color(c: Vec3, a: u32, b: u32) -> bool {
    c[0].bits == a && c[1].bits == a && c[2].bits == b
}

/// The outline of a fill with a luma: near black around a light one, and near white
/// around any other.
pub open spec fn is_outline(luma: FloatBits, c: Vec3) -> bool {
    if (FloatBits { bits: LIGHT_LUMA_BITS }).less(luma) {
        is_color(c, 0x3d4c_cccd, 0x3d75_c28f)
    } else {
        is_color(c, 0x3f73_3333, 0x3f75_c28f)
    }
}

/// The outline colour of a fill. `luma` weighs a colour.
pub fn outline_color<U: Fn(Vec3) -> FloatBits>(fill: Vec3, luma: &U) -> (r: Vec3)
    requires
        call_requires(*luma, (fill,)),
    ensures
        exists|l: FloatBits| #[trigger] call_ensures(*luma, (fill,), l) && is_outline(l, r),
{
    let l: FloatBits = luma(fill);
    if FloatBits::new(LIGHT_LUMA_BITS).lt(l) {
        let c: FloatBits = FloatBits::new(0x3d4c_cccd);
        [c, c, FloatBits::new(0x3d75_c28f)]
    } else {
        let c: FloatBits = FloatBits::new(0x3f73_3333);
        [c, c, FloatBits::new(0x3f75_c28f)]
    }
}

/// Whether vertices are an arrow with its tip at an origin. `place` moves an origin by
/// a direction times a length.
pub open spec fn is_arrow<P: Fn(FloatBits, FloatBits, FloatBits) -> FloatBits>(
    place: P,
    vertices: Seq<TextVertex>,
    at: int,
    origin: (FloatBits, FloatBits),
    size: FloatBits,
    color: Vec3,
    alpha: FloatBits,
) -> bool {
    &&& at + ARROW_CORNERS <= vertices.len()
    &&& forall|k: int|
        0 <= k < ARROW_CORNERS ==> {
            let v = #[trigger] vertices[at + k];
            &&& call_ensures(place, (origin.0, FloatBits { bits: ARROW_X[k] }, size), v.pos.0)
            &&& call_ensures(place, (origin.1, FloatBits { bits: ARROW_Y[k] }, size), v.pos.1)
            &&& v.uv == (minus_one(), alpha)
            &&& v.color == color
        }
}

/// The index at a place of a mesh of arrows.
pub open spec fn arrow_index(k: int) -> int {
    7 * (k / 15) + ARROW_TRIS[k % 15]
}

/// Append an arrow to the `n` that a call has.
fn push_arrow<P: Fn(FloatBits, FloatBits, FloatBits) -> FloatBits>(
    call: &mut TextDrawCall,
    origin: (FloatBits, FloatBits),
    size: FloatBits,
    color: Vec3,
    alpha: FloatBits,
    place: &P,
    n: usize,
)
    requires
        n < 100,
        old(call).vertices@.len() == 7 * n,
        old(call).indices@.len() == 15 * n,
        forall|k: int|
            0 <= k < old(call).indices@.len() ==> #[trigger] old(call).indices@[k] == arrow_index(
                k,
            ),
        forall|a: FloatBits, b: FloatBits, c: FloatBits| call_requires(*place, (a, b, c)),
    ensures
        final(call).vertices@.len() == 7 * (n + 1),
        forall|k: int|
            0 <= k < 7 * n ==> #[trigger] final(call).vertices@[k] == old(call).vertices@[k],
        is_arrow(*place, final(call).vertices@, 7 * n as int, origin, size, color, alpha),
        final(call).indices@.len() == 15 * (n + 1),
        forall|k: int|
            0 <= k < final(call).indices@.len() ==> #[trigger] final(call).indices@[k]
                == arrow_index(k),
        final(call).atlas_slot == old(call).atlas_slot,
        final(call).clip_rect == old(call).clip_rect,
{
    let ghost was = *call;
    let base: u16 = (7 * n) as u16;
    let mut k: usize = 0;
    while k < ARROW_CORNERS
        invariant
            k <= 7,
            n < 100,
            call.vertices@.len() == 7 * n + k,
            call.indices == was.indices,
            call.atlas_slot == was.atlas_slot,
            call.clip_rect == was.clip_rect,
            was.vertices@.len() == 7 * n,
            forall|a: FloatBits, b: FloatBits, c: FloatBits| call_requires(*place, (a, b, c)),
            forall|j: int|
                0 <= j < 7 * n ==> #[trigger] call.vertices@[j] == was.vertices@[j],
            forall|j: int|
                0 <= j < k ==> {
                    let v = #[trigger] call.vertices@[7 * n + j];
                    &&& call_ensures(
                        *place,
                        (origin.0, FloatBits { bits: ARROW_X[j] }, size),
                        v.pos.0,
                    )
                    &&& call_ensures(
                        *place,
                        (origin.1, FloatBits { bits: ARROW_Y[j] }, size),
                        v.pos.1,
                    )
                    &&& v.uv == (minus_one(), alpha)
                    &&& v.color == color
                },
        decreases 7 - k,
    {
        let nx: FloatBits = FloatBits::new(ARROW_X[k]);
        let ny: FloatBits = FloatBits::new(ARROW_Y[k]);
        let x: FloatBits = place(origin.0, nx, size);
        let y: FloatBits = place(origin.1, ny, size);
        call.vertices.push(
            TextVertex { pos: (x, y), uv: (FloatBits::new(0xbf80_0000), alpha), color },
        );
        k = k + 1;
    }
    let mut t: usize = 0;
    while t < ARROW_INDICES
        invariant
            t <= 15,
            n < 100,
            base == 7 * n,
            call.indices@.len() == 15 * n + t,
            call.vertices@.len() == 7 * (n + 1),
            is_arrow(*place, call.vertices@, 7 * n as int, origin, size, color, alpha),
            forall|j: int|
                0 <= j < 7 * n ==> #[trigger] call.vertices@[j] == was.vertices@[j],
            call.atlas_slot == was.atlas_slot,
            call.clip_rect == was.clip_rect,
            forall|j: int|
                0 <= j < call.indices@.len() ==> #[trigger] call.indices@[j] == arrow_index(j),
        decreases 15 - t,
    {
        let corner: u16 = ARROW_TRIS[t];
        assert(corner <= 6);
        let ghost j = 15 * n + t;
        assert(j / 15 == n && j % 15 == t) by (nonlinear_arith)
            requires
                j == 15 * n + t,
                0 <= t < 15,
                0 <= n,
        ;
        call.indices.push(base + corner);
        t = t + 1;
    }
}

/// A cursor is drawn: it is visible and its alpha is not zero or below.
pub open spec fn is_drawn(s: CursorSprite) -> bool {
    s.visible && !s.tint[3].at_most(zero())
}

/// The authored height of a cursor, or the default one.
pub open spec fn authored_height(s: CursorSprite) -> FloatBits {
    if zero().less(s.height) {
        s.height
    } else {
        FloatBits { bits: DEFAULT_CURSOR_PX_BITS }
    }
}

/// The fill of a cursor: its tint without the alpha.
pub open spec fn is_fill(s: CursorSprite, fill: Vec3) -> bool {
    fill[0] == s.tint[0] && fill[1] == s.tint[1] && fill[2] == s.tint[2]
}

/// What is computed for a cursor: its height in pixels, its outline's width before the
/// least one, its luma, its two colours and the places of the stamps.
pub struct CursorParts {
    pub size: FloatBits,
    pub width: FloatBits,
    pub luma: FloatBits,
    pub fill: Vec3,
    pub outline: Vec3,
    pub stamps: Seq<(FloatBits, FloatBits)>,
}

/// The first `n` arrows of a cursor's mesh: the stamps of the outline, and above them
/// the fill at the pointer.
pub open spec fn are_arrows<P: Fn(FloatBits, FloatBits, FloatBits) -> FloatBits>(
    place: P,
    vertices: Seq<TextVertex>,
    n: int,
    pointer: (FloatBits, FloatBits),
    alpha: FloatBits,
    parts: CursorParts,
) -> bool {
    &&& vertices.len() == 7 * n
    &&& forall|i: int|
        0 <= i < n && i < OUTLINE_STAMPS ==> #[trigger] is_arrow(
            place,
            vertices,
            7 * i,
            parts.stamps[i],
            parts.size,
            parts.outline,
            alpha,
        )
    &&& n > OUTLINE_STAMPS ==> is_arrow(
        place,
        vertices,
        7 * OUTLINE_STAMPS,
        pointer,
        parts.size,
        parts.fill,
        alpha,
    )
}

/// Whether the parts are those of a cursor. `scale` multiplies and `luma` weighs a
/// colour.
pub open spec fn are_parts<
    X: Fn(FloatBits, FloatBits) -> FloatBits,
    P: Fn(FloatBits, FloatBits, FloatBits) -> FloatBits,
    U: Fn(Vec3) -> FloatBits,
>(
    scale: X,
    place: P,
    luma: U,
    s: CursorSprite,
    pointer: (FloatBits, FloatBits),
    factor: FloatBits,
    parts: CursorParts,
) -> bool {
    &&& is_fill(s, parts.fill)
    &&& call_ensures(luma, (parts.fill,), parts.luma)
    &&& is_outline(parts.luma, parts.outline)
    &&& call_ensures(scale, (authored_height(s), factor), parts.size)
    &&& call_ensures(scale, (parts.size, FloatBits { bits: OUTLINE_RATIO_BITS }), parts.width)
    &&& parts.stamps.len() == OUTLINE_STAMPS
    &&& forall|i: int|
        0 <= i < OUTLINE_STAMPS ==> {
            let o = #[trigger] parts.stamps[i];
            let w = parts.width.greater(one());
            &&& call_ensures(place, (pointer.0, FloatBits { bits: OUTLINE_X[i] }, w), o.0)
            &&& call_ensures(place, (pointer.1, FloatBits { bits: OUTLINE_Y[i] }, w), o.1)
        }
}

/// Whether a draw is that of a cursor: eight stamps of the outline under the fill, at
/// the pointer, never clipped.
pub open spec fn is_cursor_call<
    X: Fn(FloatBits, FloatBits) -> FloatBits,
    P: Fn(FloatBits, FloatBits, FloatBits) -> FloatBits,
    U: Fn(Vec3) -> FloatBits,
>(
    scale: X,
    place: P,
    luma: U,
    s: CursorSprite,
    pointer: (FloatBits, FloatBits),
    factor: FloatBits,
    slot: usize,
    call: TextDrawCall,
) -> bool {
    &&& call.atlas_slot == slot
    &&& call.clip_rect is None
    &&& call.indices@.len() == 15 * 9
    &&& forall|k: int|
        0 <= k < call.indices@.len() ==> #[trigger] call.indices@[k] == arrow_index(k)
    &&& exists|parts: CursorParts|
        {
            &&& #[trigger] are_parts(scale, place, luma, s, pointer, factor, parts)
            &&& are_arrows(place, call.vertices@, 9, pointer, s.tint[3], parts)
        }
}

/// The places of the drawn cursors among the first `k`.
pub open spec fn drawn(cursors: Seq<CursorSprite>, k: nat) -> Seq<int>
    decreases k,
{
    if k == 0 {
        Seq::empty()
    } else if is_drawn(cursors[k - 1]) {
        drawn(cursors, (k - 1) as nat).push(k - 1)
    } else {
        drawn(cursors, (k - 1) as nat)
    }
}

fn cursor_call<
    X: Fn(FloatBits, FloatBits) -> FloatBits,
    P: Fn(FloatBits, FloatBits, FloatBits) -> FloatBits,
    U: Fn(Vec3) -> FloatBits,
>(
    s: &CursorSprite,
    pointer: (FloatBits, FloatBits),
    factor: FloatBits,
    slot: usize,
    scale: &X,
    place: &P,
    luma: &U,
) -> (call: TextDrawCall)
    requires
        forall|a: FloatBits, b: FloatBits| call_requires(*scale, (a, b)),
        forall|a: FloatBits, b: FloatBits, c: FloatBits| call_requires(*place, (a, b, c)),
        forall|c: Vec3| call_requires(*luma, (c,)),
    ensures
        is_cursor_call(*scale, *place, *luma, *s, pointer, factor, slot, call),
{
    let alpha: FloatBits = s.tint[3];
    let height: FloatBits = if FloatBits::new(0).lt(s.height) {
        s.height
    } else {
        FloatBits::new(DEFAULT_CURSOR_PX_BITS)
    };
    let size: FloatBits = scale(height, factor);
    let fill: Vec3 = [s.tint[0], s.tint[1], s.tint[2]];
    let outline: Vec3 = outline_color(fill, luma);
    let ghost l = choose|l: FloatBits| #[trigger]
        call_ensures(*luma, (fill,), l) && is_outline(l, outline);
    let raw: FloatBits = scale(size, FloatBits::new(OUTLINE_RATIO_BITS));
    let width: FloatBits = raw.max(FloatBits::new(0x3f80_0000));
    let mut call: TextDrawCall = TextDrawCall {
        vertices: Vec::new(),
        indices: Vec::new(),
        atlas_slot: slot,
        clip_rect: None,
    };
    let ghost mut parts = CursorParts {
        size,
        width: raw,
        luma: l,
        fill,
        outline,
        stamps: Seq::empty(),
    };
    let mut i: usize = 0;
    while i < OUTLINE_STAMPS
        invariant
            i <= 8,
            forall|a: FloatBits, b: FloatBits, c: FloatBits| call_requires(*place, (a, b, c)),
            call.atlas_slot == slot,
            call.clip_rect is None,
            width == raw.greater(one()),
            parts.stamps.len() == i,
            parts == (CursorParts {
                size,
                width: raw,
                luma: l,
                fill,
                outline,
                stamps: parts.stamps,
            }),
            forall|j: int|
                0 <= j < i ==> {
                    let o = #[trigger] parts.stamps[j];
                    &&& call_ensures(
                        *place,
                        (pointer.0, FloatBits { bits: OUTLINE_X[j] }, width),
                        o.0,
                    )
                    &&& call_ensures(
                        *place,
                        (pointer.1, FloatBits { bits: OUTLINE_Y[j] }, width),
                        o.1,
                    )
                },
            are_arrows(*place, call.vertices@, i as int, pointer, alpha, parts),
            call.indices@.len() == 15 * i,
            forall|k: int|
                0 <= k < call.indices@.len() ==> #[trigger] call.indices@[k] == arrow_index(k),
        decreases 8 - i,
    {
        let ghost before = call.vertices@;
        let ghost parts0 = parts;
        let dx: FloatBits = FloatBits::new(OUTLINE_X[i]);
        let dy: FloatBits = FloatBits::new(OUTLINE_Y[i]);
        let x: FloatBits = place(pointer.0, dx, width);
        let y: FloatBits = place(pointer.1, dy, width);
        push_arrow(&mut call, (x, y), size, outline, alpha, place, i);
        proof {
            parts = CursorParts { stamps: parts.stamps.push((x, y)), ..parts };
            assert forall|j: int| 0 <= j < i + 1 && j < OUTLINE_STAMPS implies #[trigger] is_arrow(
                *place,
                call.vertices@,
                7 * j,
                parts.stamps[j],
                size,
                outline,
                alpha,
            ) by {
                if j < i {
                    assert(is_arrow(
                        *place,
                        before,
                        7 * j,
                        parts0.stamps[j],
                        size,
                        outline,
                        alpha,
                    ));
                    lemma_arrow_kept(
                        *place,
                        before,
                        call.vertices@,
                        7 * j,
                        parts.stamps[j],
                        size,
                        outline,
                        alpha,
                    );
                }
            }
        }
        i = i + 1;
    }
    let ghost before = call.vertices@;
    assert(are_arrows(*place, before, 8, pointer, alpha, parts));
    push_arrow(&mut call, pointer, size, fill, alpha, place, i);
    proof {
        assert forall|j: int| 0 <= j < 9 && j < OUTLINE_STAMPS implies #[trigger] is_arrow(
            *place,
            call.vertices@,
            7 * j,
            parts.stamps[j],
            size,
            outline,
            alpha,
        ) by {
            assert(is_arrow(
                *place,
                before,
                7 * j,
                parts.stamps[j],
                parts.size,
                parts.outline,
                alpha,
            ));
            lemma_arrow_kept(
                *place,
                before,
                call.vertices@,
                7 * j,
                parts.stamps[j],
                size,
                outline,
                alpha,
            );
        }
        assert(are_parts(*scale, *place, *luma, *s, pointer, factor, parts));
        assert(are_arrows(*place, call.vertices@, 9, pointer, alpha, parts));
    }
    call
}

proof fn lemma_arrow_kept<P: Fn(FloatBits, FloatBits, FloatBits) -> FloatBits>(
    place: P,
    before: Seq<TextVertex>,
    now: Seq<TextVertex>,
    at: int,
    origin: (FloatBits, FloatBits),
    size: FloatBits,
    color: Vec3,
    alpha: FloatBits,
)
    requires
        is_arrow(place, before, at, origin, size, color, alpha),
        0 <= at,
        before.len() <= now.len(),
        forall|k: int| 0 <= k < before.len() ==> #[trigger] now[k] == before[k],
    ensures
        is_arrow(place, now, at, origin, size, color, alpha),
{
    assert forall|k: int| 0 <= k < ARROW_CORNERS implies {
        let v = #[trigger] now[at + k];
        &&& call_ensures(place, (origin.0, FloatBits { bits: ARROW_X[k] }, size), v.pos.0)
        &&& call_ensures(place, (origin.1, FloatBits { bits: ARROW_Y[k] }, size), v.pos.1)
        &&& v.uv == (minus_one(), alpha)
        &&& v.color == color
    } by {
        assert(now[at + k] == before[at + k]);
    }
}

/// Whether draws are those of the drawn cursors, in order.
pub open spec fn are_cursor_calls<
    X: Fn(FloatBits, FloatBits) -> FloatBits,
    P: Fn(FloatBits, FloatBits, FloatBits) -> FloatBits,
    U: Fn(Vec3) -> FloatBits,
>(
    scale: X,
    place: P,
    luma: U,
    cursors: Seq<CursorSprite>,
    pointer: (FloatBits, FloatBits),
    factor: FloatBits,
    slot: usize,
    calls: Seq<TextDrawCall>,
) -> bool {
    let at = drawn(cursors, cursors.len());
    &&& calls.len() == at.len()
    &&& forall|i: int|
        0 <= i < at.len() ==> is_cursor_call(
            scale,
            place,
            luma,
            cursors[at[i]],
            pointer,
            factor,
            slot,
            #[trigger] calls[i],
        )
}

/// The draws of the cursors at the pointer, one for each that is drawn. Without an
/// atlas the overlay is inactive and there are none. `overlay` is the factor by which
/// authored sizes grow on a viewport.
pub fn build_cursor_calls<
    O: Fn([FloatBits; 2]) -> FloatBits,
    X: Fn(FloatBits, FloatBits) -> FloatBits,
    P: Fn(FloatBits, FloatBits, FloatBits) -> FloatBits,
    U: Fn(Vec3) -> FloatBits,
>(
    cursors: &Vec<CursorSprite>,
    pointer: (FloatBits, FloatBits),
    default_atlas_slot: Option<usize>,
    viewport: [FloatBits; 2],
    overlay: &O,
    scale: &X,
    place: &P,
    luma: &U,
) -> (r: Vec<TextDrawCall>)
    requires
        call_requires(*overlay, (viewport,)),
        forall|a: FloatBits, b: FloatBits| call_requires(*scale, (a, b)),
        forall|a: FloatBits, b: FloatBits, c: FloatBits| call_requires(*place, (a, b, c)),
        forall|c: Vec3| call_requires(*luma, (c,)),
    ensures
        match default_atlas_slot {
            None => r@.len() == 0,
            Some(slot) => {
                exists|factor: FloatBits| #[trigger]
                    call_ensures(*overlay, (viewport,), factor) && are_cursor_calls(
                        *scale,
                        *place,
                        *luma,
                        cursors@,
                        pointer,
                        factor,
                        slot,
                        r@,
                    )
            },
        },
{
    let mut calls: Vec<TextDrawCall> = Vec::new();
    let slot: usize = match default_atlas_slot {
        Some(s) => s,
        None => {
            return calls;
        },
    };
    let factor: FloatBits = overlay(viewport);
    let mut k: usize = 0;
    while k < cursors.len()
        invariant
            k <= cursors@.len(),
            forall|a: FloatBits, b: FloatBits| call_requires(*scale, (a, b)),
            forall|a: FloatBits, b: FloatBits, c: FloatBits| call_requires(*place, (a, b, c)),
            forall|c: Vec3| call_requires(*luma, (c,)),
            calls@.len() == drawn(cursors@, k as nat).len(),
            forall|i: int|
                0 <= i < calls@.len() ==> is_cursor_call(
                    *scale,
                    *place,
                    *luma,
                    cursors@[drawn(cursors@, k as nat)[i]],
                    pointer,
                    factor,
                    slot,
                    #[trigger] calls@[i],
                ),
        decreases cursors@.len() - k,
    {
        let s: CursorSprite = cursors[k];
        let ghost was = calls@;
        if s.visible && !s.tint[3].le(FloatBits::new(0)) {
            calls.push(cursor_call(&s, pointer, factor, slot, scale, place, luma));
        }
        proof {
            let at = drawn(cursors@, (k + 1) as nat);
            assert forall|i: int| 0 <= i < calls@.len() implies is_cursor_call(
                *scale,
                *place,
                *luma,
                cursors@[at[i]],
                pointer,
                factor,
                slot,
                #[trigger] calls@[i],
            ) by {
                if i < was.len() {
                    assert(calls@[i] == was[i]);
                }
            }
        }
        k = k + 1;
    }
    assert(are_cursor_calls(*scale, *place, *luma, cursors@, pointer, factor, slot, calls@));
    calls
}

/// Each arrow of a cursor's mesh is drawn from its own seven corners.
pub proof fn law_arrow_is_drawn_from_its_corners(a: int, t: int)
    requires
        0 <= a,
        0 <= t < 15,
    ensures
        7 * a <= arrow_index(15 * a + t) < 7 * a + 7,
        arrow_index(15 * a + t) - 7 * a == arrow_index(t),
{
    let k = 15 * a + t;
    assert(k / 15 == a && k % 15 == t) by (nonlinear_arith)
        requires
            k == 15 * a + t,
            0 <= t < 15,
            0 <= a,
    ;
    assert(t / 15 == 0 && t % 15 == t) by (nonlinear_arith)
        requires
            0 <= t < 15,
    ;
}

/// A cursor is drawn exactly where it is visible and its alpha is above zero, or no number.
pub proof fn law_cursor_is_drawn_where_it_is_seen(s: CursorSprite)
    ensures
        0 < s.tint[3].bits <= 0x7f80_0000 ==> is_drawn(s) == s.visible,
        s.tint[3].bits == 0 || 0x8000_0000 <= s.tint[3].bits <= 0xff80_0000 ==> !is_drawn(s),
        !s.visible ==> !is_drawn(s),
{
}

/// Every cursor that is drawn has a draw, in order, and no other has one.
pub proof fn law_each_drawn_cursor_has_a_draw(
    cursors: Seq<CursorSprite>,
    k: nat,
    i: int,
    a: int,
    b: int,
)
    requires
        k <= cursors.len(),
    ensures
        drawn(cursors, k).contains(i) <==> 0 <= i < k && is_drawn(cursors[i]),
        0 <= a < b < drawn(cursors, k).len() ==> drawn(cursors, k)[a] < drawn(cursors, k)[b],
        forall|x: int|
            0 <= x < drawn(cursors, k).len() ==> 0 <= #[trigger] drawn(cursors, k)[x] < k,
    decreases k,
{
    if k > 0 {
        law_each_drawn_cursor_has_a_draw(cursors, (k - 1) as nat, i, a, b);
        let before = drawn(cursors, (k - 1) as nat);
        let now = drawn(cursors, k);
        assert forall|x: int| 0 <= x < now.len() implies 0 <= #[trigger] now[x] < k by {
            if x < before.len() {
                assert(now[x] == before[x]);
            }
        }
        if before.contains(i) {
            let c = choose|c: int| 0 <= c < before.len() && before[c] == i;
            assert(now[c] == i);
        }
        if now.len() > before.len() && i == k - 1 {
            assert(now[now.len() - 1] == i);
        }
        if now.contains(i) && !before.contains(i) {
            let c = choose|c: int| 0 <= c < now.len() && now[c] == i;
            assert(c == before.len());
        }
    }
}

/// A cursor draws its fill over its outline: the last arrow has the tint's colour, the eight
/// before it one that is near black where the fill is light and near white where it is not,
/// and each has the tint's alpha.
pub proof fn law_fill_is_drawn_over_the_outline<
    X: Fn(FloatBits, FloatBits) -> FloatBits,
    P: Fn(FloatBits, FloatBits, FloatBits) -> FloatBits,
    U: Fn(Vec3) -> FloatBits,
>(
    scale: X,
    place: P,
    luma: U,
    s: CursorSprite,
    pointer: (FloatBits, FloatBits),
    factor: FloatBits,
    slot: usize,
    call: TextDrawCall,
    weight: FloatBits,
    c: int,
    a: int,
)
    requires
        is_cursor_call(scale, place, luma, s, pointer, factor, slot, call),
        forall|f: Vec3, x: FloatBits| #[trigger] call_ensures(luma, (f,), x) ==> x == weight,
        0 <= c < 7,
        0 <= a < 8,
    ensures
        call.atlas_slot == slot,
        call.clip_rect is None,
        call.vertices@.len() == 63,
        call.indices@.len() == 135,
        ({
            let top = call.vertices@[56 + c];
            &&& top.color[0] == s.tint[0]
            &&& top.color[1] == s.tint[1]
            &&& top.color[2] == s.tint[2]
            &&& top.uv.1 == s.tint[3]
            &&& top.uv.0.bits == 0xbf80_0000
        }),
        ({
            let below = call.vertices@[7 * a + c];
            &&& below.uv.1 == s.tint[3]
            &&& below.uv.0.bits == 0xbf80_0000
            &&& 0x3f00_0000 < weight.bits <= 0x7f80_0000 ==> below.color[0].bits == 0x3d4c_cccd
                && below.color[1].bits == 0x3d4c_cccd && below.color[2].bits == 0x3d75_c28f
            &&& weight.bits <= 0x3f00_0000 ==> below.color[0].bits == 0x3f73_3333
                && below.color[1].bits == 0x3f73_3333 && below.color[2].bits == 0x3f75_c28f
        }),
{
    let parts = choose|parts: CursorParts|
        {
            &&& #[trigger] are_parts(scale, place, luma, s, pointer, factor, parts)
            &&& are_arrows(place, call.vertices@, 9, pointer, s.tint[3], parts)
        };
    assert(is_arrow(
        place,
        call.vertices@,
        7 * a,
        parts.stamps[a],
        parts.size,
        parts.outline,
        s.tint[3],
    ));
    assert(call.vertices@[7 * a + c].color == parts.outline);
    assert(call.vertices@[7 * OUTLINE_STAMPS + c].color == parts.fill);
}

/// The fill's tip is at the pointer: the first corner is the pointer moved by nothing, and
/// the arrow is as high as the cursor's own height, or the default one where it has none.
pub proof fn law_tip_is_at_the_pointer<
    X: Fn(FloatBits, FloatBits) -> FloatBits,
    P: Fn(FloatBits, FloatBits, FloatBits) -> FloatBits,
    U: Fn(Vec3) -> FloatBits,
>(
    scale: X,
    place: P,
    luma: U,
    s: CursorSprite,
    pointer: (FloatBits, FloatBits),
    factor: FloatBits,
    slot: usize,
    call: TextDrawCall,
)
    requires
        is_cursor_call(scale, place, luma, s, pointer, factor, slot, call),
        forall|at: FloatBits, size: FloatBits, x: FloatBits| #[trigger]
            call_ensures(place, (at, zero(), size), x) ==> x == at,
    ensures
        call.vertices@[56].pos == pointer,
        0 < s.height.bits <= 0x7f80_0000 ==> authored_height(s) == s.height,
        s.height.bits == 0 || s.height.bits >= 0x8000_0000 ==> authored_height(s).bits
            == 0x41b0_0000,
{
    let parts = choose|parts: CursorParts|
        {
            &&& #[trigger] are_parts(scale, place, luma, s, pointer, factor, parts)
            &&& are_arrows(place, call.vertices@, 9, pointer, s.tint[3], parts)
        };
    let v = call.vertices@[7 * OUTLINE_STAMPS + 0];
    assert(ARROW_X[0] == 0 && ARROW_Y[0] == 0);
    assert(call_ensures(place, (pointer.0, FloatBits { bits: ARROW_X[0] }, parts.size), v.pos.0));
    assert(call_ensures(place, (pointer.1, FloatBits { bits: ARROW_Y[0] }, parts.size), v.pos.1));
    assert(v.pos == pointer);
}

/// An arrow has its shape: seven corners around the tip, each at its part of the height to
/// the right and downwards. The left edge runs from the tip down, the tail is the lowest, and
/// the head's right corner the farthest to the right.
pub proof fn law_arrow_has_its_shape<P: Fn(FloatBits, FloatBits, FloatBits) -> FloatBits>(
    place: P,
    vertices: Seq<TextVertex>,
    at: int,
    origin: (FloatBits, FloatBits),
    size: FloatBits,
    color: Vec3,
    alpha: FloatBits,
    k: int,
)
    requires
        is_arrow(place, vertices, at, origin, size, color, alpha),
        0 <= k < 7,
    ensures
        call_ensures(
            place,
            (
                origin.0,
                FloatBits {
                    bits: if k == 0 || k == 1 {
                        0u32
                    } else if k == 2 {
                        0x3e57_0a3d
                    } else if k == 3 || k == 5 {
                        0x3eb3_3333
                    } else if k == 4 {
                        0x3f00_0000
                    } else {
                        0x3f1e_b852
                    },
                },
                size,
            ),
            vertices[at + k].pos.0,
        ),
        call_ensures(
            place,
            (
                origin.1,
                FloatBits {
                    bits: if k == 0 {
                        0u32
                    } else if k == 1 {
                        0x3f5c_28f6
                    } else if k == 2 {
                        0x3f26_6666
                    } else if k == 3 {
                        0x3f80_0000
                    } else if k == 4 {
                        0x3f6e_147b
                    } else {
                        0x3f17_0a3d
                    },
                },
                size,
            ),
            vertices[at + k].pos.1,
        ),
        vertices[at + k].color == color,
        vertices[at + k].uv.1 == alpha,
{
    let v = vertices[at + k];
    assert(ARROW_X[0] == 0 && ARROW_X[1] == 0 && ARROW_X[2] == 0x3e57_0a3d && ARROW_X[3]
        == 0x3eb3_3333 && ARROW_X[4] == 0x3f00_0000 && ARROW_X[5] == 0x3eb3_3333 && ARROW_X[6]
        == 0x3f1e_b852);
    assert(ARROW_Y[0] == 0 && ARROW_Y[1] == 0x3f5c_28f6 && ARROW_Y[2] == 0x3f26_6666 && ARROW_Y[3]
        == 0x3f80_0000 && ARROW_Y[4] == 0x3f6e_147b && ARROW_Y[5] == 0x3f17_0a3d && ARROW_Y[6]
        == 0x3f17_0a3d);
}

/// The head of an arrow is a fan of three triangles from the tip over the left corner, the
/// inner ones and the right corner; the tail is two triangles between the inner corners.
pub proof fn law_arrow_is_head_and_tail(a: int)
    requires
        0 <= a,
    ensures
        arrow_index(15 * a) == 7 * a && arrow_index(15 * a + 1) == 7 * a + 1 && arrow_index(
            15 * a + 2,
        ) == 7 * a + 2,
        arrow_index(15 * a + 3) == 7 * a && arrow_index(15 * a + 4) == 7 * a + 2 && arrow_index(
            15 * a + 5,
        ) == 7 * a + 5,
        arrow_index(15 * a + 6) == 7 * a && arrow_index(15 * a + 7) == 7 * a + 5 && arrow_index(
            15 * a + 8,
        ) == 7 * a + 6,
        arrow_index(15 * a + 9) == 7 * a + 2 && arrow_index(15 * a + 10) == 7 * a + 3
            && arrow_index(15 * a + 11) == 7 * a + 4,
        arrow_index(15 * a + 12) == 7 * a + 2 && arrow_index(15 * a + 13) == 7 * a + 4
            && arrow_index(15 * a + 14) == 7 * a + 5,
{
    assert(ARROW_TRIS[0] == 0 && ARROW_TRIS[1] == 1 && ARROW_TRIS[2] == 2 && ARROW_TRIS[3] == 0
        && ARROW_TRIS[4] == 2 && ARROW_TRIS[5] == 5 && ARROW_TRIS[6] == 0 && ARROW_TRIS[7] == 5
        && ARROW_TRIS[8] == 6 && ARROW_TRIS[9] == 2 && ARROW_TRIS[10] == 3 && ARROW_TRIS[11] == 4
        && ARROW_TRIS[12] == 2 && ARROW_TRIS[13] == 4 && ARROW_TRIS[14] == 5);
    assert forall|t: int| 0 <= t < 15 implies #[trigger] arrow_index(15 * a + t) == 7 * a
        + ARROW_TRIS[t] by {
        let k = 15 * a + t;
        assert(k / 15 == a && k % 15 == t) by (nonlinear_arith)
            requires
                k == 15 * a + t,
                0 <= t < 15,
                0 <= a,
        ;
    }
    assert(arrow_index(15 * a + 0) == 7 * a + ARROW_TRIS[0]);
}

/// The outline is stamped around the pointer in eight directions, opposite ones in pairs:
/// sideways, up and down, and along the diagonals. It is as wide as its part of the height,
/// but at least a pixel.
pub proof fn law_outline_is_stamped_around<
    X: Fn(FloatBits, FloatBits) -> FloatBits,
    P: Fn(FloatBits, FloatBits, FloatBits) -> FloatBits,
    U: Fn(Vec3) -> FloatBits,
>(
    scale: X,
    place: P,
    luma: U,
    s: CursorSprite,
    pointer: (FloatBits, FloatBits),
    factor: FloatBits,
    parts: CursorParts,
    i: int,
)
    requires
        are_parts(scale, place, luma, s, pointer, factor, parts),
        0 <= i < 8,
    ensures
        call_ensures(scale, (parts.size, FloatBits { bits: 0x3dae_147b }), parts.width),
        parts.stamps.len() == 8,
        exists|w: FloatBits, x: FloatBits, y: FloatBits|
            {
                &&& #[trigger] call_ensures(place, (pointer.0, x, w), parts.stamps[i].0)
                &&& #[trigger] call_ensures(place, (pointer.1, y, w), parts.stamps[i].1)
                &&& x.bits == if i == 0 {
                    0x3f80_0000
                } else if i == 1 {
                    0xbf80_0000
                } else if i == 2 || i == 3 {
                    0
                } else if i == 4 || i == 6 {
                    0x3f34_fdf4
                } else {
                    0xbf34_fdf4u32
                }
                &&& y.bits == if i == 0 || i == 1 {
                    0
                } else if i == 2 {
                    0x3f80_0000
                } else if i == 3 {
                    0xbf80_0000
                } else if i == 4 || i == 5 {
                    0x3f34_fdf4
                } else {
                    0xbf34_fdf4u32
                }
                &&& 0x3f80_0000 <= parts.width.bits <= 0x7f80_0000 ==> w == parts.width
                &&& parts.width.bits < 0x3f80_0000 ==> w.bits == 0x3f80_0000
            },
{
    let o = parts.stamps[i];
    let w = parts.width.greater(one());
    let x = FloatBits { bits: OUTLINE_X[i] };
    let y = FloatBits { bits: OUTLINE_Y[i] };
    assert(OUTLINE_X[0] == 0x3f80_0000 && OUTLINE_X[1] == 0xbf80_0000 && OUTLINE_X[2] == 0
        && OUTLINE_X[3] == 0 && OUTLINE_X[4] == 0x3f34_fdf4 && OUTLINE_X[5] == 0xbf34_fdf4
        && OUTLINE_X[6] == 0x3f34_fdf4 && OUTLINE_X[7] == 0xbf34_fdf4);
    assert(OUTLINE_Y[0] == 0 && OUTLINE_Y[1] == 0 && OUTLINE_Y[2] == 0x3f80_0000 && OUTLINE_Y[3]
        == 0xbf80_0000 && OUTLINE_Y[4] == 0x3f34_fdf4 && OUTLINE_Y[5] == 0x3f34_fdf4
        && OUTLINE_Y[6] == 0xbf34_fdf4 && OUTLINE_Y[7] == 0xbf34_fdf4);
    assert(call_ensures(place, (pointer.0, x, w), parts.stamps[i].0));
    assert(call_ensures(place, (pointer.1, y, w), parts.stamps[i].1));
}

/// Every cursor that is drawn has its own draw, and there are no others.
pub proof fn law_cursor_calls_are_the_cursors<
    X: Fn(FloatBits, FloatBits) -> FloatBits,
    P: Fn(FloatBits, FloatBits, FloatBits) -> FloatBits,
    U: Fn(Vec3) -> FloatBits,
>(
    scale: X,
    place: P,
    luma: U,
    cursors: Seq<CursorSprite>,
    pointer: (FloatBits, FloatBits),
    factor: FloatBits,
    slot: usize,
    calls: Seq<TextDrawCall>,
    c: int,
)
    requires
        are_cursor_calls(scale, place, luma, cursors, pointer, factor, slot, calls),
        0 <= c < cursors.len(),
        is_drawn(cursors[c]),
    ensures
        exists|i: int|
            0 <= i < calls.len() && is_cursor_call(
                scale,
                place,
                luma,
                cursors[c],
                pointer,
                factor,
                slot,
                #[trigger] calls[i],
            ),
        calls.len() == drawn(cursors, cursors.len()).len(),
{
    law_each_drawn_cursor_has_a_draw(cursors, cursors.len(), c, 0, 0);
    let at = drawn(cursors, cursors.len());
    let i = choose|i: int| 0 <= i < at.len() && at[i] == c;
    assert(is_cursor_call(scale, place, luma, cursors[at[i]], pointer, factor, slot, calls[i]));
}

} // verus!
