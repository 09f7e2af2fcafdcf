use concinnity_gfx::cursor::{
    ARROW_CORNERS, ARROW_INDICES, CursorSprite, TextDrawCall, build_cursor_calls, outline_color,
};
use concinnity_gfx::float_bits::{FloatBits, Vec3};

const DEFAULT_CURSOR_PX: f32 = 22.0;

// The outline stamp pushes the tail a fraction of a pixel past the fill
// height, so allow a small tolerance in the size check.
const OUTLINE_PX_TOLERANCE: f32 = 2.0;

fn bits(x: f32) -> FloatBits {
    FloatBits::new(x.to_bits())
}

fn num(x: FloatBits) -> f32 {
    f32::from_bits(x.bits)
}

fn cursor(tint: [f32; 4], height: f32) -> CursorSprite {
    CursorSprite { visible: true, height: bits(height), tint: tint.map(bits) }
}

fn luma(c: [f32; 3]) -> f32 {
    0.299 * c[0] + 0.587 * c[1] + 0.114 * c[2]
}

fn build(
    c: CursorSprite,
    pointer: (f32, f32),
    slot: Option<usize>,
    viewport: [f32; 2],
) -> Vec<TextDrawCall> {
    // The overlay is authored on a canvas of 1280 by 720.
    let overlay = |v: [FloatBits; 2]| {
        let [w, h] = v.map(num);
        bits(if w > 0.0 && h > 0.0 { (w / 1280.0).min(h / 720.0) } else { 1.0 })
    };
    let scale = |a: FloatBits, b: FloatBits| bits(num(a) * num(b));
    let place = |a: FloatBits, b: FloatBits, c: FloatBits| bits(num(a) + num(b) * num(c));
    let weigh = |c: Vec3| bits(luma(c.map(num)));
    build_cursor_calls(
        &vec![c],
        (bits(pointer.0), bits(pointer.1)),
        slot,
        viewport.map(bits),
        &overlay,
        &scale,
        &place,
        &weigh,
    )
}

#[test]
fn no_fonts_means_no_calls() {
    let c = cursor([1.0, 1.0, 1.0, 1.0], 22.0);
    assert!(build(c, (10.0, 10.0), None, [0.0, 0.0]).is_empty());
}

#[test]
fn builds_outline_then_fill_mesh() {
    let c = cursor([1.0, 1.0, 1.0, 1.0], 22.0);
    let calls = build(c, (100.0, 50.0), Some(0), [0.0, 0.0]);
    assert_eq!(calls.len(), 1);
    // Eight outline stamps plus one fill, seven vertices each.
    assert_eq!(calls[0].vertices.len(), 9 * ARROW_CORNERS);
    assert_eq!(calls[0].indices.len(), 9 * ARROW_INDICES);
    // The tip of the fill arrow (last stamp's first vertex) sits exactly on
    // the pointer; the outline stamps are offset off it.
    let tip = calls[0].vertices[8 * ARROW_CORNERS];
    assert_eq!([num(tip.pos.0), num(tip.pos.1)], [100.0, 50.0]);
    // Fill keeps the sprite tint; outline does not.
    assert_eq!(tip.color.map(num), [1.0, 1.0, 1.0]);
    assert_ne!(calls[0].vertices[0].color.map(num), [1.0, 1.0, 1.0]);
    // Every vertex uses the solid-fill sentinel and carries the alpha.
    for v in &calls[0].vertices {
        assert!(num(v.uv.0) < 0.0);
        assert!((num(v.uv.1) - 1.0).abs() < 1e-6);
    }
}

#[test]
fn invisible_or_transparent_cursor_is_skipped() {
    let mut hidden = cursor([1.0, 1.0, 1.0, 1.0], 22.0);
    hidden.visible = false;
    assert!(build(hidden, (0.0, 0.0), Some(0), [0.0, 0.0]).is_empty());
    let clear = cursor([1.0, 1.0, 1.0, 0.0], 22.0);
    assert!(build(clear, (0.0, 0.0), Some(0), [0.0, 0.0]).is_empty());
}

#[test]
fn outline_contrasts_the_fill() {
    // Light fill -> dark outline, dark fill -> light outline.
    let weigh = |c: Vec3| bits(luma(c.map(num)));
    assert!(num(outline_color([1.0, 1.0, 1.0].map(bits), &weigh)[0]) < 0.5);
    assert!(num(outline_color([0.0, 0.0, 0.0].map(bits), &weigh)[0]) > 0.5);
}

#[test]
fn unset_height_falls_back_to_default_size() {
    let c = cursor([1.0, 1.0, 1.0, 1.0], 0.0);
    let calls = build(c, (0.0, 0.0), Some(0), [0.0, 0.0]);
    // The lowest vertex (tail tip, ny = 1.0) reaches the default height.
    let max_y = calls[0]
        .vertices
        .iter()
        .map(|v| num(v.pos.1))
        .fold(f32::MIN, f32::max);
    assert!((max_y - DEFAULT_CURSOR_PX).abs() < OUTLINE_PX_TOLERANCE);
}

#[test]
fn arrow_scales_with_the_overlay() {
    // At twice the reference size the overlay scale is 2.0, so the arrow
    // height doubles while the tip stays on the pointer. Measure the fill
    // arrow (the last stamp) so the outline ring's extra width is excluded.
    let c = cursor([1.0, 1.0, 1.0, 1.0], 22.0);
    let calls = build(c, (0.0, 0.0), Some(0), [2560.0, 1440.0]);
    let fill = &calls[0].vertices[8 * ARROW_CORNERS..];
    let max_y = fill.iter().map(|v| num(v.pos.1)).fold(f32::MIN, f32::max);
    // Tail tip (ny = 1.0) at pointer y = 0 reaches the doubled height.
    assert!((max_y - 44.0).abs() < 1e-3, "max_y={max_y}");
}

// Each stamp's triangles index that stamp's own corners, the last those of the fill.
#[test]
fn indices_stay_within_their_stamp() {
    let c = cursor([0.2, 0.2, 0.2, 0.5], 10.0);
    let calls = build(c, (3.0, 4.0), Some(6), [0.0, 0.0]);
    assert_eq!(calls[0].atlas_slot, 6);
    assert!(calls[0].clip_rect.is_none());
    for (k, i) in calls[0].indices.iter().enumerate() {
        let stamp = k / ARROW_INDICES;
        assert_eq!(*i as usize / ARROW_CORNERS, stamp);
    }
    assert_eq!(&calls[0].indices[0..6], &[0, 1, 2, 0, 2, 5]);
    assert_eq!(calls[0].indices[120], 56);
    // The outline is at least one pixel wide.
    assert_eq!(num(calls[0].vertices[0].pos.0), 4.0);
}
