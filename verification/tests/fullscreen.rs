use concinnity_gfx::float_bits::FloatBits;
use concinnity_gfx::fullscreen::{
    BloomStep, CompositeStep, FullscreenStep, clip_rect_to_scissor, encode_bloom_chain,
    encode_composite_chain, encode_fullscreen,
};

fn edge(x: f32) -> Option<i64> {
    if x.is_nan() { None } else { Some(x as i64) }
}

fn num(x: FloatBits) -> f32 {
    f32::from_bits(x.bits)
}

fn scissor(clip: [f32; 4], w: u32, h: u32) -> Option<(i32, i32, u32, u32)> {
    clip_rect_to_scissor(
        clip.map(|x| FloatBits::new(x.to_bits())),
        w,
        h,
        &|a| edge(num(a).floor()),
        &|a, b| edge((num(a) + num(b)).ceil()),
    )
}

#[test]
fn clip_inside_attachment_passes_through() {
    // A band fully inside the attachment maps 1:1 (no scaling on DX/VK).
    assert_eq!(
        scissor([100.0, 50.0, 300.0, 200.0], 1280, 720),
        Some((100, 50, 300, 200))
    );
}

#[test]
fn clip_is_clamped_to_attachment_bounds() {
    // A band hanging off the right / bottom edge is clamped to the target.
    assert_eq!(
        scissor([1200.0, 700.0, 400.0, 400.0], 1280, 720),
        Some((1200, 700, 80, 20))
    );
    // A negative origin is clamped to zero, shrinking the width/height.
    assert_eq!(
        scissor([-40.0, -10.0, 100.0, 100.0], 1280, 720),
        Some((0, 0, 60, 90))
    );
}

#[test]
fn fully_offscreen_clip_is_skipped() {
    // A band entirely past the attachment yields no scissor (skip the draw).
    assert_eq!(scissor([2000.0, 50.0, 100.0, 100.0], 1280, 720), None);
    // A zero-area band is also skipped.
    assert_eq!(scissor([10.0, 10.0, 0.0, 50.0], 1280, 720), None);
}

#[test]
fn clip_edges_round_outwards() {
    assert_eq!(scissor([10.5, 20.25, 3.0, 0.5], 100, 100), Some((10, 20, 4, 1)));
    // An edge that is not a number gives an origin of zero and no extent.
    assert_eq!(scissor([f32::NAN, 5.0, 3.0, 7.0], 100, 100), Some((0, 5, 0, 7)));
}

#[test]
fn bloom_chain_goes_down_and_back_up() {
    assert_eq!(encode_bloom_chain(0), vec![]);
    assert_eq!(encode_bloom_chain(1), vec![BloomStep::Begin, BloomStep::Prefilter]);
    assert_eq!(
        encode_bloom_chain(4),
        vec![
            BloomStep::Begin,
            BloomStep::Prefilter,
            BloomStep::Downsample { dst: 1 },
            BloomStep::Downsample { dst: 2 },
            BloomStep::Downsample { dst: 3 },
            BloomStep::Upsample { dst: 2 },
            BloomStep::Upsample { dst: 1 },
            BloomStep::Upsample { dst: 0 },
        ]
    );
}

// The steps taken until an end, with the outcome of each given by `ok`.
fn composite(calls: usize, ok: impl Fn(CompositeStep) -> bool) -> Vec<CompositeStep> {
    let mut step = CompositeStep::Begin;
    let mut steps = Vec::new();
    loop {
        steps.push(step);
        if matches!(step, CompositeStep::Done | CompositeStep::Failed) {
            return steps;
        }
        step = encode_composite_chain(step, calls, ok(step));
    }
}

#[test]
fn composite_layers_text_over_the_scene() {
    assert_eq!(
        composite(2, |_| true),
        vec![
            CompositeStep::Begin,
            CompositeStep::Draw,
            CompositeStep::BeginText,
            CompositeStep::Text { call: 0 },
            CompositeStep::Text { call: 1 },
            CompositeStep::End,
            CompositeStep::Done,
        ]
    );
    assert_eq!(
        composite(0, |_| true),
        vec![
            CompositeStep::Begin,
            CompositeStep::Draw,
            CompositeStep::End,
            CompositeStep::Done,
        ]
    );
}

#[test]
fn composite_without_a_text_pipeline_skips_the_calls() {
    assert_eq!(
        composite(3, |s| s != CompositeStep::BeginText),
        vec![
            CompositeStep::Begin,
            CompositeStep::Draw,
            CompositeStep::BeginText,
            CompositeStep::End,
            CompositeStep::Done,
        ]
    );
}

#[test]
fn a_failed_text_draw_leaves_the_pass_open() {
    let steps = composite(3, |s| s != CompositeStep::Text { call: 1 });
    assert_eq!(steps.last(), Some(&CompositeStep::Failed));
    assert!(!steps.contains(&CompositeStep::End));
    assert!(!steps.contains(&CompositeStep::Text { call: 2 }));
}

#[test]
fn a_fullscreen_pass_begins_draws_and_ends() {
    assert_eq!(
        encode_fullscreen(),
        [FullscreenStep::Begin, FullscreenStep::Draw, FullscreenStep::End]
    );
}
