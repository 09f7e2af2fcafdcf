//! The order of the fullscreen passes that every backend shares: the bloom chain, the
//! composite pass with its text overlay, and single draws.

use crate::float_bits::{FloatBits, Vec4};
use vstd::prelude::*;

verus! {

/// A sub-pass of the bloom chain. A downsample writes its mip from the one above, an
/// upsample adds the one below to its mip.
#[derive(Debug, Clone, Copy, PartialEq, Eq, Structural)]
pub enum BloomStep {
    Begin,
    /// Scene colour to mip zero.
    Prefilter,
    Downsample { dst: usize },
    Upsample { dst: usize },
}

/// The step at a place of the chain over `n` mips: the beginning and the prefilter, the
/// downsamples to mips one and up, and the upsamples back to mip zero.
pub open spec fn bloom_step(n: int, k: int) -> BloomStep {
    if k == 0 {
        BloomStep::Begin
    } else if k == 1 {
        BloomStep::Prefilter
    } else if k <= n {
        BloomStep::Downsample { dst: (k - 1) as usize }
    } else {
        BloomStep::Upsample { dst: (2 * n - 1 - k) as usize }
    }
}

/// The steps of the bloom chain over a number of mips: none where there is no mip.
pub fn encode_bloom_chain(mips: usize) -> (r: Vec<BloomStep>)
    requires
        mips <= usize::MAX / 2,
    ensures
        mips == 0 ==> r@.len() == 0,
        mips > 0 ==> r@.len() == 2 * mips && forall|k: int|
            0 <= k < r@.len() ==> #[trigger] r@[k] == bloom_step(mips as int, k),
{
    let mut out: Vec<BloomStep> = Vec::new();
    if mips == 0 {
        return out;
    }
    out.push(BloomStep::Begin);
    out.push(BloomStep::Prefilter);
    let mut down: usize = 1;
    while down < mips
        invariant
            1 <= down <= mips,
            out@.len() == down + 1,
            forall|k: int|
                0 <= k < out@.len() ==> #[trigger] out@[k] == bloom_step(mips as int, k),
        decreases mips - down,
    {
        out.push(BloomStep::Downsample { dst: down });
        down = down + 1;
    }
    let mut up: usize = mips - 1;
    while up > 0
        invariant
            0 <= up < mips,
            mips <= usize::MAX / 2,
            out@.len() == 2 * mips - up,
            forall|k: int|
                0 <= k < out@.len() ==> #[trigger] out@[k] == bloom_step(mips as int, k),
        decreases up,
    {
        up = up - 1;
        out.push(BloomStep::Upsample { dst: up });
    }
    out
}

/// What the composite pass does next. `Done` and `Failed` are its ends: a failed text
/// draw leaves the pass open.
#[derive(Debug, Clone, Copy, PartialEq, Eq, Structural)]
pub enum CompositeStep {
    Begin,
    Draw,
    /// Bind the text pipeline, which may be inert.
    BeginText,
    Text { call: usize },
    End,
    Done,
    Failed,
}

/// The step after one over a number of text calls: `ok` tells whether the text pipeline
/// is there, and whether a text draw succeeded.
pub open spec fn composite_after(step: CompositeStep, calls: int, ok: bool) -> CompositeStep {
    match step {
        CompositeStep::Begin => CompositeStep::Draw,
        CompositeStep::Draw => if calls > 0 {
            CompositeStep::BeginText
        } else {
            CompositeStep::End
        },
        CompositeStep::BeginText => if ok && calls > 0 {
            CompositeStep::Text { call: 0 }
        } else {
            CompositeStep::End
        },
        CompositeStep::Text { call } => if !ok {
            CompositeStep::Failed
        } else if call + 1 < calls {
            CompositeStep::Text { call: (call + 1) as usize }
        } else {
            CompositeStep::End
        },
        CompositeStep::End => CompositeStep::Done,
        CompositeStep::Done => CompositeStep::Done,
        CompositeStep::Failed => CompositeStep::Failed,
    }
}

/// The next step of the composite pass.
pub fn encode_composite_chain(step: CompositeStep, calls: usize, ok: bool) -> (r: CompositeStep)
    ensures
        r == composite_after(step, calls as int, ok),
{
    match step {
        CompositeStep::Begin => CompositeStep::Draw,
        CompositeStep::Draw => {
            if calls > 0 {
                CompositeStep::BeginText
            } else {
                CompositeStep::End
            }
        },
        CompositeStep::BeginText => {
            if ok && calls > 0 {
                CompositeStep::Text { call: 0 }
            } else {
                CompositeStep::End
            }
        },
        CompositeStep::Text { call } => {
            if !ok {
                CompositeStep::Failed
            } else if call < calls && call + 1 < calls {
                CompositeStep::Text { call: call + 1 }
            } else {
                CompositeStep::End
            }
        },
        CompositeStep::End => CompositeStep::Done,
        CompositeStep::Done => CompositeStep::Done,
        CompositeStep::Failed => CompositeStep::Failed,
    }
}

/// The step after `k` successes from the beginning.
pub open spec fn composite_run(calls: int, k: nat) -> CompositeStep
    decreases k,
{
    if k == 0 {
        CompositeStep::Begin
    } else {
        composite_after(composite_run(calls, (k - 1) as nat), calls, true)
    }
}

/// A step of a single fullscreen draw.
#[derive(Debug, Clone, Copy, PartialEq, Eq, Structural)]
pub enum FullscreenStep {
    Begin,
    Draw,
    End,
}

/// The steps of a single fullscreen draw.
pub fn encode_fullscreen() -> (r: [FullscreenStep; 3])
    ensures
        r[0] == FullscreenStep::Begin,
        r[1] == FullscreenStep::Draw,
        r[2] == FullscreenStep::End,
{
    [FullscreenStep::Begin, FullscreenStep::Draw, FullscreenStep::End]
}

/// An edge held within an attachment; one that is not a number stays so.
pub open spec fn held(edge: Option<i64>, size: u32) -> Option<int> {
    match edge {
        None => None,
        Some(e) => Some(
            if e < 0 {
                0
            } else if e > size {
                size as int
            } else {
                e as int
            },
        ),
    }
}

/// An edge past another one; neither where either is not a number.
pub open spec fn ends_before(end: Option<int>, start: Option<int>) -> bool {
    end is Some && start is Some && end->0 <= start->0
}

/// An edge as a coordinate: zero where it is not a number, and at most the greatest.
pub open spec fn coordinate(edge: Option<int>) -> int {
    match edge {
        None => 0,
        Some(e) => if e > i32::MAX {
            i32::MAX as int
        } else {
            e
        },
    }
}

/// The distance between two edges: zero where either is not a number.
pub open spec fn span(start: Option<int>, end: Option<int>) -> int {
    match (start, end) {
        (Some(a), Some(b)) => b - a,
        _ => 0,
    }
}

fn hold(edge: Option<i64>, size: u32) -> (r: Option<i64>)
    ensures
        r is Some <==> held(edge, size) is Some,
        r matches Some(e) ==> e == held(edge, size)->0 && 0 <= e <= size,
{
    match edge {
        None => None,
        Some(e) => {
            if e < 0 {
                Some(0)
            } else if e > size as i64 {
                Some(size as i64)
            } else {
                Some(e)
            }
        },
    }
}

/// Four edges of a rectangle: its near edges rounded down, `x0` and `y0`, and its far
/// edges rounded up, `x1` and `y1`. None stands for an edge that is not a number.
#[derive(Debug, Clone, Copy)]
pub struct Edges {
    pub x0: Option<i64>,
    pub y0: Option<i64>,
    pub x1: Option<i64>,
    pub y1: Option<i64>,
}

/// The edges of a rectangle `[x, y, width, height]`. `down` rounds a number down, and
/// `up` rounds the sum of two numbers up.
pub open spec fn are_edges<
    D: Fn(FloatBits) -> Option<i64>,
    U: Fn(FloatBits, FloatBits) -> Option<i64>,
>(down: D, up: U, clip: Vec4, e: Edges) -> bool {
    &&& call_ensures(down, (clip[0],), e.x0)
    &&& call_ensures(down, (clip[1],), e.y0)
    &&& call_ensures(up, (clip[0], clip[2]), e.x1)
    &&& call_ensures(up, (clip[1], clip[3]), e.y1)
}

/// The scissor of edges: what of them lies within the attachment, as an origin and a
/// size; none where nothing is left.
pub open spec fn is_scissor(
    e: Edges,
    attach_w: u32,
    attach_h: u32,
    r: Option<(i32, i32, u32, u32)>,
) -> bool {
    &&& r is None <==> ends_before(held(e.x1, attach_w), held(e.x0, attach_w)) || ends_before(
        held(e.y1, attach_h),
        held(e.y0, attach_h),
    )
    &&& r matches Some((x, y, w, h)) ==> {
        &&& x == coordinate(held(e.x0, attach_w))
        &&& y == coordinate(held(e.y0, attach_h))
        &&& w == span(held(e.x0, attach_w), held(e.x1, attach_w))
        &&& h == span(held(e.y0, attach_h), held(e.y1, attach_h))
    }
}

/// The scissor of a clip rectangle `[x, y, width, height]`: its edges, rounded outwards,
/// within the attachment, as an origin and a size. None where nothing is left. `down`
/// rounds a number down and `up` the sum of two numbers up; both give nothing for what
/// is not a number.
pub fn clip_rect_to_scissor<
    D: Fn(FloatBits) -> Option<i64>,
    U: Fn(FloatBits, FloatBits) -> Option<i64>,
>(clip: Vec4, attach_w: u32, attach_h: u32, down: &D, up: &U) -> (r: Option<
    (i32, i32, u32, u32),
>)
    requires
        forall|a: FloatBits| call_requires(*down, (a,)),
        forall|a: FloatBits, b: FloatBits| call_requires(*up, (a, b)),
    ensures
        exists|e: Edges| #[trigger]
            are_edges(*down, *up, clip, e) && is_scissor(e, attach_w, attach_h, r),
{
    let e: Edges = Edges {
        x0: down(clip[0]),
        y0: down(clip[1]),
        x1: up(clip[0], clip[2]),
        y1: up(clip[1], clip[3]),
    };
    assert(are_edges(*down, *up, clip, e));
    scissor(e, attach_w, attach_h)
}

/// The scissor of edges.
pub fn scissor(e: Edges, attach_w: u32, attach_h: u32) -> (r: Option<(i32, i32, u32, u32)>)
    ensures
        is_scissor(e, attach_w, attach_h, r),
{
    let left: Option<i64> = hold(e.x0, attach_w);
    let top: Option<i64> = hold(e.y0, attach_h);
    let right: Option<i64> = hold(e.x1, attach_w);
    let bottom: Option<i64> = hold(e.y1, attach_h);
    let w: Option<u32> = between(left, right);
    let h: Option<u32> = between(top, bottom);
    match (w, h) {
        (Some(w), Some(h)) => Some((to_coordinate(left), to_coordinate(top), w, h)),
        _ => None,
    }
}

fn between(start: Option<i64>, end: Option<i64>) -> (r: Option<u32>)
    requires
        start matches Some(a) ==> 0 <= a <= u32::MAX,
        end matches Some(b) ==> 0 <= b <= u32::MAX,
    ensures
        r is None <==> start is Some && end is Some && end->0 <= start->0,
        r matches Some(n) ==> n == if start is Some && end is Some {
            end->0 - start->0
        } else {
            0
        },
{
    match (start, end) {
        (Some(a), Some(b)) => {
            if b <= a {
                None
            } else {
                Some((b - a) as u32)
            }
        },
        _ => Some(0),
    }
}

fn to_coordinate(edge: Option<i64>) -> (r: i32)
    requires
        edge matches Some(e) ==> 0 <= e <= u32::MAX,
    ensures
        r == match edge {
            None => 0,
            Some(e) => if e > i32::MAX {
                i32::MAX as int
            } else {
                e as int
            },
        },
{
    match edge {
        None => 0,
        Some(e) => {
            if e > i32::MAX as i64 {
                i32::MAX
            } else {
                e as i32
            }
        },
    }
}

/// Every mip but the last is upsampled once and every mip but the first downsampled
/// once, in mirrored order: as many steps before the turn as after it.
pub proof fn law_bloom_chain_mirrors(n: int, dst: int)
    requires
        1 <= dst < n,
        2 * n <= usize::MAX,
    ensures
        bloom_step(n, dst + 1) == (BloomStep::Downsample { dst: dst as usize }),
        bloom_step(n, 2 * n - dst) == (BloomStep::Upsample { dst: (dst - 1) as usize }),
{
}

/// While all goes well the composite pass draws every text call once, in order, and
/// ends.
pub proof fn law_composite_draws_every_call(calls: int, i: int)
    requires
        0 <= i < calls <= usize::MAX,
    ensures
        composite_run(calls, 0) is Begin,
        composite_run(calls, 1) is Draw,
        composite_run(calls, 2) is BeginText,
        composite_run(calls, (3 + i) as nat) == (CompositeStep::Text { call: i as usize }),
        composite_run(calls, (3 + calls) as nat) is End,
        composite_run(calls, (4 + calls) as nat) is Done,
    decreases calls - i,
{
    reveal_with_fuel(composite_run, 4);
    lemma_text_calls(calls, i);
    lemma_text_calls(calls, calls - 1);
}

proof fn lemma_text_calls(calls: int, i: int)
    requires
        0 <= i < calls <= usize::MAX,
    ensures
        composite_run(calls, (3 + i) as nat) == (CompositeStep::Text { call: i as usize }),
    decreases i,
{
    reveal_with_fuel(composite_run, 4);
    if i > 0 {
        lemma_text_calls(calls, i - 1);
    }
}

/// While all goes well the composite pass comes to its end, and without text calls it
/// is a single draw.
pub proof fn law_composite_ends(calls: int)
    requires
        0 <= calls <= usize::MAX,
    ensures
        ({
            let end: int = if calls == 0 {
                2
            } else {
                3 + calls
            };
            composite_run(calls, end as nat) is End && composite_run(calls, (end + 1) as nat) is Done
        }),
{
    reveal_with_fuel(composite_run, 4);
    if calls > 0 {
        law_composite_draws_every_call(calls, 0);
    }
}

/// A failed text draw leaves the pass open: nothing follows it. Without a text pipeline
/// no text is drawn.
pub proof fn law_failed_text_leaves_pass_open(call: usize, calls: int, ok: bool)
    ensures
        composite_after(CompositeStep::Text { call }, calls, false) is Failed,
        composite_after(CompositeStep::Failed, calls, ok) is Failed,
        composite_after(CompositeStep::BeginText, calls, false) is End,
{
}

/// A scissor lies within its attachment and is not empty, where the edges are numbers.
pub proof fn law_scissor_lies_within(
    e: Edges,
    attach_w: u32,
    attach_h: u32,
    r: Option<(i32, i32, u32, u32)>,
)
    requires
        e.x0 is Some && e.y0 is Some && e.x1 is Some && e.y1 is Some,
        attach_w <= i32::MAX,
        attach_h <= i32::MAX,
        is_scissor(e, attach_w, attach_h, r),
    ensures
        r matches Some((x, y, w, h)) ==> {
            &&& 0 <= x && x + w <= attach_w && w > 0
            &&& 0 <= y && y + h <= attach_h && h > 0
        },
{
}

/// A pixel of the attachment is within the scissor exactly where it lies between the edges of
/// the clip rectangle, and without a scissor none does.
pub proof fn law_scissor_holds_the_pixels_between_the_edges(
    e: Edges,
    attach_w: u32,
    attach_h: u32,
    r: Option<(i32, i32, u32, u32)>,
    px: int,
    py: int,
)
    requires
        e.x0 is Some && e.y0 is Some && e.x1 is Some && e.y1 is Some,
        attach_w <= i32::MAX,
        attach_h <= i32::MAX,
        is_scissor(e, attach_w, attach_h, r),
        0 <= px < attach_w,
        0 <= py < attach_h,
    ensures
        ({
            let inside = e.x0->0 <= px < e.x1->0 && e.y0->0 <= py < e.y1->0;
            match r {
                Some((x, y, w, h)) => inside <==> x <= px < x + w && y <= py < y + h,
                None => !inside,
            }
        }),
{
}

/// An edge that is no number leaves a scissor of no width, or no height, at the attachment's
/// own edge.
pub proof fn law_edge_that_is_no_number(
    e: Edges,
    attach_w: u32,
    attach_h: u32,
    r: Option<(i32, i32, u32, u32)>,
)
    requires
        is_scissor(e, attach_w, attach_h, r),
    ensures
        r matches Some((x, y, w, h)) ==> {
            &&& e.x0 is None ==> x == 0 && w == 0
            &&& e.y0 is None ==> y == 0 && h == 0
            &&& e.x1 is None ==> w == 0
            &&& e.y1 is None ==> h == 0
        },
        (e.x0 is None || e.x1 is None) && (e.y0 is None || e.y1 is None) ==> r is Some,
{
}

/// The bloom chain begins, prefilters, goes down mip by mip and comes back up to mip zero.
pub proof fn law_bloom_chain_goes_down_and_up(n: int, k: int)
    requires
        n > 0,
        2 * n <= usize::MAX,
        0 <= k < 2 * n,
    ensures
        k == 0 <==> bloom_step(n, k) is Begin,
        k == 1 <==> bloom_step(n, k) is Prefilter,
        2 <= k <= n <==> bloom_step(n, k) is Downsample,
        k >= 2 && k > n <==> bloom_step(n, k) is Upsample,
        k == 2 * n - 1 && n > 1 ==> bloom_step(n, k) == (BloomStep::Upsample { dst: 0 }),
        2 <= k < n ==> bloom_step(n, k + 1)->Downsample_dst == bloom_step(n, k)->Downsample_dst + 1,
        n < k < 2 * n - 1 ==> bloom_step(n, k + 1)->Upsample_dst + 1 == bloom_step(
            n,
            k,
        )->Upsample_dst,
{
}

/// A clip's edges are those of its rectangle: the near ones rounded down from its corner, the
/// far ones rounded up from its corner and its extent, along either axis.
pub proof fn law_edges_are_the_rectangles<
    D: Fn(FloatBits) -> Option<i64>,
    U: Fn(FloatBits, FloatBits) -> Option<i64>,
>(down: D, up: U, x: FloatBits, y: FloatBits, w: FloatBits, h: FloatBits, clip: Vec4, e: Edges)
    requires
        are_edges(down, up, clip, e),
        clip[0] == x,
        clip[1] == y,
        clip[2] == w,
        clip[3] == h,
    ensures
        call_ensures(down, (x,), e.x0),
        call_ensures(down, (y,), e.y0),
        call_ensures(up, (x, w), e.x1),
        call_ensures(up, (y, h), e.y1),
{
}

} // verus!
