//! The backend-agnostic display-mode list behind the Resolution settings row.

use crate::order::{sorted, Ranked};
use crate::text::push_decimal;
use vstd::prelude::*;

verus! {

/// One display mode: pixel dimensions and refresh rate. A rate of zero means
/// unknown.
#[derive(Debug, Clone, Copy, PartialEq, Eq, PartialOrd, Ord, Structural)]
pub struct DisplayMode {
    pub width: u32,
    pub height: u32,
    pub refresh_hz: u32,
}

impl Ranked for DisplayMode {
    open spec fn ranks(a: Self, b: Self) -> bool {
        a.width < b.width || (a.width == b.width && (a.height < b.height || (a.height == b.height
            && a.refresh_hz <= b.refresh_hz)))
    }

    proof fn linear(a: Self, b: Self, c: Self) {
    }

    fn ranks_before(&self, other: &Self) -> (r: bool) {
        self.width < other.width || (self.width == other.width && (self.height < other.height || (
        self.height == other.height && self.refresh_hz <= other.refresh_hz)))
    }
}

/// The option text of a mode.
pub open spec fn label_text(m: DisplayMode) -> Seq<char> {
    let size = crate::text::decimal(m.width as nat) + " x "@ + crate::text::decimal(
        m.height as nat,
    );
    if m.refresh_hz == 0 {
        size
    } else {
        size + " ("@ + crate::text::decimal(m.refresh_hz as nat) + "Hz)"@
    }
}

impl DisplayMode {
    /// The option text shown in the Resolution row, such as
    /// `2560 x 1440 (165Hz)`; an unknown rate is left out.
    pub fn label(&self) -> (r: String)
        ensures
            r@ == label_text(*self),
    {
        let mut out: String = String::new();
        push_decimal(&mut out, self.width);
        out.append(" x ");
        push_decimal(&mut out, self.height);
        if self.refresh_hz != 0 {
            out.append(" (");
            push_decimal(&mut out, self.refresh_hz);
            out.append("Hz)");
        }
        assert(out@ =~= label_text(*self));
        out
    }
}

/// The menu list of a raw enumeration: duplicates collapsed, ordered by width,
/// then height, then refresh rate.
pub fn normalize(modes: Vec<DisplayMode>) -> (r: Vec<DisplayMode>)
    ensures
        crate::order::strictly_ascending(r@),
        forall|m: DisplayMode| #[trigger] r@.contains(m) <==> modes@.contains(m),
{
    let all: Vec<DisplayMode> = sorted(&modes);
    let mut out: Vec<DisplayMode> = Vec::new();
    let mut i: usize = 0;
    while i < all.len()
        invariant
            i <= all.len(),
            crate::order::ascending(all@),
            crate::order::strictly_ascending(out@),
            out.len() == 0 <==> i == 0,
            i > 0 ==> out@.last() == all@[i - 1],
            forall|k: int| 0 <= k < i ==> out@.contains(#[trigger] all@[k]),
            forall|k: int| 0 <= k < out.len() ==> all@.contains(#[trigger] out@[k]),
        decreases all.len() - i,
    {
        let m: DisplayMode = all[i];
        let ghost was = out@;
        if out.len() == 0 || out[out.len() - 1] != m {
            proof {
                assert forall|k: int| 0 <= k < was.len() implies DisplayMode::ranks(
                    #[trigger] was[k],
                    m,
                ) && was[k] != m by {
                    let last = was[was.len() - 1];
                    assert(last == all@[i - 1]);
                    assert(DisplayMode::ranks(all@[i - 1], all@[i as int]));
                    if k < was.len() - 1 {
                        assert(DisplayMode::ranks(was[k], last));
                    }
                }
            }
            out.push(m);
            proof {
                assert(out@[out@.len() - 1] == m);
                assert forall|k: int| 0 <= k < i + 1 implies out@.contains(#[trigger] all@[k]) by {
                    if k < i {
                        let j = choose|j: int| 0 <= j < was.len() && was[j] == all@[k];
                        assert(out@[j] == all@[k]);
                    }
                }
                assert(all@.contains(m));
            }
        } else {
            assert(out@.contains(all@[i as int]));
        }
        i = i + 1;
    }
    proof {
        assert forall|m: DisplayMode| #[trigger] out@.contains(m) <==> modes@.contains(m) by {
            if modes@.contains(m) {
                assert(all@.contains(m));
            }
            if out@.contains(m) {
                assert(all@.contains(m));
            }
        }
    }
    out
}

/// The distance between two numbers.
pub open spec fn gap(a: int, b: int) -> int {
    if a <= b {
        b - a
    } else {
        a - b
    }
}

fn rate_gap(a: u32, b: u32) -> (r: u32)
    ensures
        r == gap(a as int, b as int),
{
    if a <= b {
        b - a
    } else {
        a - b
    }
}

/// Two modes have the same pixel dimensions.
pub open spec fn same_size(a: DisplayMode, b: DisplayMode) -> bool {
    a.width == b.width && a.height == b.height
}

/// The pixel count of a mode.
pub open spec fn pixels(m: DisplayMode) -> int {
    m.width * m.height
}

fn pixel_count(m: DisplayMode) -> (r: u64)
    ensures
        r == pixels(m),
{
    assert(m.width * m.height <= 0xffff_ffff * 0xffff_ffff) by (nonlinear_arith)
        requires
            m.width <= 0xffff_ffff,
            m.height <= 0xffff_ffff,
    ;
    (m.width as u64) * (m.height as u64)
}

fn pixel_gap(a: u64, b: u64) -> (r: u64)
    ensures
        r == gap(a as int, b as int),
{
    if a <= b {
        b - a
    } else {
        a - b
    }
}

/// Whether mode `a` is at least as close to `choice` as `b`: by pixel count,
/// then by rate.
pub open spec fn no_farther(a: DisplayMode, b: DisplayMode, choice: DisplayMode) -> bool {
    let pa = gap(pixels(a), pixels(choice));
    let pb = gap(pixels(b), pixels(choice));
    pa < pb || (pa == pb && gap(a.refresh_hz as int, choice.refresh_hz as int) <= gap(
        b.refresh_hz as int,
        choice.refresh_hz as int,
    ))
}

/// Index `r` is the first exact match of `choice`.
pub open spec fn is_first_exact(modes: Seq<DisplayMode>, choice: DisplayMode, r: int) -> bool {
    &&& 0 <= r < modes.len()
    &&& modes[r] == choice
    &&& forall|i: int| 0 <= i < r ==> #[trigger] modes[i] != choice
}

/// Index `r` has the resolution of `choice` and, of all that do, the rate
/// nearest to it; the first one where several are equally near.
pub open spec fn is_nearest_rate(modes: Seq<DisplayMode>, choice: DisplayMode, r: int) -> bool {
    &&& 0 <= r < modes.len()
    &&& same_size(modes[r], choice)
    &&& forall|i: int|
        0 <= i < modes.len() && same_size(#[trigger] modes[i], choice) ==> gap(
            modes[r].refresh_hz as int,
            choice.refresh_hz as int,
        ) <= gap(modes[i].refresh_hz as int, choice.refresh_hz as int)
    &&& forall|i: int|
        0 <= i < r && same_size(#[trigger] modes[i], choice) ==> gap(
            modes[r].refresh_hz as int,
            choice.refresh_hz as int,
        ) < gap(modes[i].refresh_hz as int, choice.refresh_hz as int)
}

/// Index `r` is closest to `choice` by pixel count, then rate; the first one
/// where several are equally close.
pub open spec fn is_nearest_mode(modes: Seq<DisplayMode>, choice: DisplayMode, r: int) -> bool {
    &&& 0 <= r < modes.len()
    &&& forall|i: int|
        0 <= i < modes.len() ==> no_farther(modes[r], #[trigger] modes[i], choice)
    &&& forall|i: int| 0 <= i < r ==> !no_farther(#[trigger] modes[i], modes[r], choice)
}

/// The list index of a choice: the exact mode if it is listed, else the nearest
/// rate of its resolution, else the nearest resolution by pixel count. Zero for
/// an empty list.
pub fn index_of(modes: &[DisplayMode], choice: DisplayMode) -> (r: usize)
    ensures
        modes@.contains(choice) ==> is_first_exact(modes@, choice, r as int),
        !modes@.contains(choice) && (exists|i: int|
            0 <= i < modes@.len() && same_size(#[trigger] modes@[i], choice)) ==> is_nearest_rate(
            modes@,
            choice,
            r as int,
        ),
        modes@.len() > 0 && (forall|i: int|
            0 <= i < modes@.len() ==> !same_size(#[trigger] modes@[i], choice)) ==> is_nearest_mode(
            modes@,
            choice,
            r as int,
        ),
        modes@.len() == 0 ==> r == 0,
{
    let n: usize = modes.len();
    let mut i: usize = 0;
    while i < n
        invariant
            i <= n,
            n == modes@.len(),
            forall|k: int| 0 <= k < i ==> #[trigger] modes@[k] != choice,
        decreases n - i,
    {
        if modes[i] == choice {
            assert(modes@.contains(modes@[i as int]));
            return i;
        }
        i = i + 1;
    }
    assert(!modes@.contains(choice));
    let mut best: Option<usize> = None;
    let mut i: usize = 0;
    while i < n
        invariant
            i <= n,
            n == modes@.len(),
            best is None ==> forall|k: int|
                0 <= k < i ==> !same_size(#[trigger] modes@[k], choice),
            best matches Some(b) ==> is_nearest_rate(modes@.subrange(0, i as int), choice, b as int),
        decreases n - i,
    {
        let m: DisplayMode = modes[i];
        if m.width == choice.width && m.height == choice.height {
            let better: bool = match best {
                None => true,
                Some(b) => rate_gap(m.refresh_hz, choice.refresh_hz) < rate_gap(
                    modes[b].refresh_hz,
                    choice.refresh_hz,
                ),
            };
            if better {
                best = Some(i);
            }
        }
        proof {
            let head = modes@.subrange(0, i + 1);
            let was = modes@.subrange(0, i as int);
            assert forall|k: int| 0 <= k < i implies head[k] == #[trigger] was[k] by {}
            assert(head[i as int] == m);
            assert forall|k: int| 0 <= k < i implies was[k] == #[trigger] head[k] by {}
        }
        i = i + 1;
    }
    match best {
        Some(b) => {
            assert(modes@.subrange(0, i as int) =~= modes@);
            return b;
        },
        None => {},
    }
    if n == 0 {
        return 0;
    }
    let want: u64 = pixel_count(choice);
    let mut at: usize = 0;
    let mut i: usize = 1;
    assert forall|k: int| 0 <= k < 1 implies no_farther(
        modes@[0],
        #[trigger] modes@.subrange(0, 1)[k],
        choice,
    ) by {}
    while i < n
        invariant
            1 <= i <= n,
            n == modes@.len(),
            want == pixels(choice),
            is_nearest_mode(modes@.subrange(0, i as int), choice, at as int),
        decreases n - i,
    {
        let m: DisplayMode = modes[i];
        let pm: u64 = pixel_gap(pixel_count(m), want);
        let pb: u64 = pixel_gap(pixel_count(modes[at]), want);
        let ghost was = modes@.subrange(0, i as int);
        let ghost was_at = at as int;
        if pm < pb || (pm == pb && rate_gap(m.refresh_hz, choice.refresh_hz) < rate_gap(
            modes[at].refresh_hz,
            choice.refresh_hz,
        )) {
            at = i;
        }
        proof {
            let head = modes@.subrange(0, i + 1);
            assert(head[i as int] == m);
            assert(was[was_at] == head[was_at]);
            assert forall|k: int| 0 <= k < head.len() implies no_farther(
                head[at as int],
                #[trigger] head[k],
                choice,
            ) by {
                if k < i {
                    assert(head[k] == was[k]);
                }
            }
            assert forall|k: int| 0 <= k < at implies !no_farther(
                #[trigger] head[k],
                head[at as int],
                choice,
            ) by {
                assert(head[k] == was[k]);
            }
        }
        i = i + 1;
    }
    assert(modes@.subrange(0, i as int) =~= modes@);
    at
}

/// Index `r` is the first mode of the wanted resolution and rate.
pub open spec fn is_first_native(modes: Seq<DisplayMode>, want: DisplayMode, r: int) -> bool {
    &&& want.refresh_hz != 0
    &&& is_first_exact(modes, want, r)
}

/// Index `r` has the highest rate of the wanted resolution, the first one where
/// several have it.
pub open spec fn is_highest_rate(modes: Seq<DisplayMode>, want: DisplayMode, r: int) -> bool {
    &&& 0 <= r < modes.len()
    &&& same_size(modes[r], want)
    &&& forall|i: int|
        0 <= i < modes.len() && same_size(#[trigger] modes[i], want) ==> modes[i].refresh_hz
            <= modes[r].refresh_hz
    &&& forall|i: int|
        0 <= i < r && same_size(#[trigger] modes[i], want) ==> modes[i].refresh_hz
            < modes[r].refresh_hz
}

/// The index of the native mode to apply: the exact match of a known rate, else
/// the highest rate of the resolution; `None` where no mode has it.
pub fn best_native_index(modes: &[DisplayMode], want: DisplayMode) -> (r: Option<usize>)
    ensures
        want.refresh_hz != 0 && modes@.contains(want) ==> (r matches Some(i) && is_first_native(
            modes@,
            want,
            i as int,
        )),
        !(want.refresh_hz != 0 && modes@.contains(want)) ==> match r {
            Some(i) => is_highest_rate(modes@, want, i as int),
            None => forall|i: int|
                0 <= i < modes@.len() ==> !same_size(#[trigger] modes@[i], want),
        },
{
    let n: usize = modes.len();
    let mut best: Option<usize> = None;
    let mut i: usize = 0;
    while i < n
        invariant
            i <= n,
            n == modes@.len(),
            want.refresh_hz != 0 ==> forall|k: int| 0 <= k < i ==> #[trigger] modes@[k] != want,
            best is None ==> forall|k: int| 0 <= k < i ==> !same_size(#[trigger] modes@[k], want),
            best matches Some(b) ==> is_highest_rate(modes@.subrange(0, i as int), want, b as int),
        decreases n - i,
    {
        let m: DisplayMode = modes[i];
        if m.width == want.width && m.height == want.height {
            if want.refresh_hz != 0 && m.refresh_hz == want.refresh_hz {
                assert(m == want);
                assert(modes@.contains(modes@[i as int]));
                return Some(i);
            }
            let better: bool = match best {
                None => true,
                Some(b) => m.refresh_hz > modes[b].refresh_hz,
            };
            if better {
                best = Some(i);
            }
        }
        proof {
            let head = modes@.subrange(0, i + 1);
            let was = modes@.subrange(0, i as int);
            assert forall|k: int| 0 <= k < i implies head[k] == #[trigger] was[k] by {}
            assert forall|k: int| 0 <= k < i implies was[k] == #[trigger] head[k] by {}
            assert(head[i as int] == m);
        }
        i = i + 1;
    }
    assert(modes@.subrange(0, i as int) =~= modes@);
    best
}

/// The presets used where the display cannot be enumerated.
pub open spec fn preset_modes() -> Seq<DisplayMode> {
    seq![
        DisplayMode { width: 1280, height: 720, refresh_hz: 0 },
        DisplayMode { width: 1600, height: 900, refresh_hz: 0 },
        DisplayMode { width: 1920, height: 1080, refresh_hz: 0 },
        DisplayMode { width: 2560, height: 1440, refresh_hz: 0 },
    ]
}

/// Common resolutions with no rate.
pub fn fallback_modes() -> (r: Vec<DisplayMode>)
    ensures
        r@ == preset_modes(),
{
    let mut out: Vec<DisplayMode> = Vec::new();
    out.push(DisplayMode { width: 1280, height: 720, refresh_hz: 0 });
    out.push(DisplayMode { width: 1600, height: 900, refresh_hz: 0 });
    out.push(DisplayMode { width: 1920, height: 1080, refresh_hz: 0 });
    out.push(DisplayMode { width: 2560, height: 1440, refresh_hz: 0 });
    assert(out@ =~= preset_modes());
    out
}

/// A list in menu form is left alone by [`normalize`], whatever list of the same
/// modes comes out of it.
pub proof fn law_normalize_idempotent(list: Seq<DisplayMode>, again: Seq<DisplayMode>)
    requires
        crate::order::strictly_ascending(list),
        crate::order::strictly_ascending(again),
        forall|m: DisplayMode| #[trigger] again.contains(m) <==> list.contains(m),
    ensures
        again == list,
{
    crate::order::lemma_strictly_ascending_unique(again, list);
}

/// The presets are already in menu form.
pub proof fn law_presets_are_normalized()
    ensures
        crate::order::strictly_ascending(preset_modes()),
{
}

/// In a list in menu form an exact choice is found at its own index.
pub proof fn law_index_of_inverts_lookup(list: Seq<DisplayMode>, i: int, r: int)
    requires
        crate::order::strictly_ascending(list),
        0 <= i < list.len(),
        is_first_exact(list, list[i], r),
    ensures
        r == i,
{
    if r < i {
        assert(DisplayMode::ranks(list[r], list[i]));
    }
    if i < r {
        assert(list[i] != list[i]);
    }
}

/// The option text reads width, a cross, height, and the rate in brackets where it is known.
pub proof fn law_label_reads_size_and_rate(m: DisplayMode)
    ensures
        m.refresh_hz == 0 ==> label_text(m) == crate::text::decimal(m.width as nat) + seq![
            ' ',
            'x',
            ' ',
        ] + crate::text::decimal(m.height as nat),
        m.refresh_hz != 0 ==> label_text(m) == crate::text::decimal(m.width as nat) + seq![
            ' ',
            'x',
            ' ',
        ] + crate::text::decimal(m.height as nat) + seq![' ', '('] + crate::text::decimal(
            m.refresh_hz as nat,
        ) + seq!['H', 'z', ')'],
{
    reveal_strlit(" x ");
    reveal_strlit(" (");
    reveal_strlit("Hz)");
    assert(" x "@ =~= seq![' ', 'x', ' ']);
    assert(" ("@ =~= seq![' ', '(']);
    assert("Hz)"@ =~= seq!['H', 'z', ')']);
}

/// In menu form a mode stands before every wider one, before every taller one of its width,
/// and before every faster one of its size.
pub proof fn law_menu_goes_by_width_height_rate(list: Seq<DisplayMode>, i: int, j: int)
    requires
        crate::order::strictly_ascending(list),
        0 <= i < list.len(),
        0 <= j < list.len(),
    ensures
        list[i].width < list[j].width ==> i < j,
        list[i].width == list[j].width && list[i].height < list[j].height ==> i < j,
        list[i].width == list[j].width && list[i].height == list[j].height && list[i].refresh_hz
            < list[j].refresh_hz ==> i < j,
        i != j ==> list[i] != list[j],
{
    if j < i {
        assert(DisplayMode::ranks(list[j], list[i]));
    }
    if i < j {
        assert(DisplayMode::ranks(list[i], list[j]));
    }
}

/// Where the choice's size is listed at another rate, the rate that is found is no farther
/// from the chosen one than any other of that size, above or below.
pub proof fn law_nearest_rate_is_nearest(
    modes: Seq<DisplayMode>,
    choice: DisplayMode,
    r: int,
    i: int,
)
    requires
        is_nearest_rate(modes, choice, r),
        0 <= i < modes.len(),
        modes[i].width == choice.width,
        modes[i].height == choice.height,
    ensures
        modes[r].width == choice.width,
        modes[r].height == choice.height,
        ({
            let off = modes[r].refresh_hz - choice.refresh_hz;
            let other = modes[i].refresh_hz - choice.refresh_hz;
            &&& off <= other || off <= -other
            &&& -off <= other || -off <= -other
            &&& i < r ==> off != other && off != -other
        }),
{
    assert(same_size(modes[i], choice));
}

/// Where the choice's size is not listed, the mode that is found has a number of pixels no
/// farther from the chosen one than any other's, above or below.
pub proof fn law_nearest_mode_is_nearest(
    modes: Seq<DisplayMode>,
    choice: DisplayMode,
    r: int,
    i: int,
)
    requires
        is_nearest_mode(modes, choice, r),
        0 <= i < modes.len(),
    ensures
        ({
            let off = modes[r].width * modes[r].height - choice.width * choice.height;
            let other = modes[i].width * modes[i].height - choice.width * choice.height;
            let rate = modes[r].refresh_hz - choice.refresh_hz;
            let rate_other = modes[i].refresh_hz - choice.refresh_hz;
            &&& off <= other || off <= -other
            &&& -off <= other || -off <= -other
            &&& off == other || off == -other ==> (rate <= rate_other || rate <= -rate_other) && (
            -rate <= rate_other || -rate <= -rate_other)
            &&& i < r && (off == other || off == -other) ==> rate != rate_other && rate
                != -rate_other
        }),
{
    assert(no_farther(modes[r], modes[i], choice));
    if i < r {
        assert(!no_farther(modes[i], modes[r], choice));
    }
}

/// The native mode has the wanted size, and no mode of that size is faster, or as fast and
/// listed before it.
pub proof fn law_native_mode_is_fastest(
    modes: Seq<DisplayMode>,
    want: DisplayMode,
    r: int,
    i: int,
)
    requires
        is_highest_rate(modes, want, r),
        0 <= i < modes.len(),
        modes[i].width == want.width,
        modes[i].height == want.height,
    ensures
        modes[r].width == want.width,
        modes[r].height == want.height,
        modes[i].refresh_hz <= modes[r].refresh_hz,
        i < r ==> modes[i].refresh_hz < modes[r].refresh_hz,
{
    assert(same_size(modes[i], want));
}

/// The presets are the four common sizes in the shape of sixteen to nine, from 720 lines to
/// 1440, with no rate.
pub proof fn law_presets_are_wide(i: int)
    requires
        0 <= i < preset_modes().len(),
    ensures
        preset_modes().len() == 4,
        preset_modes()[i].width * 9 == preset_modes()[i].height * 16,
        preset_modes()[i].refresh_hz == 0,
        preset_modes()[0].height == 720,
        preset_modes()[1].height == 900,
        preset_modes()[2].height == 1080,
        preset_modes()[3].height == 1440,
{
}

} // verus!
