//! Pacing frames under a cap on their rate, and under a lower one while a menu is open.

use vstd::prelude::*;

verus! {

/// The nanoseconds of a second.
pub const SECOND: u64 = 1_000_000_000;

/// The cap of a frame: the lower of the two while a menu is open, and the own one
/// otherwise. Zero is no cap.
pub open spec fn cap_in_force(fps_cap: u32, menu_open: bool, menu_cap: u32) -> u32 {
    if menu_open && menu_cap != 0 && (fps_cap == 0 || menu_cap < fps_cap) {
        menu_cap
    } else {
        fps_cap
    }
}

/// The least time between two frames under a cap, rounded up.
pub open spec fn frame_period(cap: u32) -> int
    recommends
        cap > 0,
{
    (SECOND + cap - 1) / cap as int
}

/// When a frame starts: at once, or where it is early at its deadline.
pub open spec fn frame_start(deadline: Option<u64>, now: u64, cap: u32) -> u64 {
    match deadline {
        Some(d) => if cap != 0 && now < d {
            d
        } else {
            now
        },
        None => now,
    }
}

/// The deadline of the frame after one: a period later, and none without a cap.
pub open spec fn next_deadline(start: u64, cap: u32) -> Option<u64> {
    if cap == 0 {
        None
    } else if start + frame_period(cap) > u64::MAX {
        Some(u64::MAX)
    } else {
        Some((start + frame_period(cap)) as u64)
    }
}

/// How long a frame waits, and the deadline of the next one.
#[derive(Debug, Clone, Copy, PartialEq, Eq, Structural)]
pub struct Pace {
    pub wait: u64,
    pub deadline: Option<u64>,
}

/// Pace a frame. Times are in nanoseconds.
pub fn pace(
    deadline: Option<u64>,
    now: u64,
    fps_cap: u32,
    menu_open: bool,
    menu_cap: u32,
) -> (r: Pace)
    ensures
        ({
            let cap = cap_in_force(fps_cap, menu_open, menu_cap);
            let start = frame_start(deadline, now, cap);
            r.wait == start - now && r.deadline == next_deadline(start, cap)
        }),
{
    let cap: u32 = if menu_open && menu_cap != 0 && (fps_cap == 0 || menu_cap < fps_cap) {
        menu_cap
    } else {
        fps_cap
    };
    if cap == 0 {
        return Pace { wait: 0, deadline: None };
    }
    let start: u64 = match deadline {
        Some(d) => if now < d {
            d
        } else {
            now
        },
        None => now,
    };
    let period: u64 = (SECOND + cap as u64 - 1) / cap as u64;
    let deadline: u64 = if start > u64::MAX - period {
        u64::MAX
    } else {
        start + period
    };
    Pace { wait: start - now, deadline: Some(deadline) }
}

/// A cap holds: a frame that begins after one that was paced starts at least a period
/// behind it, and as many periods as the cap allows frames fill a second.
pub proof fn law_pacer_keeps_the_cap(
    deadline: Option<u64>,
    now: u64,
    later: u64,
    cap: u32,
)
    requires
        cap > 0,
        frame_start(deadline, now, cap) + frame_period(cap) <= u64::MAX,
    ensures
        frame_start(next_deadline(frame_start(deadline, now, cap), cap), later, cap)
            >= frame_start(deadline, now, cap) + frame_period(cap),
        frame_period(cap) * cap >= SECOND,
{
    let total = SECOND + cap - 1;
    assert(total == cap * (total / cap as int) + total % cap as int) by {
        vstd::arithmetic::div_mod::lemma_fundamental_div_mod(total, cap as int);
    }
    assert(0 <= total % cap as int && total % cap as int <= cap - 1) by {
        vstd::arithmetic::div_mod::lemma_mod_bound(total, cap as int);
    }
    assert(frame_period(cap) * cap == cap * (total / cap as int)) by (nonlinear_arith)
        requires
            frame_period(cap) == total / cap as int,
    ;
}

/// A late frame does not wait, and lost time is not made up for by frames that come
/// faster.
pub proof fn law_late_frames_do_not_wait(deadline: Option<u64>, now: u64, cap: u32)
    requires
        deadline matches Some(d) ==> d <= now,
    ensures
        frame_start(deadline, now, cap) == now,
{
}

/// While a menu is open no cap in force is above the menu's, nor above the own one.
pub proof fn law_menu_lowers_the_cap(fps_cap: u32, menu_cap: u32)
    requires
        menu_cap > 0,
    ensures
        0 < cap_in_force(fps_cap, true, menu_cap) <= menu_cap,
        fps_cap > 0 ==> cap_in_force(fps_cap, true, menu_cap) <= fps_cap,
        cap_in_force(fps_cap, false, menu_cap) == fps_cap,
{
}

/// A period is no longer than the cap asks for: with a nanosecond less, as many periods as the
/// cap allows frames would not fill a second.
pub proof fn law_period_is_no_longer_than_needed(cap: u32)
    requires
        cap > 0,
    ensures
        (frame_period(cap) - 1) * cap < 1_000_000_000,
{
    let total = SECOND + cap - 1;
    let p = frame_period(cap);
    vstd::arithmetic::div_mod::lemma_fundamental_div_mod(total, cap as int);
    vstd::arithmetic::div_mod::lemma_mod_bound(total, cap as int);
    assert((p - 1) * cap == cap * p - cap) by (nonlinear_arith);
}

/// A frame that is early starts at its deadline, one without a deadline or without a cap
/// starts at once, and without a cap the next one has no deadline.
pub proof fn law_early_frames_wait(d: u64, now: u64, cap: u32)
    ensures
        cap > 0 && now < d ==> frame_start(Some(d), now, cap) == d,
        frame_start(None, now, cap) == now,
        frame_start(Some(d), now, 0) == now,
        next_deadline(now, 0) is None,
        cap > 0 && now + frame_period(cap) <= u64::MAX ==> next_deadline(now, cap) == Some(
            (now + frame_period(cap)) as u64,
        ),
{
}

} // verus!
