//! The input of a frame, as a backend reports it and as the world reads it.

use crate::float_bits::{FloatBits, zero};
use crate::keymap::Key;
use vstd::prelude::*;

verus! {

/// What a backend has gathered since the last poll.
#[derive(Debug, Clone, Copy)]
pub struct RenderInput {
    pub forward: bool,
    pub backward: bool,
    pub left: bool,
    pub right: bool,
    pub sprint: bool,
    pub interact: bool,
    pub jump: bool,
    pub mouse_dx: FloatBits,
    pub mouse_dy: FloatBits,
    pub scroll_delta: FloatBits,
    pub mouse_x: FloatBits,
    pub mouse_y: FloatBits,
    pub left_click: bool,
    pub left_button_down: bool,
    pub hud_toggle: bool,
    pub escape: bool,
    pub captured_key: Option<Key>,
}

/// No input.
pub open spec fn no_input() -> RenderInput {
    RenderInput {
        forward: false,
        backward: false,
        left: false,
        right: false,
        sprint: false,
        interact: false,
        jump: false,
        mouse_dx: zero(),
        mouse_dy: zero(),
        scroll_delta: zero(),
        mouse_x: zero(),
        mouse_y: zero(),
        left_click: false,
        left_button_down: false,
        hud_toggle: false,
        escape: false,
        captured_key: None,
    }
}

impl Default for RenderInput {
    fn default() -> (r: RenderInput)
        ensures
            r == no_input(),
    {
        let z: FloatBits = FloatBits::new(0);
        RenderInput {
            forward: false,
            backward: false,
            left: false,
            right: false,
            sprint: false,
            interact: false,
            jump: false,
            mouse_dx: z,
            mouse_dy: z,
            scroll_delta: z,
            mouse_x: z,
            mouse_y: z,
            left_click: false,
            left_button_down: false,
            hud_toggle: false,
            escape: false,
            captured_key: None,
        }
    }
}

/// What the systems of the world read: `play` is the input that moves the player, and
/// the rest serves the user interface.
#[derive(Debug, Clone, Copy)]
pub struct FrameInput {
    pub play: Controls,
    pub scroll_delta: FloatBits,
    pub mouse_x: FloatBits,
    pub mouse_y: FloatBits,
    pub left_click: bool,
    pub left_button_down: bool,
    pub viewport: (FloatBits, FloatBits),
    pub hud_toggle: bool,
    pub escape: bool,
    pub captured_key: Option<Key>,
}

/// The input that moves the player.
#[derive(Debug, Clone, Copy, PartialEq, Eq, Structural)]
pub struct Controls {
    pub forward: bool,
    pub backward: bool,
    pub left: bool,
    pub right: bool,
    pub sprint: bool,
    pub interact: bool,
    pub jump: bool,
    pub mouse_dx: FloatBits,
    pub mouse_dy: FloatBits,
}

/// No key pressed and no movement of the mouse.
pub open spec fn idle_controls() -> Controls {
    Controls {
        forward: false,
        backward: false,
        left: false,
        right: false,
        sprint: false,
        interact: false,
        jump: false,
        mouse_dx: zero(),
        mouse_dy: zero(),
    }
}

/// The controls of a poll.
pub open spec fn controls_of(raw: RenderInput) -> Controls {
    Controls {
        forward: raw.forward,
        backward: raw.backward,
        left: raw.left,
        right: raw.right,
        sprint: raw.sprint,
        interact: raw.interact,
        jump: raw.jump,
        mouse_dx: raw.mouse_dx,
        mouse_dy: raw.mouse_dy,
    }
}

/// The input of a frame. While a menu is open the player does not move behind it; the
/// cursor, clicks, scrolling and keys of the menu itself still arrive.
pub fn frame_input(raw: &RenderInput, menu_active: bool, viewport: (FloatBits, FloatBits)) -> (r:
    FrameInput)
    ensures
        r == (FrameInput {
            play: if menu_active {
                idle_controls()
            } else {
                controls_of(*raw)
            },
            scroll_delta: raw.scroll_delta,
            mouse_x: raw.mouse_x,
            mouse_y: raw.mouse_y,
            left_click: raw.left_click,
            left_button_down: raw.left_button_down,
            viewport,
            hud_toggle: raw.hud_toggle,
            escape: raw.escape,
            captured_key: raw.captured_key,
        }),
{
    let gameplay: bool = !menu_active;
    let z: FloatBits = FloatBits::new(0);
    let mouse_dx: FloatBits = if gameplay {
        raw.mouse_dx
    } else {
        z
    };
    let mouse_dy: FloatBits = if gameplay {
        raw.mouse_dy
    } else {
        z
    };
    FrameInput {
        play: Controls {
            forward: raw.forward && gameplay,
            backward: raw.backward && gameplay,
            left: raw.left && gameplay,
            right: raw.right && gameplay,
            sprint: raw.sprint && gameplay,
            interact: raw.interact && gameplay,
            jump: raw.jump && gameplay,
            mouse_dx,
            mouse_dy,
        },
        scroll_delta: raw.scroll_delta,
        mouse_x: raw.mouse_x,
        mouse_y: raw.mouse_y,
        left_click: raw.left_click,
        left_button_down: raw.left_button_down,
        viewport,
        hud_toggle: raw.hud_toggle,
        escape: raw.escape,
        captured_key: raw.captured_key,
    }
}

/// Each control is the key or the movement of its own name, and while a menu is open none
/// of them is.
pub proof fn law_controls_are_their_keys(raw: RenderInput)
    ensures
        controls_of(raw).forward == raw.forward,
        controls_of(raw).backward == raw.backward,
        controls_of(raw).left == raw.left,
        controls_of(raw).right == raw.right,
        controls_of(raw).sprint == raw.sprint,
        controls_of(raw).interact == raw.interact,
        controls_of(raw).jump == raw.jump,
        controls_of(raw).mouse_dx == raw.mouse_dx,
        controls_of(raw).mouse_dy == raw.mouse_dy,
        controls_of(no_input()) == idle_controls(),
        !idle_controls().forward && !idle_controls().backward && !idle_controls().left
            && !idle_controls().right && !idle_controls().sprint && !idle_controls().interact
            && !idle_controls().jump,
        idle_controls().mouse_dx.bits == 0 && idle_controls().mouse_dy.bits == 0,
{
}

} // verus!
