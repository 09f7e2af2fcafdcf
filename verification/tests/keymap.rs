use concinnity_gfx::keymap::{Bindable, Key, KeyMap};

#[test]
fn default_is_wasd_shift_space_e() {
    let m = KeyMap::default();
    assert_eq!(m.forward, Key::W);
    assert_eq!(m.backward, Key::S);
    assert_eq!(m.left, Key::A);
    assert_eq!(m.right, Key::D);
    assert_eq!(m.sprint, Key::Shift);
    assert_eq!(m.jump, Key::Space);
    assert_eq!(m.interact, Key::E);
}

#[test]
fn setting_key_round_trips() {
    for b in Bindable::ALL {
        assert_eq!(Bindable::from_setting_key(b.setting_key()), Some(b));
    }
    assert_eq!(Bindable::from_setting_key("vsync"), None);
    assert_eq!(Bindable::from_setting_key("key_nope"), None);
}

#[test]
fn get_set_round_trip() {
    let mut m = KeyMap::default();
    m.set(Bindable::Forward, Key::Up);
    assert_eq!(m.get(Bindable::Forward), Key::Up);
}

#[test]
fn action_for_key_finds_the_holder() {
    let m = KeyMap::default();
    assert_eq!(m.action_for_key(Key::W), Some(Bindable::Forward));
    assert_eq!(m.action_for_key(Key::Space), Some(Bindable::Jump));
    // A key bound to nothing.
    assert_eq!(m.action_for_key(Key::Q), None);
}

#[test]
fn rebind_to_free_key_just_sets_it() {
    let mut m = KeyMap::default();
    m.rebind(Bindable::Forward, Key::Q);
    assert_eq!(m.forward, Key::Q);
    // The others are untouched.
    assert_eq!(m.backward, Key::S);
}

#[test]
fn rebind_to_own_key_is_a_noop() {
    let mut m = KeyMap::default();
    m.rebind(Bindable::Forward, Key::W);
    assert_eq!(m, KeyMap::default());
}

#[test]
fn rebind_to_occupied_key_swaps() {
    // Bind Forward to S, which Backward holds: they swap, so Backward
    // inherits Forward's old key (W) and every action stays bound.
    let mut m = KeyMap::default();
    m.rebind(Bindable::Forward, Key::S);
    assert_eq!(m.forward, Key::S);
    assert_eq!(m.backward, Key::W);
    // No key is bound twice.
    for b in Bindable::ALL {
        assert_eq!(m.action_for_key(m.get(b)), Some(b));
    }
}
