use concinnity_gfx::float_bits::FloatBits;
use concinnity_gfx::keymap::Bindable;
use concinnity_gfx::menu::{
    HitRegion, ScrollPanel, Sprite, TextLabel, apply_capability_gating, cached_row_label,
    cycle_next_key_of, expand_dim_set, init_clip_rects, init_cycle_value_labels,
    init_rebind_rows, init_sliders, menu_active, rebind_key_of, rebind_label, set_label_content,
    set_sprite_x, slider_key_of, slider_of, sync_setting_value_labels, want_ui_cursor,
};
use std::collections::HashSet;

fn bits(x: f32) -> FloatBits {
    FloatBits::new(x.to_bits())
}

fn num(x: FloatBits) -> f32 {
    f32::from_bits(x.bits)
}

// A gated value label pulls in every element of the scroll row that holds
// it (the row's background, name, value, and stepper glyphs), so the whole
// row grays out; unrelated rows are untouched.
#[test]
fn dim_set_expands_a_gated_value_label_to_its_whole_row() {
    let value = 3;
    let gated: HashSet<u32> = [value].into_iter().collect();
    let rows = vec![
        // Row A: bg, name, prev_glyph, value, next_glyph (value is gated).
        vec![1, 2, value, 4, 5],
        // Row B: an unrelated row.
        vec![10, 11],
    ];
    let dim = expand_dim_set(&gated, &rows);
    for id in [1, 2, 3, 4, 5] {
        assert!(dim.contains(&id), "row A element {id} should dim");
    }
    assert!(!dim.contains(&10), "an unrelated row stays lit");
    assert!(!dim.contains(&11), "an unrelated row stays lit");
}

// With no scroll rows (a hand-authored menu outside a panel), only the gated
// value label itself dims -- a graceful fallback, not a panic.
#[test]
fn dim_set_without_rows_falls_back_to_the_value_label() {
    let gated: HashSet<u32> = [7].into_iter().collect();
    assert_eq!(expand_dim_set(&gated, &Vec::new()), gated);
}

#[test]
fn actions_name_their_setting() {
    assert_eq!(slider_key_of("setting:exposure:drag"), Some("exposure"));
    assert_eq!(slider_key_of("setting::drag"), None);
    assert_eq!(slider_key_of("setting:exposure:next"), None);
    assert_eq!(slider_key_of("exposure:drag"), None);
    assert_eq!(rebind_key_of("setting:key_jump:rebind"), Some("key_jump"));
    assert_eq!(rebind_key_of("view:toggle:1"), None);
    assert_eq!(cycle_next_key_of("setting:vsync:next"), Some("vsync"));
    assert_eq!(cycle_next_key_of("setting:vsync:prev"), None);
}

fn label(asset_id: u32, content: &str) -> TextLabel {
    TextLabel {
        asset_id,
        content: content.to_string(),
        color: [bits(1.0); 3],
        visible: true,
        view: None,
    }
}

fn sprite(asset_id: u32, x: f32, width: f32) -> Sprite {
    Sprite {
        asset_id,
        x: bits(x),
        width: bits(width),
        tint: [bits(1.0); 4],
        visible: true,
        follow_cursor: false,
        view: None,
    }
}

fn region(action: &str, label: Option<u32>, drag_handle: Option<u32>) -> HitRegion {
    HitRegion {
        action: action.to_string(),
        label,
        drag_handle,
        x: bits(100.0),
        width: bits(50.0),
        disabled: false,
    }
}

#[test]
fn only_the_first_label_with_an_id_is_rewritten() {
    let mut labels = vec![label(1, "a"), label(2, "b"), label(2, "c")];
    set_label_content(&mut labels, 2, "new");
    let now: Vec<&str> = labels.iter().map(|l| l.content.as_str()).collect();
    assert_eq!(now, ["a", "new", "c"]);
    set_label_content(&mut labels, 9, "lost");
    assert_eq!(labels[0].content, "a");

    let mut sprites = vec![sprite(4, 0.0, 8.0), sprite(4, 1.0, 8.0)];
    set_sprite_x(&mut sprites, 4, bits(7.5));
    assert_eq!((num(sprites[0].x), num(sprites[1].x)), (7.5, 1.0));
}

#[test]
fn rows_are_found_by_their_regions() {
    let regions = vec![
        region("setting:exposure:drag", Some(10), Some(11)),
        region("setting:vsync:next", Some(12), None),
        region("setting:vsync:prev", Some(12), None),
        region("setting:key_jump:rebind", Some(13), None),
        region("setting:key_nope:rebind", Some(14), None),
        region("setting:vignette:drag", None, Some(11)),
    ];
    let sliders = init_sliders(&regions, &vec![sprite(11, 0.0, 8.0)]);
    assert_eq!(sliders.len(), 1);
    assert_eq!(sliders[0].key, "exposure");
    assert_eq!((sliders[0].handle_id, sliders[0].value_id), (11, 10));
    assert_eq!(num(sliders[0].track_x), 100.0);
    assert_eq!(num(sliders[0].track_w), 50.0);
    assert_eq!(num(sliders[0].handle_w), 8.0);
    assert_eq!(slider_of(&sliders, "exposure"), Some(0));
    assert_eq!(slider_of(&sliders, "vignette"), None);

    let rebinds = init_rebind_rows(&regions);
    assert_eq!(rebinds.len(), 1);
    assert_eq!(rebind_label(&rebinds, Bindable::Jump), Some(13));
    assert_eq!(rebind_label(&rebinds, Bindable::Left), None);

    let cycles = init_cycle_value_labels(&regions);
    assert_eq!(cached_row_label(&cycles, "vsync"), Some(12));
    assert_eq!(cached_row_label(&cycles, "exposure"), None);
}

#[test]
fn value_labels_show_the_live_setting() {
    let regions = vec![region("setting:vsync:next", Some(2), None)];
    let mut labels = vec![label(1, "name"), label(2, "?")];
    let table = vec![("vsync".to_string(), "On".to_string())];
    sync_setting_value_labels(&regions, &mut labels, &table);
    assert_eq!(labels[0].content, "name");
    assert_eq!(labels[1].content, "On");
}

#[test]
fn an_unavailable_row_is_grayed_and_inert() {
    let mut regions = vec![
        region("setting:ray_traced_reflections:next", Some(3), None),
        region("setting:vsync:next", Some(10), None),
    ];
    let mut labels = vec![label(2, "RT"), label(3, "Off"), label(10, "On")];
    let panels = vec![ScrollPanel { band: [bits(0.0); 4], rows: vec![vec![2, 3], vec![10]] }];
    let gray = [bits(0.42), bits(0.42), bits(0.47)];
    apply_capability_gating(
        &mut regions,
        &mut labels,
        &panels,
        &vec!["ray_traced_reflections".to_string()],
        gray,
    );
    assert!(regions[0].disabled);
    assert!(!regions[1].disabled);
    assert_eq!(labels[0].color, gray);
    assert_eq!(labels[1].color, gray);
    assert_eq!(labels[2].color.map(num), [1.0; 3]);
}

#[test]
fn scrolling_rows_are_clipped_to_their_panel() {
    let band = [bits(1.0), bits(2.0), bits(3.0), bits(4.0)];
    let rects = init_clip_rects(&vec![ScrollPanel { band, rows: vec![vec![5], vec![6, 7]] }]);
    assert_eq!(rects.len(), 3);
    assert_eq!(rects[&6], band);
}

#[test]
fn a_menu_is_open_while_an_owned_element_shows() {
    let mut owned = label(1, "Resume");
    owned.view = Some(50);
    assert!(!menu_active(&vec![label(2, "hud")], &vec![sprite(3, 0.0, 1.0)]));
    owned.visible = false;
    assert!(!menu_active(&vec![owned], &Vec::new()));
    let mut backdrop = sprite(4, 0.0, 1.0);
    backdrop.view = Some(50);
    assert!(menu_active(&Vec::new(), &vec![backdrop]));
}

#[test]
fn a_shown_cursor_sprite_hides_the_system_cursor() {
    let mut s = sprite(1, 0.0, 1.0);
    assert!(!want_ui_cursor(&vec![s]));
    s.follow_cursor = true;
    assert!(want_ui_cursor(&vec![s]));
    s.tint[3] = bits(0.0);
    assert!(!want_ui_cursor(&vec![s]));
}
