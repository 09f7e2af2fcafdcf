use concinnity_gfx::display_mode::{
    DisplayMode, best_native_index, fallback_modes, index_of, normalize,
};

fn mode(width: u32, height: u32, refresh_hz: u32) -> DisplayMode {
    DisplayMode {
        width,
        height,
        refresh_hz,
    }
}

#[test]
fn label_includes_rate_only_when_known() {
    assert_eq!(mode(2560, 1440, 165).label(), "2560 x 1440 (165Hz)");
    assert_eq!(mode(1920, 1080, 60).label(), "1920 x 1080 (60Hz)");
    assert_eq!(mode(1280, 720, 0).label(), "1280 x 720");
}

#[test]
fn normalize_dedups_and_groups_rates_per_resolution() {
    let raw = vec![
        mode(2560, 1440, 60),
        mode(1024, 768, 120),
        mode(1024, 768, 60),
        mode(2560, 1440, 165),
        mode(1024, 768, 60), // duplicate
        mode(1280, 720, 75),
    ];
    let list = normalize(raw);
    assert_eq!(
        list,
        vec![
            mode(1024, 768, 60),
            mode(1024, 768, 120),
            mode(1280, 720, 75),
            mode(2560, 1440, 60),
            mode(2560, 1440, 165),
        ]
    );
}

#[test]
fn index_of_prefers_exact_then_rate_then_resolution() {
    let list = vec![
        mode(1280, 720, 60),
        mode(1280, 720, 120),
        mode(1920, 1080, 60),
        mode(2560, 1440, 165),
    ];
    // Exact match.
    assert_eq!(index_of(&list, mode(1920, 1080, 60)), 2);
    // Listed resolution, unlisted rate: nearest rate for that resolution.
    assert_eq!(index_of(&list, mode(1280, 720, 144)), 1);
    // A fallback-preset choice (rate 0) lands on the resolution's lowest rate.
    assert_eq!(index_of(&list, mode(1280, 720, 0)), 0);
    // Unlisted resolution: nearest by pixel count (1600x900 sits closer to
    // 1280x720 than to 1920x1080; 2048x1152 closer to 1920x1080).
    assert_eq!(index_of(&list, mode(1600, 900, 60)), 0);
    assert_eq!(index_of(&list, mode(2048, 1152, 60)), 2);
    // Empty list stays total.
    assert_eq!(index_of(&[], mode(1920, 1080, 60)), 0);
}

#[test]
fn best_native_index_snaps_rate_and_rejects_unknown_resolution() {
    let list = vec![
        mode(1280, 720, 60),
        mode(1280, 720, 120),
        mode(1920, 1080, 60),
    ];
    // Exact (resolution, rate) match wins.
    assert_eq!(best_native_index(&list, mode(1280, 720, 120)), Some(1));
    // Unknown wanted rate (0, a fallback preset) takes the resolution's
    // highest rate.
    assert_eq!(best_native_index(&list, mode(1280, 720, 0)), Some(1));
    // A rate the display no longer offers also snaps to the highest.
    assert_eq!(best_native_index(&list, mode(1920, 1080, 144)), Some(2));
    // An unlisted resolution applies nothing (the display is left alone).
    assert_eq!(best_native_index(&list, mode(2560, 1440, 60)), None);
}

#[test]
fn fallback_modes_are_sorted_rate_free_presets() {
    let list = fallback_modes();
    assert_eq!(normalize(list.clone()), list);
    assert!(list.len() > 2, "must expand as a dropdown row");
    assert!(list.iter().all(|m| m.refresh_hz == 0));
    assert!(list.iter().any(|m| (m.width, m.height) == (1920, 1080)));
}
