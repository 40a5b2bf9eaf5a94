use myx::reactive::{
    cover_palette, nearest_hue, order_key, theme_from_swatches, usable_palette, Fallbacks, Rgb,
    Status, Surface, Swatch, ERROR_REACH_KEY, INFINITY_KEY, NEGATIVE_INFINITY_KEY,
    SUCCESS_REACH_KEY, VIVID_KEY, WARNING_REACH_KEY,
};

fn gray(n: u8) -> Rgb {
    Rgb { r: n, g: n, b: n }
}

fn surface(n: u8) -> Surface {
    Surface {
        text: gray(n),
        text_muted: gray(n + 1),
        background: gray(n + 2),
        background_panel: gray(n + 3),
        background_element: gray(n + 4),
        border: gray(n + 5),
        border_subtle: gray(n + 6),
        border_dimmest: gray(n + 7),
    }
}

fn key(number: f32) -> i32 {
    order_key(number.to_bits())
}

fn swatch(tone: u8, vibrance: f32, distances: &[f32]) -> Swatch {
    Swatch {
        tone: gray(tone),
        vibrance: key(vibrance),
        distances: distances.iter().map(|d| key(*d)).collect(),
        surface: surface(tone * 10),
        error: key(90.0),
        warning: key(90.0),
        success: key(90.0),
    }
}

fn fallbacks() -> Fallbacks {
    Fallbacks { error: gray(201), warning: gray(202), success: gray(203) }
}

#[test]
fn keys_order_as_total_cmp() {
    let numbers = [
        f32::NEG_INFINITY, -2.5, -1.0e-40, -0.0, 0.0, 1.0e-40, 0.12, 1.0, 180.0, f32::INFINITY,
        f32::NAN, -f32::NAN,
    ];
    for a in numbers {
        for b in numbers {
            assert_eq!(order_key(a.to_bits()).cmp(&order_key(b.to_bits())), a.total_cmp(&b));
        }
    }
    assert_eq!(order_key(0), 0);
    assert_eq!(order_key(0x8000_0000), -1);
    assert_eq!(order_key(u32::MAX), i32::MIN);
}

#[test]
fn roles_follow_vibrance_and_hue() {
    let list = vec![
        swatch(1, 0.2, &[0.0, 50.0, 10.0, 70.0]),
        swatch(2, 0.9, &[50.0, 0.0, 60.0, 120.0]),
        swatch(3, 0.5, &[10.0, 60.0, 0.0, 80.0]),
        swatch(4, 0.1, &[70.0, 120.0, 80.0, 0.0]),
    ];
    let theme = theme_from_swatches(&list, &fallbacks(), "cover");
    assert_eq!(theme.name, "cover");
    assert_eq!(theme.primary, gray(2));
    assert_eq!(theme.info, gray(2));
    assert_eq!(theme.border_active, gray(2));
    // The fourth is farthest but not vivid.
    assert_eq!(theme.accent, gray(3));
    // By vibrance: second, third, first.
    assert_eq!(theme.secondary, gray(1));
    assert_eq!(theme.error, gray(201));
    assert_eq!(theme.warning, gray(202));
    assert_eq!(theme.success, gray(203));
    // The dominant swatch is the first.
    assert_eq!(theme.text, gray(10));
    assert_eq!(theme.text_muted, gray(11));
    assert_eq!(theme.background, gray(12));
    assert_eq!(theme.background_panel, gray(13));
    assert_eq!(theme.background_element, gray(14));
    assert_eq!(theme.border, gray(15));
    assert_eq!(theme.border_subtle, gray(16));
    assert_eq!(theme.border_dimmest, gray(17));
}

#[test]
fn lone_swatch_plays_every_part() {
    let theme = theme_from_swatches(&vec![swatch(5, 0.0, &[0.0])], &fallbacks(), "one");
    assert_eq!(theme.primary, gray(5));
    assert_eq!(theme.accent, gray(5));
    assert_eq!(theme.secondary, gray(5));
}

#[test]
fn ties_go_to_the_first_by_vibrance_and_the_last_by_distance() {
    let list = vec![
        swatch(1, 0.5, &[0.0, 40.0, 40.0]),
        swatch(2, 0.5, &[40.0, 0.0, 0.0]),
        swatch(3, 0.5, &[40.0, 0.0, 0.0]),
    ];
    let theme = theme_from_swatches(&list, &fallbacks(), "ties");
    assert_eq!(theme.primary, gray(1));
    assert_eq!(theme.accent, gray(3));
    assert_eq!(theme.secondary, gray(3));
}

#[test]
fn status_snaps_to_the_nearest_swatch_within_reach() {
    let mut list = vec![
        swatch(1, 0.5, &[0.0, 0.0, 0.0]),
        swatch(2, 0.5, &[0.0, 0.0, 0.0]),
        swatch(3, 0.5, &[0.0, 0.0, 0.0]),
    ];
    list[0].error = key(30.0);
    list[1].error = key(10.0);
    list[2].error = key(10.0);
    list[2].success = key(40.5);
    assert_eq!(nearest_hue(&list, Status::Error), Some(1));
    assert_eq!(nearest_hue(&list, Status::Warning), None);
    assert_eq!(nearest_hue(&list, Status::Success), None);
    let theme = theme_from_swatches(&list, &fallbacks(), "status");
    assert_eq!(theme.error, gray(2));
    assert_eq!(theme.success, gray(203));
}

#[test]
fn limits_are_what_they_are_called() {
    assert_eq!(VIVID_KEY, key(0.12));
    assert_eq!(ERROR_REACH_KEY, key(35.0));
    assert_eq!(WARNING_REACH_KEY, key(30.0));
    assert_eq!(SUCCESS_REACH_KEY, key(40.0));
    assert_eq!(INFINITY_KEY, key(f32::INFINITY));
    assert_eq!(NEGATIVE_INFINITY_KEY, key(f32::NEG_INFINITY));
}

#[test]
fn hue_serves_up_to_its_reach() {
    for (status, limit) in [(Status::Error, 35.0f32), (Status::Warning, 30.0), (Status::Success, 40.0)] {
        for distance in [-1.0f32, -0.0, 0.0, 29.9, 30.0, 35.0, 35.1, 40.0, 40.1, f32::INFINITY,
            f32::NEG_INFINITY, f32::NAN, -f32::NAN] {
            let mut lone = swatch(1, 0.0, &[0.0]);
            match status {
                Status::Error => lone.error = key(distance),
                Status::Warning => lone.warning = key(distance),
                Status::Success => lone.success = key(distance),
            }
            assert_eq!(nearest_hue(&vec![lone], status).is_some(), distance <= limit);
        }
    }
}

#[test]
fn accent_has_to_be_vivid() {
    for vibrance in [0.0f32, 0.12, 0.13, f32::INFINITY, f32::NAN] {
        // The first is more vibrant than any number.
        let mut first = swatch(1, f32::NAN, &[0.0, 9.0]);
        first.vibrance = i32::MAX;
        let list = vec![first, swatch(2, vibrance, &[9.0, 0.0])];
        let theme = theme_from_swatches(&list, &fallbacks(), "vivid");
        assert_eq!(theme.accent, gray(if vibrance > 0.12 { 2 } else { 1 }));
    }
}

#[test]
fn palette_of_an_image() {
    let mut pixels: Vec<u8> = Vec::new();
    for i in 0..3000 {
        if i % 3 == 0 {
            pixels.extend_from_slice(&[200, 16, 16]);
        } else {
            pixels.extend_from_slice(&[16, 16, 200]);
        }
    }
    let direct = color_thief::get_palette(&pixels, color_thief::ColorFormat::Rgb, 10, 8).expect("colors");
    let colors = cover_palette(&pixels).expect("colors");
    assert_eq!(colors.len(), direct.len());
    assert!(colors.len() <= 8);
    for (ours, theirs) in colors.iter().zip(direct.iter()) {
        assert_eq!((ours.r, ours.g, ours.b), (theirs.r, theirs.g, theirs.b));
    }
}

#[test]
fn palette_without_a_color_is_unusable() {
    assert!(usable_palette(None).is_none());
    assert!(usable_palette(Some(vec![])).is_none());
    assert_eq!(usable_palette(Some(vec![gray(4)])), Some(vec![gray(4)]));
}
