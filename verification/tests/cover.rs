use myx::cover::{choose_protocol, Area, Cover, ProtocolType};
use std::cell::Cell;

fn area(width: u16, height: u16) -> Area {
    Area { x: 1, y: 2, width, height }
}

#[test]
fn detected_protocol_stays() {
    for p in [ProtocolType::Halfblocks, ProtocolType::Sixel, ProtocolType::Kitty, ProtocolType::Iterm2] {
        assert_eq!(choose_protocol(p, None, None), p);
        assert_eq!(choose_protocol(p, Some("xterm"), Some("nonsense")), p);
    }
}

#[test]
fn warp_gets_iterm2_in_place_of_kitty() {
    assert_eq!(choose_protocol(ProtocolType::Kitty, Some("WarpTerminal"), None), ProtocolType::Iterm2);
    assert_eq!(choose_protocol(ProtocolType::Kitty, Some("xWarpTerminaly"), None), ProtocolType::Iterm2);
    assert_eq!(choose_protocol(ProtocolType::Kitty, Some("warpterminal"), None), ProtocolType::Kitty);
    assert_eq!(choose_protocol(ProtocolType::Sixel, Some("WarpTerminal"), None), ProtocolType::Sixel);
}

#[test]
fn asked_for_protocol_wins() {
    for (name, p) in [
        ("kitty", ProtocolType::Kitty),
        ("ITERM2", ProtocolType::Iterm2),
        ("Sixel", ProtocolType::Sixel),
        ("halfBlocks", ProtocolType::Halfblocks),
    ] {
        assert_eq!(choose_protocol(ProtocolType::Kitty, Some("WarpTerminal"), Some(name)), p);
        assert_eq!(choose_protocol(ProtocolType::Sixel, None, Some(name)), p);
    }
    assert_eq!(choose_protocol(ProtocolType::Kitty, Some("WarpTerminal"), Some(" kitty")), ProtocolType::Iterm2);
}

#[test]
fn encodes_only_when_the_size_changes() {
    let calls = Cell::new(0);
    let encode = |_: &u8, img: &u32, a: Area| {
        calls.set(calls.get() + 1);
        Some(format!("{}:{}x{}", img, a.width, a.height))
    };
    let mut cover: Cover<u32, u8, String> = Cover::from_image(7, 0);
    assert_eq!(cover.render(area(4, 3), &encode).cloned(), Some("7:4x3".to_string()));
    assert_eq!(cover.render(area(4, 3), &encode).cloned(), Some("7:4x3".to_string()));
    assert_eq!(calls.get(), 1);
    assert_eq!(cover.render(area(5, 3), &encode).cloned(), Some("7:5x3".to_string()));
    assert_eq!(calls.get(), 2);
    cover.invalidate_cache();
    assert_eq!(cover.render(area(5, 3), &encode).cloned(), Some("7:5x3".to_string()));
    assert_eq!(calls.get(), 3);
    // Moved, not resized.
    let moved = Area { x: 9, y: 0, width: 5, height: 3 };
    assert_eq!(cover.render(moved, &encode).cloned(), Some("7:5x3".to_string()));
    assert_eq!(calls.get(), 3);
    assert!(cover.render(area(5, 4), &encode).is_some());
    assert_eq!(calls.get(), 4);
}

#[test]
fn empty_area_draws_nothing() {
    let mut cover: Cover<u32, u8, String> = Cover::from_image(7, 0);
    for a in [area(0, 3), area(3, 0), area(0, 0)] {
        assert!(cover.render(a, |_: &u8, _: &u32, _: Area| -> Option<String> { panic!("encodes") }).is_none());
    }
}

#[test]
fn served_size_does_not_encode() {
    let mut cover: Cover<u32, u8, String> = Cover::from_image(7, 0);
    assert!(cover.render(area(2, 2), |_: &u8, _: &u32, _: Area| Some("image".to_string())).is_some());
    for a in [area(2, 2), Area { x: 0, y: 0, width: 2, height: 2 }] {
        let drawn = cover.render(a, |_: &u8, _: &u32, _: Area| -> Option<String> { panic!("encodes") });
        assert_eq!(drawn.cloned(), Some("image".to_string()));
    }
}

#[test]
fn failed_encoding_keeps_the_old_image() {
    let mut cover: Cover<u32, u8, String> = Cover::from_image(7, 0);
    let good = |_: &u8, _: &u32, _: Area| Some("image".to_string());
    let bad = |_: &u8, _: &u32, _: Area| -> Option<String> { None };
    assert!(cover.render(area(2, 2), bad).is_none());
    assert!(cover.render(area(2, 2), good).is_some());
    assert!(cover.render(area(3, 3), bad).is_none());
    assert_eq!(cover.render(area(2, 2), bad).cloned(), Some("image".to_string()));
}
