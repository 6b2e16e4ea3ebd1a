use crabwalk::geom::IRect;
use crabwalk::render::clear_rect;

#[test]
fn clearing_zeroes_only_the_clipped_rectangle() {
    // A 4x3 surface, rows 16 bytes apart, every byte set.
    let mut pixels = vec![0xffu8; 16 * 3];
    clear_rect(&mut pixels, 16, 4, 3, IRect::new(-1, 1, 3, 5));
    for row in 0..3 {
        for col in 0..16 {
            let expected = if row >= 1 && col < 8 { 0 } else { 0xff };
            assert_eq!(pixels[row * 16 + col], expected, "row {row} col {col}");
        }
    }
}

#[test]
fn clearing_an_empty_rectangle_changes_nothing() {
    let mut pixels = vec![7u8; 32];
    clear_rect(&mut pixels, 16, 4, 2, IRect::empty());
    assert!(pixels.iter().all(|b| *b == 7));
    clear_rect(&mut pixels, 16, 4, 2, IRect::new(10, 10, 5, 5));
    assert!(pixels.iter().all(|b| *b == 7));
}

#[test]
fn a_short_buffer_keeps_its_unreachable_rows() {
    // Room for one and a half rows only: the second row is left alone.
    let mut pixels = vec![1u8; 24];
    clear_rect(&mut pixels, 16, 4, 2, IRect::new(0, 0, 4, 2));
    assert!(pixels[..16].iter().all(|b| *b == 0));
    assert!(pixels[16..].iter().all(|b| *b == 1));
}

use crabwalk::render::DamageTracker;

#[test]
fn rendering_the_crab_puts_pixels_on_the_surface() {
    let mut d = DamageTracker::new();
    assert!(!d.begin((0, 0)));
    let (draw, damage) = d.place_crab(IRect::new(100, 228, 64, 64), 400, 292);
    assert!(draw);
    assert_eq!(damage, IRect::new(100, 228, 64, 64));
    assert_eq!(d.previous_crab(), IRect::new(100, 228, 64, 64));
}

#[test]
fn damage_covers_both_the_old_and_new_position() {
    let mut d = DamageTracker::new();
    d.place_crab(IRect::new(0, 228, 64, 64), 400, 292);
    let (_, damage) = d.place_crab(IRect::new(120, 228, 64, 64), 400, 292);
    assert!(damage.x <= 0, "damage should start at the old position");
    assert!(damage.right() >= 184, "damage should reach the new position, got {damage:?}");
}

#[test]
fn a_crab_off_the_edge_does_not_panic() {
    let mut d = DamageTracker::new();
    let (draw, damage) = d.place_crab(IRect::new(5000, 228, 64, 64), 400, 292);
    assert!(!draw);
    assert!(damage.is_empty());
    assert!(d.previous_crab().is_empty());
}

#[test]
fn damage_never_escapes_the_surface() {
    let mut d = DamageTracker::new();
    let (_, crab) = d.place_crab(IRect::new(390, 228, 64, 64), 400, 292);
    let menu = d.place_menu(IRect::new(290, 4, 210, 152), 400, 292).unwrap();
    for r in [crab, menu] {
        assert!(r.x >= 0 && r.y >= 0, "{r:?}");
        assert!(r.right() <= 400 && r.bottom() <= 292, "{r:?}");
    }
}

#[test]
fn resize_reallocates_and_forgets_old_positions() {
    let mut d = DamageTracker::new();
    d.place_crab(IRect::new(10, 10, 64, 64), 400, 292);
    d.place_menu(IRect::new(100, 4, 210, 152), 400, 292);
    d.invalidate();
    assert!(d.previous_crab().is_empty());
    assert!(d.previous_menu().is_empty());
}

#[test]
fn scrolling_the_viewport_clears_the_previous_contents() {
    let mut d = DamageTracker::new();
    assert!(d.begin((300, 228)));
    d.place_crab(IRect::new(0, 0, 64, 64), 64, 64);
    assert!(!d.begin((300, 228)), "the same origin is no scroll");
    assert!(!d.previous_crab().is_empty());
    assert!(d.begin((310, 228)));
    assert!(d.previous_crab().is_empty());
}

#[test]
fn the_menu_draws_and_then_erases() {
    let mut d = DamageTracker::new();
    assert_eq!(d.close_menu(400, 292), IRect::empty(), "nothing to erase yet");
    let panel = IRect::new(95, 4, 210, 152);
    assert_eq!(d.place_menu(panel, 400, 292), Some(panel));
    assert_eq!(d.close_menu(400, 292), panel, "closing reports the hole");
    assert!(d.previous_menu().is_empty());
    assert_eq!(d.close_menu(400, 292), IRect::empty());
}

#[test]
fn a_menu_off_the_surface_changes_nothing() {
    let mut d = DamageTracker::new();
    let panel = IRect::new(95, 4, 210, 152);
    d.place_menu(panel, 400, 292);
    assert_eq!(d.place_menu(IRect::new(1000, 4, 210, 152), 400, 292), None);
    assert_eq!(d.previous_menu(), panel);
}

use crabwalk::render::damage_list;

#[test]
fn a_frame_reports_the_crab_then_the_menu_and_drops_empty_damage() {
    let crab = IRect::new(10, 0, 64, 64);
    let menu = IRect::new(100, 0, 120, 80);
    assert_eq!(damage_list(crab, menu), vec![crab, menu]);
    assert_eq!(damage_list(IRect::empty(), menu), vec![menu]);
    assert_eq!(damage_list(crab, IRect::new(5, 5, 0, 3)), vec![crab]);
    assert!(damage_list(IRect::empty(), IRect::empty()).is_empty());
}

#[test]
fn a_frame_of_clipped_placements_stays_on_the_surface() {
    let mut t = DamageTracker::new();
    t.begin((0, 0));
    let (_, crab) = t.place_crab(IRect::new(-30, 50, 64, 64), 200, 80);
    let menu = t.place_menu(IRect::new(150, -10, 120, 80), 200, 80).unwrap();
    for d in damage_list(crab, menu) {
        assert!(!d.is_empty());
        assert!(d.x >= 0 && d.y >= 0 && d.right() <= 200 && d.bottom() <= 80);
    }
    assert_eq!(damage_list(crab, menu).len(), 2);
}
