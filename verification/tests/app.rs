use crabwalk::app::{
    input_rect, press_action, reaction_animation, replay_lines, replay_log, surface_rect,
    variant_change, variant_for_row, Button, Layout, Mode, PressAction, VariantChange,
    DEMO_PERIOD_NS, REPLAY_PERIOD_NS,
};
use crabwalk::config::Reactions;
use crabwalk::geom::IRect;
use crabwalk::menu::LOCK_INDEX;
use crabwalk::sprites::Manifest;
use crabwalk::tracker::Reaction;

#[test]
fn replay_reader_splits_and_trims() {
    let lines = replay_log(b"{\"a\":1}\r\n\n{\"b\":2}\n").unwrap();
    assert_eq!(lines.len(), 2);
    assert_eq!(lines[0], b"{\"a\":1}");
    assert_eq!(lines[1], b"{\"b\":2}");
}

#[test]
fn an_empty_replay_file_is_an_error() {
    assert!(replay_log(b"\n\n").is_none());
    assert!(replay_log(b"").is_none());
    assert!(replay_log(b"\r\n").is_none());
}

#[test]
fn a_last_line_without_newline_is_kept() {
    let lines = replay_lines(b"one\ntwo");
    assert_eq!(lines, vec![b"one".to_vec(), b"two".to_vec()]);
}

#[test]
fn demo_mode_cycles_animations() {
    let names = Manifest::embedded().names();
    let mut mode = Mode::Demo { index: 0, last: None };
    // The first demo tick fires immediately and picks the first animation.
    let first = mode.next_demo(1_000, names.len()).unwrap();
    assert_eq!(names[first], "sleep");
    // Not again until a period has passed.
    assert_eq!(mode.next_demo(1_000 + DEMO_PERIOD_NS - 1, names.len()), None);
    let second = mode.next_demo(1_000 + DEMO_PERIOD_NS, names.len()).unwrap();
    assert_eq!(names[second], "walk");
}

#[test]
fn demo_mode_wraps_after_the_last_animation() {
    let mut mode = Mode::Demo { index: 7, last: None };
    assert_eq!(mode.next_demo(0, 8), Some(7));
    assert_eq!(mode.next_demo(DEMO_PERIOD_NS, 8), Some(0));
}

#[test]
fn replay_mode_feeds_lines_in_turn_and_loops() {
    let lines = replay_lines(b"a\nb\n");
    let mut mode = Mode::Replay { lines, index: 0, last: None };
    assert_eq!(mode.next_replay(0), Some(0));
    assert_eq!(mode.next_replay(REPLAY_PERIOD_NS - 1), None);
    assert_eq!(mode.next_replay(REPLAY_PERIOD_NS), Some(1));
    assert_eq!(mode.next_replay(2 * REPLAY_PERIOD_NS), Some(0));
}

#[test]
fn live_mode_never_fires_a_timer() {
    let mut mode = Mode::Live;
    assert_eq!(mode.next_demo(0, 8), None);
    assert_eq!(mode.next_replay(0), None);
    assert!(matches!(mode, Mode::Live));
}

#[test]
fn the_full_strip_layout_covers_everything() {
    let crab = IRect::new(100, 228, 64, 64);
    let s = surface_rect(Layout::FullStrip, 800, 292, crab, None);
    assert_eq!(s, IRect::new(0, 0, 800, 292));
}

#[test]
fn the_follow_layout_tracks_the_crab_and_stays_small() {
    let crab = IRect::new(100, 228, 64, 64);
    let s = surface_rect(Layout::FollowCrab, 800, 292, crab, None);
    assert_eq!(s, IRect::new(98, 226, 68, 66));
}

#[test]
fn the_follow_layout_grows_to_fit_an_open_menu() {
    let crab = IRect::new(300, 228, 64, 64);
    let small = surface_rect(Layout::FollowCrab, 800, 292, crab, None);
    let panel = IRect::new(227, 60, 210, 160);
    let big = surface_rect(Layout::FollowCrab, 800, 292, crab, Some(panel));
    assert!(big.height > small.height, "menu should enlarge the window");
    assert!(big.width >= 210, "menu should fit horizontally");
    assert_eq!(big, IRect::new(225, 58, 214, 234));
}

#[test]
fn input_rect_is_the_crab_until_the_menu_opens() {
    let crab = IRect::new(100, 228, 64, 64);
    assert_eq!(input_rect(false, 800, 292, crab), crab);
    assert_eq!(input_rect(true, 800, 292, crab), IRect::new(0, 0, 800, 292));
}

#[test]
fn right_clicking_the_crab_opens_the_menu() {
    assert_eq!(
        press_action(false, Button::Right, None, false, true, false),
        PressAction::OpenMenu
    );
}

#[test]
fn left_clicking_the_crab_does_nothing() {
    // A left press on the crab starts a drag, never the menu.
    assert_eq!(
        press_action(false, Button::Left, None, false, true, false),
        PressAction::StartDrag
    );
}

#[test]
fn right_clicking_empty_strip_does_nothing() {
    assert_eq!(
        press_action(false, Button::Right, None, false, false, false),
        PressAction::Ignore
    );
}

#[test]
fn clicking_outside_an_open_menu_dismisses_it() {
    assert_eq!(
        press_action(true, Button::Left, None, false, false, false),
        PressAction::CloseMenu
    );
    assert_eq!(
        press_action(true, Button::Left, None, true, false, false),
        PressAction::Ignore
    );
}

#[test]
fn choosing_a_menu_row_switches_and_closes() {
    assert_eq!(
        press_action(true, Button::Left, Some(1), true, false, false),
        PressAction::ChooseVariant(1)
    );
    assert_eq!(variant_for_row(1), "fancy");
    assert_eq!(variant_change("default", "fancy"), VariantChange::Switch);
}

#[test]
fn a_pinned_crab_cannot_be_dragged() {
    assert_eq!(
        press_action(false, Button::Left, None, false, true, true),
        PressAction::Ignore
    );
    assert_eq!(
        press_action(false, Button::Right, None, false, true, true),
        PressAction::OpenMenu
    );
}

#[test]
fn the_lock_row_toggles_and_persists() {
    assert_eq!(
        press_action(true, Button::Left, Some(LOCK_INDEX), true, false, false),
        PressAction::ToggleLock
    );
    assert_eq!(
        press_action(true, Button::Right, Some(LOCK_INDEX), true, false, true),
        PressAction::ToggleLock
    );
}

#[test]
fn variant_changes_are_checked() {
    assert_eq!(variant_change("fancy", "fancy"), VariantChange::Unchanged);
    assert_eq!(variant_change("default", "neon"), VariantChange::Unknown);
    assert_eq!(variant_change("default", "party"), VariantChange::Switch);
}

#[test]
fn reactions_pick_their_animation() {
    let mut r = Reactions::default();
    assert_eq!(reaction_animation(Reaction::Finished, &r), Some("celebrate"));
    assert_eq!(reaction_animation(Reaction::Errored, &r), Some("tumble"));
    r.finished = false;
    r.error = false;
    assert_eq!(reaction_animation(Reaction::Finished, &r), None);
    assert_eq!(reaction_animation(Reaction::Errored, &r), None);
}

use crabwalk::app::needs_repaint;

#[test]
fn a_static_crab_stops_producing_frames() {
    let s = IRect::new(0, 0, 800, 292);
    let key = (0, 1, 100, 1);
    assert!(!needs_repaint(false, false, s, s, key, Some(key)));
    assert!(needs_repaint(true, false, s, s, key, Some(key)));
    assert!(needs_repaint(false, true, s, s, key, Some(key)));
    assert!(needs_repaint(false, false, s, IRect::new(0, 0, 800, 300), key, Some(key)));
    assert!(needs_repaint(false, false, s, s, key, Some((0, 2, 100, 1))));
    assert!(needs_repaint(false, false, s, s, key, None));
}
