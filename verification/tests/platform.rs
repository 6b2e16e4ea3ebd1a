use crabwalk::app::Layout;
use crabwalk::geom::IRect;
use crabwalk::app::Button;
use crabwalk::platform::{
    backend_override, button_for_code, configured_size, copy_frame, copy_rgba_to_bgra,
    region_needs_update, scale_changes, Backend, BTN_LEFT, BTN_RIGHT,
};

#[test]
fn the_copy_swaps_red_and_blue() {
    // Terracotta in RGBA must land as BGRA in the shm buffer; alpha stays
    // at byte 3 in both orders.
    let src = [208u8, 106, 75, 255, 0, 0, 0, 0];
    let mut dst = [0u8; 8];
    copy_rgba_to_bgra(&src, &mut dst);
    assert_eq!(dst, [75, 106, 208, 255, 0, 0, 0, 0]);
}

#[test]
fn the_copy_stops_at_the_shorter_buffer() {
    let src = [1u8, 2, 3, 4, 5, 6, 7, 8, 9];
    let mut dst = [0xaau8; 6];
    copy_rgba_to_bgra(&src, &mut dst);
    assert_eq!(dst, [3, 2, 1, 4, 0xaa, 0xaa]);
}

#[test]
fn layouts_match_their_backends() {
    assert_eq!(Backend::LayerShell.layout(), Layout::FullStrip);
    assert_eq!(Backend::Floating.layout(), Layout::FollowCrab);
}

#[test]
fn the_override_names_a_backend() {
    assert_eq!(backend_override("floating"), Some(Backend::Floating));
    assert_eq!(backend_override("layer-shell"), Some(Backend::LayerShell));
    assert_eq!(backend_override("wayland"), None);
    assert_eq!(backend_override(""), None);
}

#[test]
fn the_input_region_moves_only_past_the_threshold() {
    let r = IRect::new(100, 10, 64, 64);
    assert!(region_needs_update(false, r, r), "the first region is always sent");
    assert!(!region_needs_update(true, r, r));
    assert!(!region_needs_update(true, r, IRect::new(103, 12, 64, 64)));
    assert!(region_needs_update(true, r, IRect::new(104, 12, 64, 64)));
    assert!(region_needs_update(true, r, IRect::new(94, 10, 64, 64)));
    assert!(region_needs_update(true, r, IRect::new(100, 10, 65, 64)), "a resize always applies");
}

#[test]
fn a_frame_with_matching_rows_is_copied_whole() {
    let src = [1u8, 2, 3, 4, 5, 6, 7, 8, 9, 10, 11, 12];
    let mut dst = [0u8; 8];
    copy_frame(&src, 4, &mut dst, 4, 2);
    assert_eq!(dst, [3, 2, 1, 4, 7, 6, 5, 8]);
}

#[test]
fn a_frame_with_wider_source_rows_is_copied_row_by_row() {
    // Source rows carry one pixel of padding; the canvas has none.
    let src = [1u8, 2, 3, 4, 0, 0, 0, 0, 5, 6, 7, 8, 0, 0, 0, 0];
    let mut dst = [0xeeu8; 8];
    copy_frame(&src, 8, &mut dst, 4, 2);
    assert_eq!(dst, [3, 2, 1, 4, 7, 6, 5, 8]);
}

#[test]
fn a_row_that_does_not_fit_is_left_alone() {
    let src = [1u8, 2, 3, 4, 0, 0, 0, 0, 5, 6];
    let mut dst = [0xeeu8; 8];
    copy_frame(&src, 8, &mut dst, 4, 2);
    assert_eq!(dst, [3, 2, 1, 4, 0xee, 0xee, 0xee, 0xee]);
}

#[test]
fn pointer_codes_name_their_buttons() {
    assert_eq!(button_for_code(BTN_LEFT), Button::Left);
    assert_eq!(button_for_code(BTN_RIGHT), Button::Right);
    assert_eq!(button_for_code(0x112), Button::Other);
    assert_eq!(BTN_LEFT, 0x110);
}

#[test]
fn a_size_left_to_the_client_is_a_full_hd_output() {
    assert_eq!(configured_size(0, 0), (1920, 1080));
    assert_eq!(configured_size(2560, 0), (2560, 1080));
    assert_eq!(configured_size(0, 1440), (1920, 1440));
    assert_eq!(configured_size(800, 600), (800, 600));
}

#[test]
fn only_a_new_positive_scale_is_taken() {
    assert!(scale_changes(1, 2));
    assert!(!scale_changes(2, 2));
    assert!(!scale_changes(1, 0));
    assert!(!scale_changes(1, -1));
}
