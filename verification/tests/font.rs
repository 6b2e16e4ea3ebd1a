use crabwalk::font::{candidates, is_menu_face, sweep_dirs, FontPlatform};

#[test]
fn every_platform_has_candidates_configured() {
    for p in [FontPlatform::Linux, FontPlatform::MacOs, FontPlatform::Windows, FontPlatform::Other] {
        assert!(!candidates(p).is_empty());
        assert!(!sweep_dirs(p).is_empty());
    }
}

#[test]
fn linux_looks_in_the_usual_places_first() {
    assert_eq!(candidates(FontPlatform::Linux)[0], "/usr/share/fonts/noto/NotoSans-Regular.ttf");
    assert_eq!(sweep_dirs(FontPlatform::Linux), vec!["/usr/share/fonts", "/usr/local/share/fonts", "/run/host/fonts"]);
}

#[test]
fn a_regular_face_in_any_case_will_do() {
    assert!(is_menu_face("ttf", "DejaVuSans.ttf"));
    assert!(is_menu_face("OTF", "Cantarell-Regular.OTF"));
    assert!(is_menu_face("TtC", "Helvetica.ttc"));
}

#[test]
fn slanted_heavy_and_fixed_width_faces_are_skipped() {
    assert!(!is_menu_face("ttf", "DejaVuSans-Bold.ttf"));
    assert!(!is_menu_face("ttf", "NotoSans-ITALIC.ttf"));
    assert!(!is_menu_face("ttf", "LiberationMono-Regular.ttf"));
}

#[test]
fn other_files_are_not_fonts() {
    assert!(!is_menu_face("woff2", "Sans.woff2"));
    assert!(!is_menu_face("", "fonts.dir"));
    assert!(!is_menu_face("ttfx", "Sans.ttfx"));
}
