use crabwalk::sprites::Manifest;

#[test]
fn the_embedded_manifest_has_every_animation() {
    let m = Manifest::embedded();
    assert_eq!(m.frame_width, 64);
    assert_eq!(m.frame_height, 64);
    assert_eq!(
        m.names(),
        vec!["sleep", "walk", "scuttle", "creep", "think", "wave", "celebrate", "tumble"]
    );
}

#[test]
fn lookups_find_rows_and_loops() {
    let m = Manifest::embedded();
    let celebrate = m.get("celebrate").unwrap();
    assert_eq!(celebrate.row, 6);
    assert_eq!(celebrate.frames, 8);
    assert!(!celebrate.looping);
    let sleep = m.get("sleep").unwrap();
    assert_eq!(sleep.fps, 3);
    assert!(sleep.looping);
    assert!(m.get("moonwalk").is_none());
    assert!(m.get("").is_none());
}
