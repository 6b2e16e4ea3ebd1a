use crabwalk::config::{
    config_patch, config_rewritable, inbox_dir_for, is_known_variant, label_for, rewritten_config,
    ConfigPatch, CrabConfig, Reactions, SPRITE_VARIANTS,
};
use crabwalk::json::JsonLeaf;
use serde_json::Value;

fn sprite_entry(variant: &str) -> Vec<(String, JsonLeaf)> {
    vec![("sprite".to_string(), JsonLeaf::Text(variant.to_string()))]
}

fn empty_patch() -> ConfigPatch {
    ConfigPatch {
        strip_height: None,
        menu_headroom: None,
        output: None,
        sleep_corner: None,
        bottom_margin: None,
        sprite: None,
        stale_timeout_minutes: None,
        inbox_max_age_minutes: None,
        inbox_max_megabytes: None,
        lock_position: None,
        pinned_lift: None,
        reactions: Vec::new(),
    }
}

#[test]
fn labels_cover_every_variant() {
    for v in SPRITE_VARIANTS {
        assert_ne!(label_for(v), v, "variant {v} has no human-readable label");
    }
}

#[test]
fn labels_name_each_variant() {
    assert_eq!(label_for("fancy"), "Top Hat and Monocle");
    assert_eq!(label_for("party"), "Party Hat");
    assert_eq!(label_for("default"), "Plain");
    assert_eq!(label_for("pirate"), "pirate");
}

#[test]
fn an_empty_file_yields_defaults() {
    assert_eq!(CrabConfig::from_patch(&empty_patch()), CrabConfig::default());
}

#[test]
fn the_defaults() {
    let c = CrabConfig::default();
    assert_eq!(c.strip_height, 72);
    assert_eq!(c.menu_headroom, 220);
    assert_eq!(c.output, "");
    assert_eq!(c.sleep_corner, "right");
    assert_eq!(c.bottom_margin, 0);
    assert_eq!(c.sprite, "default");
    assert_eq!(c.stale_timeout_minutes, 10);
    assert_eq!(c.inbox_max_age_minutes, 60);
    assert_eq!(c.inbox_max_megabytes, 32);
    assert_eq!(c.reactions, Reactions::default());
    assert!(!c.lock_position);
    assert_eq!(c.pinned_lift, 0);
    let r = Reactions::default();
    assert!(r.waiting && r.finished && r.error && r.tool_flavour);
}

#[test]
fn a_patch_sets_every_key() {
    let patch = ConfigPatch {
        strip_height: Some(96),
        menu_headroom: Some(100),
        output: Some("DP-1".to_string()),
        sleep_corner: Some("left".to_string()),
        bottom_margin: Some(48),
        sprite: Some("fancy".to_string()),
        stale_timeout_minutes: Some(5),
        inbox_max_age_minutes: Some(30),
        inbox_max_megabytes: Some(8),
        lock_position: Some(true),
        pinned_lift: Some(40),
        reactions: vec![("waiting".to_string(), Some(false)), ("toolFlavour".to_string(), Some(false))],
    };
    let cfg = CrabConfig::from_patch(&patch);
    assert_eq!(cfg.strip_height, 96);
    assert_eq!(cfg.menu_headroom, 100);
    assert_eq!(cfg.output, "DP-1");
    assert_eq!(cfg.sleep_corner, "left");
    assert_eq!(cfg.bottom_margin, 48);
    assert_eq!(cfg.sprite, "fancy");
    assert_eq!(cfg.stale_timeout_minutes, 5);
    assert_eq!(cfg.inbox_max_age_minutes, 30);
    assert_eq!(cfg.inbox_max_megabytes, 8);
    assert!(cfg.lock_position);
    assert_eq!(cfg.pinned_lift, 40);
    assert!(!cfg.reactions.waiting);
    assert!(!cfg.reactions.tool_flavour);
    // Unmentioned reactions keep their default.
    assert!(cfg.reactions.finished);
    assert!(cfg.reactions.error);
}

#[test]
fn a_patch_is_clamped() {
    let mut patch = empty_patch();
    patch.sleep_corner = Some("middle".to_string());
    patch.sprite = Some("nope".to_string());
    patch.menu_headroom = Some(-5);
    patch.bottom_margin = Some(-9);
    patch.inbox_max_age_minutes = Some(0);
    patch.inbox_max_megabytes = Some(0);
    patch.strip_height = Some(4);
    let cfg = CrabConfig::from_patch(&patch);
    assert_eq!(cfg.sleep_corner, "right");
    assert_eq!(cfg.sprite, "default");
    assert_eq!(cfg.menu_headroom, 0);
    assert_eq!(cfg.bottom_margin, 0);
    assert_eq!(cfg.inbox_max_age_minutes, 60);
    assert_eq!(cfg.inbox_max_megabytes, 32);
    assert_eq!(cfg.strip_height, 72);
}

#[test]
fn edge_values_are_kept() {
    let mut patch = empty_patch();
    patch.strip_height = Some(16);
    patch.inbox_max_age_minutes = Some(1);
    patch.inbox_max_megabytes = Some(1);
    patch.menu_headroom = Some(0);
    patch.stale_timeout_minutes = Some(-3);
    let cfg = CrabConfig::from_patch(&patch);
    assert_eq!(cfg.strip_height, 16);
    assert_eq!(cfg.inbox_max_age_minutes, 1);
    assert_eq!(cfg.inbox_max_megabytes, 1);
    assert_eq!(cfg.menu_headroom, 0);
    // Nothing bounds the stale timeout.
    assert_eq!(cfg.stale_timeout_minutes, -3);
}

#[test]
fn a_non_boolean_reaction_reads_as_on_and_the_last_entry_wins() {
    let mut patch = empty_patch();
    patch.reactions = vec![
        ("error".to_string(), Some(false)),
        ("finished".to_string(), Some(false)),
        ("finished".to_string(), None),
        ("sparkles".to_string(), Some(false)),
    ];
    let cfg = CrabConfig::from_patch(&patch);
    assert!(!cfg.reactions.error);
    assert!(cfg.reactions.finished);
    assert!(cfg.reactions.waiting);
}

#[test]
fn validate_fixes_only_what_is_out_of_range() {
    let mut c = CrabConfig::default();
    c.sprite = "party".to_string();
    c.sleep_corner = "up".to_string();
    c.bottom_margin = 12;
    c.validate();
    assert_eq!(c.sprite, "party");
    assert_eq!(c.sleep_corner, "right");
    assert_eq!(c.bottom_margin, 12);
    let before = c.clone();
    c.validate();
    assert_eq!(c, before, "validating twice changes nothing");
}

#[test]
fn known_variants() {
    for v in SPRITE_VARIANTS {
        assert!(is_known_variant(v));
    }
    assert!(!is_known_variant("Default"));
    assert!(!is_known_variant(""));
}

#[test]
fn a_locked_config_starts_the_crab_pinned() {
    let mut patch = empty_patch();
    patch.lock_position = Some(true);
    let config = CrabConfig::from_patch(&patch);
    assert!(config.lock_position);
    let mut menu = crabwalk::menu::MenuState::new();
    menu.set_locked(config.lock_position);
    assert!(menu.locked());
    assert!(!CrabConfig::from_patch(&empty_patch()).lock_position);
}

#[test]
fn broken_json_yields_defaults() {
    assert_eq!(CrabConfig::from_json(b"{ this is not json"), CrabConfig::default());
    assert!(config_patch(b"{ this is not json").is_none());
}

#[test]
fn non_object_yields_defaults() {
    assert_eq!(CrabConfig::from_json(b"[1, 2, 3]"), CrabConfig::default());
    assert_eq!(CrabConfig::from_json(b""), CrabConfig::default());
}

#[test]
fn reads_every_key() {
    let raw = br#"{
        "stripHeight": 96, "menuHeadroom": 100, "crabScale": 1.5,
        "output": "DP-1", "sleepCorner": "left", "sprite": "fancy", "bottomMargin": 48,
        "staleTimeoutMinutes": 5, "inboxMaxAgeMinutes": 30,
        "inboxMaxMegabytes": 8,
        "reactions": { "waiting": false, "toolFlavour": false }
    }"#;
    let cfg = CrabConfig::from_json(raw);
    assert_eq!(cfg.strip_height, 96);
    assert_eq!(cfg.menu_headroom, 100);
    assert_eq!(cfg.output, "DP-1");
    assert_eq!(cfg.sleep_corner, "left");
    assert_eq!(cfg.bottom_margin, 48);
    assert_eq!(cfg.sprite, "fancy");
    assert_eq!(cfg.stale_timeout_minutes, 5);
    assert_eq!(cfg.inbox_max_age_minutes, 30);
    assert_eq!(cfg.inbox_max_megabytes, 8);
    assert!(!cfg.reactions.waiting);
    assert!(!cfg.reactions.tool_flavour);
    // Unmentioned reactions keep their default.
    assert!(cfg.reactions.finished);
    assert!(cfg.reactions.error);
}

#[test]
fn clamps_out_of_range_values() {
    let raw = br#"{
        "sleepCorner": "middle", "sprite": "nope", "menuHeadroom": -5, "bottomMargin": -9,
        "inboxMaxAgeMinutes": 0, "inboxMaxMegabytes": 0, "stripHeight": 4
    }"#;
    let cfg = CrabConfig::from_json(raw);
    assert_eq!(cfg.sleep_corner, "right");
    assert_eq!(cfg.sprite, "default");
    assert_eq!(cfg.menu_headroom, 0);
    assert_eq!(cfg.bottom_margin, 0);
    assert_eq!(cfg.inbox_max_age_minutes, 60);
    assert_eq!(cfg.inbox_max_megabytes, 32);
    assert_eq!(cfg.strip_height, 72);
}

#[test]
fn numbers_are_truncated_and_wrong_types_ignored() {
    let raw = br#"{"stripHeight": 80.9, "menuHeadroom": "lots", "sprite": 3,
        "lockPosition": true, "pinnedLift": 12, "reactions": {"error": "yes", "finished": false}}"#;
    let cfg = CrabConfig::from_json(raw);
    assert_eq!(cfg.strip_height, 80);
    assert_eq!(cfg.menu_headroom, 220);
    assert_eq!(cfg.sprite, "default");
    assert!(cfg.lock_position);
    assert_eq!(cfg.pinned_lift, 12);
    // A non-boolean reaction reads as on.
    assert!(cfg.reactions.error);
    assert!(!cfg.reactions.finished);
    let patch = config_patch(raw).unwrap();
    assert_eq!(patch.reactions.len(), 2);
}

#[test]
fn only_an_empty_file_or_an_object_is_rewritten() {
    assert!(config_rewritable(b""));
    assert!(config_rewritable(br#"{"stripHeight": 80, "somethingElse": {"a": 1}}"#));
    assert!(!config_rewritable(b"[1,2,3]"));
    assert!(!config_rewritable(b"{ broken"));
}

#[test]
fn save_sprite_preserves_unknown_keys() {
    let raw = br#"{"stripHeight": 80, "somethingElse": {"a": 1}}"#;
    let out = rewritten_config(raw, &sprite_entry("party")).unwrap();
    let obj: Value = serde_json::from_slice(&out).unwrap();
    assert_eq!(obj["sprite"], "party");
    assert_eq!(obj["stripHeight"], 80);
    assert_eq!(obj["somethingElse"]["a"], 1);
}

#[test]
fn save_sprite_creates_a_missing_file() {
    // A missing file reads as no bytes.
    let out = rewritten_config(b"", &sprite_entry("fancy")).unwrap();
    assert_eq!(CrabConfig::from_json(&out).sprite, "fancy");
}

#[test]
fn save_sprite_refuses_to_clobber_a_non_object() {
    assert!(rewritten_config(b"[1,2,3]", &sprite_entry("fancy")).is_none());
}

#[test]
fn a_rewrite_is_pretty_printed_with_a_trailing_newline() {
    let out = rewritten_config(b"", &sprite_entry("party")).unwrap();
    assert_eq!(String::from_utf8(out).unwrap(), "{\n  \"sprite\": \"party\"\n}\n");
}

#[test]
fn a_rewrite_replaces_an_existing_key_and_sets_each_entry() {
    let raw = br#"{"sprite": "fancy", "lockPosition": false}"#;
    let entries = vec![
        ("lockPosition".to_string(), JsonLeaf::Bool(true)),
        ("pinnedLift".to_string(), JsonLeaf::Number(-12)),
        ("sprite".to_string(), JsonLeaf::Text("party".to_string())),
    ];
    let out = rewritten_config(raw, &entries).unwrap();
    let cfg = CrabConfig::from_json(&out);
    assert!(cfg.lock_position);
    assert_eq!(cfg.pinned_lift, -12);
    assert_eq!(cfg.sprite, "party");
    let obj: Value = serde_json::from_slice(&out).unwrap();
    assert_eq!(obj.as_object().unwrap().len(), 3);
}

#[test]
fn a_broken_file_is_not_rewritten() {
    assert!(rewritten_config(b"{ broken", &sprite_entry("party")).is_none());
    assert!(rewritten_config(b"  ", &sprite_entry("party")).is_none());
}

#[test]
fn the_override_names_the_state_directory() {
    let dir = inbox_dir_for(Some("/srv/crab".to_string()), true, Some("/x".to_string()), "/home/u".to_string());
    assert_eq!(dir, "/srv/crab/inbox");
    let dir = inbox_dir_for(Some("/srv/crab/".to_string()), false, None, "/home/u".to_string());
    assert_eq!(dir, "/srv/crab/inbox");
}

#[test]
fn an_empty_override_is_ignored() {
    let dir = inbox_dir_for(Some(String::new()), false, None, "/home/u".to_string());
    assert_eq!(dir, "/home/u/.local/state/crabwalk/inbox");
}

#[test]
fn xdg_state_home_is_used_outside_a_flatpak() {
    let dir = inbox_dir_for(None, false, Some("/state".to_string()), "/home/u".to_string());
    assert_eq!(dir, "/state/crabwalk/inbox");
    let dir = inbox_dir_for(None, false, Some(String::new()), "/home/u".to_string());
    assert_eq!(dir, "/home/u/.local/state/crabwalk/inbox");
}

#[test]
fn xdg_state_home_is_skipped_inside_a_flatpak() {
    let dir = inbox_dir_for(None, true, Some("/sandbox/state".to_string()), "/home/u".to_string());
    assert_eq!(dir, "/home/u/.local/state/crabwalk/inbox");
}

#[test]
fn a_root_home_gets_no_doubled_separator() {
    let dir = inbox_dir_for(None, false, None, "/".to_string());
    assert_eq!(dir, "/.local/state/crabwalk/inbox");
}
