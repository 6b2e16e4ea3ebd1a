use std::path::PathBuf;

use crabwalk::event::{
    event_from_bytes, event_from_json, response_indicates_error, salvage, scan_field, HookEvent,
    SuccessField,
    ToolResponse,
};
use crabwalk::tracker::{classify, EventKind, Reaction, SessionTracker, State};

fn event(id: &str, name: &str) -> HookEvent {
    HookEvent {
        session_id: id.to_string(),
        hook_event_name: name.to_string(),
        tool_name: String::new(),
        tool_response: ToolResponse::Absent,
    }
}

fn tool_event(id: &str, name: &str, tool: &str) -> HookEvent {
    let mut e = event(id, name);
    e.tool_name = tool.to_string();
    e
}

fn tracker() -> SessionTracker {
    SessionTracker::new(PathBuf::from("/nonexistent-inbox"))
}

#[test]
fn starts_idle() {
    let t = tracker();
    assert_eq!(t.aggregate_state(), State::Idle);
    assert_eq!(t.session_count(), 0);
    assert_eq!(t.current_tool(), "");
}

#[test]
fn prompt_starts_working() {
    let mut t = tracker();
    t.handle_event(&event("a", "UserPromptSubmit"), 1000);
    assert_eq!(t.aggregate_state(), State::Working);
    assert_eq!(t.session_count(), 1);
}

#[test]
fn pre_tool_use_records_the_tool() {
    let mut t = tracker();
    t.handle_event(&tool_event("a", "PreToolUse", "Bash"), 1000);
    assert_eq!(t.aggregate_state(), State::Working);
    assert_eq!(t.current_tool(), "Bash");
}

#[test]
fn post_tool_use_clears_the_tool() {
    let mut t = tracker();
    t.handle_event(&tool_event("a", "PreToolUse", "Bash"), 1000);
    t.handle_event(&event("a", "PostToolUse"), 1001);
    assert_eq!(t.aggregate_state(), State::Working);
    assert_eq!(t.current_tool(), "");
}

#[test]
fn stop_returns_to_idle_and_celebrates() {
    let mut t = tracker();
    t.handle_event(&event("a", "UserPromptSubmit"), 1000);
    let r = t.handle_event(&event("a", "Stop"), 1001);
    assert_eq!(t.aggregate_state(), State::Idle);
    assert_eq!(r, vec![Reaction::Finished]);
}

#[test]
fn notification_wins_over_working() {
    let mut t = tracker();
    t.handle_event(&event("a", "UserPromptSubmit"), 1000);
    t.handle_event(&event("b", "Notification"), 1001);
    assert_eq!(t.aggregate_state(), State::WaitingInput);
    // Waiting is not working, so no tool is surfaced.
    assert_eq!(t.current_tool(), "");
}

#[test]
fn newest_working_session_supplies_the_tool() {
    let mut t = tracker();
    t.handle_event(&tool_event("a", "PreToolUse", "Read"), 1000);
    t.handle_event(&tool_event("b", "PreToolUse", "Bash"), 1001);
    assert_eq!(t.current_tool(), "Bash");
    // An older session re-reporting takes the slot back.
    t.handle_event(&tool_event("a", "PreToolUse", "Grep"), 1002);
    assert_eq!(t.current_tool(), "Grep");
}

#[test]
fn session_end_removes_the_session() {
    let mut t = tracker();
    t.handle_event(&event("a", "UserPromptSubmit"), 1000);
    t.handle_event(&event("a", "SessionEnd"), 1001);
    assert_eq!(t.session_count(), 0);
    assert_eq!(t.aggregate_state(), State::Idle);
}

#[test]
fn unknown_events_only_refresh_liveness() {
    let mut t = tracker();
    t.handle_event(&event("a", "UserPromptSubmit"), 1000);
    t.handle_event(&event("a", "PreCompact"), 2000);
    assert_eq!(t.aggregate_state(), State::Working);
    // Liveness moved forward, so the sweep must not retire it.
    t.set_stale_timeout_ms(1500);
    t.sweep_stale(3000);
    assert_eq!(t.session_count(), 1);
}

#[test]
fn events_missing_required_fields_are_ignored() {
    let mut t = tracker();
    let m = event("", "Stop");
    t.handle_event(&m, 1000);
    assert_eq!(t.session_count(), 0);
}

#[test]
fn stale_sessions_are_retired() {
    let mut t = tracker();
    t.set_stale_timeout_ms(1000);
    t.handle_event(&event("a", "UserPromptSubmit"), 1000);
    t.sweep_stale(1500);
    assert_eq!(t.session_count(), 1);
    t.sweep_stale(2500);
    assert_eq!(t.session_count(), 0);
    assert_eq!(t.aggregate_state(), State::Idle);
}

#[test]
fn error_detection_covers_every_response() {
    let cases: [(ToolResponse, bool); 7] = [
        (ToolResponse::Object { success: SuccessField::Flag(false), has_error: false }, true),
        (ToolResponse::Object { success: SuccessField::Flag(true), has_error: false }, false),
        (ToolResponse::Object { success: SuccessField::Absent, has_error: true }, true),
        (ToolResponse::Object { success: SuccessField::Absent, has_error: false }, false),
        (ToolResponse::Text("Error: no such file".to_string()), true),
        (ToolResponse::Text("error: lowercase too".to_string()), true),
        (ToolResponse::Text("all good".to_string()), false),
    ];
    for (response, expected) in cases {
        assert_eq!(response_indicates_error(&response), expected, "for {response:?}");
    }
    assert!(!response_indicates_error(&ToolResponse::Absent));
}

#[test]
fn post_tool_use_error_emits_errored() {
    let mut t = tracker();
    let mut m = event("a", "PostToolUse");
    m.tool_response = ToolResponse::Object { success: SuccessField::Flag(false), has_error: false };
    assert_eq!(t.handle_event(&m, 1000), vec![Reaction::Errored]);
}

#[test]
fn salvage_recovers_a_truncated_payload() {
    let raw = br#"{"session_id":"abc","hook_event_name":"PreToolUse","tool_name":"Bash","tool_input":{"command":"very long comm"#;
    let obj = salvage(raw).expect("should salvage");
    assert_eq!(obj.session_id, "abc");
    assert_eq!(obj.hook_event_name, "PreToolUse");
    assert_eq!(obj.tool_name, "Bash");
}

#[test]
fn salvage_needs_both_required_fields() {
    assert!(salvage(br#"{"tool_name":"Bash"}"#).is_none());
    assert!(salvage(br#"{"session_id":"abc"}"#).is_none());
    assert!(salvage(b"not json at all").is_none());
}

#[test]
fn salvage_takes_the_first_match() {
    // A later tool_input echoing the key must not shadow the real one.
    let raw = br#"{"session_id":"real","hook_event_name":"Stop","tool_input":{"text":"\"session_id\":\"fake\""}}"#;
    let obj = salvage(raw).unwrap();
    assert_eq!(obj.session_id, "real");
}

#[test]
fn salvage_tolerates_whitespace() {
    let raw = br#"{ "session_id"  :  "abc" , "hook_event_name" : "Stop" }"#;
    let obj = salvage(raw).unwrap();
    assert_eq!(obj.session_id, "abc");
    assert_eq!(obj.hook_event_name, "Stop");
}

#[test]
fn dirty_flag_reports_changes_once() {
    let mut t = tracker();
    t.handle_event(&event("a", "UserPromptSubmit"), 1000);
    assert!(t.take_dirty());
    assert!(!t.take_dirty());
    // A repeat of the same state is not a change.
    t.handle_event(&event("a", "UserPromptSubmit"), 1001);
    assert!(!t.take_dirty());
}

#[test]
fn tracker_defaults() {
    let t = tracker();
    assert_eq!(t.inbox_max_bytes(), 32 * 1024 * 1024);
    assert_eq!(t.inbox_max_age_ms(), 60 * 60 * 1000);
    assert_eq!(t.event_sequence(), 0);
    assert_eq!(t.inbox_dir(), &PathBuf::from("/nonexistent-inbox"));
}

#[test]
fn inbox_budget_is_settable() {
    let mut t = tracker();
    t.set_inbox_budget(5, 7);
    assert_eq!(t.inbox_max_bytes(), 5);
    assert_eq!(t.inbox_max_age_ms(), 7);
}

#[test]
fn every_known_event_is_classified() {
    assert_eq!(classify("SessionStart"), EventKind::SessionStart);
    assert_eq!(classify("UserPromptSubmit"), EventKind::UserPromptSubmit);
    assert_eq!(classify("PreToolUse"), EventKind::PreToolUse);
    assert_eq!(classify("PostToolUse"), EventKind::PostToolUse);
    assert_eq!(classify("Notification"), EventKind::Notification);
    assert_eq!(classify("Stop"), EventKind::Stop);
    assert_eq!(classify("SessionEnd"), EventKind::SessionEnd);
    assert_eq!(classify("SubagentStop"), EventKind::Other);
    assert_eq!(classify("stop"), EventKind::Other);
}

#[test]
fn session_start_registers_an_idle_session() {
    let mut t = tracker();
    let r = t.handle_event(&event("a", "SessionStart"), 5);
    assert!(r.is_empty());
    assert_eq!(t.session_count(), 1);
    assert_eq!(t.aggregate_state(), State::Idle);
    // A new session changes the count, which counts as a change.
    assert!(t.take_dirty());
}

#[test]
fn an_unknown_event_registers_without_recomputing() {
    let mut t = tracker();
    t.handle_event(&event("a", "PreCompact"), 5);
    assert_eq!(t.session_count(), 1);
    assert!(!t.take_dirty());
    assert_eq!(t.event_sequence(), 1);
}

#[test]
fn session_end_for_an_unknown_session_is_a_no_op() {
    let mut t = tracker();
    t.handle_event(&event("a", "UserPromptSubmit"), 5);
    t.take_dirty();
    t.handle_event(&event("zz", "SessionEnd"), 6);
    assert_eq!(t.session_count(), 1);
    assert!(!t.take_dirty());
    // SessionEnd does not advance the event sequence.
    assert_eq!(t.event_sequence(), 1);
}

#[test]
fn waiting_then_answered_goes_back_to_working() {
    let mut t = tracker();
    t.handle_event(&event("a", "Notification"), 1);
    assert_eq!(t.aggregate_state(), State::WaitingInput);
    t.handle_event(&tool_event("a", "PreToolUse", "Edit"), 2);
    assert_eq!(t.aggregate_state(), State::Working);
    assert_eq!(t.current_tool(), "Edit");
}

#[test]
fn a_successful_post_tool_use_and_a_text_error() {
    let mut t = tracker();
    let mut ok = event("a", "PostToolUse");
    ok.tool_response = ToolResponse::Object { success: SuccessField::NotBool, has_error: true };
    assert!(t.handle_event(&ok, 1).is_empty());
    let mut bad = event("a", "PostToolUse");
    bad.tool_response = ToolResponse::Text("ERROR happened".to_string());
    assert_eq!(t.handle_event(&bad, 2), vec![Reaction::Errored]);
    let mut short = event("a", "PostToolUse");
    short.tool_response = ToolResponse::Text("Err".to_string());
    assert!(t.handle_event(&short, 3).is_empty());
    let mut other = event("a", "PostToolUse");
    other.tool_response = ToolResponse::Other;
    assert!(t.handle_event(&other, 4).is_empty());
}

#[test]
fn salvage_skips_a_key_with_no_value_and_uses_the_next() {
    let raw = br#"{"session_id" 5, "session_id": "b", "hook_event_name": "Stop", "tool_name": "" }"#;
    let e = salvage(raw).unwrap();
    assert_eq!(e.session_id, "b");
    assert_eq!(e.tool_name, "");
    assert_eq!(e.tool_response, ToolResponse::Absent);
}

#[test]
fn salvage_refuses_empty_values_and_unclosed_strings() {
    assert!(salvage(br#"{"session_id":"","hook_event_name":"Stop"}"#).is_none());
    assert!(salvage(br#"{"session_id":"a","hook_event_name":"Sto"#).is_none());
}

#[test]
fn salvage_reads_through_invalid_bytes() {
    let mut raw = b"\xff\xfe{\"session_id\":\"x\",\"hook_event_name\":\"Stop\"".to_vec();
    raw.push(b'}');
    let e = salvage(&raw).unwrap();
    assert_eq!(e.session_id, "x");
}

#[test]
fn salvage_tolerates_unicode_white_space() {
    let raw = "{\"session_id\"\u{a0}:\u{2003}\"abc\",\"hook_event_name\":\"Stop\"}".as_bytes();
    let e = salvage(raw).unwrap();
    assert_eq!(e.session_id, "abc");
}

#[test]
fn a_key_occurrence_without_a_value_does_not_hide_a_later_match() {
    let text: Vec<char> = r#""k"k":"v""#.chars().collect();
    assert_eq!(scan_field(&text, "k"), Some("v".to_string()));
    let text: Vec<char> = r#""k" "k" : "w""#.chars().collect();
    assert_eq!(scan_field(&text, "k"), Some("w".to_string()));
    let text: Vec<char> = r#""k":x"#.chars().collect();
    assert_eq!(scan_field(&text, "k"), None);
}

#[test]
fn an_unknown_event_does_not_recompute_the_tool() {
    let mut t = tracker();
    t.handle_event(&tool_event("a", "PreToolUse", "Bash"), 1000);
    t.handle_event(&tool_event("b", "PreToolUse", "Edit"), 1001);
    assert_eq!(t.current_tool(), "Edit");
    // "a" is now the session that reported last, but an event the tracker
    // does not know only refreshes its liveness.
    t.handle_event(&event("a", "SubagentStop"), 1002);
    assert_eq!(t.current_tool(), "Edit");
    assert_eq!(t.aggregate_state(), State::Working);
}

fn payload_with_response(response: &str) -> Vec<u8> {
    format!(r#"{{"session_id":"a","hook_event_name":"PostToolUse","tool_response":{response}}}"#)
        .into_bytes()
}

#[test]
fn error_detection_covers_every_shape() {
    let cases: [(&str, bool); 7] = [
        (r#"{"success": false}"#, true),
        (r#"{"success": true}"#, false),
        (r#"{"error": "boom"}"#, true),
        (r#"{"ok": 1}"#, false),
        (r#""Error: no such file""#, true),
        (r#""error: lowercase too""#, true),
        (r#""all good""#, false),
    ];
    for (json, expected) in cases {
        let e = event_from_bytes(&payload_with_response(json)).unwrap();
        assert_eq!(response_indicates_error(&e.tool_response), expected, "for {json}");
    }
    let e = event_from_bytes(br#"{"session_id":"a","hook_event_name":"PostToolUse"}"#).unwrap();
    assert_eq!(e.tool_response, ToolResponse::Absent);
    assert!(!response_indicates_error(&e.tool_response));
}

#[test]
fn a_parsed_payload_reads_its_members() {
    let e = event_from_bytes(
        br#"{"session_id":"s1","hook_event_name":"PreToolUse","tool_name":"Bash","tool_input":{"command":"ls"}}"#,
    )
    .unwrap();
    assert_eq!(e.session_id, "s1");
    assert_eq!(e.hook_event_name, "PreToolUse");
    assert_eq!(e.tool_name, "Bash");
    assert_eq!(e.tool_response, ToolResponse::Absent);
    // A member that is not a string reads as empty.
    let e = event_from_bytes(br#"{"session_id":7,"hook_event_name":"Stop","tool_response":[1]}"#).unwrap();
    assert_eq!(e.session_id, "");
    assert_eq!(e.tool_response, ToolResponse::Other);
    let e = event_from_bytes(br#"{"session_id":"a","hook_event_name":"PostToolUse","tool_response":{"success":"no"}}"#).unwrap();
    assert_eq!(e.tool_response, ToolResponse::Object { success: SuccessField::NotBool, has_error: false });
}

#[test]
fn a_payload_that_is_not_an_object_is_salvaged() {
    let raw = br#"{"session_id":"abc","hook_event_name":"Stop","tool_input":{"command":"cut"#;
    let e = event_from_bytes(raw).unwrap();
    assert_eq!(e.session_id, "abc");
    assert_eq!(e.hook_event_name, "Stop");
    assert!(event_from_json(raw).is_none(), "a replay line is never salvaged");
    assert!(event_from_bytes(b"[1, 2]").is_none());
}

#[test]
fn post_tool_use_error_emits_errored_from_bytes() {
    let mut t = tracker();
    let e = event_from_bytes(&payload_with_response(r#"{"success": false}"#)).unwrap();
    assert_eq!(t.handle_event(&e, 1000), vec![Reaction::Errored]);
}

#[test]
fn a_newer_prompt_hides_an_older_sessions_tool() {
    let mut t = tracker();
    t.handle_event(&tool_event("a", "PreToolUse", "Bash"), 1000);
    t.handle_event(&event("b", "UserPromptSubmit"), 1001);
    assert_eq!(t.aggregate_state(), State::Working);
    assert_eq!(t.current_tool(), "");
    t.handle_event(&tool_event("a", "PreToolUse", "Edit"), 1002);
    assert_eq!(t.current_tool(), "Edit");
    t.handle_event(&event("b", "PostToolUse"), 1003);
    assert_eq!(t.current_tool(), "");
}
