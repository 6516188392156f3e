use serde_json::Value;
use session_score_plugin::hook::{add_hook, install_hook, HookError, HookPlan};

fn parsed(text: &str) -> Value {
    serde_json::from_str(text).unwrap()
}

fn written(existing: Option<&str>) -> String {
    match install_hook(existing, "/bin/session-score-plugin") {
        Ok(HookPlan::Write { text, command }) => {
            assert_eq!(command, "/bin/session-score-plugin auto-score");
            text
        }
        Ok(HookPlan::AlreadyInstalled) => panic!("it is not installed yet"),
        Err(e) => panic!("{e:?}"),
    }
}

const OURS: &str =
    r#"{"hooks":[{"command":"/bin/session-score-plugin auto-score","type":"command"}],"matcher":""}"#;

#[test]
fn the_hook_is_added_to_new_settings() {
    let expected = parsed(&format!(r#"{{"hooks":{{"Stop":[{OURS}]}}}}"#));
    assert_eq!(parsed(&written(None)), expected);
    assert_eq!(parsed(&written(Some("not json"))), expected);
    assert_eq!(parsed(&written(Some("{}"))), expected);
    assert_eq!(parsed(&written(Some("null"))), expected);
    assert_eq!(parsed(&written(Some(r#"{"hooks":null}"#))), expected);
    assert!(written(None).starts_with("{\n  \"hooks\": {\n    \"Stop\": ["));
}

#[test]
fn installing_keeps_the_other_settings() {
    let text = written(Some(
        r#"{"model":"x","hooks":{"Start":[1],"Stop":[{"hooks":[{"command":"other"}]}, 7]}}"#,
    ));
    let expected = parsed(&format!(
        r#"{{"model":"x","hooks":{{"Start":[1],"Stop":[{{"hooks":[{{"command":"other"}}]}}, 7, {OURS}]}}}}"#
    ));
    assert_eq!(parsed(&text), expected);
}

#[test]
fn installing_twice_changes_nothing() {
    let text = written(Some(r#"{"a":[true,1.5,"x"]}"#));
    assert!(matches!(
        install_hook(Some(&text), "/bin/session-score-plugin"),
        Ok(HookPlan::AlreadyInstalled)
    ));
    // Another binary of the same name counts as installed, too.
    assert!(matches!(install_hook(Some(&text), "/elsewhere"), Ok(HookPlan::AlreadyInstalled)));
}

#[test]
fn stop_hooks_that_are_no_array_are_refused() {
    for settings in [r#"{"hooks":{"Stop":{}}}"#, r#"{"hooks":{"Stop":null}}"#] {
        assert_eq!(install_hook(Some(settings), "/b").err(), Some(HookError::StopNotArray));
    }
}

#[test]
fn settings_that_take_no_members_are_refused() {
    for settings in ["[]", "7", r#""text""#, r#"{"hooks":[]}"#, r#"{"hooks":true}"#] {
        assert_eq!(install_hook(Some(settings), "/b").err(), Some(HookError::NotAnObject));
    }
}

#[test]
fn only_the_first_command_of_a_hook_is_looked_at() {
    let second = r#"{"hooks":{"Stop":[{"hooks":[{"command":"x"},{"command":"session-score-plugin"}]}]}}"#;
    assert!(matches!(install_hook(Some(second), "/b"), Ok(HookPlan::Write { .. })));
    let first = r#"{"hooks":{"Stop":[{"hooks":[{"command":"a/session-score-plugin b"}]}]}}"#;
    assert!(matches!(install_hook(Some(first), "/b"), Ok(HookPlan::AlreadyInstalled)));
    let text = r#"{"hooks":{"Stop":[{"hooks":[{"command":1}]},{"hooks":{}},{"hooks":[]},{},3]}}"#;
    assert!(matches!(install_hook(Some(text), "/b"), Ok(HookPlan::Write { .. })));
}

#[test]
fn a_hook_is_added_to_a_copy_of_the_settings() {
    let settings = parsed(r#"{"z":1}"#);
    let added = add_hook(&settings, "run me").ok().unwrap().unwrap();
    assert_eq!(settings, parsed(r#"{"z":1}"#));
    assert_eq!(
        added,
        parsed(r#"{"z":1,"hooks":{"Stop":[{"matcher":"","hooks":[{"type":"command","command":"run me"}]}]}}"#)
    );
}
