use serde_json::Value;
use session_score_plugin::heuristic::{
    build_narrative, compute_dimensions, score_effectivity, score_efficiency, score_heuristic,
    score_security, score_solidity,
};
use session_score_plugin::score::Service;
use session_score_plugin::scoring::{score_session, Scoring};
use session_score_plugin::session::{
    AssistantMessage, ContentBlock, MessageContent, Session, SessionEntry, UserMessage,
};
use session_score_plugin::signals::{extract_signals, Signals};
use session_score_plugin::single::{over_five, twenty_times};
use session_score_plugin::time::Timestamp;
use std::path::PathBuf;

fn make_signals(f: impl FnOnce(&mut Signals)) -> Signals {
    let mut s = Signals::default();
    f(&mut s);
    s
}

fn json(text: &str) -> Value {
    serde_json::from_str(text).unwrap()
}

fn user(text: &str) -> SessionEntry {
    SessionEntry::User {
        uuid: None,
        timestamp: None,
        message: UserMessage { role: None, content: MessageContent::Text(text.to_string()) },
        meta: json("{}"),
    }
}

fn assistant(content: Vec<ContentBlock>) -> SessionEntry {
    assistant_with(content, "{}")
}

fn assistant_with(content: Vec<ContentBlock>, meta: &str) -> SessionEntry {
    SessionEntry::Assistant {
        uuid: None,
        timestamp: None,
        message: AssistantMessage { role: None, content, usage: None },
        meta: json(meta),
    }
}

fn says(text: &str) -> ContentBlock {
    ContentBlock::Text { text: text.to_string() }
}

fn calls(name: &str, input: &str) -> ContentBlock {
    ContentBlock::ToolUse { id: None, name: name.to_string(), input: json(input) }
}

fn entry_from(line: &str) -> Option<SessionEntry> {
    let v: Value = serde_json::from_str(line).ok()?;
    let content = v.get("message")?.get("content")?;
    match v.get("type")?.as_str()? {
        "user" => Some(user(content.as_str()?)),
        "assistant" => {
            let blocks = content.as_array()?;
            Some(assistant(
                blocks.iter().filter_map(|b| b.get("text")?.as_str().map(says)).collect(),
            ))
        }
        _ => Some(SessionEntry::Other),
    }
}

const NOW: Timestamp = Timestamp { secs: 1_000, nanos: 5 };

#[test]
fn test_security_perfect() {
    let s = make_signals(|_| {});
    assert_eq!(score_security(&s), 25);
}

#[test]
fn test_security_risky_commands() {
    let s = make_signals(|s| {
        s.risky_command_hits.push("rm -rf".into());
        s.risky_command_hits.push("chmod 777".into());
    });
    assert_eq!(score_security(&s), 15);
}

#[test]
fn test_security_credential_leak() {
    let s = make_signals(|s| {
        s.credential_leaks = 2;
    });
    assert_eq!(score_security(&s), 9);
}

#[test]
fn test_effectivity_no_corrections() {
    let s = make_signals(|s| {
        s.user_turns = 5;
        s.correction_turns = 0;
        s.session_produced_output = true;
    });
    assert_eq!(score_effectivity(&s), 25);
}

#[test]
fn test_effectivity_all_corrections() {
    let s = make_signals(|s| {
        s.user_turns = 4;
        s.correction_turns = 4;
        s.session_produced_output = true;
    });
    assert_eq!(score_effectivity(&s), 5);
}

#[test]
fn test_solidity_with_tests_and_pr() {
    let s = make_signals(|s| {
        s.code_edits = 3;
        s.test_file_edits = 2;
        s.git_commits = 1;
        s.pr_created = true;
    });
    assert_eq!(score_solidity(&s), 25);
}

#[test]
fn test_solidity_no_code() {
    let s = make_signals(|s| {
        s.user_turns = 5;
        s.code_edits = 0;
    });
    assert_eq!(score_solidity(&s), 5);
}

#[test]
fn test_efficiency_duplicate_reads() {
    let s = make_signals(|s| {
        s.duplicate_reads = 4;
        s.user_turns = 2;
        s.assistant_turns = 2;
    });
    assert_eq!(score_efficiency(&s), 17);
}

#[test]
fn test_full_heuristic_score() {
    let mut content = String::new();
    content.push_str(r#"{"type":"user","message":{"role":"user","content":"fix the bug"}}"#);
    content.push('\n');
    content.push_str(r#"{"type":"assistant","message":{"role":"assistant","content":[{"type":"text","text":"Sure, looking at it now. I will fix the issue by editing the file carefully and running the tests to verify everything passes cleanly."}]}}"#);
    content.push('\n');
    let entries = Session::read_entries(&content, entry_from);
    assert_eq!(entries.len(), 2);
    let result = score_heuristic("test", &entries, NOW);
    assert!(result.total_score > 0);
    assert!(result.summary.contains("Heuristic"));
    // Security 25, effectivity 18 (a single turn), solidity 10, efficiency 25.
    assert_eq!(result.dimensions.security, 25);
    assert_eq!(result.dimensions.effectivity, 18);
    assert_eq!(result.dimensions.solidity, 10);
    assert_eq!(result.dimensions.efficiency, 25);
    assert_eq!(result.total_score, 78);
    assert_eq!(
        result.summary,
        "Heuristic score (no API key). Session: 1 user turns, 0 tool calls, 0 code edits."
    );
    assert_eq!(
        result.reasoning,
        "No risky commands or credential patterns detected. No correction turns — goal was reached smoothly."
    );
    assert!(result.observations.is_empty());
    assert_eq!(result.session_id, "test");
    assert_eq!(result.scored_at, NOW);
}

#[test]
fn without_a_key_the_rules_score() {
    let service = Service { name: "Robin".to_string(), model: "robin-1".to_string() };
    let session = Session {
        session_id: "test".to_string(),
        project_slug: "proj".to_string(),
        project_dir: "/p".to_string(),
        jsonl_path: PathBuf::from("/p/test.jsonl"),
        score_path: PathBuf::from("/p/test.score.json"),
        started_at: None,
        message_count: 1,
        cwd: None,
    };
    let entries = vec![user("revert it"), assistant(vec![says("rm -rf")])];
    let expected = score_heuristic("test", &entries, NOW);
    for key in [None, Some(String::new())] {
        match score_session(key, &service, &session, &entries, NOW) {
            Some(Scoring::Scored(result)) => {
                assert_eq!(format!("{result:?}"), format!("{expected:?}"));
            }
            _ => panic!("there is no key"),
        }
    }
    match score_session(Some("k".to_string()), &service, &session, &entries, NOW) {
        Some(Scoring::Ask { key, request }) => {
            assert_eq!(key, "k");
            assert_eq!(request.model, "robin-1");
            assert!(request.messages[0]
                .content
                .ends_with("--- TRANSCRIPT ---\n[USER] revert it\n[ASSISTANT] rm -rf"));
        }
        _ => panic!("there is a key"),
    }
    let odd = vec![assistant(vec![says(&format!("a{}", "é".repeat(300)))])];
    assert!(score_session(Some("k".to_string()), &service, &session, &odd, NOW).is_none());
    assert!(score_session(None, &service, &session, &odd, NOW).is_some());
    let copy = session.clone();
    assert_eq!(format!("{copy:?}"), format!("{session:?}"));
}

#[test]
fn signals_of_two_parts_add_up() {
    let a = vec![
        user("undo, password=x"),
        assistant(vec![
            says("rm -rf"),
            calls("Read", r#"{"file_path":"/a"}"#),
            calls("Bash", r#"{"command":"git commit; git push; mkfs.x"}"#),
        ]),
    ];
    let b = vec![
        user("fine"),
        assistant(vec![
            calls("Read", r#"{"file_path":"/a"}"#),
            calls("Edit", r#"{"file_path":"/test"}"#),
            says("chmod 777"),
        ]),
    ];
    let (ra, rb) = (extract_signals(&a), extract_signals(&b));
    let both: Vec<SessionEntry> = a.into_iter().chain(b).collect();
    let all = extract_signals(&both);
    assert_eq!(all.user_turns, ra.user_turns + rb.user_turns);
    assert_eq!(all.correction_turns, ra.correction_turns + rb.correction_turns);
    assert_eq!(all.credential_leaks, ra.credential_leaks + rb.credential_leaks);
    assert_eq!(all.total_tool_calls, ra.total_tool_calls + rb.total_tool_calls);
    assert_eq!(all.code_edits, ra.code_edits + rb.code_edits);
    assert_eq!(all.git_commits, ra.git_commits + rb.git_commits);
    assert_eq!(all.pr_created, ra.pr_created || rb.pr_created);
    assert_eq!(all.risky_command_hits, vec!["rm -rf", "bash:mkfs.", "chmod 777"]);
    assert_eq!((ra.duplicate_reads, rb.duplicate_reads, all.duplicate_reads), (0, 0, 1));
    assert!(all.code_edits + all.duplicate_reads + all.git_commits <= all.total_tool_calls);
}

#[test]
fn no_entries_score_as_a_trivial_session() {
    let result = score_heuristic("empty", &[], NOW);
    assert_eq!(result.dimensions.effectivity, 12);
    assert_eq!(result.total_score, 25 + 12 + 10 + 25);
}

#[test]
fn case_makes_no_difference_to_the_signals() {
    let entries = vec![
        user("No, that is WRONG. My PASSWORD=hunter2"),
        assistant(vec![
            says("Run RM -RF / now"),
            calls("BASH", r#"{"command":"SUDO RM -rf x && GIT COMMIT -m y && git PUSH"}"#),
            calls("Write", r#"{"file_path":"/src/My_TEST.rs"}"#),
        ]),
    ];
    let s = extract_signals(&entries);
    assert_eq!(s.user_turns, 1);
    assert_eq!(s.correction_turns, 1);
    assert_eq!(s.credential_leaks, 1);
    assert_eq!(s.risky_command_hits, vec!["rm -rf", "bash:rm -rf", "bash:sudo rm"]);
    assert_eq!(s.git_commits, 1);
    assert!(s.pr_created);
    assert_eq!(s.code_edits, 1);
    assert_eq!(s.test_file_edits, 1);
    assert_eq!(s.total_tool_calls, 2);
    assert!(!s.session_produced_output);
}

#[test]
fn a_file_read_again_is_a_duplicate() {
    let entries = vec![
        assistant(vec![
            calls("Read", r#"{"file_path":"/a"}"#),
            calls("Read", r#"{"file_path":"/b"}"#),
            calls("read", r#"{"file_path":"/a"}"#),
            calls("Read", r#"{"file_path":"/a"}"#),
            calls("Read", r#"{}"#),
            calls("Read", r#"{"file_path":7}"#),
        ]),
    ];
    let s = extract_signals(&entries);
    assert_eq!(s.duplicate_reads, 3);
    assert_eq!(s.total_tool_calls, 6);
    assert_eq!(s.assistant_turns, 1);
}

#[test]
fn bypassed_permissions_are_noted() {
    let entries =
        vec![assistant_with(vec![], r#"{"permissionMode":"bypassPermissions"}"#)];
    assert!(extract_signals(&entries).bypass_permissions);
    let entries = vec![assistant_with(vec![], r#"{"permissionMode":"plan"}"#)];
    assert!(!extract_signals(&entries).bypass_permissions);
}

#[test]
fn output_takes_more_than_fifty_bytes() {
    let fifty = "x".repeat(50);
    assert!(!extract_signals(&[assistant(vec![says(&fifty)])]).session_produced_output);
    let more = "x".repeat(51);
    assert!(extract_signals(&[assistant(vec![says(&more)])]).session_produced_output);
    // Eighteen characters of three bytes each.
    let wide = "…".repeat(18);
    assert!(extract_signals(&[assistant(vec![says(&wide)])]).session_produced_output);
}

#[test]
fn the_blocks_of_a_message_are_read_as_one_text() {
    let entry = SessionEntry::User {
        uuid: None,
        timestamp: None,
        message: UserMessage {
            role: None,
            content: MessageContent::Blocks(vec![
                says("try"),
                ContentBlock::Other,
                ContentBlock::ToolResult { tool_use_id: None, content: None },
                says("again"),
            ]),
        },
        meta: json("{}"),
    };
    assert_eq!(extract_signals(&[entry]).correction_turns, 1);
}

#[test]
fn other_entries_do_not_count() {
    let with = extract_signals(&[user("undo it"), SessionEntry::Other, user("fine")]);
    let without = extract_signals(&[user("undo it"), user("fine")]);
    assert_eq!(with.user_turns, without.user_turns);
    assert_eq!(with.correction_turns, without.correction_turns);
    assert_eq!(with.assistant_turns, 0);
}

#[test]
fn security_never_rises_as_a_session_goes_on() {
    let entries = vec![
        user("hello"),
        assistant(vec![says("rm -rf /")]),
        assistant(vec![says("rm -rf / again, and chmod 777")]),
        user("secret=1 api_key=2"),
    ];
    let mut scores = Vec::new();
    for n in 0..=entries.len() {
        scores.push(score_security(&extract_signals(&entries[..n])));
    }
    assert_eq!(scores, vec![25, 25, 20, 15, 0]);
}

#[test]
fn a_risk_taken_again_costs_nothing_more() {
    let s = make_signals(|s| {
        s.risky_command_hits.push("rm -rf".into());
        s.risky_command_hits.push("rm -rf".into());
        s.risky_command_hits.push("rm -rf".into());
    });
    assert_eq!(score_security(&s), 20);
}

#[test]
fn risks_and_leaks_cost_twenty_at_most() {
    let s = make_signals(|s| {
        for i in 0..9 {
            s.risky_command_hits.push(format!("risk {i}"));
        }
    });
    assert_eq!(score_security(&s), 5);
    let s = make_signals(|s| s.credential_leaks = usize::MAX);
    assert_eq!(score_security(&s), 5);
    let s = make_signals(|s| {
        s.credential_leaks = 3;
        s.bypass_permissions = true;
    });
    assert_eq!(score_security(&s), 2);
}

#[test]
fn effectivity_falls_with_the_part_of_corrections() {
    let score = |corrections: usize, turns: usize| {
        score_effectivity(&make_signals(|s| {
            s.user_turns = turns;
            s.correction_turns = corrections;
            s.session_produced_output = true;
        }))
    };
    assert_eq!(score(1, 4), 20);
    assert_eq!(score(1, 3), 19);
    assert_eq!(score(2, 3), 12);
    assert_eq!(score(0, 1), 18);
    assert_eq!(score(1, 1), 5);
    for turns in 1..40 {
        for corrections in 0..turns {
            assert!(score(corrections + 1, turns) <= score(corrections, turns));
        }
    }
}

#[test]
fn thrashing_costs_one_and_a_half_per_call_over_five() {
    let score = |calls: usize, turns: usize| {
        score_efficiency(&make_signals(|s| {
            s.user_turns = turns;
            s.total_tool_calls = calls;
        }))
    };
    assert_eq!(score(5, 1), 25);
    assert_eq!(score(7, 1), 22);
    // 17 / 3 - 5 is just below two thirds in single precision.
    assert_eq!(score(17, 3), 25);
    assert_eq!(score(1000, 1), 0);
}

#[test]
fn long_sessions_are_less_efficient() {
    let s = make_signals(|s| s.assistant_turns = 80);
    assert_eq!(score_efficiency(&s), 25);
    let s = make_signals(|s| s.assistant_turns = 81);
    assert_eq!(score_efficiency(&s), 20);
}

#[test]
fn ratios_are_those_of_single_precision() {
    for a in 0usize..300 {
        for b in 1usize..90 {
            let ratio = a as f32 / b as f32;
            assert_eq!(twenty_times(a, b), (ratio * 20.0) as u128, "{a} of {b}");
            let over = if ratio > 5.0 { ((ratio - 5.0) * 1.5) as u128 } else { 0 };
            assert_eq!(over_five(a, b as u128), over, "{a} over {b}");
        }
    }
    let odd: [usize; 8] =
        [16777215, 16777217, 33554435, 123456789, 987654321, 4294967295, 4294967301, usize::MAX];
    for a in odd {
        for b in odd {
            let ratio = a as f32 / b as f32;
            assert_eq!(twenty_times(a, b), (ratio * 20.0) as u128, "{a} of {b}");
            let over = if ratio > 5.0 { ((ratio - 5.0) * 1.5) as u128 } else { 0 };
            assert_eq!(over_five(a, b as u128), over, "{a} over {b}");
        }
    }
}

#[test]
fn the_narrative_names_what_was_found() {
    let s = make_signals(|s| {
        s.risky_command_hits.push("rm -rf".into());
        s.risky_command_hits.push("bash:mkfs.".into());
        s.credential_leaks = 1;
        s.user_turns = 3;
        s.correction_turns = 2;
        s.code_edits = 4;
        s.test_file_edits = 1;
        s.duplicate_reads = 2;
        s.total_tool_calls = 9;
        s.git_commits = 1;
        s.pr_created = true;
        s.bypass_permissions = true;
    });
    let d = compute_dimensions(&s);
    let (summary, reasoning, observations) = build_narrative(&s, &d);
    assert_eq!(
        summary,
        "Heuristic score (no API key). Session: 3 user turns, 9 tool calls, 4 code edits."
    );
    assert_eq!(
        reasoning,
        "Risky patterns found: rm -rf, bash:mkfs.. 1 potential credential pattern(s) detected. 2/3 user turns were corrections or push-backs. 1 test file(s) were edited. 2 duplicate file reads detected."
    );
    assert_eq!(
        observations,
        vec![
            "1 git commit(s) — good commit discipline.",
            "PR was created — proper branch workflow followed.",
            "Session ran in bypassPermissions mode.",
        ]
    );
}

#[test]
fn strong_and_weak_sessions_are_remarked() {
    let strong = make_signals(|s| {
        s.user_turns = 5;
        s.session_produced_output = true;
        s.code_edits = 1;
    });
    let d = compute_dimensions(&strong);
    assert_eq!(d.total(), 90);
    let (_, reasoning, observations) = build_narrative(&strong, &d);
    assert!(reasoning.ends_with("Code was written but no test files were touched."));
    assert_eq!(observations, vec!["Strong overall session — above 80/100."]);
    let weak = make_signals(|s| {
        s.user_turns = 5;
        s.correction_turns = 5;
        s.credential_leaks = 3;
        s.duplicate_reads = 5;
    });
    let d = compute_dimensions(&weak);
    assert_eq!(d.total(), 5 + 0 + 5 + 15);
    let (_, _, observations) = build_narrative(&weak, &d);
    assert_eq!(observations, vec!["Session scored below 50 — consider reviewing the workflow."]);
}
