use serde_json::Value;
use session_score_plugin::discovery::{
    discover_all_sessions, find_latest_session, find_session, meta_from_facts, parse_session_meta,
    score_file_name, Candidate, FoundFile, LineFacts, SessionError, TranscriptFile,
};
use session_score_plugin::session::{
    extract_text_content, shorten, tool_line, AssistantMessage, ContentBlock, MessageContent,
    Session, SessionEntry, UserMessage,
};
use session_score_plugin::time::{parse_timestamp, Timestamp};
use std::path::PathBuf;

fn value(text: &str) -> Value {
    serde_json::from_str(text).unwrap()
}

fn from_user(content: MessageContent) -> SessionEntry {
    SessionEntry::User {
        uuid: None,
        timestamp: None,
        message: UserMessage { role: None, content },
        meta: value("{}"),
    }
}

fn from_assistant(content: Vec<ContentBlock>) -> SessionEntry {
    SessionEntry::Assistant {
        uuid: None,
        timestamp: None,
        message: AssistantMessage { role: None, content, usage: None },
        meta: value("{}"),
    }
}

fn text_block(text: &str) -> ContentBlock {
    ContentBlock::Text { text: text.to_string() }
}

fn read_entry(line: &str) -> Option<SessionEntry> {
    let v: Value = serde_json::from_str(line).ok()?;
    let content = v.get("message")?.get("content")?;
    match v.get("type")?.as_str()? {
        "user" => Some(from_user(MessageContent::Text(content.as_str()?.to_string()))),
        "assistant" => {
            let blocks = content.as_array()?;
            Some(from_assistant(
                blocks.iter().filter_map(|b| b.get("text")?.as_str().map(text_block)).collect(),
            ))
        }
        _ => Some(SessionEntry::Other),
    }
}

const OLD_ID: &str = "aaaaaaaa-0000-0000-0000-000000000000";
const NEW_ID: &str = "bbbbbbbb-1111-1111-1111-111111111111";

fn found(slug: &str, stem: &str, content: Option<&str>) -> FoundFile {
    FoundFile {
        project_slug: slug.to_string(),
        project_dir: format!("/projects/{slug}"),
        extension: Some("jsonl".to_string()),
        stem: Some(stem.to_string()),
        jsonl_path: PathBuf::from(format!("/projects/{slug}/{stem}.jsonl")),
        score_path: PathBuf::from(format!("/projects/{slug}/{stem}.score.json")),
        content: content.map(|c| c.to_string()),
    }
}

fn started(time: &str) -> String {
    format!(r#"{{"type":"user","timestamp":"{time}"}}"#)
}

#[test]
fn test_parse_session_meta() {
    let content = concat_lines(&[
        r#"{"type":"user","timestamp":"2026-05-26T01:00:00Z","cwd":"/home/user/proj","message":{"role":"user","content":"hello"}}"#,
        r#"{"type":"assistant","message":{"role":"assistant","content":[{"type":"text","text":"hi"}]}}"#,
    ]);
    let (ts, count, cwd) = parse_session_meta(Some(&content));
    assert!(ts.is_some());
    assert_eq!(count, 2);
    assert_eq!(cwd.as_deref(), Some("/home/user/proj"));
    assert_eq!(ts, Some(Timestamp { secs: 1779757200, nanos: 0 }));
}

fn concat_lines(lines: &[&str]) -> String {
    let mut s = String::new();
    for line in lines {
        s.push_str(line);
        s.push('\n');
    }
    s
}

#[test]
fn a_session_starts_with_the_first_users_message_that_has_a_time() {
    let content = concat_lines(&[
        "",
        r#"{"type":"summary","timestamp":"2026-05-26T00:00:00Z"}"#,
        "not json",
        r#"{"type":"user","timestamp":"soon","cwd":7}"#,
        "   \t",
        r#"{"type":"user","timestamp":"2026-05-26T01:00:00.5Z","cwd":"/a"}"#,
        r#"{"type":"user","timestamp":"2026-05-26T02:00:00Z","cwd":"/b"}"#,
    ]);
    let (ts, count, cwd) = parse_session_meta(Some(&content));
    assert_eq!(ts, Some(Timestamp { secs: 1779757200, nanos: 500_000_000 }));
    assert_eq!(count, 5);
    assert_eq!(cwd.as_deref(), Some("/a"));
    assert_eq!(parse_session_meta(None), (None, 0, None));
    assert_eq!(parse_session_meta(Some("")), (None, 0, None));
}

#[test]
fn the_first_fact_given_counts() {
    let facts = vec![
        LineFacts { time: None, cwd: None },
        LineFacts { time: Some(Timestamp { secs: 2, nanos: 0 }), cwd: None },
        LineFacts { time: Some(Timestamp { secs: 1, nanos: 0 }), cwd: Some("/x".to_string()) },
        LineFacts { time: None, cwd: Some("/y".to_string()) },
    ];
    let (time, count, cwd) = meta_from_facts(&facts);
    assert_eq!(time, Some(Timestamp { secs: 2, nanos: 0 }));
    assert_eq!(count, 4);
    assert_eq!(cwd.as_deref(), Some("/x"));
}

#[test]
fn times_are_read_in_their_zone() {
    let noon = parse_timestamp("2026-05-26T03:00:00+02:00");
    assert_eq!(noon, Some(Timestamp { secs: 1779757200, nanos: 0 }));
    assert_eq!(parse_timestamp("yesterday"), None);
    assert!(Timestamp { secs: 1, nanos: 2 }.is_before(Timestamp { secs: 1, nanos: 3 }));
    assert!(!Timestamp { secs: 1, nanos: 3 }.is_before(Timestamp { secs: 1, nanos: 3 }));
    assert!(Timestamp { secs: -1, nanos: 9 }.is_before(Timestamp { secs: 0, nanos: 0 }));
}

#[test]
fn test_session_transcript() {
    let content = concat_lines(&[
        r#"{"type":"user","message":{"role":"user","content":"fix the bug"}}"#,
        r#"{"type":"assistant","message":{"role":"assistant","content":[{"type":"text","text":"Sure, let me look at it."}]}}"#,
    ]);
    let entries = Session::read_entries(&content, read_entry);
    let transcript = Session::checked_transcript(&entries).unwrap();
    assert!(transcript.contains("[USER] fix the bug"));
    assert!(transcript.contains("[ASSISTANT] Sure"));
    assert_eq!(transcript, "[USER] fix the bug\n[ASSISTANT] Sure, let me look at it.");
    assert_eq!(Session::transcript(&entries), transcript);
}

#[test]
fn lines_that_hold_no_entry_are_passed_over() {
    let content = "\n{\"type\":\"x\",\"message\":{\"content\":0}}\r\nnonsense\r\n  \n{\"type\":\"user\",\"message\":{\"content\":\"hi\"}}";
    let entries = Session::read_entries(content, read_entry);
    assert_eq!(entries.len(), 2);
    assert!(matches!(entries[0], SessionEntry::Other));
    assert_eq!(Session::transcript(&entries), "[USER] hi");
}

#[test]
fn tools_stand_in_the_transcript_with_their_input() {
    let entries = vec![
        from_user(MessageContent::Text(String::new())),
        from_assistant(vec![
            ContentBlock::ToolUse {
                id: None,
                name: "Bash".to_string(),
                input: value(r#"{ "command" : "ls", "a" : [1, 2.5, null] }"#),
            },
            ContentBlock::ToolResult { tool_use_id: None, content: None },
            ContentBlock::Other,
        ]),
        SessionEntry::Other,
    ];
    assert_eq!(
        Session::transcript(&entries),
        r#"[TOOL:Bash] {"a":[1,2.5,null],"command":"ls"}"#
    );
}

#[test]
fn long_texts_are_cut() {
    let entries = vec![
        from_assistant(vec![text_block(&"a".repeat(500)), text_block(&"b".repeat(501))]),
    ];
    let transcript = Session::transcript(&entries);
    assert_eq!(
        transcript,
        format!("[ASSISTANT] {}\n[ASSISTANT] {}…", "a".repeat(500), "b".repeat(500))
    );
    let long = vec![from_user(MessageContent::Text("c".repeat(9000)))];
    let transcript = Session::transcript(&long);
    assert_eq!(transcript, format!("[USER] {}…[truncated]", "c".repeat(7993)));
    assert!(transcript.len() <= 8000 + "…[truncated]".len());
    assert_eq!(
        tool_line("T", &"x".repeat(201)).unwrap(),
        format!("[TOOL:T] {}…", "x".repeat(200))
    );
    assert_eq!(tool_line("T", &"x".repeat(200)).unwrap(), format!("[TOOL:T] {}", "x".repeat(200)));
}

#[test]
fn a_cut_inside_a_character_is_reported() {
    let odd = format!("a{}", "é".repeat(300));
    assert!(shorten(&odd, 500, "…").is_none());
    assert_eq!(shorten(&odd, 501, "…").unwrap(), format!("a{}…", "é".repeat(250)));
    assert!(Session::checked_transcript(&[from_assistant(vec![text_block(&odd)])]).is_none());
    let whole = from_user(MessageContent::Text("é".repeat(5000)));
    assert!(Session::checked_transcript(&[whole]).is_none());
    assert!(tool_line("T", &format!("a{}", "é".repeat(100))).is_none());
}

#[test]
fn blocks_are_joined_by_spaces() {
    let blocks = MessageContent::Blocks(vec![text_block("a"), ContentBlock::Other, text_block("b")]);
    assert_eq!(extract_text_content(&blocks), "a b");
    assert_eq!(extract_text_content(&MessageContent::Blocks(vec![])), "");
}

#[test]
fn test_find_latest_session_picks_newest_mtime() {
    let candidate = |id: &str, modified: Option<i128>| Candidate {
        extension: Some("jsonl".to_string()),
        stem: Some(id.to_string()),
        modified,
    };
    let now: i128 = 1_779_757_200_000_000_000;
    let older_id = "aaaaaaaa-0000-0000-0000-000000000000";
    let newer_id = "bbbbbbbb-1111-1111-1111-111111111111";
    let candidates = vec![
        candidate(older_id, Some(now - 10_000_000_000)),
        candidate(newer_id, Some(now)),
    ];
    let best = find_latest_session(&candidates, "/projects").ok().unwrap();
    assert_eq!(candidates[best].stem.as_deref(), Some(newer_id));
}

#[test]
fn files_that_are_no_sessions_are_not_the_latest() {
    let file = |extension: Option<&str>, stem: Option<&str>, modified: Option<i128>| Candidate {
        extension: extension.map(|e| e.to_string()),
        stem: stem.map(|s| s.to_string()),
        modified,
    };
    let candidates = vec![
        file(Some("json"), Some(NEW_ID), Some(9)),
        file(Some("jsonl"), Some("notes"), Some(9)),
        file(Some("jsonl"), None, Some(9)),
        file(None, Some(NEW_ID), Some(9)),
        file(Some("jsonl"), Some(OLD_ID), None),
        file(Some("jsonl"), Some(NEW_ID), Some(0)),
    ];
    assert_eq!(find_latest_session(&candidates, "/p").ok(), Some(4));
    match find_latest_session(&vec![], "/p") {
        Err(e) => assert_eq!(e.message(), "No sessions found in /p"),
        Ok(_) => panic!("there is none"),
    }
}

#[test]
fn sessions_are_found_newest_first() {
    let third = "cccccccc-2222-2222-2222-222222222222";
    let fourth = "dddddddd-3333-3333-3333-333333333333";
    let files = vec![
        found("a", OLD_ID, None),
        found("a", NEW_ID, Some(&started("2026-05-26T01:00:00Z"))),
        found("b", "README", Some(&started("2030-01-01T00:00:00Z"))),
        found("b", third, Some(&started("2026-05-27T01:00:00Z"))),
        found("b", fourth, Some(&started("2026-05-26T01:00:00Z"))),
    ];
    let sessions = discover_all_sessions(files);
    let ids: Vec<&str> = sessions.iter().map(|s| s.session_id.as_str()).collect();
    assert_eq!(ids, vec![third, NEW_ID, fourth, OLD_ID]);
    assert_eq!(sessions[1].project_slug, "a");
    assert_eq!(sessions[1].message_count, 1);
    assert_eq!(sessions[3].message_count, 0);
    assert_eq!(sessions[3].started_at, None);
}

#[test]
fn a_session_is_found_by_id_and_project() {
    let both = || {
        discover_all_sessions(vec![
            found("first", OLD_ID, Some(&started("2026-05-27T01:00:00Z"))),
            found("second", OLD_ID, Some(&started("2026-05-26T01:00:00Z"))),
        ])
    };
    let slug = |project: Option<&str>| {
        find_session(both(), OLD_ID, project).ok().map(|s| s.project_slug)
    };
    assert_eq!(slug(None).as_deref(), Some("first"));
    assert_eq!(slug(Some("second")).as_deref(), Some("second"));
    assert_eq!(slug(Some("jects/sec")).as_deref(), Some("second"));
    assert_eq!(slug(Some("third")), None);
    match find_session(both(), NEW_ID, None) {
        Err(e) => {
            assert!(matches!(e, SessionError::NotFound(_)));
            assert_eq!(e.message(), format!("Session {NEW_ID} not found"));
        }
        Ok(_) => panic!("there is none"),
    }
}

#[test]
fn a_session_is_built_from_its_transcript() {
    let file = || TranscriptFile {
        path: "/p/proj/abc.jsonl".to_string(),
        exists: true,
        project_dir: Some("/p/proj".to_string()),
        dir_name: Some("proj".to_string()),
        stem: Some("abc".to_string()),
        jsonl_path: PathBuf::from("/p/proj/abc.jsonl"),
        score_path: PathBuf::from("/p/proj/abc.score.json"),
        content: Some("{\"cwd\":\"/w\"}\n\n{}".to_string()),
    };
    let session = Session::from_transcript_path(file()).ok().unwrap();
    assert_eq!(session.session_id, "abc");
    assert_eq!(session.project_slug, "proj");
    assert_eq!(session.project_dir, "/p/proj");
    assert_eq!(session.message_count, 2);
    assert_eq!(session.cwd.as_deref(), Some("/w"));
    let nameless = TranscriptFile { dir_name: None, stem: None, ..file() };
    let session = Session::from_transcript_path(nameless).ok().unwrap();
    assert_eq!(session.session_id, "unknown");
    assert_eq!(session.project_slug, "unknown");
    let missing = TranscriptFile { exists: false, ..file() };
    assert_eq!(
        Session::from_transcript_path(missing).err().unwrap().message(),
        "Transcript not found: /p/proj/abc.jsonl"
    );
    let orphan = TranscriptFile { project_dir: None, ..file() };
    assert_eq!(
        Session::from_transcript_path(orphan).err().unwrap().message(),
        "No parent dir for /p/proj/abc.jsonl"
    );
    assert_eq!(SessionError::Unreadable("/q".to_string()).message(), "Cannot read /q");
}

#[test]
fn scores_stand_beside_their_sessions() {
    assert_eq!(score_file_name("abc"), "abc.score.json");
}
