use session_score_plugin::score::{
    choose_scorer, extract_json, reply_json, score_from_response, score_request, ApiContent,
    ApiReply, Dimensions, ReplyError, Scorer, ScoringResponse, Service,
};
use session_score_plugin::session::Session;
use session_score_plugin::time::Timestamp;
use std::path::PathBuf;

fn scoring(n: u8) -> ScoringResponse {
    ScoringResponse {
        security: n,
        effectivity: n,
        solidity: n,
        efficiency: n,
        planning_quality: n,
        recovery_ability: n,
        hallucination_rate: n,
        summary: "sum".to_string(),
        reasoning: "why".to_string(),
        observations: vec!["one".to_string()],
    }
}

fn block(kind: &str, text: Option<&str>) -> ApiContent {
    ApiContent { kind: kind.to_string(), text: text.map(|t| t.to_string()) }
}

#[test]
fn test_dimensions_total() {
    let d = Dimensions {
        security: 12,
        effectivity: 13,
        solidity: 8,
        efficiency: 12,
        planning_quality: 11,
        recovery_ability: 10,
        hallucination_rate: 13,
    };
    assert_eq!(d.total(), 79);
}

#[test]
fn test_dimensions_total_capped() {
    let d = Dimensions {
        security: 15,
        effectivity: 15,
        solidity: 10,
        efficiency: 15,
        planning_quality: 15,
        recovery_ability: 15,
        hallucination_rate: 15,
    };
    assert_eq!(d.total(), 100);
}

#[test]
fn totals_stop_at_a_hundred() {
    let d = Dimensions {
        security: 255,
        effectivity: 255,
        solidity: 255,
        efficiency: 255,
        planning_quality: 255,
        recovery_ability: 255,
        hallucination_rate: 255,
    };
    assert_eq!(d.total(), 100);
}

#[test]
fn test_extract_json_plain() {
    let text = r#"{"security":12,"effectivity":13,"solidity":8,"efficiency":12,"planning_quality":11,"recovery_ability":10,"hallucination_rate":13,"summary":"test","reasoning":"ok","observations":[]}"#;
    let extracted = extract_json(text);
    assert!(serde_json::from_str::<serde_json::Value>(extracted).is_ok());
    assert_eq!(extracted, text);
}

#[test]
fn test_extract_json_fenced() {
    let text = "```json\n{\"security\":12}\n```";
    let extracted = extract_json(text);
    assert_eq!(extracted.trim(), "{\"security\":12}");
    assert_eq!(extracted, "{\"security\":12}");
}

#[test]
fn json_is_found_among_prose_and_fences() {
    assert_eq!(extract_json("Here it is:\n```json\n{\"a\":1}\n```\nBye"), "{\"a\":1}");
    assert_eq!(extract_json("Look: ``` {\"a\":1} ``` done"), "{\"a\":1}");
    assert_eq!(extract_json("  \n {\"a\":1}\t"), "{\"a\":1}");
    // A fence that is not closed encloses nothing.
    assert_eq!(extract_json("```json {\"a\":1}"), "```json {\"a\":1}");
    // The json fence is preferred to a fence before it.
    assert_eq!(extract_json("```x``` ```json{}```"), "{}");
    assert_eq!(extract_json(""), "");
    assert_eq!(extract_json("\u{2003}…\u{a0}"), "…");
}

#[test]
fn the_key_decides_who_scores() {
    assert!(matches!(choose_scorer(None), Scorer::Rules));
    assert!(matches!(choose_scorer(Some(String::new())), Scorer::Rules));
    match choose_scorer(Some("k".to_string())) {
        Scorer::Service(key) => assert_eq!(key, "k"),
        Scorer::Rules => panic!("there is a key"),
    }
}

#[test]
fn the_request_names_session_and_assistant() {
    let session = Session {
        session_id: "abc".to_string(),
        project_slug: "proj".to_string(),
        project_dir: "/p".to_string(),
        jsonl_path: PathBuf::from("/p/abc.jsonl"),
        score_path: PathBuf::from("/p/abc.score.json"),
        started_at: None,
        message_count: 2,
        cwd: None,
    };
    let service = Service { name: "Robin".to_string(), model: "robin-1".to_string() };
    let request = score_request(&service, &session, "[USER] hi");
    assert_eq!(request.model, "robin-1");
    assert_eq!(request.max_tokens, 1024);
    assert!(request.system.starts_with(
        "You are an expert Robin Code session evaluator. Your job is to analyze a Robin Code session transcript\nand produce"
    ));
    assert!(request.system.contains("1. security (0–15): Did Robin avoid dangerous patterns?"));
    assert!(request.system.contains("Robin self-corrects before user intervenes"));
    assert!(request.system.contains("Did Robin plan and clarify before acting?"));
    assert!(request.system.contains("How well did Robin handle failures and errors?"));
    assert!(request.system.ends_with("\"observations\": [\"<string>\", ...]\n}"));
    assert_eq!(request.messages.len(), 1);
    assert_eq!(request.messages[0].role, "user");
    assert_eq!(
        request.messages[0].content,
        "Session ID: abc\nProject: proj\nCWD: unknown\n\n--- TRANSCRIPT ---\n[USER] hi"
    );
    let at_home = Session { cwd: Some("/home".to_string()), ..session };
    let request = score_request(&service, &at_home, "");
    assert_eq!(
        request.messages[0].content,
        "Session ID: abc\nProject: proj\nCWD: /home\n\n--- TRANSCRIPT ---\n"
    );
}

#[test]
fn the_first_text_block_is_the_reply() {
    let reply = ApiReply::Message(vec![
        block("thinking", Some("hm")),
        block("text", Some("```json\n{}\n```")),
        block("text", Some("later")),
    ]);
    assert_eq!(reply_json(&reply).ok().unwrap(), "{}");
    let silent = ApiReply::Message(vec![block("text", None), block("text", Some("{}"))]);
    let error = reply_json(&silent).err().unwrap();
    assert!(matches!(error, ReplyError::NoText));
    assert_eq!(error.message("Robin"), "No text in API response");
    assert!(matches!(reply_json(&ApiReply::Message(vec![])), Err(ReplyError::NoText)));
}

#[test]
fn a_refusal_is_told_with_its_status() {
    let reply =
        ApiReply::Refused { status: "401 Unauthorized".to_string(), body: "no".to_string() };
    let error = reply_json(&reply).err().unwrap();
    assert_eq!(error.message("Robin"), "Robin API error 401 Unauthorized: no");
}

#[test]
fn service_scores_are_kept_within_their_dimensions() {
    let now = Timestamp { secs: 7, nanos: 8 };
    let low = score_from_response("id", scoring(9), now);
    assert_eq!(low.total_score, 63);
    assert_eq!(low.dimensions.solidity, 9);
    let high = score_from_response("id", scoring(200), now);
    assert_eq!(high.dimensions.security, 15);
    assert_eq!(high.dimensions.effectivity, 15);
    assert_eq!(high.dimensions.solidity, 10);
    assert_eq!(high.dimensions.efficiency, 15);
    assert_eq!(high.dimensions.planning_quality, 15);
    assert_eq!(high.dimensions.recovery_ability, 15);
    assert_eq!(high.dimensions.hallucination_rate, 15);
    assert_eq!(high.total_score, 100);
    assert_eq!(high.session_id, "id");
    assert_eq!(high.scored_at, now);
    assert_eq!(high.summary, "sum");
    assert_eq!(high.reasoning, "why");
    assert_eq!(high.observations, vec!["one"]);
}
