use session_score_plugin::browser::{Action, AppState, Key, FIRST_STATUS};
use session_score_plugin::particles::{AnimationKind, Color};
use session_score_plugin::score::{Dimensions, ScoreResult};
use session_score_plugin::screen::{
    analysis, bar_line, card_lines, dimension_lines, list_row, list_title, total_text,
    unscored_detail,
};
use session_score_plugin::session::Session;
use session_score_plugin::time::Timestamp;
use std::path::PathBuf;

fn session(n: usize) -> Session {
    Session {
        session_id: format!("{n:08}-0000-0000-0000-000000000000"),
        project_slug: "-Users-me-code-proj".to_string(),
        project_dir: "/p".to_string(),
        jsonl_path: PathBuf::from("/p/x.jsonl"),
        score_path: PathBuf::from("/p/x.score.json"),
        started_at: None,
        message_count: n,
        cwd: None,
    }
}

fn score(total: u8) -> ScoreResult {
    ScoreResult {
        session_id: "x".to_string(),
        scored_at: Timestamp { secs: 0, nanos: 0 },
        total_score: total,
        dimensions: Dimensions {
            security: 15,
            effectivity: 7,
            solidity: 10,
            efficiency: 0,
            planning_quality: 1,
            recovery_ability: 25,
            hallucination_rate: 14,
        },
        summary: "Short".to_string(),
        reasoning: "Because".to_string(),
        observations: vec![],
    }
}

fn browser(n: usize) -> AppState {
    AppState::new((0..n).map(session).collect(), (0..n).map(|_| None).collect())
}

fn press(state: &mut AppState, key: Key) -> Action {
    state.handle_key(key, false)
}

#[test]
fn a_browser_starts_at_the_first_session() {
    let state = browser(31);
    assert_eq!(state.page, 0);
    assert_eq!(state.total_pages, 3);
    assert_eq!(state.selected_global_idx(), Some(0));
    assert_eq!(state.status, FIRST_STATUS);
    assert_eq!(state.page_sessions().len(), 15);
    assert_eq!(state.page_scores().len(), 15);
    assert_eq!(browser(0).total_pages, 1);
    assert_eq!(browser(15).total_pages, 1);
    assert_eq!(browser(16).total_pages, 2);
    assert!(browser(0).selected_session().is_none());
    assert_eq!(browser(0).page_sessions().len(), 0);
}

#[test]
fn every_session_is_on_one_page() {
    let mut state = browser(31);
    let mut seen = Vec::new();
    for _ in 0..state.total_pages {
        seen.extend(state.page_sessions().iter().map(|s| s.message_count));
        press(&mut state, Key::Char('n'));
    }
    assert_eq!(seen, (0..31).collect::<Vec<usize>>());
    assert_eq!(state.page, 2);
}

#[test]
fn moving_stays_on_the_page() {
    let mut state = browser(17);
    press(&mut state, Key::Up);
    assert_eq!(state.selected, Some(0));
    for _ in 0..20 {
        press(&mut state, Key::Down);
    }
    assert_eq!(state.selected, Some(14));
    press(&mut state, Key::Char('n'));
    assert_eq!((state.page, state.selected), (1, Some(0)));
    assert_eq!(state.selected_session().unwrap().message_count, 15);
    press(&mut state, Key::Char('j'));
    press(&mut state, Key::Char('j'));
    assert_eq!(state.selected_global_idx(), Some(16));
    press(&mut state, Key::Char('k'));
    assert_eq!(state.selected_global_idx(), Some(15));
    press(&mut state, Key::Char('n'));
    assert_eq!(state.page, 1);
    press(&mut state, Key::Char('p'));
    assert_eq!((state.page, state.selected), (0, Some(0)));
    press(&mut state, Key::Char('p'));
    assert_eq!(state.page, 0);
    let mut empty = browser(0);
    empty.next();
    assert_eq!(empty.selected, Some(0));
}

#[test]
fn keys_of_the_list() {
    let mut state = browser(3);
    assert_eq!(press(&mut state, Key::Char('q')), Action::Quit);
    assert_eq!(state.handle_key(Key::Char('c'), true), Action::Quit);
    assert_eq!(press(&mut state, Key::Char('c')), Action::Nothing);
    press(&mut state, Key::Down);
    assert_eq!(press(&mut state, Key::Enter), Action::Score(1));
    assert_eq!(press(&mut state, Key::Char(' ')), Action::Score(1));
    assert_eq!(press(&mut state, Key::Char('r')), Action::Score(1));
    assert_eq!(press(&mut state, Key::Char('x')), Action::Nothing);
    assert_eq!(press(&mut state, Key::Other), Action::Nothing);
    assert_eq!(press(&mut state, Key::Esc), Action::Nothing);
    assert!(!state.detail_view);
    assert_eq!(press(&mut state, Key::Char('d')), Action::Nothing);
    assert!(state.detail_view);
    state.detail_view = false;
    state.scores[1] = Some(score(50));
    assert_eq!(press(&mut state, Key::Enter), Action::Nothing);
    assert!(state.detail_view);
}

#[test]
fn keys_of_the_detail_view() {
    let mut state = browser(2);
    state.detail_view = true;
    assert_eq!(press(&mut state, Key::Enter), Action::Score(0));
    assert_eq!(press(&mut state, Key::Char('r')), Action::Score(0));
    state.scores[0] = Some(score(70));
    for _ in 0..3 {
        assert_eq!(press(&mut state, Key::Enter), Action::Nothing);
        assert!(state.detail_view);
    }
    assert_eq!(press(&mut state, Key::Char('r')), Action::Score(0));
    assert_eq!(press(&mut state, Key::Down), Action::Nothing);
    assert_eq!(state.selected, Some(0));
    for key in [Key::Esc, Key::Char('b')] {
        state.detail_view = true;
        assert_eq!(press(&mut state, key), Action::Nothing);
        assert!(!state.detail_view);
    }
    state.detail_view = true;
    assert_eq!(press(&mut state, Key::Char('q')), Action::Quit);
    assert_eq!(state.handle_key(Key::Char('c'), true), Action::Nothing);
}

#[test]
fn a_first_score_is_celebrated() {
    let mut state = browser(2);
    state.start_scoring("Robin");
    assert_eq!(state.status, "⏳ Scoring with Robin API…");
    assert!(state.scoring);
    assert_eq!(press(&mut state, Key::Char('q')), Action::Nothing);
    state.finish_scoring(0, Ok(score(75)), 80, 24);
    assert_eq!(state.status, "✅ Scored: 75/100");
    assert!(!state.scoring);
    assert_eq!(state.poll_ms(), 50);
    let animation = state.animation.as_ref().unwrap();
    assert_eq!(animation.kind, AnimationKind::Confetti);
    assert_eq!((animation.frame, animation.width, animation.height), (0, 80, 24));
    assert_eq!(press(&mut state, Key::Char('q')), Action::Nothing);
    assert_eq!(press(&mut state, Key::Char('d')), Action::Nothing);
    for _ in 0..19 {
        assert!(!state.tick());
        assert!(!state.detail_view);
    }
    assert!(state.tick());
    assert!(state.animation.is_none());
    assert!(state.detail_view);
    assert!(!state.tick());
    assert_eq!(state.poll_ms(), 200);
    assert_eq!(state.selected_score().unwrap().total_score, 75);
}

#[test]
fn a_second_score_is_not_celebrated() {
    let mut state = browser(1);
    state.scores[0] = Some(score(10));
    state.detail_view = true;
    state.start_scoring("Robin");
    state.finish_scoring(0, Ok(score(99)), 80, 24);
    assert_eq!(state.status, "✅ Re-scored: 99/100");
    assert!(state.animation.is_none());
    assert!(state.detail_view);
    assert_eq!(state.selected_score().unwrap().total_score, 99);
}

#[test]
fn a_failure_to_score_is_told() {
    let mut state = browser(1);
    state.start_scoring("Robin");
    state.finish_scoring(0, Err("no network".to_string()), 80, 24);
    assert_eq!(state.status, "❌ Scoring failed: no network");
    assert!(!state.scoring);
    assert!(state.animation.is_none());
    assert!(state.selected_score().is_none());
}

#[test]
fn the_title_counts_pages_from_one() {
    assert_eq!(list_title(0, 3, 31), "  Page 1/3 — 31 sessions");
}

#[test]
fn rows_show_session_and_score() {
    let row = list_row(&session(7), &None, None, "05-26 01:00");
    assert_eq!(row.date, " ??-?? ??:?? ");
    assert_eq!(row.id, "00000007 ");
    assert_eq!(row.project, "proj                 ");
    assert_eq!(row.messages, "   7msg ");
    assert_eq!(row.score, "  —/100");
    assert_eq!(row.color, None);
    assert_eq!(row.scored_at, "           ");
    assert_eq!(row.brief, "");
    let row = list_row(&session(12345), &Some(score(55)), Some("05-25 23:59"), "05-26 01:00");
    assert_eq!(row.date, " 05-25 23:59 ");
    assert_eq!(row.messages, "12345msg ");
    assert_eq!(row.score, " 55/100 ⚠️  D");
    assert_eq!(row.color, Some(Color::LightYellow));
    assert_eq!(row.scored_at, "05-26 01:00");
    assert_eq!(row.brief, "Short");
    let best = list_row(&session(1), &Some(score(100)), None, "");
    assert_eq!(best.score, "100/100 🏆 S");
}

#[test]
fn projects_are_shown_by_the_end_of_their_slug() {
    let project = |slug: &str| {
        let s = Session { project_slug: slug.to_string(), ..session(0) };
        list_row(&s, &None, None, "").project
    };
    assert_eq!(project("plain"), format!("{:<20} ", "plain"));
    assert_eq!(project("-Users-"), format!("{:<20} ", ""));
    assert_eq!(project("-Users--Users-x"), format!("{:<20} ", "x"));
    let long = "a".repeat(30);
    assert_eq!(project(&long), format!("{long} "));
}

#[test]
fn briefs_are_cut_after_28_characters() {
    let brief = |summary: String| {
        list_row(&session(0), &Some(ScoreResult { summary, ..score(1) }), None, "").brief
    };
    assert_eq!(brief("é".repeat(28)), "é".repeat(28));
    assert_eq!(brief("é".repeat(29)), format!("{}…", "é".repeat(28)));
}

#[test]
fn details_of_a_session() {
    let s = session(3);
    assert_eq!(
        unscored_detail(&s),
        "\n  Session: 00000003-0000-0000-0000-000000000000\n  Project: -Users-me-code-proj\n\n  ⚠  Not yet scored. Press Enter to score now."
    );
    assert_eq!(total_text(87), "87/100");
    assert_eq!(
        card_lines(&s, &score(87), "2026-05-26 01:00"),
        vec![
            "  Grade: 🥇 A — Excellent",
            "",
            "  Session: 00000003…",
            "  Scored:  2026-05-26 01:00",
        ]
    );
    assert_eq!(
        dimension_lines(&score(87).dimensions),
        vec![
            "  🔒 Security       [████████████] 15/15",
            "  ⚡ Effectivity    [█████░░░░░░░]  7/15",
            "  🏗  Solidity       [████████████] 10/10",
            "  💡 Efficiency     [░░░░░░░░░░░░]  0/15",
            "  🗺  Planning       [░░░░░░░░░░░░]  1/15",
            "  🔄 Recovery       [████████████] 25/15",
            "  🎯 Hallucination  [███████████░] 14/15",
        ]
    );
    assert_eq!(bar_line("x", 255, 1), "  x [████████████] 255/1");
}

#[test]
fn the_analysis_has_observations_where_there_are_any() {
    let lines = |observations: Vec<String>| {
        analysis(&ScoreResult { observations, ..score(1) })
            .into_iter()
            .map(|l| format!("{}{}", l.heading, l.text))
            .collect::<Vec<String>>()
    };
    assert_eq!(lines(vec![]), vec!["Summary: Short", "", "Reasoning: Because"]);
    assert_eq!(
        lines(vec!["one".to_string(), "two".to_string()]),
        vec![
            "Summary: Short",
            "",
            "Reasoning: Because",
            "",
            "Observations:",
            "  • one",
            "  • two",
        ]
    );
}
