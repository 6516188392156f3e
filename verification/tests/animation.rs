use session_score_plugin::animation::{
    animate_score_reveal, bar, can_be_revealed, count_delay, score_bar, score_grade, Step,
};
use session_score_plugin::particles::{
    build_bubbles, build_confetti, build_fireworks, build_shooting_stars, build_snow, lcg,
    AnimationKind, AnimationState, Color, Particles,
};
use session_score_plugin::score::{Dimensions, ScoreResult};
use session_score_plugin::screen::score_color;
use session_score_plugin::time::Timestamp;
use std::collections::hash_map::DefaultHasher;
use std::hash::{Hash, Hasher};

fn result(security: u8, total: u8, observations: &[&str]) -> ScoreResult {
    ScoreResult {
        session_id: "abcdefgh-ijkl".to_string(),
        scored_at: Timestamp { secs: 0, nanos: 0 },
        total_score: total,
        dimensions: Dimensions {
            security,
            effectivity: 0,
            solidity: 1,
            efficiency: 2,
            planning_quality: 3,
            recovery_ability: 0,
            hallucination_rate: 15,
        },
        summary: "It went well.".to_string(),
        reasoning: "Because.".to_string(),
        observations: observations.iter().map(|o| o.to_string()).collect(),
    }
}

fn written(steps: &[Step]) -> String {
    steps.iter().map(|s| s.text.as_str()).collect()
}

#[test]
fn test_score_grade() {
    assert_eq!(score_grade(95), "🏆 S — Exceptional");
    assert_eq!(score_grade(85), "🥇 A — Excellent");
    assert_eq!(score_grade(75), "🥈 B — Good");
    assert_eq!(score_grade(65), "🥉 C — Acceptable");
    assert_eq!(score_grade(55), "⚠️  D — Needs improvement");
    assert_eq!(score_grade(40), "❌ F — Poor");
}

#[test]
fn grades_change_at_the_tens() {
    for (low, high) in [(90u8, 100u8), (80, 89), (70, 79), (60, 69), (50, 59), (0, 49)] {
        assert_eq!(score_grade(low), score_grade(high));
        assert_eq!(score_color(low), score_color(high));
        assert_eq!(AnimationKind::from_score(low), AnimationKind::from_score(high));
    }
    assert_eq!(score_grade(101), "❌ F — Poor");
    assert_eq!(score_color(90), Color::LightMagenta);
    assert_eq!(score_color(80), Color::LightGreen);
    assert_eq!(score_color(70), Color::Green);
    assert_eq!(score_color(60), Color::Yellow);
    assert_eq!(score_color(50), Color::LightYellow);
    assert_eq!(score_color(49), Color::Red);
    assert_eq!(AnimationKind::from_score(90), AnimationKind::GrandFireworks);
    assert_eq!(AnimationKind::from_score(80), AnimationKind::Fireworks);
    assert_eq!(AnimationKind::from_score(70), AnimationKind::Confetti);
    assert_eq!(AnimationKind::from_score(60), AnimationKind::Snow);
    assert_eq!(AnimationKind::from_score(50), AnimationKind::Bubbles);
    assert_eq!(AnimationKind::from_score(49), AnimationKind::ShootingStars);
}

#[test]
fn bars_fill_from_the_left() {
    assert_eq!(bar(0, 3), "░░░");
    assert_eq!(bar(2, 3), "██░");
    assert_eq!(bar(3, 3), "███");
}

#[test]
fn the_reveal_counts_up_and_reports() {
    let result = result(15, 12, &["one", "two"]);
    assert!(can_be_revealed(&result));
    let steps = animate_score_reveal(&result);
    assert_eq!(
        steps[0].text,
        "┌─────────────────────────────────────────────┐\n│          📊  SESSION SCORE REPORT            │\n│  Session: abcdefgh…  │\n└─────────────────────────────────────────────┘\n\n📝 It went well.\n\n"
    );
    assert_eq!(steps[1].text, "\r  🔒 Security     [░░░░░░░░░░░░░░░░░░░░]  0/15");
    assert_eq!(steps[1].pause_ms, 30);
    assert_eq!(steps[8].text, "\r  🔒 Security     [█████████░░░░░░░░░░░]  7/15");
    assert_eq!(steps[16].text, "\r  🔒 Security     [████████████████████] 15/15");
    assert_eq!(steps[17].text, "\n");
    assert_eq!(steps[17].pause_ms, 200);
    assert_eq!(steps[18].text, "\r  ⚡ Effectivity  [░░░░░░░░░░░░░░░░░░░░]  0/15");
    assert_eq!(steps[21].text, "\r  🏗  Solidity     [██░░░░░░░░░░░░░░░░░░]  1/10");
    assert_eq!(steps[25].text, "\r  💡 Efficiency   [██░░░░░░░░░░░░░░░░░░]  2/15");
    assert_eq!(steps[30].text, "\r  🗺  Planning     [████░░░░░░░░░░░░░░░░]  3/15");
    assert_eq!(steps[32].text, "\r  🔄 Recovery     [░░░░░░░░░░░░░░░░░░░░]  0/15");
    assert_eq!(steps[49].text, "\r  🎯 Hallucination  [████████████████████] 15/15");
    assert_eq!(steps[50].text, "\n");
    let counted: Vec<&Step> = steps.iter().filter(|s| s.text.contains("TOTAL SCORE")).collect();
    assert_eq!(counted.len(), 12);
    assert_eq!(counted[0].text, "\r│        ⭐ TOTAL SCORE:    1/100              │");
    assert_eq!(counted[11].text, "\r│        ⭐ TOTAL SCORE:   12/100              │");
    let pauses: Vec<u64> = counted.iter().map(|s| s.pause_ms).collect();
    assert_eq!(pauses, vec![20, 60, 60, 60, 60, 60, 60, 60, 120, 120, 120, 120]);
    let last = &steps[steps.len() - 1];
    assert_eq!(
        last.text,
        "\n└─────────────────────────────────────────────┘\n\n💬 Observations:\n   • one\n   • two\n\n🔍 Reasoning:\n   Because.\n\n   Grade: ❌ F — Poor\n\n"
    );
    assert_eq!(steps.len(), 1 + 17 + 2 + 3 + 4 + 5 + 2 + 17 + 1 + 12 + 1);
    assert!(written(&steps).starts_with("┌──"));
}

#[test]
fn a_total_of_nothing_is_shown_once() {
    let steps = animate_score_reveal(&result(0, 0, &[]));
    let counted: Vec<&Step> = steps.iter().filter(|s| s.text.contains("TOTAL SCORE")).collect();
    assert_eq!(counted.len(), 1);
    assert_eq!(counted[0].text, "\r│        ⭐ TOTAL SCORE:    0/100              │");
    assert!(!written(&steps).contains("Observations"));
}

#[test]
fn what_cannot_be_shown_is_not_revealed() {
    let short = ScoreResult { session_id: "abc".to_string(), ..result(1, 1, &[]) };
    assert!(!can_be_revealed(&short));
    let split = ScoreResult { session_id: "abcdefgé".to_string(), ..result(1, 1, &[]) };
    assert!(!can_be_revealed(&split));
}

#[test]
fn a_score_beyond_its_maximum_fills_the_bar() {
    let result = result(25, 50, &[]);
    assert!(can_be_revealed(&result));
    let steps = animate_score_reveal(&result);
    assert_eq!(steps[16].text, "\r  🔒 Security     [████████████████████] 15/15");
    assert_eq!(steps[26].text, "\r  🔒 Security     [████████████████████] 25/15");
    assert_eq!(score_bar(14, 15, 20), "██████████████████░░");
    assert_eq!(score_bar(255, 1, 3), "███");
}

#[test]
fn results_can_be_copied_and_printed() {
    let result = result(1, 2, &["one"]);
    let copy = result.clone();
    assert_eq!(copy.observations, result.observations);
    assert_eq!(format!("{copy:?}"), format!("{result:?}"));
}

#[test]
fn the_count_slows_down() {
    assert_eq!(count_delay(0, 100), 20);
    assert_eq!(count_delay(89, 100), 20);
    assert_eq!(count_delay(90, 100), 60);
    assert_eq!(count_delay(96, 100), 60);
    assert_eq!(count_delay(97, 100), 120);
    assert_eq!(count_delay(0, 2), 120);
    assert_eq!(count_delay(0, 5), 60);
}

#[test]
fn numbers_are_those_of_the_generator() {
    for (seed, i) in [(0u64, 0u64), (1, 0), (0, 1), (0xCAFEBABE, 17), (u64::MAX, u64::MAX)] {
        let expected = seed
            .wrapping_mul(6364136223846793005)
            .wrapping_add(i.wrapping_mul(1442695040888963407).wrapping_add(1));
        assert_eq!(lcg(seed, i), expected);
    }
    assert_eq!(lcg(0, 0), 1);
    for i in 0..100u64 {
        for j in 0..i {
            assert_ne!(lcg(7, i), lcg(7, j));
        }
    }
    assert_eq!(lcg(1, 0), 6364136223846793006);
}

#[test]
fn fireworks_burst_at_each_centre() {
    let seed = 42;
    let bursts = build_fireworks(seed, 8, 30);
    assert_eq!(bursts.len(), 240);
    let s = lcg(seed, 3 * 100 + 7);
    let c = lcg(seed, 3);
    let burst = bursts[3 * 30 + 7];
    assert_eq!(burst.center_x, c & 0xFF);
    assert_eq!(burst.center_y, (c >> 8) & 0xFF);
    assert_eq!(burst.angle, s & 0xFF);
    assert_eq!(burst.speed, (s >> 8) & 0x3F);
    let chars = ['✦', '*', '·', '°', '+', '×', '✶', '✸'];
    assert_eq!(burst.ch, chars[(s >> 16) as usize % 8]);
}

#[test]
fn drifting_particles_follow_the_width() {
    assert_eq!(build_confetti(80).len(), 26);
    assert_eq!(build_confetti(9).len(), 10);
    assert_eq!(build_snow(33).len(), 11);
    assert_eq!(build_bubbles(80).len(), 20);
    assert_eq!(build_bubbles(4).len(), 8);
    assert_eq!(build_shooting_stars().len(), 25);
    let flake = build_confetti(80)[5];
    let s = lcg(0xCAFEBABE, 5);
    assert_eq!(flake.x, s & 0xFF);
    assert_eq!(flake.y, (s >> 8) & 0x3F);
    assert_eq!(flake.dx, (s >> 32) & 0xFF);
    assert_eq!(flake.dy, (s >> 40) & 0x3F);
    assert_eq!(flake.ch, ['*', '·', '✦', '°', '+', '×'][(s >> 16) as usize % 6]);
    let star = build_shooting_stars()[24];
    let s = lcg(0x12345678, 24);
    assert_eq!(star.y, (s >> 8) & 0xFF);
    assert_eq!(star.dx, (s >> 32) & 0x0F);
}

#[test]
fn fireworks_are_seeded_by_the_score() {
    let mut hasher = DefaultHasher::new();
    93u8.hash(&mut hasher);
    let expected = build_fireworks(hasher.finish(), 8, 30);
    match AnimationState::new(93, 80, 24).particles {
        Particles::Bursts(bursts) => assert_eq!(bursts, expected),
        Particles::Flakes(_) => panic!("an S gets fireworks"),
    }
}

#[test]
fn a_celebration_takes_twenty_steps() {
    let mut state = AnimationState::new(65, 80, 24);
    assert_eq!(state.kind, AnimationKind::Snow);
    for _ in 0..20 {
        assert!(!state.done());
        state.advance();
    }
    assert!(state.done());
}
