//! Grades, and the animated reveal of a score on the terminal.
use crate::score::{Dimensions, ScoreResult};
use crate::text::{
    align_right, aligned_right, decimal, decimal_string, first_bytes, head, push_repeated, repeated,
    splits_at, texts,
};
use vstd::prelude::*;
use vstd::string::StringExecFns;

verus! {

// ── Grades ───────────────────────────────────────────────────────────────────
/// The grade of a score, from S at 90 to 100 down to F below 50.
pub open spec fn grade_of(score: u8) -> Seq<char> {
    if 90 <= score <= 100 {
        "🏆 S — Exceptional"@
    } else if 80 <= score <= 89 {
        "🥇 A — Excellent"@
    } else if 70 <= score <= 79 {
        "🥈 B — Good"@
    } else if 60 <= score <= 69 {
        "🥉 C — Acceptable"@
    } else if 50 <= score <= 59 {
        "⚠️  D — Needs improvement"@
    } else {
        "❌ F — Poor"@
    }
}

/// The grade of a score.
pub fn score_grade(score: u8) -> (res: &'static str)
    ensures
        res@ == grade_of(score),
{
    match score {
        90..=100 => "🏆 S — Exceptional",
        80..=89 => "🥇 A — Excellent",
        70..=79 => "🥈 B — Good",
        60..=69 => "🥉 C — Acceptable",
        50..=59 => "⚠️  D — Needs improvement",
        _ => "❌ F — Poor",
    }
}

// ── Bars ─────────────────────────────────────────────────────────────────────
/// A bar of which `filled` cells out of `width` are full.
pub open spec fn bar_of(filled: nat, width: nat) -> Seq<char> {
    repeated('█', filled) + repeated('░', (width - filled) as nat)
}

/// A bar of which `filled` cells out of `width` are full.
pub fn bar(filled: usize, width: usize) -> (res: String)
    requires
        filled <= width,
    ensures
        res@ == bar_of(filled as nat, width as nat),
{
    let mut s = String::new();
    push_repeated(&mut s, '█', filled);
    push_repeated(&mut s, '░', width - filled);
    assert(s@ =~= bar_of(filled as nat, width as nat));
    s
}

/// How many of a bar's cells are full for a score out of `max`. No more than all of them are.
pub open spec fn full_cells(score: nat, max: nat, width: nat) -> nat {
    if score * width / max < width {
        score * width / max
    } else {
        width
    }
}

/// The bar of a score out of `max`.
pub fn score_bar(score: u8, max: u8, width: u8) -> (res: String)
    requires
        max > 0,
    ensures
        res@ == bar_of(full_cells(score as nat, max as nat, width as nat), width as nat),
{
    assert(score * width <= 255 * 255) by (nonlinear_arith)
        requires
            score <= 255,
            width <= 255,
    ;
    let share: usize = score as usize * width as usize / max as usize;
    let filled: usize = if share < width as usize {
        share
    } else {
        width as usize
    };
    bar(filled, width as usize)
}

/// A dimension's bar, of 20 cells, when it has counted up to `current` out of `max`.
pub open spec fn frame_of(label: Seq<char>, current: nat, max: nat) -> Seq<char> {
    "\r  "@ + label + "  ["@ + bar_of(full_cells(current, max, 20), 20) + "] "@ + aligned_right(
        decimal(current),
        2,
    ) + "/"@ + decimal(max)
}

/// A dimension's bar when it has counted up to `current` out of `max`.
fn frame(label: &str, current: u8, max: u8) -> (res: String)
    requires
        max > 0,
    ensures
        res@ == frame_of(label@, current as nat, max as nat),
{
    let mut s = String::from_str("\r  ");
    s.append(label);
    s.append("  [");
    s.append(score_bar(current, max, 20).as_str());
    s.append("] ");
    s.append(align_right(decimal_string(current as u64).as_str(), 2).as_str());
    s.append("/");
    s.append(decimal_string(max as u64).as_str());
    s
}

// ── The reveal ───────────────────────────────────────────────────────────────
/// A step of the reveal: what is written, and how long it then rests, in milliseconds.
pub struct Step {
    pub text: String,
    pub pause_ms: u64,
}

/// What a step holds.
pub struct StepView {
    pub text: Seq<char>,
    pub pause_ms: u64,
}

/// What the steps hold, in order.
pub open spec fn script(steps: Seq<Step>) -> Seq<StepView> {
    Seq::new(steps.len(), |i: int| StepView { text: steps[i].text@, pause_ms: steps[i].pause_ms })
}

/// Appends a step.
fn push_step(steps: &mut Vec<Step>, text: String, pause_ms: u64)
    ensures
        script(final(steps)@) == script(old(steps)@).push(StepView { text: text@, pause_ms }),
{
    steps.push(Step { text, pause_ms });
    assert(script(steps@) =~= script(old(steps)@).push(StepView { text: text@, pause_ms }));
}

/// A dimension's bar counts up from 0 to its score.
pub open spec fn bar_steps(label: Seq<char>, score: u8, max: u8) -> Seq<StepView> {
    Seq::new(
        (score + 1) as nat,
        |i: int| StepView { text: frame_of(label, i as nat, max as nat), pause_ms: 30 },
    ).push(StepView { text: "\n"@, pause_ms: 200 })
}

/// Appends the steps in which a dimension's bar counts up.
fn push_bar(steps: &mut Vec<Step>, label: &str, score: u8, max: u8)
    requires
        max > 0,
    ensures
        script(final(steps)@) == script(old(steps)@) + bar_steps(label@, score, max),
{
    let ghost start = script(steps@);
    let ghost all = bar_steps(label@, score, max);
    let mut current: u8 = 0;
    assert(start + all.take(0) =~= start);
    while current < score
        invariant
            current <= score,
            max > 0,
            all == bar_steps(label@, score, max),
            script(steps@) == start + all.take(current as int),
        decreases score - current,
    {
        push_step(steps, frame(label, current, max), 30);
        current += 1;
        assert(start + all.take(current as int) =~= (start + all.take(current - 1)).push(
            all[current - 1],
        ));
    }
    push_step(steps, frame(label, score, max), 30);
    push_step(steps, String::from_str("\n"), 200);
    assert(script(steps@) =~= start + all);
}

/// The line of the total, when it has counted up to `current`.
pub open spec fn total_line(current: nat) -> Seq<char> {
    "\r│        ⭐ TOTAL SCORE:  "@ + aligned_right(decimal(current), 3) + "/100              │"@
}

/// How long the count rests at `current`: it slows down towards the end.
pub open spec fn count_pause(current: int, total: int) -> u64 {
    if current < total - 10 {
        20
    } else if current < total - 3 {
        60
    } else {
        120
    }
}

/// Where the count starts: at 1, unless the total is 0.
pub open spec fn count_start(total: u8) -> nat {
    if total == 0 {
        0
    } else {
        1
    }
}

/// The total counts up to the score.
pub open spec fn total_steps(total: u8) -> Seq<StepView> {
    Seq::new(
        (total + 1 - count_start(total)) as nat,
        |i: int|
            StepView {
                text: total_line((count_start(total) + i) as nat),
                pause_ms: count_pause(count_start(total) + i, total as int),
            },
    )
}

/// How long the count rests at `current`.
pub fn count_delay(current: u8, total: u8) -> (res: u64)
    ensures
        res == count_pause(current as int, total as int),
{
    if current < total.saturating_sub(10) {
        20
    } else if current < total.saturating_sub(3) {
        60
    } else {
        120
    }
}

/// Appends the steps in which the total counts up.
fn push_total(steps: &mut Vec<Step>, total: u8)
    ensures
        script(final(steps)@) == script(old(steps)@) + total_steps(total),
{
    let ghost start = script(steps@);
    let ghost all = total_steps(total);
    let first: u64 = if total == 0 {
        0
    } else {
        1
    };
    let mut current: u64 = first;
    assert(start + all.take(0) =~= start);
    while current <= total as u64
        invariant
            first == count_start(total),
            first <= current <= total + 1,
            all == total_steps(total),
            script(steps@) == start + all.take(current - first),
        decreases total + 1 - current,
    {
        let mut line = String::from_str("\r│        ⭐ TOTAL SCORE:  ");
        line.append(align_right(decimal_string(current).as_str(), 3).as_str());
        line.append("/100              │");
        push_step(steps, line, count_delay(current as u8, total));
        current += 1;
        assert(start + all.take(current - first) =~= (start + all.take(current - first - 1)).push(
            all[current - first - 1],
        ));
    }
    assert(all.take(current - first) =~= all);
}

/// The rule above a box.
pub const BOX_TOP: &'static str = "┌─────────────────────────────────────────────┐\n";

/// The rule below a box.
pub const BOX_BOTTOM: &'static str = "└─────────────────────────────────────────────┘\n";

/// The head of the report.
pub open spec fn report_head(session_id: Seq<char>, summary: Seq<char>) -> Seq<char> {
    BOX_TOP@ + "│          📊  SESSION SCORE REPORT            │\n│  Session: "@ + first_bytes(
        session_id,
        8,
    ) + "…  │\n"@ + BOX_BOTTOM@ + "\n📝 "@ + summary + "\n\n"@
}

/// A line for each observation.
pub open spec fn observation_lines(observations: Seq<Seq<char>>) -> Seq<char>
    decreases observations.len(),
{
    if observations.len() == 0 {
        Seq::empty()
    } else {
        observation_lines(observations.drop_last()) + "   • "@ + observations.last() + "\n"@
    }
}

/// The end of the report: observations, where there are any, reasons and grade.
pub open spec fn report_end(observations: Seq<Seq<char>>, reasoning: Seq<char>, total: u8) -> Seq<
    char,
> {
    "\n"@ + BOX_BOTTOM@ + "\n"@ + (if observations.len() > 0 {
        "💬 Observations:\n"@ + observation_lines(observations) + "\n"@
    } else {
        Seq::empty()
    }) + "🔍 Reasoning:\n   "@ + reasoning + "\n\n   Grade: "@ + grade_of(total) + "\n\n"@
}

/// The bars of the seven dimensions count up, one after another.
pub open spec fn dimension_steps(d: Dimensions) -> Seq<StepView> {
    bar_steps("🔒 Security   "@, d.security, 15) + bar_steps(
        "⚡ Effectivity"@,
        d.effectivity,
        15,
    ) + bar_steps("🏗  Solidity   "@, d.solidity, 10) + bar_steps(
        "💡 Efficiency "@,
        d.efficiency,
        15,
    ) + bar_steps("🗺  Planning   "@, d.planning_quality, 15) + bar_steps(
        "🔄 Recovery   "@,
        d.recovery_ability,
        15,
    ) + bar_steps("🎯 Hallucination"@, d.hallucination_rate, 15)
}

/// The reveal of a score: the head, the bars of the seven dimensions, the total, and the rest of
/// the report.
pub open spec fn reveal_of(result: ScoreResult) -> Seq<StepView> {
    seq![
        StepView { text: report_head(result.session_id@, result.summary@), pause_ms: 0 },
    ] + dimension_steps(result.dimensions) + seq![
        StepView { text: "\n"@ + BOX_TOP@, pause_ms: 0 },
    ] + total_steps(result.total_score)
        + seq![
        StepView {
            text: report_end(texts(result.observations@), result.reasoning@, result.total_score),
            pause_ms: 0,
        },
    ]
}

/// The score can be revealed: the session's id has eight bytes to show.
pub open spec fn can_reveal(result: ScoreResult) -> bool {
    splits_at(result.session_id@, 8)
}

/// Whether the score can be revealed.
pub fn can_be_revealed(result: &ScoreResult) -> (res: bool)
    ensures
        res == can_reveal(*result),
{
    result.session_id.as_str().is_char_boundary(8)
}

/// The head of the report.
fn head_text(result: &ScoreResult) -> (res: String)
    requires
        splits_at(result.session_id@, 8),
    ensures
        res@ == report_head(result.session_id@, result.summary@),
{
    let mut s = String::from_str(BOX_TOP);
    s.append("│          📊  SESSION SCORE REPORT            │\n│  Session: ");
    s.append(head(result.session_id.as_str(), 8));
    s.append("…  │\n");
    s.append(BOX_BOTTOM);
    s.append("\n📝 ");
    s.append(result.summary.as_str());
    s.append("\n\n");
    s
}

/// The end of the report.
fn end_text(result: &ScoreResult) -> (res: String)
    ensures
        res@ == report_end(texts(result.observations@), result.reasoning@, result.total_score),
{
    let ghost all = texts(result.observations@);
    let mut s = String::from_str("\n");
    s.append(BOX_BOTTOM);
    s.append("\n");
    let ghost start = s@;
    if result.observations.len() > 0 {
        let mut list = String::new();
        let mut i: usize = 0;
        assert(list@ =~= observation_lines(all.take(0)));
        while i < result.observations.len()
            invariant
                i <= result.observations.len(),
                all == texts(result.observations@),
                list@ == observation_lines(all.take(i as int)),
            decreases result.observations.len() - i,
        {
            list.append("   • ");
            list.append(result.observations[i].as_str());
            list.append("\n");
            i += 1;
            assert(all.take(i as int).drop_last() =~= all.take(i - 1));
        }
        assert(all.take(i as int) =~= all);
        s.append("💬 Observations:\n");
        s.append(list.as_str());
        s.append("\n");
        assert(s@ =~= start + ("💬 Observations:\n"@ + observation_lines(all) + "\n"@));
    }
    assert(s@ =~= start + (if all.len() > 0 {
        "💬 Observations:\n"@ + observation_lines(all) + "\n"@
    } else {
        Seq::empty()
    }));
    s.append("🔍 Reasoning:\n   ");
    s.append(result.reasoning.as_str());
    s.append("\n\n   Grade: ");
    s.append(score_grade(result.total_score));
    s.append("\n\n");
    s
}

/// Appends the steps in which the bars of the seven dimensions count up.
fn push_dimensions(steps: &mut Vec<Step>, d: &Dimensions)
    ensures
        script(final(steps)@) == script(old(steps)@) + dimension_steps(*d),
{
    let ghost start = script(steps@);
    push_bar(steps, "🔒 Security   ", d.security, 15);
    push_bar(steps, "⚡ Effectivity", d.effectivity, 15);
    push_bar(steps, "🏗  Solidity   ", d.solidity, 10);
    push_bar(steps, "💡 Efficiency ", d.efficiency, 15);
    push_bar(steps, "🗺  Planning   ", d.planning_quality, 15);
    push_bar(steps, "🔄 Recovery   ", d.recovery_ability, 15);
    push_bar(steps, "🎯 Hallucination", d.hallucination_rate, 15);
    assert(script(steps@) =~= start + dimension_steps(*d));
}

/// The steps in which a score is revealed on the terminal.
pub fn animate_score_reveal(result: &ScoreResult) -> (res: Vec<Step>)
    requires
        can_reveal(*result),
    ensures
        script(res@) == reveal_of(*result),
{
    let mut steps: Vec<Step> = Vec::new();
    push_step(&mut steps, head_text(result), 0);
    assert(script(steps@) =~= seq![
        StepView { text: report_head(result.session_id@, result.summary@), pause_ms: 0 },
    ]);
    push_dimensions(&mut steps, &result.dimensions);
    let ghost before = script(steps@);
    push_step(&mut steps, String::from_str("\n").concat(BOX_TOP), 0);
    assert(script(steps@) =~= before + seq![StepView { text: "\n"@ + BOX_TOP@, pause_ms: 0 }]);
    push_total(&mut steps, result.total_score);
    let ghost counted = script(steps@);
    let end = end_text(result);
    push_step(&mut steps, end, 0);
    assert(script(steps@) =~= counted + seq![StepView { text: end@, pause_ms: 0 }]);
    steps
}

// ── Laws ─────────────────────────────────────────────────────────────────────
/// The total counts up from 1, or from 0 where it is 0, by one at each step to the score.
pub proof fn law_total_counts_up(total: u8, i: int)
    requires
        0 <= i < total_steps(total).len(),
    ensures
        total_steps(total)[i].text == total_line((count_start(total) + i) as nat),
        total_steps(total).last().text == total_line(total as nat),
        total > 0 ==> total_steps(total)[0].text == total_line(1),
        total == 0 ==> total_steps(total)[0].text == total_line(0),
{
}

/// The count never gets faster.
pub proof fn law_count_slows_down(total: u8, i: int, j: int)
    requires
        0 <= i <= j < total_steps(total).len(),
    ensures
        total_steps(total)[i].pause_ms <= total_steps(total)[j].pause_ms,
{
}

/// Every bar is as wide as it should be, and it is full just where the score is the maximum or
/// more.
pub proof fn law_bars_show_every_score(score: nat, max: nat, width: nat)
    requires
        max > 0,
        width > 0,
    ensures
        bar_of(full_cells(score, max, width), width).len() == width,
        (full_cells(score, max, width) == width) == (score >= max),
{
    assert((score * width / max >= width) == (score >= max)) by (nonlinear_arith)
        requires
            max > 0,
            width > 0,
    ;
}

/// Each dimension's bar counts up from 0 by one at each step and ends at the score.
pub proof fn law_bars_count_up(label: Seq<char>, score: u8, max: u8, i: int)
    requires
        0 <= i <= score,
    ensures
        bar_steps(label, score, max).len() == score + 2,
        bar_steps(label, score, max)[i].text == frame_of(label, i as nat, max as nat),
        bar_steps(label, score, max)[score as int].text == frame_of(
            label,
            score as nat,
            max as nat,
        ),
{
}

/// Results of 90 to 100 have the grade S, 80 to 89 A, 70 to 79 B, 60 to 69 C, 50 to 59 D, and the
/// others F.
pub proof fn law_grades(score: u8)
    ensures
        90 <= score <= 100 ==> grade_of(score) == "🏆 S — Exceptional"@,
        80 <= score < 90 ==> grade_of(score) == "🥇 A — Excellent"@,
        70 <= score < 80 ==> grade_of(score) == "🥈 B — Good"@,
        60 <= score < 70 ==> grade_of(score) == "🥉 C — Acceptable"@,
        50 <= score < 60 ==> grade_of(score) == "⚠️  D — Needs improvement"@,
        score < 50 || score > 100 ==> grade_of(score) == "❌ F — Poor"@,
{
}

/// A bar is full from the left, cell by cell.
pub proof fn law_bars_fill_from_the_left(filled: nat, width: nat, i: int)
    requires
        filled <= width,
        0 <= i < width,
    ensures
        bar_of(filled, width).len() == width,
        i < filled ==> bar_of(filled, width)[i] == '█',
        i >= filled ==> bar_of(filled, width)[i] == '░',
{
}

/// A score below its maximum fills its share of the cells, rounded down.
pub proof fn law_bars_show_the_share(score: nat, max: nat, width: nat)
    requires
        score < max,
    ensures
        full_cells(score, max, width) * max <= score * width,
        score * width < (full_cells(score, max, width) + 1) * max,
{
    let n = score * width / max;
    assert(n * max <= score * width && score * width < (n + 1) * max) by (nonlinear_arith)
        requires
            n == score * width / max,
            max > 0,
    ;
    assert(width > 0 ==> n < width) by (nonlinear_arith)
        requires
            n * max <= score * width,
            score < max,
    ;
    if width == 0 {
        assert(score * width == 0) by (nonlinear_arith)
            requires
                width == 0,
        ;
        assert(0 * max == 0 && 1 * max == max) by (nonlinear_arith);
    }
}

/// A frame of a bar shows the name of the dimension, the bar, and the score out of its maximum.
pub proof fn law_frames(label: Seq<char>, current: nat, max: nat)
    ensures
        frame_of(label, current, max) == "\r  "@ + label + "  ["@ + bar_of(
            full_cells(current, max, 20),
            20,
        ) + "] "@ + aligned_right(decimal(current), 2) + "/"@ + decimal(max),
{
}

/// Each step of a bar rests 30 milliseconds; then the line ends, and it rests 200.
pub proof fn law_bars_rest(label: Seq<char>, score: u8, max: u8, i: int)
    requires
        0 <= i <= score,
    ensures
        bar_steps(label, score, max)[i].pause_ms == 30,
        bar_steps(label, score, max).last().pause_ms == 200,
        bar_steps(label, score, max).last().text == "\n"@,
        bar_steps(label, score, max).len() == score + 2,
{
}

/// The line of the total shows the count out of 100.
pub proof fn law_total_lines(n: nat)
    ensures
        total_line(n) == "\r│        ⭐ TOTAL SCORE:  "@ + aligned_right(decimal(n), 3)
            + "/100              │"@,
{
}

/// The count rests 120 milliseconds at each of the last four numbers, 60 at the seven before them,
/// and 20 at all others.
pub proof fn law_count_pauses(current: int, total: int)
    ensures
        total - 3 <= current ==> count_pause(current, total) == 120,
        total - 10 <= current < total - 3 ==> count_pause(current, total) == 60,
        current < total - 10 ==> count_pause(current, total) == 20,
{
}

/// The count rests as its pauses say.
pub proof fn law_count_rests(total: u8, i: int)
    requires
        0 <= i < total_steps(total).len(),
    ensures
        total_steps(total)[i].pause_ms == count_pause(
            i + if total == 0 {
                0int
            } else {
                1
            },
            total as int,
        ),
        total > 0 ==> total_steps(total).len() == total,
        total == 0 ==> total_steps(total).len() == 1,
{
}

/// The steps from `at` on are those of a bar, or of the count.
pub open spec fn bar_at(steps: Seq<StepView>, at: int, bar: Seq<StepView>) -> bool {
    0 <= at && at + bar.len() <= steps.len() && steps.subrange(at, at + bar.len()) == bar
}

/// The bars count up in the order of the dimensions, each to its own score and out of its own
/// maximum: 15, but for solidity, which is out of 10.
pub proof fn law_order_of_the_bars(d: Dimensions)
    ensures
        ({
            let all = dimension_steps(d);
            let security = d.security + 2;
            let effectivity = security + d.effectivity + 2;
            let solidity = effectivity + d.solidity + 2;
            let efficiency = solidity + d.efficiency + 2;
            let planning = efficiency + d.planning_quality + 2;
            let recovery = planning + d.recovery_ability + 2;
            &&& bar_at(all, 0, bar_steps("🔒 Security   "@, d.security, 15))
            &&& bar_at(all, security, bar_steps("⚡ Effectivity"@, d.effectivity, 15))
            &&& bar_at(all, effectivity, bar_steps("🏗  Solidity   "@, d.solidity, 10))
            &&& bar_at(all, solidity, bar_steps("💡 Efficiency "@, d.efficiency, 15))
            &&& bar_at(all, efficiency, bar_steps("🗺  Planning   "@, d.planning_quality, 15))
            &&& bar_at(all, planning, bar_steps("🔄 Recovery   "@, d.recovery_ability, 15))
            &&& bar_at(all, recovery, bar_steps("🎯 Hallucination"@, d.hallucination_rate, 15))
            &&& all.len() == recovery + d.hallucination_rate + 2
        }),
{
    let all = dimension_steps(d);
    let a = bar_steps("🔒 Security   "@, d.security, 15);
    let b = bar_steps("⚡ Effectivity"@, d.effectivity, 15);
    let c = bar_steps("🏗  Solidity   "@, d.solidity, 10);
    let e = bar_steps("💡 Efficiency "@, d.efficiency, 15);
    let f = bar_steps("🗺  Planning   "@, d.planning_quality, 15);
    let g = bar_steps("🔄 Recovery   "@, d.recovery_ability, 15);
    let h = bar_steps("🎯 Hallucination"@, d.hallucination_rate, 15);
    let b0 = a.len() as int;
    let c0 = b0 + b.len();
    let e0 = c0 + c.len();
    let f0 = e0 + e.len();
    let g0 = f0 + f.len();
    let h0 = g0 + g.len();
    assert(all.subrange(0, b0) =~= a);
    assert(all.subrange(b0, c0) =~= b);
    assert(all.subrange(c0, e0) =~= c);
    assert(all.subrange(e0, f0) =~= e);
    assert(all.subrange(f0, g0) =~= f);
    assert(all.subrange(g0, h0) =~= g);
    assert(all.subrange(h0, h0 + h.len()) =~= h);
}

/// A line for each observation, in order.
pub proof fn law_observation_lines(a: Seq<Seq<char>>, b: Seq<Seq<char>>, text: Seq<char>)
    ensures
        observation_lines(Seq::empty()) == Seq::<char>::empty(),
        observation_lines(seq![text]) == "   • "@ + text + "\n"@,
        observation_lines(a + b) == observation_lines(a) + observation_lines(b),
    decreases b.len(),
{
    assert(seq![text].drop_last() =~= Seq::empty());
    assert(observation_lines(Seq::<Seq<char>>::empty()) =~= Seq::empty());
    assert(observation_lines(seq![text]) =~= "   • "@ + text + "\n"@);
    if b.len() == 0 {
        assert(a + b =~= a);
        assert(observation_lines(a) + observation_lines(b) =~= observation_lines(a));
    } else {
        assert((a + b).drop_last() =~= a + b.drop_last());
        law_observation_lines(a, b.drop_last(), text);
        assert(observation_lines(a + b) =~= observation_lines(a) + observation_lines(b));
    }
}

/// `s` ends in `end`.
pub open spec fn ends_in(s: Seq<char>, end: Seq<char>) -> bool {
    s.len() >= end.len() && s.skip(s.len() - end.len()) == end
}

/// The reveal starts with the head of the report, and ends with the observations, where there are
/// any, the reasons, and the grade of the total.
pub proof fn law_reveal(result: ScoreResult)
    ensures
        reveal_of(result)[0].text == report_head(result.session_id@, result.summary@),
        ends_in(
            reveal_of(result).last().text,
            "   Grade: "@ + grade_of(result.total_score) + "\n\n"@,
        ),
        ends_in(
            reveal_of(result).last().text,
            "🔍 Reasoning:\n   "@ + result.reasoning@ + "\n\n   Grade: "@ + grade_of(
                result.total_score,
            ) + "\n\n"@,
        ),
        reveal_of(result).last().text == "\n"@ + BOX_BOTTOM@ + "\n"@ + (
        if result.observations@.len() > 0 {
            "💬 Observations:\n"@ + observation_lines(texts(result.observations@)) + "\n"@
        } else {
            Seq::<char>::empty()
        }) + "🔍 Reasoning:\n   "@ + result.reasoning@ + "\n\n   Grade: "@ + grade_of(
            result.total_score,
        ) + "\n\n"@,
        reveal_of(result)[0].pause_ms == 0,
        reveal_of(result).last().pause_ms == 0,
{
    let last = reveal_of(result).last().text;
    let grade = grade_of(result.total_score);
    let end = "   Grade: "@ + grade + "\n\n"@;
    let more = "🔍 Reasoning:\n   "@ + result.reasoning@ + "\n\n   Grade: "@ + grade + "\n\n"@;
    let observations = if result.observations@.len() > 0 {
        "💬 Observations:\n"@ + observation_lines(texts(result.observations@)) + "\n"@
    } else {
        Seq::<char>::empty()
    };
    let start = "\n"@ + BOX_BOTTOM@ + "\n"@ + observations;
    assert(last == report_end(texts(result.observations@), result.reasoning@, result.total_score));
    assert(last =~= start + more);
    reveal_strlit("\n\n   Grade: ");
    reveal_strlit("   Grade: ");
    reveal_strlit("\n\n");
    assert("\n\n   Grade: "@ =~= "\n\n"@ + "   Grade: "@);
    assert(last =~= start + ("🔍 Reasoning:\n   "@ + result.reasoning@ + "\n\n"@) + end);
    assert(last.skip(last.len() - end.len()) =~= end);
    assert(last.skip(last.len() - more.len()) =~= more);
}

/// The head of the report shows the first eight bytes of the session's id and the summary.
pub proof fn law_report_head(session_id: Seq<char>, summary: Seq<char>)
    ensures
        report_head(session_id, summary) == BOX_TOP@
            + "│          📊  SESSION SCORE REPORT            │\n│  Session: "@ + first_bytes(
            session_id,
            8,
        ) + "…  │\n"@ + BOX_BOTTOM@ + "\n📝 "@ + summary + "\n\n"@,
        BOX_TOP@ == "┌─────────────────────────────────────────────┐\n"@,
        BOX_BOTTOM@ == "└─────────────────────────────────────────────┘\n"@,
{
}

/// Between the head and the end, the reveal shows the bars, the top of a box and the count.
pub proof fn law_order_of_the_reveal(result: ScoreResult)
    ensures
        ({
            let all = reveal_of(result);
            let bars = dimension_steps(result.dimensions);
            let count = total_steps(result.total_score);
            let top = 1 + bars.len() as int;
            &&& all.len() == bars.len() + count.len() + 3
            &&& bar_at(all, 1, bars)
            &&& all[top].text == "\n"@ + BOX_TOP@
            &&& all[top].pause_ms == 0
            &&& bar_at(all, top + 1, count)
        }),
{
    let all = reveal_of(result);
    let bars = dimension_steps(result.dimensions);
    let count = total_steps(result.total_score);
    let top = 1 + bars.len() as int;
    assert(all.subrange(1, top) =~= bars);
    assert(all.subrange(top + 1, top + 1 + count.len()) =~= count);
}

/// A score can be revealed where its session's id has eight bytes that end with a character.
pub proof fn law_what_can_be_revealed(result: ScoreResult)
    ensures
        can_reveal(result) == splits_at(result.session_id@, 8),
{
}

/// The script of the steps is what the steps hold.
pub proof fn law_script(steps: Seq<Step>, i: int)
    requires
        0 <= i < steps.len(),
    ensures
        script(steps).len() == steps.len(),
        script(steps)[i].text == steps[i].text@,
        script(steps)[i].pause_ms == steps[i].pause_ms,
{
}

} // verus!
