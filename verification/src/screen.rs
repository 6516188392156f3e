//! What the session browser writes on the screen.
use crate::animation::{bar_of, full_cells, grade_of, score_bar, score_grade};
use crate::particles::{AnimationKind, Color};
use crate::score::{Dimensions, ScoreResult};
use crate::session::Session;
use crate::text::{
    align_left, align_right, aligned_left, aligned_right, chars_of, decimal, decimal_string,
    first_bytes, head, is_white_space, piece, splits_at, texts, trim, trim_end, trim_start,
    trimmed,
};
use vstd::prelude::*;
use vstd::string::StringExecFns;

verus! {

// ── Colours and marks ────────────────────────────────────────────────────────
/// The colour of a score, by its grade.
pub open spec fn color_of(score: u8) -> Color {
    if 90 <= score <= 100 {
        Color::LightMagenta
    } else if 80 <= score <= 89 {
        Color::LightGreen
    } else if 70 <= score <= 79 {
        Color::Green
    } else if 60 <= score <= 69 {
        Color::Yellow
    } else if 50 <= score <= 59 {
        Color::LightYellow
    } else {
        Color::Red
    }
}

/// The colour of a score.
pub fn score_color(score: u8) -> (res: Color)
    ensures
        res == color_of(score),
{
    match score {
        90..=100 => Color::LightMagenta,
        80..=89 => Color::LightGreen,
        70..=79 => Color::Green,
        60..=69 => Color::Yellow,
        50..=59 => Color::LightYellow,
        _ => Color::Red,
    }
}

/// What stands before the first `c`; all of the text where there is none.
pub open spec fn before(s: Seq<char>, c: char) -> Seq<char>
    decreases s.len(),
{
    if s.len() == 0 || s[0] == c {
        Seq::empty()
    } else {
        seq![s[0]] + before(s.skip(1), c)
    }
}

/// What stands after the last `c`; all of the text where there is none.
pub open spec fn after_last(s: Seq<char>, c: char) -> Seq<char>
    decreases s.len(),
{
    if s.len() == 0 || s.last() == c {
        Seq::empty()
    } else {
        after_last(s.drop_last(), c).push(s.last())
    }
}

proof fn lemma_before(s: Seq<char>, c: char, k: int)
    requires
        0 <= k <= s.len(),
        forall|i: int| 0 <= i < k ==> s[i] != c,
        k < s.len() ==> s[k] == c,
    ensures
        before(s, c) == s.take(k),
    decreases k,
{
    if k > 0 {
        lemma_before(s.skip(1), c, k - 1);
        assert(s.take(k) =~= seq![s[0]] + s.skip(1).take(k - 1));
    } else {
        assert(s.take(0) =~= Seq::<char>::empty());
    }
}

proof fn lemma_after_last(s: Seq<char>, c: char, k: int)
    requires
        0 <= k <= s.len(),
        forall|i: int| k <= i < s.len() ==> s[i] != c,
        k > 0 ==> s[k - 1] == c,
    ensures
        after_last(s, c) == s.skip(k),
    decreases s.len(),
{
    if k < s.len() {
        lemma_after_last(s.drop_last(), c, k);
        assert(s.skip(k) =~= s.drop_last().skip(k).push(s.last()));
    } else {
        assert(s.skip(k) =~= Seq::<char>::empty());
    }
}

/// What stands before the first `c`.
fn text_before(s: &str, c: char) -> (res: String)
    ensures
        res@ == before(s@, c),
{
    let chars = chars_of(s);
    let mut k: usize = 0;
    while k < chars.len() && chars[k] != c
        invariant
            k <= chars.len(),
            chars@ == s@,
            forall|i: int| 0 <= i < k ==> chars@[i] != c,
        decreases chars.len() - k,
    {
        k += 1;
    }
    proof {
        lemma_before(s@, c, k as int);
        assert(s@.take(k as int) =~= s@.subrange(0, k as int));
    }
    piece(&chars, 0, k)
}

/// What stands after the last `c`.
fn text_after_last(s: &str, c: char) -> (res: String)
    ensures
        res@ == after_last(s@, c),
{
    let chars = chars_of(s);
    let mut k: usize = chars.len();
    while k > 0 && chars[k - 1] != c
        invariant
            k <= chars.len(),
            chars@ == s@,
            forall|i: int| k <= i < chars@.len() ==> chars@[i] != c,
        decreases k,
    {
        k -= 1;
    }
    proof {
        lemma_after_last(s@, c, k as int);
        assert(s@.skip(k as int) =~= s@.subrange(k as int, s@.len() as int));
    }
    piece(&chars, k, chars.len())
}

/// The mark of a score's grade, without its name.
pub open spec fn mark_of(score: u8) -> Seq<char> {
    trimmed(before(grade_of(score), '—'))
}

// ── The list ─────────────────────────────────────────────────────────────────
/// What the title says of the page.
pub open spec fn title_of(page: nat, total_pages: nat, sessions: nat) -> Seq<char> {
    "  Page "@ + decimal(page + 1) + "/"@ + decimal(total_pages) + " — "@ + decimal(sessions)
        + " sessions"@
}

/// What the title says of the page.
pub fn list_title(page: usize, total_pages: usize, sessions: usize) -> (res: String)
    requires
        page < total_pages,
    ensures
        res@ == title_of(page as nat, total_pages as nat, sessions as nat),
{
    let mut s = String::from_str("  Page ");
    s.append(decimal_string((page + 1) as u64).as_str());
    s.append("/");
    s.append(decimal_string(total_pages as u64).as_str());
    s.append(" — ");
    s.append(decimal_string(sessions as u64).as_str());
    s.append(" sessions");
    s
}

/// The first 28 characters of a summary, and an ellipsis where it goes on.
pub open spec fn brief_of(summary: Seq<char>) -> Seq<char> {
    if summary.len() > 28 {
        summary.take(28) + "…"@
    } else {
        summary
    }
}

/// The first 28 characters of a summary.
fn brief(summary: &str) -> (res: String)
    ensures
        res@ == brief_of(summary@),
{
    let chars = chars_of(summary);
    if chars.len() > 28 {
        assert(summary@.take(28) =~= summary@.subrange(0, 28));
        let mut s = piece(&chars, 0, 28);
        s.append("…");
        s
    } else {
        String::from_str(summary)
    }
}

/// The line of a session in the list, in the parts that have a style of their own. Where the
/// session has no score, its score has no colour.
pub struct Row {
    pub date: String,
    pub id: String,
    pub project: String,
    pub messages: String,
    pub score: String,
    pub color: Option<Color>,
    pub scored_at: String,
    pub brief: String,
}

/// What a row holds.
#[verifier::ext_equal]
pub struct RowView {
    pub date: Seq<char>,
    pub id: Seq<char>,
    pub project: Seq<char>,
    pub messages: Seq<char>,
    pub score: Seq<char>,
    pub color: Option<Color>,
    pub scored_at: Seq<char>,
    pub brief: Seq<char>,
}

impl View for Row {
    type V = RowView;

    open spec fn view(&self) -> RowView {
        RowView {
            date: self.date@,
            id: self.id@,
            project: self.project@,
            messages: self.messages@,
            score: self.score@,
            color: self.color,
            scored_at: self.scored_at@,
            brief: self.brief@,
        }
    }
}

/// The line of a session in the list. `started` is the time when the session started, where it is
/// known, and `scored` the time when it was scored, as the machine's clock would show them.
pub open spec fn row_of(
    session: Session,
    score: Option<ScoreResult>,
    started: Option<Seq<char>>,
    scored: Seq<char>,
) -> RowView {
    RowView {
        date: " "@ + (match started {
            Some(date) => date,
            None => "??-?? ??:??"@,
        }) + " "@,
        id: first_bytes(session.session_id@, 8) + " "@,
        project: aligned_left(after_last(session.project_slug@, '-'), 20) + " "@,
        messages: aligned_right(decimal(session.message_count as nat), 4) + "msg "@,
        score: match score {
            Some(s) => aligned_right(decimal(s.total_score as nat), 3) + "/100 "@ + mark_of(
                s.total_score,
            ),
            None => "  —/100"@,
        },
        color: match score {
            Some(s) => Some(color_of(s.total_score)),
            None => None,
        },
        scored_at: match score {
            Some(s) => scored,
            None => "           "@,
        },
        brief: match score {
            Some(s) => brief_of(s.summary@),
            None => Seq::empty(),
        },
    }
}

/// The score of a session in the list.
fn score_cell(score: u8) -> (res: String)
    ensures
        res@ == aligned_right(decimal(score as nat), 3) + "/100 "@ + mark_of(score),
{
    let mut s = align_right(decimal_string(score as u64).as_str(), 3);
    s.append("/100 ");
    s.append(trim(text_before(score_grade(score), '—').as_str()));
    s
}

/// The line of a session in the list.
pub fn list_row(
    session: &Session,
    score: &Option<ScoreResult>,
    started: Option<&str>,
    scored: &str,
) -> (res: Row)
    requires
        splits_at(session.session_id@, 8),
    ensures
        res@ == row_of(
            *session,
            *score,
            match started {
                Some(date) => Some(date@),
                None => None,
            },
            scored@,
        ),
{
    let mut date = String::from_str(" ");
    match started {
        Some(d) => date.append(d),
        None => date.append("??-?? ??:??"),
    }
    date.append(" ");
    let mut id = String::from_str(head(session.session_id.as_str(), 8));
    id.append(" ");
    let mut project = align_left(text_after_last(session.project_slug.as_str(), '-').as_str(), 20);
    project.append(" ");
    let mut messages = align_right(decimal_string(session.message_count as u64).as_str(), 4);
    messages.append("msg ");
    match score {
        Some(s) => Row {
            date,
            id,
            project,
            messages,
            score: score_cell(s.total_score),
            color: Some(score_color(s.total_score)),
            scored_at: String::from_str(scored),
            brief: brief(s.summary.as_str()),
        },
        None => Row {
            date,
            id,
            project,
            messages,
            score: String::from_str("  —/100"),
            color: None,
            scored_at: String::from_str("           "),
            brief: String::new(),
        },
    }
}

// ── The detail view ──────────────────────────────────────────────────────────
/// What the detail view says of a session without a score.
pub open spec fn unscored_text(session: Session) -> Seq<char> {
    "\n  Session: "@ + session.session_id@ + "\n  Project: "@ + session.project_slug@
        + "\n\n  ⚠  Not yet scored. Press Enter to score now."@
}

/// What the detail view says of a session without a score.
pub fn unscored_detail(session: &Session) -> (res: String)
    ensures
        res@ == unscored_text(*session),
{
    let mut s = String::from_str("\n  Session: ");
    s.append(session.session_id.as_str());
    s.append("\n  Project: ");
    s.append(session.project_slug.as_str());
    s.append("\n\n  ⚠  Not yet scored. Press Enter to score now.");
    s
}

/// The line of a dimension: its name, a bar and its score.
pub open spec fn dimension_line(label: Seq<char>, score: u8, max: u8) -> Seq<char> {
    "  "@ + label + " ["@ + bar_of(full_cells(score as nat, max as nat, 12), 12) + "] "@ + aligned_right(
        decimal(score as nat),
        2,
    ) + "/"@ + decimal(max as nat)
}

/// The line of a dimension.
pub fn bar_line(label: &str, score: u8, max: u8) -> (res: String)
    requires
        max > 0,
    ensures
        res@ == dimension_line(label@, score, max),
{
    let mut s = String::from_str("  ");
    s.append(label);
    s.append(" [");
    s.append(score_bar(score, max, 12).as_str());
    s.append("] ");
    s.append(align_right(decimal_string(score as u64).as_str(), 2).as_str());
    s.append("/");
    s.append(decimal_string(max as u64).as_str());
    s
}

/// The lines of the seven dimensions.
pub open spec fn dimension_lines_of(d: Dimensions) -> Seq<Seq<char>> {
    seq![
        dimension_line("🔒 Security      "@, d.security, 15),
        dimension_line("⚡ Effectivity   "@, d.effectivity, 15),
        dimension_line("🏗  Solidity      "@, d.solidity, 10),
        dimension_line("💡 Efficiency    "@, d.efficiency, 15),
        dimension_line("🗺  Planning      "@, d.planning_quality, 15),
        dimension_line("🔄 Recovery      "@, d.recovery_ability, 15),
        dimension_line("🎯 Hallucination "@, d.hallucination_rate, 15),
    ]
}

/// The lines of the seven dimensions.
pub fn dimension_lines(d: &Dimensions) -> (res: Vec<String>)
    ensures
        texts(res@) == dimension_lines_of(*d),
{
    let mut lines: Vec<String> = Vec::new();
    lines.push(bar_line("🔒 Security      ", d.security, 15));
    lines.push(bar_line("⚡ Effectivity   ", d.effectivity, 15));
    lines.push(bar_line("🏗  Solidity      ", d.solidity, 10));
    lines.push(bar_line("💡 Efficiency    ", d.efficiency, 15));
    lines.push(bar_line("🗺  Planning      ", d.planning_quality, 15));
    lines.push(bar_line("🔄 Recovery      ", d.recovery_ability, 15));
    lines.push(bar_line("🎯 Hallucination ", d.hallucination_rate, 15));
    assert(texts(lines@) =~= dimension_lines_of(*d));
    lines
}

/// The lines below the total: the grade, a gap, the session and when it was scored.
pub open spec fn card_lines_of(session: Session, score: ScoreResult, scored: Seq<char>) -> Seq<
    Seq<char>,
> {
    seq![
        "  Grade: "@ + grade_of(score.total_score),
        ""@,
        "  Session: "@ + first_bytes(session.session_id@, 8) + "…"@,
        "  Scored:  "@ + scored,
    ]
}

/// The lines below the total; `scored` is the time when the session was scored.
pub fn card_lines(session: &Session, score: &ScoreResult, scored: &str) -> (res: Vec<String>)
    requires
        splits_at(session.session_id@, 8),
    ensures
        texts(res@) == card_lines_of(*session, *score, scored@),
{
    let mut lines: Vec<String> = Vec::new();
    lines.push(String::from_str("  Grade: ").concat(score_grade(score.total_score)));
    lines.push(String::from_str(""));
    lines.push(
        String::from_str("  Session: ").concat(head(session.session_id.as_str(), 8)).concat("…"),
    );
    lines.push(String::from_str("  Scored:  ").concat(scored));
    assert(texts(lines@) =~= card_lines_of(*session, *score, scored@));
    lines
}

/// The total of a score, out of 100.
pub open spec fn total_text_of(score: u8) -> Seq<char> {
    decimal(score as nat) + "/100"@
}

/// The total of a score, out of 100.
pub fn total_text(score: u8) -> (res: String)
    ensures
        res@ == total_text_of(score),
{
    decimal_string(score as u64).concat("/100")
}

/// A line of the analysis: a heading, and the text behind it.
pub struct AnalysisLine {
    pub heading: &'static str,
    pub text: String,
}

/// What the lines of an analysis hold: headings and texts.
pub open spec fn contents(lines: Seq<AnalysisLine>) -> Seq<(Seq<char>, Seq<char>)> {
    Seq::new(lines.len(), |i: int| (lines[i].heading@, lines[i].text@))
}

/// A line without a heading for each observation.
pub open spec fn bullets_of(observations: Seq<Seq<char>>) -> Seq<(Seq<char>, Seq<char>)> {
    Seq::new(observations.len(), |i: int| (""@, "  • "@ + observations[i]))
}

/// The analysis: summary and reasoning, and the observations, where there are any.
pub open spec fn analysis_of(score: ScoreResult) -> Seq<(Seq<char>, Seq<char>)> {
    seq![("Summary: "@, score.summary@), (""@, ""@), ("Reasoning: "@, score.reasoning@)] + (
    if score.observations@.len() > 0 {
        seq![(""@, ""@), ("Observations:"@, ""@)] + bullets_of(texts(score.observations@))
    } else {
        Seq::empty()
    })
}

/// Appends a line of the analysis.
fn push_line(lines: &mut Vec<AnalysisLine>, heading: &'static str, text: String)
    ensures
        contents(final(lines)@) == contents(old(lines)@).push((heading@, text@)),
{
    lines.push(AnalysisLine { heading, text });
    assert(contents(lines@) =~= contents(old(lines)@).push((heading@, text@)));
}

/// The analysis of a session.
pub fn analysis(score: &ScoreResult) -> (res: Vec<AnalysisLine>)
    ensures
        contents(res@) == analysis_of(*score),
{
    let mut lines: Vec<AnalysisLine> = Vec::new();
    push_line(&mut lines, "Summary: ", score.summary.clone());
    push_line(&mut lines, "", String::from_str(""));
    push_line(&mut lines, "Reasoning: ", score.reasoning.clone());
    if score.observations.len() > 0 {
        push_line(&mut lines, "", String::from_str(""));
        push_line(&mut lines, "Observations:", String::from_str(""));
        let ghost start = contents(lines@);
        let ghost all = bullets_of(texts(score.observations@));
        let mut i: usize = 0;
        assert(start + all.take(0) =~= start);
        while i < score.observations.len()
            invariant
                i <= score.observations.len(),
                all == bullets_of(texts(score.observations@)),
                contents(lines@) == start + all.take(i as int),
            decreases score.observations.len() - i,
        {
            push_line(
                &mut lines,
                "",
                String::from_str("  • ").concat(score.observations[i].as_str()),
            );
            i += 1;
            assert(start + all.take(i as int) =~= (start + all.take(i - 1)).push(all[i - 1]));
        }
        assert(all.take(i as int) =~= all);
    }
    assert(contents(lines@) =~= analysis_of(*score));
    lines
}

// ── Laws ─────────────────────────────────────────────────────────────────────
/// Two scores have the same grade just where they have the same colour, and just where their
/// celebrations are of the same kind.
pub proof fn law_grade_sets_colour_and_celebration(a: u8, b: u8)
    ensures
        (grade_of(a) == grade_of(b)) == (color_of(a) == color_of(b)),
        (grade_of(a) == grade_of(b)) == (AnimationKind::for_score(a) == AnimationKind::for_score(
            b,
        )),
{
    reveal_strlit("🏆 S — Exceptional");
    reveal_strlit("🥇 A — Excellent");
    reveal_strlit("🥈 B — Good");
    reveal_strlit("🥉 C — Acceptable");
    reveal_strlit("⚠️  D — Needs improvement");
    reveal_strlit("❌ F — Poor");
    assert(grade_of(a)[0] == match AnimationKind::for_score(a) {
        AnimationKind::GrandFireworks => '🏆',
        AnimationKind::Fireworks => '🥇',
        AnimationKind::Confetti => '🥈',
        AnimationKind::Snow => '🥉',
        AnimationKind::Bubbles => '⚠',
        AnimationKind::ShootingStars => '❌',
    });
    assert(grade_of(b)[0] == match AnimationKind::for_score(b) {
        AnimationKind::GrandFireworks => '🏆',
        AnimationKind::Fireworks => '🥇',
        AnimationKind::Confetti => '🥈',
        AnimationKind::Snow => '🥉',
        AnimationKind::Bubbles => '⚠',
        AnimationKind::ShootingStars => '❌',
    });
}

/// The colours of the grades.
pub proof fn law_colours(score: u8)
    ensures
        90 <= score <= 100 ==> color_of(score) == Color::LightMagenta,
        80 <= score < 90 ==> color_of(score) == Color::LightGreen,
        70 <= score < 80 ==> color_of(score) == Color::Green,
        60 <= score < 70 ==> color_of(score) == Color::Yellow,
        50 <= score < 60 ==> color_of(score) == Color::LightYellow,
        score < 50 || score > 100 ==> color_of(score) == Color::Red,
{
}

/// What stands before the first sign, and what stands after the last one.
pub proof fn law_around_a_sign(a: Seq<char>, c: char, b: Seq<char>)
    ensures
        (forall|i: int| 0 <= i < a.len() ==> a[i] != c) ==> before(a.push(c) + b, c) == a
            && before(a, c) == a && after_last(a, c) == a,
        (forall|i: int| 0 <= i < b.len() ==> b[i] != c) ==> after_last(a.push(c) + b, c) == b,
{
    let s = a.push(c) + b;
    if forall|i: int| 0 <= i < a.len() ==> a[i] != c {
        assert forall|i: int| 0 <= i < a.len() implies s[i] != c by {
            assert(s[i] == a[i]);
        }
        lemma_before(s, c, a.len() as int);
        assert(s.take(a.len() as int) =~= a);
        lemma_before(a, c, a.len() as int);
        assert(a.take(a.len() as int) =~= a);
        lemma_after_last(a, c, 0);
        assert(a.skip(0) =~= a);
    }
    if forall|i: int| 0 <= i < b.len() ==> b[i] != c {
        let k = a.len() + 1;
        assert forall|i: int| k <= i < s.len() implies s[i] != c by {
            assert(s[i] == b[i - k]);
        }
        lemma_after_last(s, c, k as int);
        assert(s.skip(k as int) =~= b);
    }
}

/// The mark of a grade is its sign and its letter.
pub proof fn law_marks(score: u8)
    ensures
        90 <= score <= 100 ==> mark_of(score) == "🏆 S"@,
        80 <= score < 90 ==> mark_of(score) == "🥇 A"@,
        70 <= score < 80 ==> mark_of(score) == "🥈 B"@,
        60 <= score < 70 ==> mark_of(score) == "🥉 C"@,
        50 <= score < 60 ==> mark_of(score) == "⚠️  D"@,
        score < 50 || score > 100 ==> mark_of(score) == "❌ F"@,
{
    reveal_strlit("🏆 S — Exceptional");
    reveal_strlit("🥇 A — Excellent");
    reveal_strlit("🥈 B — Good");
    reveal_strlit("🥉 C — Acceptable");
    reveal_strlit("⚠️  D — Needs improvement");
    reveal_strlit("❌ F — Poor");
    reveal_strlit("🏆 S");
    reveal_strlit("🥇 A");
    reveal_strlit("🥈 B");
    reveal_strlit("🥉 C");
    reveal_strlit("⚠️  D");
    reveal_strlit("❌ F");
    let mark = if 90 <= score <= 100 {
        "🏆 S"@
    } else if 80 <= score < 90 {
        "🥇 A"@
    } else if 70 <= score < 80 {
        "🥈 B"@
    } else if 60 <= score < 70 {
        "🥉 C"@
    } else if 50 <= score < 60 {
        "⚠️  D"@
    } else {
        "❌ F"@
    };
    let grade = grade_of(score);
    let k = mark.len() as int + 1;
    lemma_before(grade, '—', k);
    assert(grade.take(k) =~= mark.push(' '));
    lemma_one_space_behind(mark);
}

proof fn lemma_one_space_behind(mark: Seq<char>)
    requires
        mark.len() > 0,
        !is_white_space(mark[0]),
        !is_white_space(mark.last()),
    ensures
        trimmed(mark.push(' ')) == mark,
{
    let s = mark.push(' ');
    assert(trim_start(s) == s);
    assert(s.drop_last() =~= mark);
    assert(trim_end(mark) == mark);
    assert(trim_end(s) == trim_end(mark));
}

/// The title counts the pages from one.
pub proof fn law_titles(page: nat, total_pages: nat, sessions: nat)
    ensures
        title_of(page, total_pages, sessions) == "  Page "@ + decimal(page + 1) + "/"@ + decimal(
            total_pages,
        ) + " — "@ + decimal(sessions) + " sessions"@,
{
}

/// A summary of up to 28 characters is shown whole; of a longer one the first 28 are, with an
/// ellipsis.
pub proof fn law_briefs(a: Seq<char>, b: Seq<char>)
    ensures
        a.len() <= 28 ==> brief_of(a) == a,
        a.len() == 28 && b.len() > 0 ==> brief_of(a + b) == a + "…"@,
{
    if a.len() == 28 {
        assert((a + b).take(28) =~= a);
    }
}

/// What a row shows of a session.
pub proof fn law_rows_show_sessions(
    session: Session,
    score: Option<ScoreResult>,
    started: Option<Seq<char>>,
    scored: Seq<char>,
)
    ensures
        ({
            let row = row_of(session, score, started, scored);
            &&& started is None ==> row.date == " "@ + "??-?? ??:??"@ + " "@
            &&& started matches Some(date) ==> row.date == " "@ + date + " "@
            &&& row.id == first_bytes(session.session_id@, 8) + " "@
            &&& row.project == aligned_left(after_last(session.project_slug@, '-'), 20) + " "@
            &&& row.messages == aligned_right(decimal(session.message_count as nat), 4) + "msg "@
        }),
{
}

/// What a row shows of a score, and of none.
pub proof fn law_rows_show_scores(
    session: Session,
    s: ScoreResult,
    started: Option<Seq<char>>,
    scored: Seq<char>,
)
    ensures
        ({
            let row = row_of(session, Some(s), started, scored);
            &&& row.score == aligned_right(decimal(s.total_score as nat), 3) + "/100 "@ + mark_of(
                s.total_score,
            )
            &&& row.color == Some(color_of(s.total_score))
            &&& row.scored_at == scored
            &&& row.brief == brief_of(s.summary@)
        }),
        ({
            let row = row_of(session, None, started, scored);
            &&& row.score == "  —/100"@
            &&& row.color is None
            &&& row.scored_at == "           "@
            &&& row.brief.len() == 0
        }),
{
}

/// A row is what its fields say.
pub proof fn law_rows_are_their_fields(row: Row)
    ensures
        row@.date == row.date@,
        row@.id == row.id@,
        row@.project == row.project@,
        row@.messages == row.messages@,
        row@.score == row.score@,
        row@.color == row.color,
        row@.scored_at == row.scored_at@,
        row@.brief == row.brief@,
{
}

/// A session without a score is shown with its id and its project.
pub proof fn law_unscored(session: Session)
    ensures
        unscored_text(session) == "\n  Session: "@ + session.session_id@ + "\n  Project: "@
            + session.project_slug@ + "\n\n  ⚠  Not yet scored. Press Enter to score now."@,
{
}

/// The line of a dimension shows its name, a bar of 12 cells, and its score out of its maximum.
pub proof fn law_dimension_lines(label: Seq<char>, score: u8, max: u8)
    ensures
        dimension_line(label, score, max) == "  "@ + label + " ["@ + bar_of(
            full_cells(score as nat, max as nat, 12),
            12,
        ) + "] "@ + aligned_right(decimal(score as nat), 2) + "/"@ + decimal(max as nat),
{
}

/// The seven dimensions are shown in order, each out of 15 but for solidity, which is out of 10.
pub proof fn law_seven_lines(d: Dimensions)
    ensures
        dimension_lines_of(d).len() == 7,
        dimension_lines_of(d)[0] == dimension_line("🔒 Security      "@, d.security, 15),
        dimension_lines_of(d)[1] == dimension_line("⚡ Effectivity   "@, d.effectivity, 15),
        dimension_lines_of(d)[2] == dimension_line("🏗  Solidity      "@, d.solidity, 10),
        dimension_lines_of(d)[3] == dimension_line("💡 Efficiency    "@, d.efficiency, 15),
        dimension_lines_of(d)[4] == dimension_line("🗺  Planning      "@, d.planning_quality, 15),
        dimension_lines_of(d)[5] == dimension_line("🔄 Recovery      "@, d.recovery_ability, 15),
        dimension_lines_of(d)[6] == dimension_line(
            "🎯 Hallucination "@,
            d.hallucination_rate,
            15,
        ),
{
}

/// The card shows the total, its grade, the session and when it was scored.
pub proof fn law_card(session: Session, score: ScoreResult, scored: Seq<char>)
    ensures
        total_text_of(score.total_score) == decimal(score.total_score as nat) + "/100"@,
        card_lines_of(session, score, scored).len() == 4,
        card_lines_of(session, score, scored)[0] == "  Grade: "@ + grade_of(score.total_score),
        card_lines_of(session, score, scored)[1] == ""@,
        card_lines_of(session, score, scored)[2] == "  Session: "@ + first_bytes(
            session.session_id@,
            8,
        ) + "…"@,
        card_lines_of(session, score, scored)[3] == "  Scored:  "@ + scored,
{
}

/// The analysis shows the summary, the reasons, and each observation in order, under a heading
/// where there are any.
pub proof fn law_analysis(score: ScoreResult, i: int)
    ensures
        ({
            let lines = analysis_of(score);
            let n = score.observations@.len();
            &&& lines[0] == ("Summary: "@, score.summary@)
            &&& lines[1] == (""@, ""@)
            &&& lines[2] == ("Reasoning: "@, score.reasoning@)
            &&& n == 0 ==> lines.len() == 3
            &&& n > 0 ==> lines.len() == 5 + n && lines[3] == (""@, ""@) && lines[4] == (
                "Observations:"@,
                ""@,
            )
            &&& 0 <= i < n ==> lines[5 + i] == (""@, "  • "@ + score.observations@[i]@)
        }),
{
}

/// The lines of the analysis are what they hold.
pub proof fn law_contents(lines: Seq<AnalysisLine>, i: int)
    requires
        0 <= i < lines.len(),
    ensures
        contents(lines).len() == lines.len(),
        contents(lines)[i] == (lines[i].heading@, lines[i].text@),
{
}

} // verus!
