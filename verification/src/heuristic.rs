//! The rule-based scorer, which works without any service.
//!
//! It measures four dimensions, each from 0 to 25, by the signals in the transcript.
use crate::score::{Dimensions, ScoreResult};
use crate::session::SessionEntry;
use crate::signals::{
    extract_signals, grown, law_counting_goes_on, law_signals_only_grow, signals_of, Signals,
    SignalsView, TallyView,
};
use crate::single::{
    excess_over_five, law_ratio_ends, law_ratios_keep_order, law_twenty_fold, law_whole_ratio,
    over_five, twenty_fold, twenty_times,
};
use crate::text::{decimal, decimal_string, join, joined, push_text, texts};
use crate::time::Timestamp;
use vstd::hash_set::StringHashSet;
use vstd::prelude::*;
use vstd::seq_lib::seq_to_set_is_finite;
use vstd::set_lib::lemma_len_subset;
use vstd::string::StringExecFns;

verus! {

// ── Scoring ──────────────────────────────────────────────────────────────────
/// `n`, but no less than 0 and no more than 25.
pub open spec fn clamped(n: int) -> int {
    if n < 0 {
        0
    } else if n > 25 {
        25
    } else {
        n
    }
}

/// The lesser of two numbers.
pub open spec fn least(a: int, b: int) -> int {
    if a <= b {
        a
    } else {
        b
    }
}

impl SignalsView {
    /// 25, less 5 for each different risky pattern and 8 for each credential pattern, each no more
    /// than 20 in all, and less 3 for permissions bypassed.
    pub open spec fn security(self) -> int {
        let risky = 5 * self.risky_command_hits.to_set().len() as int;
        let leaked = 8 * self.credential_leaks as int;
        let bypass = if self.bypass_permissions {
            3int
        } else {
            0
        };
        clamped(25 - least(risky, 20) - least(leaked, 20) - bypass)
    }

    /// 12 where the user said nothing. Else 25, less the part of the user's turns that are
    /// corrections out of 20, less 10 where there was no output; no more than 18 for a single turn.
    pub open spec fn effectivity(self) -> int {
        if self.user_turns == 0 {
            12
        } else {
            let corrected = twenty_fold(self.correction_turns, self.user_turns);
            let silent = if self.session_produced_output {
                0int
            } else {
                10
            };
            let score = 25 - corrected - silent;
            clamped(
                if self.user_turns < 2 {
                    least(score, 18)
                } else {
                    score
                },
            )
        }
    }

    /// 10, and more for edits, tests, commits and a pull request; less 5 for a session of over 3
    /// turns without an edit.
    pub open spec fn solidity(self) -> int {
        clamped(
            10 + (if self.code_edits > 0 {
                5int
            } else {
                0
            }) + (if self.test_file_edits > 2 {
                7int
            } else if self.test_file_edits > 0 {
                5
            } else {
                0
            }) + (if self.git_commits > 0 {
                3int
            } else {
                0
            }) + (if self.pr_created {
                3int
            } else {
                0
            }) - (if self.code_edits == 0 && self.user_turns > 3 {
                5int
            } else {
                0
            }),
        )
    }

    /// All the turns of the session, at least one.
    pub open spec fn turns(self) -> nat {
        if self.user_turns + self.assistant_turns == 0 {
            1
        } else {
            self.user_turns + self.assistant_turns
        }
    }

    /// 25, less 2 for each duplicate read, no more than 10 in all, less one and a half for each
    /// tool call per turn over five, and less 5 for over 80 turns of the assistant.
    pub open spec fn efficiency(self) -> int {
        let reads = 2 * self.duplicate_reads as int;
        let thrashing = excess_over_five(self.total_tool_calls, self.turns());
        let long = if self.assistant_turns > 80 {
            5int
        } else {
            0
        };
        clamped(25 - least(reads, 10) - thrashing - long)
    }
}

/// How many different texts there are among the strings.
fn distinct(v: &Vec<String>) -> (res: usize)
    ensures
        res == texts(v@).to_set().len(),
{
    let mut seen = StringHashSet::new();
    let mut i: usize = 0;
    let ghost all = texts(v@);
    assert(all.take(0).to_set() =~= Set::empty());
    while i < v.len()
        invariant
            i <= v.len(),
            all == texts(v@),
            seen@ == all.take(i as int).to_set(),
        decreases v.len() - i,
    {
        seen.insert(v[i].clone());
        i += 1;
        proof {
            let now = all.take(i as int);
            let before = all.take(i - 1);
            assert forall|t: Seq<char>| now.to_set().contains(t) <==> before.to_set().insert(
                all[i - 1],
            ).contains(t) by {
                if now.contains(t) {
                    let k = choose|k: int| 0 <= k < now.len() && now[k] == t;
                    if k < i - 1 {
                        assert(before[k] == t);
                    }
                }
                if before.contains(t) {
                    let k = choose|k: int| 0 <= k < before.len() && before[k] == t;
                    assert(now[k] == t);
                }
                assert(now[i - 1] == all[i - 1]);
            }
            assert(now.to_set() =~= before.to_set().insert(all[i - 1]));
        }
    }
    assert(all.take(i as int) =~= all);
    seen.len()
}

/// `n` times `cost`, at most `most`.
fn cost_of(n: usize, cost: i32, most: i32) -> (res: i32)
    requires
        0 < cost <= most <= 100,
    ensures
        res == least(cost * n, most as int),
{
    if n >= 100 {
        assert(cost * n >= 100) by (nonlinear_arith)
            requires
                cost >= 1,
                n >= 100,
        ;
        most
    } else {
        assert(cost * n <= 10000) by (nonlinear_arith)
            requires
                0 < cost <= 100,
                n < 100,
        ;
        let total = cost * n as i32;
        if total < most {
            total
        } else {
            most
        }
    }
}

/// `n`, but no less than 0 and no more than 25.
fn clamp_score(n: i32) -> (res: u8)
    ensures
        res == clamped(n as int),
{
    if n < 0 {
        0
    } else if n > 25 {
        25
    } else {
        n as u8
    }
}

/// The score for security.
pub fn score_security(s: &Signals) -> (res: u8)
    ensures
        res == s@.security(),
{
    let unique = distinct(&s.risky_command_hits);
    let risky = cost_of(unique, 5, 20);
    let leaked = cost_of(s.credential_leaks, 8, 20);
    let bypass: i32 = if s.bypass_permissions {
        3
    } else {
        0
    };
    clamp_score(25 - risky - leaked - bypass)
}

/// The score for effectivity.
pub fn score_effectivity(s: &Signals) -> (res: u8)
    ensures
        res == s@.effectivity(),
{
    if s.user_turns == 0 {
        return 12;
    }
    let corrected = twenty_times(s.correction_turns, s.user_turns);
    let penalty: i32 = if corrected < 25 {
        corrected as i32
    } else {
        25
    };
    let silent: i32 = if s.session_produced_output {
        0
    } else {
        10
    };
    let score: i32 = 25 - penalty - silent;
    if s.user_turns < 2 && score > 18 {
        clamp_score(18)
    } else {
        clamp_score(score)
    }
}

/// The score for solidity.
pub fn score_solidity(s: &Signals) -> (res: u8)
    ensures
        res == s@.solidity(),
{
    let mut score: i32 = 10;
    if s.code_edits > 0 {
        score += 5;
    }
    if s.test_file_edits > 0 {
        score += 5;
        if s.test_file_edits > 2 {
            score += 2;
        }
    }
    if s.git_commits > 0 {
        score += 3;
    }
    if s.pr_created {
        score += 3;
    }
    if s.code_edits == 0 && s.user_turns > 3 {
        score -= 5;
    }
    clamp_score(score)
}

/// The score for efficiency.
pub fn score_efficiency(s: &Signals) -> (res: u8)
    ensures
        res == s@.efficiency(),
{
    let reads = cost_of(s.duplicate_reads, 2, 10);
    let sum: u128 = s.user_turns as u128 + s.assistant_turns as u128;
    let turns: u128 = if sum == 0 {
        1
    } else {
        sum
    };
    let excess = over_five(s.total_tool_calls, turns);
    let thrashing: i32 = if excess < 25 {
        excess as i32
    } else {
        25
    };
    let long: i32 = if s.assistant_turns > 80 {
        5
    } else {
        0
    };
    clamp_score(25 - reads - thrashing - long)
}

/// The scores for the signals. The rules measure four of the dimensions; the others stay 0, so the
/// total is the sum of the four.
pub open spec fn dimensions_of(s: SignalsView) -> Dimensions {
    Dimensions {
        security: s.security() as u8,
        effectivity: s.effectivity() as u8,
        solidity: s.solidity() as u8,
        efficiency: s.efficiency() as u8,
        planning_quality: 0,
        recovery_ability: 0,
        hallucination_rate: 0,
    }
}

/// Scores the signals.
pub fn compute_dimensions(s: &Signals) -> (res: Dimensions)
    ensures
        res == dimensions_of(s@),
        res.security == s@.security(),
        res.effectivity == s@.effectivity(),
        res.solidity == s@.solidity(),
        res.efficiency == s@.efficiency(),
{
    Dimensions {
        security: score_security(s),
        effectivity: score_effectivity(s),
        solidity: score_solidity(s),
        efficiency: score_efficiency(s),
        planning_quality: 0,
        recovery_ability: 0,
        hallucination_rate: 0,
    }
}

// ── Narrative ────────────────────────────────────────────────────────────────
impl SignalsView {
    /// The session in short.
    pub open spec fn summary(self) -> Seq<char> {
        "Heuristic score (no API key). Session: "@ + decimal(self.user_turns) + " user turns, "@
            + decimal(self.total_tool_calls) + " tool calls, "@ + decimal(self.code_edits)
            + " code edits."@
    }

    /// What is to be said of security.
    pub open spec fn security_remarks(self) -> Seq<Seq<char>> {
        if self.risky_command_hits.len() == 0 && self.credential_leaks == 0 {
            seq!["No risky commands or credential patterns detected."@]
        } else {
            (if self.risky_command_hits.len() > 0 {
                seq!["Risky patterns found: "@ + joined(self.risky_command_hits, ", "@) + "."@]
            } else {
                Seq::empty()
            }) + (if self.credential_leaks > 0 {
                seq![
                    decimal(self.credential_leaks)
                        + " potential credential pattern(s) detected."@,
                ]
            } else {
                Seq::empty()
            })
        }
    }

    /// What is to be said of effectivity.
    pub open spec fn effectivity_remark(self) -> Seq<char> {
        if self.correction_turns == 0 {
            "No correction turns — goal was reached smoothly."@
        } else {
            decimal(self.correction_turns) + "/"@ + decimal(self.user_turns)
                + " user turns were corrections or push-backs."@
        }
    }

    /// What is to be said of solidity.
    pub open spec fn solidity_remarks(self) -> Seq<Seq<char>> {
        if self.test_file_edits > 0 {
            seq![decimal(self.test_file_edits) + " test file(s) were edited."@]
        } else if self.code_edits > 0 {
            seq!["Code was written but no test files were touched."@]
        } else {
            Seq::empty()
        }
    }

    /// What is to be said of efficiency.
    pub open spec fn efficiency_remarks(self) -> Seq<Seq<char>> {
        if self.duplicate_reads > 0 {
            seq![decimal(self.duplicate_reads) + " duplicate file reads detected."@]
        } else {
            Seq::empty()
        }
    }

    /// Why the session got its scores.
    pub open spec fn reasoning(self) -> Seq<char> {
        joined(
            self.security_remarks().push(self.effectivity_remark()) + self.solidity_remarks()
                + self.efficiency_remarks(),
            " "@,
        )
    }

    /// What else is worth knowing, for this total score.
    pub open spec fn observations(self, total: nat) -> Seq<Seq<char>> {
        (if self.git_commits > 0 {
            seq![decimal(self.git_commits) + " git commit(s) — good commit discipline."@]
        } else {
            Seq::empty()
        }) + (if self.pr_created {
            seq!["PR was created — proper branch workflow followed."@]
        } else {
            Seq::empty()
        }) + (if self.bypass_permissions {
            seq!["Session ran in bypassPermissions mode."@]
        } else {
            Seq::empty()
        }) + (if total >= 80 {
            seq!["Strong overall session — above 80/100."@]
        } else if total < 50 {
            seq!["Session scored below 50 — consider reviewing the workflow."@]
        } else {
            Seq::empty()
        })
    }
}

/// A number, then a text.
fn number_then(n: usize, rest: &str) -> (res: String)
    ensures
        res@ == decimal(n as nat) + rest@,
{
    let mut s = decimal_string(n as u64);
    s.append(rest);
    s
}

/// Why the session got its scores, remark by remark.
fn remarks(s: &Signals) -> (res: Vec<String>)
    ensures
        texts(res@) == s@.security_remarks().push(s@.effectivity_remark()) + s@.solidity_remarks()
            + s@.efficiency_remarks(),
{
    let mut parts: Vec<String> = Vec::new();
    assert(texts(parts@) =~= Seq::empty());
    if s.risky_command_hits.len() == 0 && s.credential_leaks == 0 {
        push_text(
            &mut parts,
            String::from_str("No risky commands or credential patterns detected."),
        );
    } else {
        if s.risky_command_hits.len() > 0 {
            let mut found = String::from_str("Risky patterns found: ");
            found.append(join(&s.risky_command_hits, ", ").as_str());
            found.append(".");
            push_text(&mut parts, found);
        }
        if s.credential_leaks > 0 {
            push_text(
                &mut parts,
                number_then(s.credential_leaks, " potential credential pattern(s) detected."),
            );
        }
    }
    assert(texts(parts@) =~= s@.security_remarks());
    if s.correction_turns == 0 {
        push_text(
            &mut parts,
            String::from_str("No correction turns — goal was reached smoothly."),
        );
    } else {
        let mut ratio = number_then(s.correction_turns, "/");
        ratio.append(
            number_then(s.user_turns, " user turns were corrections or push-backs.").as_str(),
        );
        assert(ratio@ =~= s@.effectivity_remark());
        push_text(&mut parts, ratio);
    }
    if s.test_file_edits > 0 {
        push_text(&mut parts, number_then(s.test_file_edits, " test file(s) were edited."));
    } else if s.code_edits > 0 {
        push_text(
            &mut parts,
            String::from_str("Code was written but no test files were touched."),
        );
    }
    assert(texts(parts@) =~= s@.security_remarks().push(s@.effectivity_remark())
        + s@.solidity_remarks());
    if s.duplicate_reads > 0 {
        push_text(&mut parts, number_then(s.duplicate_reads, " duplicate file reads detected."));
    }
    assert(texts(parts@) =~= s@.security_remarks().push(s@.effectivity_remark())
        + s@.solidity_remarks() + s@.efficiency_remarks());
    parts
}

/// The summary, the reasons and the observations for the signals and their scores.
pub fn build_narrative(s: &Signals, d: &Dimensions) -> (res: (String, String, Vec<String>))
    ensures
        res.0@ == s@.summary(),
        res.1@ == s@.reasoning(),
        texts(res.2@) == s@.observations(d.total_score()),
{
    let mut summary = String::from_str("Heuristic score (no API key). Session: ");
    summary.append(number_then(s.user_turns, " user turns, ").as_str());
    summary.append(number_then(s.total_tool_calls, " tool calls, ").as_str());
    summary.append(number_then(s.code_edits, " code edits.").as_str());
    assert(summary@ =~= s@.summary());

    let parts = remarks(s);
    let reasoning = join(&parts, " ");

    let mut observations: Vec<String> = Vec::new();
    assert(texts(observations@) =~= Seq::empty());
    if s.git_commits > 0 {
        push_text(
            &mut observations,
            number_then(s.git_commits, " git commit(s) — good commit discipline."),
        );
    }
    if s.pr_created {
        push_text(
            &mut observations,
            String::from_str("PR was created — proper branch workflow followed."),
        );
    }
    if s.bypass_permissions {
        push_text(&mut observations, String::from_str("Session ran in bypassPermissions mode."));
    }
    let total = d.total();
    if total >= 80 {
        push_text(&mut observations, String::from_str("Strong overall session — above 80/100."));
    } else if total < 50 {
        push_text(
            &mut observations,
            String::from_str("Session scored below 50 — consider reviewing the workflow."),
        );
    }
    assert(texts(observations@) =~= s@.observations(d.total_score()));
    (summary, reasoning, observations)
}

/// `result` is the score of the session of that id by the rules, at the time `now`.
pub open spec fn is_rule_score(
    result: ScoreResult,
    session_id: Seq<char>,
    entries: Seq<SessionEntry>,
    now: Timestamp,
) -> bool {
    let s = signals_of(entries).capped();
    let d = dimensions_of(s);
    &&& result.session_id@ == session_id
    &&& result.scored_at == now
    &&& result.dimensions == d
    &&& result.total_score == d.total_score()
    &&& result.summary@ == s.summary()
    &&& result.reasoning@ == s.reasoning()
    &&& texts(result.observations@) == s.observations(d.total_score())
}

/// Scores a session by its transcript, at the time `now`.
pub fn score_heuristic(session_id: &str, entries: &[SessionEntry], now: Timestamp) -> (res:
    ScoreResult)
    ensures
        is_rule_score(res, session_id@, entries@, now),
{
    let signals = extract_signals(entries);
    let dimensions = compute_dimensions(&signals);
    let (summary, reasoning, observations) = build_narrative(&signals, &dimensions);
    ScoreResult {
        session_id: String::from_str(session_id),
        scored_at: now,
        total_score: dimensions.total(),
        dimensions,
        summary,
        reasoning,
        observations,
    }
}

// ── Laws ─────────────────────────────────────────────────────────────────────
/// Each of the four dimensions is from 0 to 25, the total is their sum, and the sum is from 1 to
/// 100.
pub proof fn law_scores_are_in_range(s: SignalsView)
    ensures
        0 <= s.security() <= 25,
        0 <= s.effectivity() <= 25,
        0 <= s.solidity() <= 25,
        0 <= s.efficiency() <= 25,
        dimensions_of(s).total_score() == s.security() + s.effectivity() + s.solidity()
            + s.efficiency(),
        1 <= dimensions_of(s).total_score() <= 100,
{
}

/// Signals that hold more than others score no higher on security.
pub proof fn law_more_signals_are_no_safer(a: SignalsView, b: SignalsView)
    requires
        grown(a, b),
    ensures
        b.security() <= a.security(),
{
    let x = a.risky_command_hits;
    let y = b.risky_command_hits;
    assert(x.to_set().subset_of(y.to_set())) by {
        assert forall|h: Seq<char>| x.to_set().contains(h) implies y.to_set().contains(h) by {
            let i = choose|i: int| 0 <= i < x.len() && x[i] == h;
            assert(y[i] == h);
        }
    }
    seq_to_set_is_finite(y);
    lemma_len_subset(x.to_set(), y.to_set());
}

/// The security of a session never rises as the session goes on.
pub proof fn law_security_never_rises(first: Seq<SessionEntry>, rest: Seq<SessionEntry>)
    ensures
        signals_of(first + rest).capped().security() <= signals_of(first).capped().security(),
{
    law_counting_goes_on(TallyView::none(), first, rest);
    law_signals_only_grow(TallyView::none().after_entries(first), rest);
    law_more_signals_are_no_safer(
        signals_of(first).capped(),
        signals_of(first + rest).capped(),
    );
}

/// A risky pattern that was hit before costs nothing more.
pub proof fn law_repeated_risk_costs_nothing(s: SignalsView, hit: Seq<char>)
    requires
        s.risky_command_hits.contains(hit),
    ensures
        (SignalsView { risky_command_hits: s.risky_command_hits.push(hit), ..s }).security()
            == s.security(),
{
    let x = s.risky_command_hits;
    assert(x.push(hit).to_set() =~= x.to_set()) by {
        assert forall|h: Seq<char>| x.push(hit).to_set().contains(h) == x.to_set().contains(
            h,
        ) by {
            if x.to_set().contains(h) {
                let i = choose|i: int| 0 <= i < x.len() && x[i] == h;
                assert(x.push(hit)[i] == h);
            }
            if x.push(hit).to_set().contains(h) {
                let i = choose|i: int| 0 <= i < x.push(hit).len() && x.push(hit)[i] == h;
                if i < x.len() {
                    assert(x[i] == h);
                }
            }
        }
    }
}

/// The more of the user's turns are corrections, the less effective the session: never more.
pub proof fn law_corrections_never_help(s: SignalsView, corrections: nat)
    requires
        s.correction_turns <= corrections,
    ensures
        (SignalsView { correction_turns: corrections, ..s }).effectivity() <= s.effectivity(),
{
    if s.user_turns > 0 {
        law_ratios_keep_order(s.correction_turns, s.user_turns, corrections, s.user_turns);
    }
}

/// Where no turn of the user is a correction nothing is taken off for it; where all are, 20.
pub proof fn law_correction_ends(s: SignalsView)
    requires
        s.user_turns >= 2,
    ensures
        s.correction_turns == 0 ==> s.effectivity() == if s.session_produced_output {
            25int
        } else {
            15
        },
        s.correction_turns == s.user_turns ==> s.effectivity() == if s.session_produced_output {
            5int
        } else {
            0
        },
{
    law_ratio_ends(s.user_turns);
}

/// Tests, commits, a pull request and edits never make a session less solid.
pub proof fn law_discipline_never_hurts(a: SignalsView, b: SignalsView)
    requires
        grown(a, b),
        a.user_turns == b.user_turns,
    ensures
        a.solidity() <= b.solidity(),
{
}

/// More tool calls and more duplicate reads in as many turns never make a session more efficient.
pub proof fn law_thrashing_never_helps(a: SignalsView, b: SignalsView)
    requires
        grown(a, b),
        a.user_turns == b.user_turns,
        a.assistant_turns == b.assistant_turns,
    ensures
        b.efficiency() <= a.efficiency(),
{
    law_ratios_keep_order(a.total_tool_calls, a.turns(), b.total_tool_calls, b.turns());
}

/// Signals with `n` credential leaks and no other risk lose 8 points of 25 for each, 20 at most.
pub proof fn law_leaks_cost_eight(s: SignalsView, n: nat)
    requires
        s.credential_leaks == n,
        s.risky_command_hits.len() == 0,
        !s.bypass_permissions,
    ensures
        8 * n <= 20 ==> s.security() == 25 - 8 * n,
        8 * n >= 20 ==> s.security() == 5,
{
    assert(s.risky_command_hits.to_set() =~= Set::empty());
}

/// The first leak takes 8 points off, or all that there are.
pub proof fn law_first_leak_costs_eight(s: SignalsView)
    requires
        s.credential_leaks == 0,
    ensures
        ({
            let leaked = SignalsView { credential_leaks: 1, ..s };
            &&& s.security() >= 8 ==> leaked.security() == s.security() - 8
            &&& s.security() < 8 ==> leaked.security() == 0
        }),
{
}

/// Each different risky pattern that was hit takes 5 points of 25 off, 20 at most.
pub proof fn law_risks_cost_five(s: SignalsView, n: nat)
    requires
        s.risky_command_hits.to_set().len() == n,
        s.credential_leaks == 0,
        !s.bypass_permissions,
    ensures
        n <= 4 ==> s.security() == 25 - 5 * n,
        n >= 4 ==> s.security() == 5,
{
}

/// A pattern that was not hit before takes 5 points off, or all that there are, unless four were
/// hit already.
pub proof fn law_new_risk_costs_five(s: SignalsView, hit: Seq<char>)
    requires
        !s.risky_command_hits.contains(hit),
    ensures
        ({
            let more = SignalsView { risky_command_hits: s.risky_command_hits.push(hit), ..s };
            let n = s.risky_command_hits.to_set().len();
            &&& n >= 4 ==> more.security() == s.security()
            &&& n < 4 && s.security() >= 5 ==> more.security() == s.security() - 5
            &&& n < 4 && s.security() < 5 ==> more.security() == 0
        }),
{
    let x = s.risky_command_hits;
    seq_to_set_is_finite(x);
    assert(x.push(hit).to_set() =~= x.to_set().insert(hit)) by {
        assert forall|h: Seq<char>| x.push(hit).to_set().contains(h) == x.to_set().insert(
            hit,
        ).contains(h) by {
            if x.contains(h) {
                let i = choose|i: int| 0 <= i < x.len() && x[i] == h;
                assert(x.push(hit)[i] == h);
            }
            if x.push(hit).contains(h) {
                let i = choose|i: int| 0 <= i < x.push(hit).len() && x.push(hit)[i] == h;
                if i < x.len() {
                    assert(x[i] == h);
                }
            }
            assert(x.push(hit)[x.len() as int] == hit);
        }
    }
}

/// Bypassed permissions take 3 points off, or all that there are.
pub proof fn law_bypass_costs_three(s: SignalsView)
    requires
        !s.bypass_permissions,
    ensures
        ({
            let bypassed = SignalsView { bypass_permissions: true, ..s };
            &&& s.security() >= 3 ==> bypassed.security() == s.security() - 3
            &&& s.security() < 3 ==> bypassed.security() == 0
        }),
{
}

/// Nothing but hits, leaks and bypassed permissions bears on security.
pub proof fn law_security_looks_at_risks_only(a: SignalsView, b: SignalsView)
    requires
        a.risky_command_hits == b.risky_command_hits,
        a.credential_leaks == b.credential_leaks,
        a.bypass_permissions == b.bypass_permissions,
    ensures
        a.security() == b.security(),
{
}

/// A session without a turn of the user scores 12 on effectivity.
pub proof fn law_trivial_session(s: SignalsView)
    requires
        s.user_turns == 0,
    ensures
        s.effectivity() == 12,
{
}

/// A single turn of the user scores 18 at most.
pub proof fn law_single_turn(s: SignalsView)
    requires
        s.user_turns == 1,
        s.correction_turns <= 1,
    ensures
        s.correction_turns == 0 ==> s.effectivity() == if s.session_produced_output {
            18int
        } else {
            15
        },
        s.correction_turns == 1 ==> s.effectivity() == if s.session_produced_output {
            5int
        } else {
            0
        },
{
    law_ratio_ends(1);
}

/// The part of the turns that are corrections, out of 20, is taken off 25, and 10 where there was
/// no output. Where that part is a whole number, rounding may leave one point more.
pub proof fn law_corrections_cost_their_part(s: SignalsView)
    requires
        2 <= s.user_turns < 0x4_0000,
        s.correction_turns <= s.user_turns,
    ensures
        ({
            let part = 20 * s.correction_turns / s.user_turns;
            let left = 25 - part - if s.session_produced_output {
                0int
            } else {
                10
            };
            let score = s.effectivity();
            &&& 20 * s.correction_turns % s.user_turns != 0 ==> score == if left < 0 {
                0
            } else {
                left
            }
            &&& (if left < 0 {
                0
            } else {
                left
            }) <= score <= (if left < -1 {
                0
            } else {
                left + 1
            })
        }),
{
    let part = 20 * s.correction_turns / s.user_turns;
    law_twenty_fold(s.correction_turns, s.user_turns);
    assert(part <= 20) by (nonlinear_arith)
        requires
            part == 20 * s.correction_turns / s.user_turns,
            s.correction_turns <= s.user_turns,
            s.user_turns > 0,
    ;
}

/// Solidity starts at 10. Edits add 5, tests 5 or, over two of them, 7, commits 3 and a pull
/// request 3, to 25 at most.
pub proof fn law_solidity_adds_up(s: SignalsView, n: nat, t: nat)
    requires
        s.code_edits == 0,
        s.test_file_edits == 0,
        s.git_commits == 0,
        !s.pr_created,
        s.user_turns <= 3,
        n > 0,
        t > 0,
    ensures
        s.solidity() == 10,
        (SignalsView { code_edits: n, ..s }).solidity() == 15,
        (SignalsView { code_edits: n, test_file_edits: t, ..s }).solidity() == if t > 2 {
            22int
        } else {
            20
        },
        (SignalsView { git_commits: n, ..s }).solidity() == 13,
        (SignalsView { pr_created: true, ..s }).solidity() == 13,
{
}

/// A first commit and a pull request each add 3, to 25 at most, whatever else there is.
pub proof fn law_commits_and_requests_add_three(s: SignalsView, n: nat)
    requires
        n > 0,
    ensures
        ({
            let without = SignalsView { git_commits: 0, ..s };
            let with = SignalsView { git_commits: n, ..s };
            let gain = with.solidity() - without.solidity();
            gain == 3 || (with.solidity() == 25 && 0 <= gain <= 3)
        }),
        ({
            let without = SignalsView { pr_created: false, ..s };
            let with = SignalsView { pr_created: true, ..s };
            let gain = with.solidity() - without.solidity();
            gain == 3 || (with.solidity() == 25 && 0 <= gain <= 3)
        }),
{
}

/// Tests add 5, over two of them 7, to 25 at most, whatever else there is.
pub proof fn law_tests_add_five(s: SignalsView, n: nat)
    requires
        n > 0,
    ensures
        ({
            let without = SignalsView { test_file_edits: 0, ..s };
            let with = SignalsView { test_file_edits: n, ..s };
            let gain = with.solidity() - without.solidity();
            let full = if n > 2 {
                7int
            } else {
                5
            };
            gain == full || (with.solidity() == 25 && 0 <= gain <= full)
        }),
{
}

/// An edit adds 5, and 5 more where its lack cost 5: in a session of over three turns.
pub proof fn law_edits_add_five(s: SignalsView, n: nat)
    requires
        n > 0,
    ensures
        ({
            let without = SignalsView { code_edits: 0, ..s };
            let with = SignalsView { code_edits: n, ..s };
            let gain = with.solidity() - without.solidity();
            let full = if s.user_turns > 3 {
                10int
            } else {
                5
            };
            gain == full || (with.solidity() == 25 && 0 <= gain <= full)
        }),
{
}

/// Without thrashing and over-long sessions, each duplicate read takes 2 points of 25 off, 10 at
/// most.
pub proof fn law_duplicates_cost_two(s: SignalsView)
    requires
        s.total_tool_calls == 0,
        s.assistant_turns <= 80,
    ensures
        s.duplicate_reads <= 5 ==> s.efficiency() == 25 - 2 * s.duplicate_reads,
        s.duplicate_reads >= 5 ==> s.efficiency() == 15,
{
    lemma_no_thrashing(s);
}

proof fn lemma_no_thrashing(s: SignalsView)
    requires
        s.total_tool_calls == 0,
    ensures
        excess_over_five(s.total_tool_calls, s.turns()) == 0,
{
    law_whole_ratio(0, 1);
    law_ratios_keep_order(0, s.turns(), 0, 1);
}

/// Each duplicate read takes 2 points off, or all that there are, until 10 are taken off.
pub proof fn law_next_duplicate_costs_two(s: SignalsView)
    requires
        s.duplicate_reads < 5,
    ensures
        ({
            let more = SignalsView { duplicate_reads: s.duplicate_reads + 1, ..s };
            &&& s.efficiency() >= 2 ==> more.efficiency() == s.efficiency() - 2
            &&& s.efficiency() < 2 ==> more.efficiency() == 0
        }),
{
}

/// `k` calls for each turn, `k` over five, take one and a half times `k - 5` points of 25 off,
/// rounded down; five or less take nothing off.
pub proof fn law_calls_per_turn(s: SignalsView, k: nat)
    requires
        s.duplicate_reads == 0,
        s.assistant_turns <= 80,
        s.user_turns + s.assistant_turns > 0,
        s.total_tool_calls == k * (s.user_turns + s.assistant_turns),
        s.total_tool_calls < 0x100_0000,
        k < 0x10_0000,
    ensures
        k <= 5 ==> s.efficiency() == 25,
        5 < k <= 21 ==> s.efficiency() == 25 - 3 * (k - 5) / 2,
        k > 21 ==> s.efficiency() == 0,
{
    law_whole_ratio(k, s.turns());
}

/// Over 80 turns of the assistant take 5 points off. (Few calls for each turn, so that more turns
/// take nothing else off.)
pub proof fn law_long_sessions_cost_five(s: SignalsView)
    requires
        s.total_tool_calls == 0,
        s.duplicate_reads == 0,
    ensures
        s.assistant_turns <= 80 ==> s.efficiency() == 25,
        s.assistant_turns > 80 ==> s.efficiency() == 20,
{
    lemma_no_thrashing(s);
}

/// Each score stands in its own dimension; the dimensions that the rules do not measure are 0.
pub proof fn law_scores_stand_in_their_dimensions(s: SignalsView)
    ensures
        dimensions_of(s).security == s.security(),
        dimensions_of(s).effectivity == s.effectivity(),
        dimensions_of(s).solidity == s.solidity(),
        dimensions_of(s).efficiency == s.efficiency(),
        dimensions_of(s).planning_quality == 0,
        dimensions_of(s).recovery_ability == 0,
        dimensions_of(s).hallucination_rate == 0,
{
}

/// A score by the rules is of the session and the time that were given, its scores are those of
/// the signals, and its total is their sum.
pub proof fn law_rule_scores(
    result: ScoreResult,
    session_id: Seq<char>,
    entries: Seq<SessionEntry>,
    now: Timestamp,
)
    requires
        is_rule_score(result, session_id, entries, now),
    ensures
        ({
            let s = signals_of(entries).capped();
            &&& result.session_id@ == session_id
            &&& result.scored_at == now
            &&& result.dimensions.security == s.security()
            &&& result.dimensions.effectivity == s.effectivity()
            &&& result.dimensions.solidity == s.solidity()
            &&& result.dimensions.efficiency == s.efficiency()
            &&& result.total_score == s.security() + s.effectivity() + s.solidity()
                + s.efficiency()
            &&& result.summary@ == s.summary()
            &&& result.reasoning@ == s.reasoning()
            &&& texts(result.observations@) == s.observations(result.total_score as nat)
        }),
{
    law_scores_are_in_range(signals_of(entries).capped());
}

/// The summary tells the turns of the user, the tool calls and the edits.
pub proof fn law_summary_tells_the_counts(s: SignalsView)
    ensures
        s.summary() == "Heuristic score (no API key). Session: "@ + decimal(s.user_turns)
            + " user turns, "@ + decimal(s.total_tool_calls) + " tool calls, "@ + decimal(
            s.code_edits,
        ) + " code edits."@,
{
}

/// The reasoning starts with the risks and the corrections.
pub proof fn law_reasoning_starts_with_risks(s: SignalsView)
    requires
        s.duplicate_reads == 0,
        s.test_file_edits == 0,
        s.code_edits == 0,
    ensures
        ({
            let hits = "Risky patterns found: "@ + joined(s.risky_command_hits, ", "@) + "."@;
            let leaks = decimal(s.credential_leaks) + " potential credential pattern(s) detected."@;
            let risks = if s.risky_command_hits.len() == 0 && s.credential_leaks == 0 {
                "No risky commands or credential patterns detected."@
            } else if s.credential_leaks == 0 {
                hits
            } else if s.risky_command_hits.len() == 0 {
                leaks
            } else {
                hits + " "@ + leaks
            };
            let corrections = if s.correction_turns == 0 {
                "No correction turns — goal was reached smoothly."@
            } else {
                decimal(s.correction_turns) + "/"@ + decimal(s.user_turns)
                    + " user turns were corrections or push-backs."@
            };
            s.reasoning() == risks + " "@ + corrections
        }),
{
    let remarks = s.security_remarks();
    let all = remarks.push(s.effectivity_remark());
    assert(all + s.solidity_remarks() + s.efficiency_remarks() =~= all);
    assert(all.drop_last() =~= remarks);
    let hits = "Risky patterns found: "@ + joined(s.risky_command_hits, ", "@) + "."@;
    let leaks = decimal(s.credential_leaks) + " potential credential pattern(s) detected."@;
    if s.risky_command_hits.len() == 0 && s.credential_leaks == 0 {
    } else if s.credential_leaks == 0 {
        assert(remarks =~= seq![hits]);
    } else if s.risky_command_hits.len() == 0 {
        assert(remarks =~= seq![leaks]);
    } else {
        assert(remarks =~= seq![hits, leaks]);
        assert(remarks.drop_last() =~= seq![hits]);
        assert(joined(seq![hits], " "@) == hits);
        assert(joined(remarks, " "@) == hits + " "@ + leaks);
    }
    assert(all.last() == s.effectivity_remark());
    assert(joined(all, " "@) == joined(remarks, " "@) + " "@ + s.effectivity_remark());
}

/// Then it tells the tests that were edited, or that there were none where code was written.
pub proof fn law_reasoning_tells_tests(s: SignalsView)
    requires
        s.duplicate_reads == 0,
    ensures
        ({
            let before = (SignalsView { test_file_edits: 0, code_edits: 0, ..s }).reasoning();
            s.reasoning() == if s.test_file_edits > 0 {
                before + " "@ + (decimal(s.test_file_edits) + " test file(s) were edited."@)
            } else if s.code_edits > 0 {
                before + " "@ + "Code was written but no test files were touched."@
            } else {
                before
            }
        }),
{
    let all = s.security_remarks().push(s.effectivity_remark());
    let b = SignalsView { test_file_edits: 0, code_edits: 0, ..s };
    assert(b.security_remarks().push(b.effectivity_remark()) =~= all);
    assert(all + b.solidity_remarks() + b.efficiency_remarks() =~= all);
    assert(all + s.solidity_remarks() + s.efficiency_remarks() =~= all + s.solidity_remarks());
    if s.solidity_remarks().len() > 0 {
        assert((all + s.solidity_remarks()).drop_last() =~= all);
    } else {
        assert(all + s.solidity_remarks() =~= all);
    }
}

/// And it ends with the duplicate reads, where there are any.
pub proof fn law_reasoning_ends_with_duplicates(s: SignalsView)
    requires
        s.duplicate_reads > 0,
    ensures
        s.reasoning() == (SignalsView { duplicate_reads: 0, ..s }).reasoning() + " "@ + (decimal(
            s.duplicate_reads,
        ) + " duplicate file reads detected."@),
{
    let b = SignalsView { duplicate_reads: 0, ..s };
    let all = s.security_remarks().push(s.effectivity_remark()) + s.solidity_remarks();
    assert(b.security_remarks().push(b.effectivity_remark()) + b.solidity_remarks()
        + b.efficiency_remarks() =~= all);
    assert((all + s.efficiency_remarks()).drop_last() =~= all);
}

/// Commits come first among the observations, then a pull request, then bypassed permissions; a
/// total from 80 on, or below 50, comes last. Each stands there just where it is the case.
pub proof fn law_observations(s: SignalsView, total: nat)
    ensures
        s.git_commits > 0 ==> s.observations(total) == seq![
            decimal(s.git_commits) + " git commit(s) — good commit discipline."@,
        ] + (SignalsView { git_commits: 0, ..s }).observations(total),
        s.git_commits == 0 && s.pr_created ==> s.observations(total) == seq![
            "PR was created — proper branch workflow followed."@,
        ] + (SignalsView { pr_created: false, ..s }).observations(total),
        s.git_commits == 0 && !s.pr_created && s.bypass_permissions ==> s.observations(total)
            == seq!["Session ran in bypassPermissions mode."@] + (SignalsView {
            bypass_permissions: false,
            ..s
        }).observations(total),
        s.git_commits == 0 && !s.pr_created && !s.bypass_permissions ==> s.observations(total)
            == if total >= 80 {
            seq!["Strong overall session — above 80/100."@]
        } else if total < 50 {
            seq!["Session scored below 50 — consider reviewing the workflow."@]
        } else {
            Seq::<Seq<char>>::empty()
        },
{
    if s.git_commits > 0 {
        let b = SignalsView { git_commits: 0, ..s };
        assert(s.observations(total) =~= seq![
            decimal(s.git_commits) + " git commit(s) — good commit discipline."@,
        ] + b.observations(total));
    } else if s.pr_created {
        let b = SignalsView { pr_created: false, ..s };
        assert(s.observations(total) =~= seq![
            "PR was created — proper branch workflow followed."@,
        ] + b.observations(total));
    } else if s.bypass_permissions {
        let b = SignalsView { bypass_permissions: false, ..s };
        assert(s.observations(total) =~= seq!["Session ran in bypassPermissions mode."@]
            + b.observations(total));
    } else {
        assert(s.observations(total) =~= if total >= 80 {
            seq!["Strong overall session — above 80/100."@]
        } else if total < 50 {
            seq!["Session scored below 50 — consider reviewing the workflow."@]
        } else {
            Seq::<Seq<char>>::empty()
        });
    }
}

/// Of two sessions with as many turns, calls and duplicate reads, the one with over 80 turns of the
/// assistant scores 5 less on efficiency, or 0.
pub proof fn law_eighty_turns(a: SignalsView, b: SignalsView)
    requires
        a.user_turns + a.assistant_turns == b.user_turns + b.assistant_turns,
        a.total_tool_calls == b.total_tool_calls,
        a.duplicate_reads == b.duplicate_reads,
        a.assistant_turns <= 80 < b.assistant_turns,
    ensures
        a.efficiency() >= 5 ==> b.efficiency() == a.efficiency() - 5,
        a.efficiency() < 5 ==> b.efficiency() == 0,
{
}

/// A session of two turns or more without output scores 10 less on effectivity, or 0.
pub proof fn law_silence_costs_ten(s: SignalsView)
    requires
        s.user_turns >= 2,
    ensures
        ({
            let loud = SignalsView { session_produced_output: true, ..s };
            let silent = SignalsView { session_produced_output: false, ..s };
            &&& loud.effectivity() >= 10 ==> silent.effectivity() == loud.effectivity() - 10
            &&& loud.effectivity() < 10 ==> silent.effectivity() == 0
        }),
{
}

/// Nothing but turns, corrections and output bears on effectivity, nothing but turns, calls and
/// duplicate reads on efficiency.
pub proof fn law_each_score_looks_at_its_own(a: SignalsView, b: SignalsView)
    requires
        a.user_turns == b.user_turns,
    ensures
        a.correction_turns == b.correction_turns && a.session_produced_output
            == b.session_produced_output ==> a.effectivity() == b.effectivity(),
        a.assistant_turns == b.assistant_turns && a.total_tool_calls == b.total_tool_calls
            && a.duplicate_reads == b.duplicate_reads ==> a.efficiency() == b.efficiency(),
        a.code_edits == b.code_edits && a.test_file_edits == b.test_file_edits && a.git_commits
            == b.git_commits && a.pr_created == b.pr_created ==> a.solidity() == b.solidity(),
{
}

} // verus!
