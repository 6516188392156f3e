//! The session browser: which page it shows, what is selected, and what a key does.
use crate::particles::{celebrates, AnimationKind, AnimationState, ANIMATION_TOTAL_FRAMES};
use crate::score::ScoreResult;
use crate::session::Session;
use crate::text::{decimal, decimal_string};
use vstd::prelude::*;
use vstd::slice::slice_subrange;
use vstd::string::StringExecFns;

verus! {

/// How many sessions a page shows.
pub const PAGE_SIZE: usize = 15;

/// How long the browser waits for a key while a celebration runs, in milliseconds.
pub const ANIMATION_POLL_MS: u64 = 50;

/// How long the browser waits for a key else, in milliseconds.
pub const IDLE_POLL_MS: u64 = 200;

/// What the status line says at first.
pub const FIRST_STATUS: &'static str = "↑/↓ navigate  Enter: score/detail  n/p: page  q: quit";

/// How many pages that many sessions take. There is always one.
pub open spec fn page_count(sessions: nat) -> nat {
    if sessions == 0 {
        1
    } else {
        (sessions + PAGE_SIZE as nat - 1) as nat / PAGE_SIZE as nat
    }
}

/// The state of the browser.
pub struct AppState {
    pub sessions: Vec<Session>,
    /// The score of each session, where it has one.
    pub scores: Vec<Option<ScoreResult>>,
    /// Which session of the page is selected.
    pub selected: Option<usize>,
    pub page: usize,
    pub total_pages: usize,
    pub status: String,
    pub detail_view: bool,
    /// A session is being scored.
    pub scoring: bool,
    /// The celebration in progress.
    pub animation: Option<AnimationState>,
}

/// A key, as far as the browser tells keys apart.
#[derive(Debug, Clone, Copy, PartialEq, Eq, Structural)]
pub enum Key {
    Char(char),
    Enter,
    Esc,
    Up,
    Down,
    Other,
}

/// What is to be done after a key.
#[derive(Debug, Clone, Copy, PartialEq, Eq, Structural)]
pub enum Action {
    Nothing,
    Quit,
    /// The session with this index is to be scored.
    Score(usize),
}

impl AppState {
    /// Where the page starts among the sessions.
    pub open spec fn page_start(self) -> int {
        self.page * PAGE_SIZE
    }

    /// Where the page ends among the sessions.
    pub open spec fn page_end(self) -> int {
        if self.page_start() + PAGE_SIZE < self.sessions@.len() {
            self.page_start() + PAGE_SIZE
        } else {
            self.sessions@.len() as int
        }
    }

    /// Every session has its place for a score, the page is there, and the selection is on it.
    pub open spec fn wf(self) -> bool {
        &&& self.scores@.len() == self.sessions@.len()
        &&& self.total_pages == page_count(self.sessions@.len())
        &&& self.page < self.total_pages
        &&& self.selected matches Some(i) ==> i == 0 || i < self.page_end() - self.page_start()
        &&& self.animation matches Some(a) ==> a.frame < ANIMATION_TOTAL_FRAMES
    }

    /// The index of the selected session.
    pub open spec fn selected_index(self) -> Option<int> {
        match self.selected {
            Some(i) => Some(self.page_start() + i),
            None => None,
        }
    }

    /// The score of the selected session, where it has one.
    pub open spec fn score_shown(self) -> Option<ScoreResult> {
        match self.selected_index() {
            Some(i) => if i < self.scores@.len() {
                self.scores@[i]
            } else {
                None
            },
            None => None,
        }
    }

    /// The browser on the first page, with the first session selected.
    pub fn new(sessions: Vec<Session>, scores: Vec<Option<ScoreResult>>) -> (res: Self)
        requires
            scores@.len() == sessions@.len(),
        ensures
            res.wf(),
            res.sessions == sessions,
            res.scores == scores,
            res.selected == Some(0usize),
            res.page == 0,
            res.status@ == FIRST_STATUS@,
            !res.detail_view,
            !res.scoring,
            res.animation is None,
    {
        let total = sessions.len();
        let total_pages: usize = if total == 0 {
            1
        } else {
            (total - 1) / PAGE_SIZE + 1
        };
        AppState {
            sessions,
            scores,
            selected: Some(0),
            page: 0,
            total_pages,
            status: String::from_str(FIRST_STATUS),
            detail_view: false,
            scoring: false,
            animation: None,
        }
    }

    proof fn lemma_page(self)
        requires
            self.wf(),
        ensures
            0 <= self.page_start() <= self.page_end() <= self.sessions@.len(),
            self.sessions@.len() > 0 ==> self.page_start() < self.page_end(),
    {
        let n = self.sessions@.len();
        if n > 0 {
            assert(self.page + 1 <= (n + 14) / 15);
            assert(15 * (self.page + 1) <= n + 14);
        }
    }

    /// Where the page starts and ends.
    fn page_bounds(&self) -> (res: (usize, usize))
        requires
            self.wf(),
        ensures
            res.0 == self.page_start(),
            res.1 == self.page_end(),
    {
        proof {
            self.lemma_page();
        }
        let len = self.sessions.len();
        assert(self.page * PAGE_SIZE == self.page_start());
        let start = self.page * PAGE_SIZE;
        let end: usize = if len - start <= PAGE_SIZE {
            len
        } else {
            start + PAGE_SIZE
        };
        (start, end)
    }

    /// What stands on the page, of things that each stand for a session.
    pub open spec fn on_page<T>(self, all: Seq<T>) -> Seq<T> {
        all.subrange(self.page_start(), self.page_end())
    }

    /// The sessions on the page.
    pub fn page_sessions(&self) -> (res: &[Session])
        requires
            self.wf(),
        ensures
            res@ == self.on_page(self.sessions@),
    {
        proof {
            self.lemma_page();
        }
        let (start, end) = self.page_bounds();
        slice_subrange(self.sessions.as_slice(), start, end)
    }

    /// The scores of the sessions on the page.
    pub fn page_scores(&self) -> (res: &[Option<ScoreResult>])
        requires
            self.wf(),
        ensures
            res@ == self.on_page(self.scores@),
    {
        proof {
            self.lemma_page();
        }
        let (start, end) = self.page_bounds();
        slice_subrange(self.scores.as_slice(), start, end)
    }

    /// The index of the selected session.
    pub fn selected_global_idx(&self) -> (res: Option<usize>)
        requires
            self.wf(),
        ensures
            match res {
                Some(i) => self.selected_index() == Some(i as int),
                None => self.selected_index() is None,
            },
    {
        proof {
            self.lemma_page();
        }
        let (start, end) = self.page_bounds();
        match self.selected {
            Some(i) => Some(start + i),
            None => None,
        }
    }

    /// The session that is selected, where there is one.
    pub open spec fn session_shown(self) -> Option<Session> {
        match self.selected_index() {
            Some(i) if i < self.sessions@.len() => Some(self.sessions@[i]),
            _ => None,
        }
    }

    /// The selected session.
    pub fn selected_session(&self) -> (res: Option<&Session>)
        requires
            self.wf(),
        ensures
            match res {
                Some(s) => self.session_shown() == Some(*s),
                None => self.session_shown() is None,
            },
    {
        match self.selected_global_idx() {
            Some(i) => if i < self.sessions.len() {
                Some(&self.sessions[i])
            } else {
                None
            },
            None => None,
        }
    }

    /// The score of the selected session.
    pub fn selected_score(&self) -> (res: Option<&ScoreResult>)
        requires
            self.wf(),
        ensures
            match res {
                Some(s) => self.score_shown() == Some(*s),
                None => self.score_shown() is None,
            },
    {
        match self.selected_global_idx() {
            Some(i) => if i < self.scores.len() {
                match &self.scores[i] {
                    Some(s) => Some(s),
                    None => None,
                }
            } else {
                None
            },
            None => None,
        }
    }

    // ── Moving about ─────────────────────────────────────────────────────────
    /// With the next session of the page selected; the last one stays selected.
    pub open spec fn with_next(self) -> AppState {
        let i = match self.selected {
            Some(i) => i,
            None => 0,
        };
        let len = self.page_end() - self.page_start();
        if len == 0 {
            self
        } else if i + 1 < len {
            AppState { selected: Some((i + 1) as usize), ..self }
        } else {
            AppState { selected: Some((len - 1) as usize), ..self }
        }
    }

    /// With the session before selected; the first one stays selected.
    pub open spec fn with_prev(self) -> AppState {
        match self.selected {
            Some(i) if i > 0 => AppState { selected: Some((i - 1) as usize), ..self },
            _ => AppState { selected: Some(0), ..self },
        }
    }

    /// On the next page, where there is one.
    pub open spec fn with_next_page(self) -> AppState {
        if self.page + 1 < self.total_pages {
            AppState { page: (self.page + 1) as usize, selected: Some(0), ..self }
        } else {
            self
        }
    }

    /// On the page before, where there is one.
    pub open spec fn with_prev_page(self) -> AppState {
        if self.page > 0 {
            AppState { page: (self.page - 1) as usize, selected: Some(0), ..self }
        } else {
            self
        }
    }

    /// Selects the next session of the page.
    pub fn next(&mut self)
        requires
            old(self).wf(),
        ensures
            *final(self) == old(self).with_next(),
            final(self).wf(),
    {
        let (start, end) = self.page_bounds();
        proof {
            self.lemma_page();
        }
        let len = end - start;
        if len == 0 {
            return;
        }
        let i: usize = match self.selected {
            Some(i) => i,
            None => 0,
        };
        let next: usize = if i < len - 1 {
            i + 1
        } else {
            len - 1
        };
        self.selected = Some(next);
    }

    /// Selects the session before.
    pub fn prev(&mut self)
        requires
            old(self).wf(),
        ensures
            *final(self) == old(self).with_prev(),
            final(self).wf(),
    {
        let i: usize = match self.selected {
            Some(i) => i,
            None => 0,
        };
        self.selected = Some(i.saturating_sub(1));
    }

    /// Goes to the next page.
    pub fn next_page(&mut self)
        requires
            old(self).wf(),
        ensures
            *final(self) == old(self).with_next_page(),
            final(self).wf(),
    {
        if self.page < self.total_pages - 1 {
            self.page = self.page + 1;
            self.selected = Some(0);
        }
    }

    /// Goes to the page before.
    pub fn prev_page(&mut self)
        requires
            old(self).wf(),
        ensures
            *final(self) == old(self).with_prev_page(),
            final(self).wf(),
    {
        if self.page > 0 {
            self.page = self.page - 1;
            self.selected = Some(0);
        }
    }

    // ── Keys ─────────────────────────────────────────────────────────────────
    /// Keys are ignored: a session is being scored, or a celebration runs.
    pub open spec fn busy(self) -> bool {
        self.scoring || self.animation is Some
    }

    /// What scores the selected session.
    pub open spec fn score_selected(self) -> Action {
        match self.selected_index() {
            Some(i) => Action::Score(i as usize),
            None => Action::Nothing,
        }
    }

    /// What a key does in the detail view. Enter scores a session that has no score yet.
    pub open spec fn after_detail_key(self, key: Key) -> (AppState, Action) {
        if key == Key::Char('q') {
            (self, Action::Quit)
        } else if key == Key::Esc || key == Key::Char('b') {
            (AppState { detail_view: false, ..self }, Action::Nothing)
        } else if key == Key::Char('r') || (key == Key::Enter && self.score_shown() is None) {
            (self, self.score_selected())
        } else {
            (self, Action::Nothing)
        }
    }

    /// What a key does in the list, `control` being the one modifier held or not.
    pub open spec fn after_list_key(self, key: Key, control: bool) -> (AppState, Action) {
        if key == Key::Char('q') || (key == Key::Char('c') && control) {
            (self, Action::Quit)
        } else if key == Key::Down || key == Key::Char('j') {
            (self.with_next(), Action::Nothing)
        } else if key == Key::Up || key == Key::Char('k') {
            (self.with_prev(), Action::Nothing)
        } else if key == Key::Char('n') {
            (self.with_next_page(), Action::Nothing)
        } else if key == Key::Char('p') {
            (self.with_prev_page(), Action::Nothing)
        } else if key == Key::Enter || key == Key::Char(' ') {
            if self.score_shown() is Some {
                (AppState { detail_view: true, ..self }, Action::Nothing)
            } else {
                (self, self.score_selected())
            }
        } else if key == Key::Char('d') {
            (AppState { detail_view: true, ..self }, Action::Nothing)
        } else if key == Key::Char('r') {
            (self, self.score_selected())
        } else {
            (self, Action::Nothing)
        }
    }

    /// What a key does.
    pub open spec fn after_key(self, key: Key, control: bool) -> (AppState, Action) {
        if self.busy() {
            (self, Action::Nothing)
        } else if self.detail_view {
            self.after_detail_key(key)
        } else {
            self.after_list_key(key, control)
        }
    }

    /// What scores the selected session.
    fn ask_for_score(&self) -> (res: Action)
        requires
            self.wf(),
        ensures
            res == self.score_selected(),
    {
        match self.selected_global_idx() {
            Some(i) => Action::Score(i),
            None => Action::Nothing,
        }
    }

    /// Does what a key does; `control` says whether Control is the one modifier held.
    pub fn handle_key(&mut self, key: Key, control: bool) -> (res: Action)
        requires
            old(self).wf(),
            old(self).sessions@.len() > 0,
        ensures
            (*final(self), res) == old(self).after_key(key, control),
            final(self).wf(),
            res matches Action::Score(i) ==> i < final(self).sessions@.len(),
    {
        proof {
            self.lemma_page();
        }
        if self.scoring || self.animation.is_some() {
            return Action::Nothing;
        }
        if self.detail_view {
            return match key {
                Key::Char('q') => Action::Quit,
                Key::Esc | Key::Char('b') => {
                    self.detail_view = false;
                    Action::Nothing
                },
                Key::Enter => if self.selected_score().is_none() {
                    self.ask_for_score()
                } else {
                    Action::Nothing
                },
                Key::Char('r') => self.ask_for_score(),
                _ => Action::Nothing,
            };
        }
        match key {
            Key::Char('q') => Action::Quit,
            Key::Char('c') if control => Action::Quit,
            Key::Down | Key::Char('j') => {
                self.next();
                Action::Nothing
            },
            Key::Up | Key::Char('k') => {
                self.prev();
                Action::Nothing
            },
            Key::Char('n') => {
                self.next_page();
                Action::Nothing
            },
            Key::Char('p') => {
                self.prev_page();
                Action::Nothing
            },
            Key::Enter | Key::Char(' ') => if self.selected_score().is_some() {
                self.detail_view = true;
                Action::Nothing
            } else {
                self.ask_for_score()
            },
            Key::Char('d') => {
                self.detail_view = true;
                Action::Nothing
            },
            Key::Char('r') => self.ask_for_score(),
            _ => Action::Nothing,
        }
    }

    // ── Scoring ──────────────────────────────────────────────────────────────
    /// The browser that was `before`, now that the service scores a session.
    pub open spec fn scores_after(self, before: AppState, service: Seq<char>) -> bool {
        &&& self == (AppState { scoring: true, status: self.status, ..before })
        &&& self.status@ == "⏳ Scoring with "@ + service + " API…"@
    }

    /// Says that the service scores a session now.
    pub fn start_scoring(&mut self, service: &str)
        requires
            old(self).wf(),
        ensures
            final(self).wf(),
            final(self).scores_after(*old(self), service@),
    {
        let mut status = String::from_str("⏳ Scoring with ");
        status.append(service);
        status.append(" API…");
        self.scoring = true;
        self.status = status;
    }

    /// What the status line says of the outcome, for a session that had a score or not.
    pub open spec fn outcome_status(
        outcome: Result<ScoreResult, String>,
        rescored: bool,
    ) -> Seq<char> {
        match outcome {
            Ok(result) => if rescored {
                "✅ Re-scored: "@ + decimal(result.total_score as nat) + "/100"@
            } else {
                "✅ Scored: "@ + decimal(result.total_score as nat) + "/100"@
            },
            Err(message) => "❌ Scoring failed: "@ + message@,
        }
    }

    /// The browser that was `before`, with the outcome of scoring the session with this index.
    pub open spec fn has_taken(
        self,
        before: AppState,
        idx: int,
        outcome: Result<ScoreResult, String>,
        width: u16,
        height: u16,
    ) -> bool {
        &&& self == (AppState {
            scores: self.scores,
            status: self.status,
            scoring: false,
            animation: self.animation,
            ..before
        })
        &&& self.scores@ == (match outcome {
            Ok(result) => before.scores@.update(idx, Some(result)),
            Err(_) => before.scores@,
        })
        &&& self.status@ == Self::outcome_status(outcome, before.scores@[idx] is Some)
        &&& match outcome {
            Ok(result) if before.scores@[idx] is None => {
                &&& self.animation matches Some(a)
                &&& a.frame == 0
                &&& a.kind == AnimationKind::for_score(result.total_score)
                &&& celebrates(a.particles, result.total_score, width)
                &&& a.width == width
                &&& a.height == height
            },
            _ => self.animation == before.animation,
        }
    }

    /// Takes up the outcome of scoring the session with this index. A first score is celebrated on
    /// a screen of that size; a new score of a session that had one is not.
    pub fn finish_scoring(
        &mut self,
        idx: usize,
        outcome: Result<ScoreResult, String>,
        width: u16,
        height: u16,
    )
        requires
            old(self).wf(),
            idx < old(self).sessions@.len(),
        ensures
            final(self).wf(),
            final(self).has_taken(*old(self), idx as int, outcome, width, height),
    {
        match outcome {
            Ok(result) => {
                let mut status = String::new();
                if self.scores[idx].is_some() {
                    status.append("✅ Re-scored: ");
                } else {
                    status.append("✅ Scored: ");
                    self.animation = Some(AnimationState::new(result.total_score, width, height));
                }
                status.append(decimal_string(result.total_score as u64).as_str());
                status.append("/100");
                self.scores.set(idx, Some(result));
                self.status = status;
            },
            Err(message) => {
                self.status = String::from_str("❌ Scoring failed: ").concat(message.as_str());
            },
        }
        self.scoring = false;
    }

    // ── The celebration ──────────────────────────────────────────────────────
    /// The celebration one step on; after the last step the detail view is shown.
    pub open spec fn after_tick(self) -> AppState {
        match self.animation {
            Some(a) => if a.frame + 1 < ANIMATION_TOTAL_FRAMES {
                AppState {
                    animation: Some(AnimationState { frame: (a.frame + 1) as usize, ..a }),
                    ..self
                }
            } else {
                AppState { animation: None, detail_view: true, ..self }
            },
            None => self,
        }
    }

    /// Takes the celebration one step on, and says whether that was its last step.
    pub fn tick(&mut self) -> (res: bool)
        requires
            old(self).wf(),
        ensures
            final(self).wf(),
            *final(self) == old(self).after_tick(),
            res == (old(self).animation is Some && final(self).animation is None),
    {
        match self.animation.take() {
            Some(mut animation) => {
                animation.advance();
                if animation.done() {
                    self.detail_view = true;
                    true
                } else {
                    self.animation = Some(animation);
                    false
                }
            },
            None => false,
        }
    }

    /// How long to wait for a key, in milliseconds.
    pub open spec fn wait_ms(self) -> u64 {
        if self.animation is Some {
            ANIMATION_POLL_MS
        } else {
            IDLE_POLL_MS
        }
    }

    /// How long to wait for a key, in milliseconds.
    pub fn poll_ms(&self) -> (res: u64)
        ensures
            res == self.wait_ms(),
    {
        if self.animation.is_some() {
            ANIMATION_POLL_MS
        } else {
            IDLE_POLL_MS
        }
    }
}

// ── Laws ─────────────────────────────────────────────────────────────────────
/// Every session is on exactly one page, and that page is there.
pub proof fn law_every_session_is_on_one_page(state: AppState, i: int)
    requires
        state.wf(),
        0 <= i < state.sessions@.len(),
    ensures
        (i / PAGE_SIZE as int) < state.total_pages,
        (state.page_start() <= i < state.page_end()) == (state.page == i / PAGE_SIZE as int),
{
    assert(15 * (i / 15) <= i < 15 * (i / 15) + 15);
}

/// Where there are sessions, the selected one is on the page.
pub proof fn law_selection_is_on_the_page(state: AppState)
    requires
        state.wf(),
        state.sessions@.len() > 0,
        state.selected is Some,
    ensures
        state.selected_index() is Some,
        state.page_start() <= state.selected_index()->Some_0 < state.page_end(),
        state.page_end() <= state.sessions@.len(),
{
    state.lemma_page();
}

/// Going to the next page and back, or back and to the next page, leads to the first session of
/// the same page.
pub proof fn law_paging_is_undone(state: AppState)
    ensures
        state.page + 1 < state.total_pages ==> state.with_next_page().with_prev_page() == (
        AppState { selected: Some(0), ..state }),
        0 < state.page < state.total_pages ==> state.with_prev_page().with_next_page() == (
        AppState { selected: Some(0), ..state }),
{
}

/// Going to the next session and back, or back and to the next session, changes nothing, except
/// at the end of the page where there is none to go to.
pub proof fn law_moving_is_undone(state: AppState, i: usize)
    requires
        state.wf(),
        state.selected == Some(i),
        state.sessions@.len() > 0,
    ensures
        i + 1 < state.page_end() - state.page_start() ==> state.with_next().with_prev() == state,
        i > 0 ==> state.with_prev().with_next() == state,
{
    state.lemma_page();
}

/// While a session is being scored or a celebration runs, no key does anything.
pub proof fn law_busy_ignores_keys(state: AppState, key: Key, control: bool)
    requires
        state.scoring || state.animation is Some,
    ensures
        state.after_key(key, control) == (state, Action::Nothing),
{
}

/// In the detail view of a session that has a score, Enter does nothing, however often it is
/// pressed.
pub proof fn law_enter_scores_once(state: AppState, control: bool)
    requires
        state.detail_view,
        state.score_shown() is Some,
    ensures
        state.after_key(Key::Enter, control) == (state, Action::Nothing),
{
}

/// The key `q` quits, in the list and in the detail view, unless keys are ignored.
pub proof fn law_q_quits(state: AppState, control: bool)
    requires
        !state.busy(),
    ensures
        state.after_key(Key::Char('q'), control) == (state, Action::Quit),
{
}

/// No key changes the sessions, their scores, the status line or the celebration.
pub proof fn law_keys_keep_the_data(state: AppState, key: Key, control: bool)
    ensures
        ({
            let after = state.after_key(key, control).0;
            &&& after.sessions == state.sessions
            &&& after.scores == state.scores
            &&& after.total_pages == state.total_pages
            &&& after.status == state.status
            &&& after.scoring == state.scoring
            &&& after.animation == state.animation
        }),
{
}

/// The state so many steps on.
pub open spec fn after_ticks(state: AppState, n: nat) -> AppState
    decreases n,
{
    if n == 0 {
        state
    } else {
        after_ticks(state, (n - 1) as nat).after_tick()
    }
}

/// A celebration takes its steps one by one, and after the last of them, and not before, the
/// detail view is shown.
pub proof fn law_celebration_ends(state: AppState, n: nat)
    requires
        state.wf(),
        state.animation is Some,
    ensures
        ({
            let frame = state.animation->Some_0.frame;
            let after = after_ticks(state, n);
            if frame + n < ANIMATION_TOTAL_FRAMES {
                after == (AppState {
                    animation: Some(
                        AnimationState { frame: (frame + n) as usize, ..state.animation->Some_0 },
                    ),
                    ..state
                })
            } else {
                after == (AppState { animation: None, detail_view: true, ..state })
            }
        }),
    decreases n,
{
    if n > 0 {
        law_celebration_ends(state, (n - 1) as nat);
    }
}

/// There are as many pages of 15 as the sessions take, and one where there are none.
pub proof fn law_pages(n: nat)
    ensures
        n == 0 ==> page_count(n) == 1,
        n > 0 ==> 15 * (page_count(n) - 1) < n <= 15 * page_count(n),
{
}

/// A page starts 15 sessions after the one before it, and ends 15 sessions on or with the last.
pub proof fn law_page_bounds(state: AppState)
    ensures
        state.page_start() == 15 * state.page,
        state.page_start() + 15 <= state.sessions@.len() ==> state.page_end()
            == state.page_start() + 15,
        state.page_start() + 15 > state.sessions@.len() ==> state.page_end()
            == state.sessions@.len(),
{
}

/// The selected session is as far from the start of the page as the selection says, and its score
/// is the one at its index.
pub proof fn law_selection(state: AppState, i: usize)
    requires
        state.selected == Some(i),
    ensures
        state.selected_index() == Some(15 * state.page + i),
        15 * state.page + i < state.scores@.len() ==> state.score_shown()
            == state.scores@[15 * state.page + i],
        15 * state.page + i >= state.scores@.len() ==> state.score_shown() is None,
        (AppState { selected: None, ..state }).selected_index() is None,
        (AppState { selected: None, ..state }).score_shown() is None,
{
}

/// Down selects the next session of the page, up the one before; at an end the selection stays.
/// Nothing else changes.
pub proof fn law_moves(state: AppState, i: usize)
    requires
        state.wf(),
        state.selected == Some(i),
        state.sessions@.len() > 0,
    ensures
        ({
            let len = state.page_end() - state.page_start();
            &&& i + 1 < len ==> state.with_next() == (AppState {
                selected: Some((i + 1) as usize),
                ..state
            })
            &&& i + 1 == len ==> state.with_next() == state
            &&& i > 0 ==> state.with_prev() == (AppState {
                selected: Some((i - 1) as usize),
                ..state
            })
            &&& i == 0 ==> state.with_prev() == state
        }),
{
    state.lemma_page();
}

/// The next page is the page after this one, with its first session selected; the last page has no
/// next one, and the first none before it.
pub proof fn law_page_turns(state: AppState)
    ensures
        state.page + 1 < state.total_pages ==> state.with_next_page() == (AppState {
            page: (state.page + 1) as usize,
            selected: Some(0),
            ..state
        }),
        state.page + 1 >= state.total_pages ==> state.with_next_page() == state,
        state.page > 0 ==> state.with_prev_page() == (AppState {
            page: (state.page - 1) as usize,
            selected: Some(0),
            ..state
        }),
        state.page == 0 ==> state.with_prev_page() == state,
{
}

/// What the keys of the list do.
pub proof fn law_list_keys(state: AppState, c: char, control: bool)
    requires
        !state.busy(),
        !state.detail_view,
    ensures
        state.after_key(Key::Char('c'), true) == (state, Action::Quit),
        state.after_key(Key::Char('c'), false) == (state, Action::Nothing),
        state.after_key(Key::Down, control) == (state.with_next(), Action::Nothing),
        state.after_key(Key::Char('j'), control) == (state.with_next(), Action::Nothing),
        state.after_key(Key::Up, control) == (state.with_prev(), Action::Nothing),
        state.after_key(Key::Char('k'), control) == (state.with_prev(), Action::Nothing),
        state.after_key(Key::Char('n'), control) == (state.with_next_page(), Action::Nothing),
        state.after_key(Key::Char('p'), control) == (state.with_prev_page(), Action::Nothing),
        state.after_key(Key::Char('d'), control) == (
            AppState { detail_view: true, ..state },
            Action::Nothing,
        ),
        state.after_key(Key::Char('r'), control) == (state, state.score_selected()),
        state.score_shown() is None ==> state.after_key(Key::Enter, control) == (
            state,
            state.score_selected(),
        ),
        state.score_shown() is Some ==> state.after_key(Key::Enter, control) == (
            AppState { detail_view: true, ..state },
            Action::Nothing,
        ),
        state.after_key(Key::Char(' '), control) == state.after_key(Key::Enter, control),
        state.after_key(Key::Esc, control) == (state, Action::Nothing),
        state.after_key(Key::Other, control) == (state, Action::Nothing),
        c != 'q' && c != 'c' && c != 'j' && c != 'k' && c != 'n' && c != 'p' && c != 'd' && c
            != 'r' && c != ' ' ==> state.after_key(Key::Char(c), control) == (
            state,
            Action::Nothing,
        ),
{
}

/// What the keys of the detail view do.
pub proof fn law_detail_keys(state: AppState, c: char, control: bool)
    requires
        !state.busy(),
        state.detail_view,
    ensures
        state.after_key(Key::Esc, control) == (
            AppState { detail_view: false, ..state },
            Action::Nothing,
        ),
        state.after_key(Key::Char('b'), control) == (
            AppState { detail_view: false, ..state },
            Action::Nothing,
        ),
        state.after_key(Key::Char('r'), control) == (state, state.score_selected()),
        state.score_shown() is None ==> state.after_key(Key::Enter, control) == (
            state,
            state.score_selected(),
        ),
        state.after_key(Key::Up, control) == (state, Action::Nothing),
        state.after_key(Key::Down, control) == (state, Action::Nothing),
        state.after_key(Key::Other, control) == (state, Action::Nothing),
        c != 'q' && c != 'b' && c != 'r' ==> state.after_key(Key::Char(c), control) == (
            state,
            Action::Nothing,
        ),
{
}

/// The session that is scored is the selected one; without a selection none is.
pub proof fn law_selected_is_scored(state: AppState)
    ensures
        state.selected is None ==> state.score_selected() == Action::Nothing,
        state.selected matches Some(i) ==> state.score_selected() == Action::Score(
            (15 * state.page + i) as usize,
        ),
{
}

/// Keys are ignored just while a session is being scored or a celebration runs.
pub proof fn law_busy(state: AppState)
    ensures
        state.busy() == (state.scoring || state.animation is Some),
{
}

/// The status line tells the total of a first score, that of a new score, or what went wrong.
pub proof fn law_outcomes(outcome: Result<ScoreResult, String>, rescored: bool)
    ensures
        outcome matches Ok(result) ==> AppState::outcome_status(outcome, false) == "✅ Scored: "@
            + decimal(result.total_score as nat) + "/100"@,
        outcome matches Ok(result) ==> AppState::outcome_status(outcome, true)
            == "✅ Re-scored: "@ + decimal(result.total_score as nat) + "/100"@,
        outcome matches Err(message) ==> AppState::outcome_status(outcome, rescored)
            == "❌ Scoring failed: "@ + message@,
{
}

/// A browser is sound where each session has its place for a score, the pages are those of the
/// sessions, the page is one of them, and the selection is on it.
pub proof fn law_soundness(state: AppState)
    ensures
        state.wf() == ({
            &&& state.scores@.len() == state.sessions@.len()
            &&& state.total_pages == page_count(state.sessions@.len())
            &&& state.page < state.total_pages
            &&& (state.selected matches Some(i) ==> i == 0 || i < state.page_end()
                - state.page_start())
            &&& (state.animation matches Some(a) ==> a.frame < 20)
        }),
{
}

/// The browser waits 50 milliseconds for a key while a celebration runs, else 200, and starts by
/// telling its keys.
pub proof fn law_waits(state: AppState)
    ensures
        state.animation is Some ==> state.wait_ms() == 50,
        state.animation is None ==> state.wait_ms() == 200,
        FIRST_STATUS@ == "↑/↓ navigate  Enter: score/detail  n/p: page  q: quit"@,
{
}

/// While the service scores a session the browser is busy and names the service; nothing else
/// changes.
pub proof fn law_scoring_starts(before: AppState, after: AppState, service: Seq<char>)
    requires
        after.scores_after(before, service),
    ensures
        after.busy(),
        after.status@ == "⏳ Scoring with "@ + service + " API…"@,
        (AppState { scoring: before.scoring, status: before.status, ..after }) == before,
{
}

/// A score takes the place of its session's and of no other; a failure leaves every score as it
/// was. Then nothing is being scored. Where the session had no score, the celebration of the new
/// one starts, as large as the screen; otherwise none does.
pub proof fn law_scoring_ends(
    before: AppState,
    after: AppState,
    idx: int,
    outcome: Result<ScoreResult, String>,
    width: u16,
    height: u16,
    i: int,
)
    requires
        before.wf(),
        0 <= idx < before.sessions@.len(),
        0 <= i < before.sessions@.len(),
        after.has_taken(before, idx, outcome, width, height),
    ensures
        !after.scoring,
        after.scores@.len() == before.scores@.len(),
        outcome matches Ok(result) ==> after.scores@[idx] == Some(result),
        i != idx ==> after.scores@[i] == before.scores@[i],
        outcome is Err ==> after.scores@ == before.scores@ && after.animation == before.animation,
        before.scores@[idx] is Some ==> after.animation == before.animation,
        outcome matches Ok(result) ==> before.scores@[idx] is None ==> {
            &&& after.animation matches Some(a)
            &&& a.frame == 0
            &&& a.kind == AnimationKind::for_score(result.total_score)
            &&& celebrates(a.particles, result.total_score, width)
            &&& a.width == width
            &&& a.height == height
        },
        outcome matches Err(message) ==> after.status@ == "❌ Scoring failed: "@ + message@,
        outcome matches Ok(result) ==> before.scores@[idx] is None ==> after.status@
            == "✅ Scored: "@ + decimal(result.total_score as nat) + "/100"@,
        outcome matches Ok(result) ==> before.scores@[idx] is Some ==> after.status@
            == "✅ Re-scored: "@ + decimal(result.total_score as nat) + "/100"@,
        after.sessions == before.sessions,
        after.page == before.page,
        after.total_pages == before.total_pages,
        after.selected == before.selected,
        after.detail_view == before.detail_view,
{
}

/// The page shows, from the session at 15 times its number on, each in its order, up to 15 of them
/// or the last.
pub proof fn law_page_shows<T>(state: AppState, all: Seq<T>, i: int)
    requires
        state.wf(),
        all.len() == state.sessions@.len(),
        0 <= i < 15,
        15 * state.page + i < all.len(),
    ensures
        i < state.on_page(all).len() <= 15,
        state.on_page(all)[i] == all[15 * state.page + i],
        15 * state.page + state.on_page(all).len() <= all.len(),
{
    state.lemma_page();
}

/// The session that is shown is the selected one of the page.
pub proof fn law_selected_is_shown(state: AppState, i: usize)
    requires
        state.wf(),
        state.selected == Some(i),
    ensures
        i < state.on_page(state.sessions@).len() ==> state.session_shown() == Some(
            state.on_page(state.sessions@)[i as int],
        ),
        state.sessions@.len() == 0 ==> state.session_shown() is None,
        (AppState { selected: None, ..state }).session_shown() is None,
{
    state.lemma_page();
}

} // verus!
