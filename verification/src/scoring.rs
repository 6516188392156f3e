//! Scoring a session, up to the point where the scoring service is needed.
use crate::heuristic::{is_rule_score, score_heuristic};
use crate::score::{
    asks_for, choose_scorer, question, score_request, ApiRequest, ScoreResult, Scorer, Service,
};
use crate::session::{transcript_fits, transcript_of, Session, SessionEntry};
use crate::time::Timestamp;
use vstd::prelude::*;

verus! {

/// What scoring a session comes to.
pub enum Scoring {
    /// The session is scored, by the rules. The service is not asked.
    Scored(ScoreResult),
    /// The service is to be asked this, with this key.
    Ask { key: String, request: ApiRequest },
}

/// There is a key for the service; an empty one is none.
pub open spec fn has_key(api_key: Option<String>) -> bool {
    api_key matches Some(key) && key@.len() > 0
}

/// What scoring the session comes to without a key, with one, and where the transcript cannot be
/// made.
pub open spec fn comes_to(
    api_key: Option<String>,
    service: Service,
    session: Session,
    entries: Seq<SessionEntry>,
    now: Timestamp,
    res: Option<Scoring>,
) -> bool {
    match res {
        Some(Scoring::Scored(result)) => !has_key(api_key) && is_rule_score(
            result,
            session.session_id@,
            entries,
            now,
        ),
        Some(Scoring::Ask { key, request }) => has_key(api_key) && api_key == Some(key)
            && transcript_fits(entries) && asks_for(
            request,
            service,
            session,
            transcript_of(entries),
        ),
        None => has_key(api_key) && !transcript_fits(entries),
    }
}

/// Scores a session of which these are the entries, at the time `now`: without a key by the rules,
/// with one by asking the service. Nothing where there is a key and a cut in the transcript would
/// fall inside a character.
pub fn score_session(
    api_key: Option<String>,
    service: &Service,
    session: &Session,
    entries: &[SessionEntry],
    now: Timestamp,
) -> (res: Option<Scoring>)
    ensures
        comes_to(api_key, *service, *session, entries@, now, res),
{
    match choose_scorer(api_key) {
        Scorer::Rules => Some(
            Scoring::Scored(score_heuristic(session.session_id.as_str(), entries, now)),
        ),
        Scorer::Service(key) => match Session::checked_transcript(entries) {
            Some(transcript) => Some(
                Scoring::Ask { key, request: score_request(service, session, transcript.as_str()) },
            ),
            None => None,
        },
    }
}

/// A key is one that is given and not empty.
pub proof fn law_keys(api_key: Option<String>)
    ensures
        api_key is None ==> !has_key(api_key),
        api_key matches Some(key) ==> has_key(api_key) == (key@.len() != 0),
{
}

/// Without a key the session is scored by the rules, at the time given. With one the service is
/// asked, with that key and the whole transcript, unless the transcript cannot be made.
pub proof fn law_what_scoring_comes_to(
    api_key: Option<String>,
    service: Service,
    session: Session,
    entries: Seq<SessionEntry>,
    now: Timestamp,
    res: Option<Scoring>,
)
    requires
        comes_to(api_key, service, session, entries, now, res),
    ensures
        api_key is None || api_key->0@.len() == 0 ==> {
            &&& res matches Some(Scoring::Scored(result))
            &&& result.session_id@ == session.session_id@
            &&& result.scored_at == now
            &&& is_rule_score(result, session.session_id@, entries, now)
        },
        api_key is Some && api_key->0@.len() > 0 && transcript_fits(entries) ==> {
            &&& res matches Some(Scoring::Ask { key, request })
            &&& key == api_key->0
            &&& request.model@ == service.model@
            &&& request.messages@.len() == 1
            &&& request.messages@[0].content@ == question(session, transcript_of(entries))
        },
        api_key is Some && api_key->0@.len() > 0 && !transcript_fits(entries) ==> res is None,
{
}

} // verus!
