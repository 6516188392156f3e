//! Finding sessions among the files on disk.
use crate::json::{json_view, parse_json, parsed_json, text_member, Json};
use crate::session::{Session, SessionEntry};
use crate::text::{
    blank, byte_count, chars_of, contains, contains_text, count, count_of, is_blank,
    is_white_space, law_trimming_is_idempotent, law_trimming_takes_white_space, lines, lines_of,
    push_text, same_text, size_of_text, texts, trimmed,
};
use crate::time::{parse_timestamp, timestamp_of, Timestamp};
use serde_json::Value;
use std::path::PathBuf;
use vstd::prelude::*;
use vstd::string::StringExecFns;

verus! {

/// Why no session was found.
pub enum SessionError {
    /// There is no file at this path.
    TranscriptMissing(String),
    /// This path has no parent directory.
    NoParent(String),
    /// There is no session of this id.
    NotFound(String),
    /// This directory cannot be read.
    Unreadable(String),
    /// There is no session in this directory.
    NoSessions(String),
}

impl SessionError {
    /// What is told to the user.
    pub open spec fn text(self) -> Seq<char> {
        match self {
            SessionError::TranscriptMissing(path) => "Transcript not found: "@ + path@,
            SessionError::NoParent(path) => "No parent dir for "@ + path@,
            SessionError::NotFound(id) => "Session "@ + id@ + " not found"@,
            SessionError::Unreadable(dir) => "Cannot read "@ + dir@,
            SessionError::NoSessions(dir) => "No sessions found in "@ + dir@,
        }
    }

    /// What is told to the user.
    pub fn message(&self) -> (res: String)
        ensures
            res@ == self.text(),
    {
        match self {
            SessionError::TranscriptMissing(path) => String::from_str(
                "Transcript not found: ",
            ).concat(path.as_str()),
            SessionError::NoParent(path) => String::from_str("No parent dir for ").concat(
                path.as_str(),
            ),
            SessionError::NotFound(id) => String::from_str("Session ").concat(id.as_str()).concat(
                " not found",
            ),
            SessionError::Unreadable(dir) => String::from_str("Cannot read ").concat(dir.as_str()),
            SessionError::NoSessions(dir) => String::from_str("No sessions found in ").concat(
                dir.as_str(),
            ),
        }
    }
}

// ── Transcript files ─────────────────────────────────────────────────────────
/// The lines that hold something, in order.
pub open spec fn filled(lines: Seq<Seq<char>>) -> Seq<Seq<char>>
    decreases lines.len(),
{
    if lines.len() == 0 {
        Seq::empty()
    } else if is_blank(lines.last()) {
        filled(lines.drop_last())
    } else {
        filled(lines.drop_last()).push(lines.last())
    }
}

/// The lines of a transcript file that hold an entry each: those that are not blank.
pub open spec fn entry_lines_of(content: Seq<char>) -> Seq<Seq<char>> {
    filled(lines_of(content))
}

/// The lines of a transcript file that hold an entry each.
pub fn entry_lines(content: &str) -> (res: Vec<String>)
    ensures
        texts(res@) == entry_lines_of(content@),
{
    let all = lines(content);
    let ghost whole = texts(all@);
    let mut out: Vec<String> = Vec::new();
    let mut i: usize = 0;
    assert(texts(out@) =~= filled(whole.take(0)));
    while i < all.len()
        invariant
            i <= all.len(),
            whole == texts(all@),
            texts(out@) == filled(whole.take(i as int)),
        decreases all.len() - i,
    {
        if !blank(all[i].as_str()) {
            push_text(&mut out, all[i].clone());
        }
        i += 1;
        assert(whole.take(i as int).drop_last() =~= whole.take(i - 1));
        assert(whole.take(i as int).last() == all@[i - 1]@);
    }
    assert(whole.take(i as int) =~= whole);
    out
}

/// The entries that were read, in order.
pub open spec fn kept(outcomes: Seq<Option<SessionEntry>>) -> Seq<SessionEntry>
    decreases outcomes.len(),
{
    if outcomes.len() == 0 {
        Seq::empty()
    } else {
        match outcomes.last() {
            Some(entry) => kept(outcomes.drop_last()).push(entry),
            None => kept(outcomes.drop_last()),
        }
    }
}

/// `outcome` is what `parse` may make of a text that reads `line`.
pub open spec fn parses_to<F: Fn(&str) -> Option<SessionEntry>>(
    parse: F,
    line: Seq<char>,
    outcome: Option<SessionEntry>,
) -> bool {
    exists|text: &str| text@ == line && call_ensures(parse, (text,), outcome)
}

impl Session {
    /// The entries of a transcript file. Each line that is not blank is handed to `parse`; those
    /// of which it makes no entry are passed over.
    pub fn read_entries<F: Fn(&str) -> Option<SessionEntry>>(content: &str, parse: F) -> (res: Vec<
        SessionEntry,
    >)
        requires
            forall|text: &str| call_requires(parse, (text,)),
        ensures
            exists|outcomes: Seq<Option<SessionEntry>>|
                {
                    &&& outcomes.len() == entry_lines_of(content@).len()
                    &&& forall|i: int|
                        0 <= i < outcomes.len() ==> parses_to(
                            parse,
                            entry_lines_of(content@)[i],
                            #[trigger] outcomes[i],
                        )
                    &&& res@ == #[trigger] kept(outcomes)
                },
    {
        let all = entry_lines(content);
        let ghost whole = texts(all@);
        let ghost mut outcomes: Seq<Option<SessionEntry>> = Seq::empty();
        let mut out: Vec<SessionEntry> = Vec::new();
        let mut i: usize = 0;
        while i < all.len()
            invariant
                i <= all.len(),
                whole == texts(all@),
                forall|text: &str| call_requires(parse, (text,)),
                outcomes.len() == i,
                forall|j: int|
                    0 <= j < i ==> parses_to(parse, whole[j], #[trigger] outcomes[j]),
                out@ == kept(outcomes),
            decreases all.len() - i,
        {
            let line = all[i].as_str();
            let outcome = parse(line);
            let ghost before = outcomes;
            proof {
                assert(parses_to(parse, whole[i as int], outcome));
                outcomes = outcomes.push(outcome);
                assert(outcomes.drop_last() =~= before);
            }
            if let Some(entry) = outcome {
                out.push(entry);
            }
            i += 1;
        }
        out
    }
}

/// The time that an entry gives: the timestamp of a user's message.
pub open spec fn entry_time(entry: Json) -> Option<Timestamp> {
    if entry.text_member("type"@) == Some("user"@) {
        match entry.text_member("timestamp"@) {
            Some(t) => timestamp_of(t),
            None => None,
        }
    } else {
        None
    }
}

/// The time that a line's entry gives.
pub open spec fn line_time(line: Seq<char>) -> Option<Timestamp> {
    match parsed_json(line) {
        Some(entry) => entry_time(entry),
        None => None,
    }
}

/// The working directory that a line's entry gives.
pub open spec fn line_cwd(line: Seq<char>) -> Option<Seq<char>> {
    match parsed_json(line) {
        Some(entry) => entry.text_member("cwd"@),
        None => None,
    }
}

/// The first thing that is given.
pub open spec fn first_given<T>(s: Seq<Option<T>>) -> Option<T>
    decreases s.len(),
{
    if s.len() == 0 {
        None
    } else {
        match first_given(s.drop_last()) {
            Some(t) => Some(t),
            None => s.last(),
        }
    }
}

/// The text in an optional string.
pub open spec fn text_of(s: Option<String>) -> Option<Seq<char>> {
    match s {
        Some(t) => Some(t@),
        None => None,
    }
}

/// When a session started, how many entries it has, and where it ran.
pub struct MetaView {
    pub started_at: Option<Timestamp>,
    pub message_count: nat,
    pub cwd: Option<Seq<char>>,
}

/// What a transcript file tells of its session: the time of the first user's message that has one,
/// and the first working directory given. A file that could not be read tells nothing.
pub open spec fn meta_of(content: Option<Seq<char>>) -> MetaView {
    match content {
        Some(s) => {
            let lines = entry_lines_of(s);
            MetaView {
                started_at: first_given(Seq::new(lines.len(), |i: int| line_time(lines[i]))),
                message_count: lines.len(),
                cwd: first_given(Seq::new(lines.len(), |i: int| line_cwd(lines[i]))),
            }
        },
        None => MetaView { started_at: None, message_count: 0, cwd: None },
    }
}

/// What a line of a transcript file tells of the session.
pub struct LineFacts {
    pub time: Option<Timestamp>,
    pub cwd: Option<String>,
}

/// The times that the lines give.
pub open spec fn times(facts: Seq<LineFacts>) -> Seq<Option<Timestamp>> {
    Seq::new(facts.len(), |i: int| facts[i].time)
}

/// The working directories that the lines give.
pub open spec fn cwds(facts: Seq<LineFacts>) -> Seq<Option<Seq<char>>> {
    Seq::new(facts.len(), |i: int| text_of(facts[i].cwd))
}

/// What an entry tells of the session.
pub fn entry_facts(entry: &Value) -> (res: LineFacts)
    ensures
        res.time == entry_time(json_view(*entry)),
        text_of(res.cwd) == json_view(*entry).text_member("cwd"@),
{
    let mut time: Option<Timestamp> = None;
    if let Some(kind) = text_member(entry, "type") {
        if same_text(kind, "user") {
            if let Some(t) = text_member(entry, "timestamp") {
                time = parse_timestamp(t);
            }
        }
    }
    let cwd: Option<String> = match text_member(entry, "cwd") {
        Some(d) => Some(String::from_str(d)),
        None => None,
    };
    LineFacts { time, cwd }
}

/// Reads what a line tells of the session.
pub fn line_facts(line: &str) -> (res: LineFacts)
    ensures
        res.time == line_time(line@),
        text_of(res.cwd) == line_cwd(line@),
{
    match parse_json(line) {
        Some(entry) => entry_facts(&entry),
        None => LineFacts { time: None, cwd: None },
    }
}

/// What the lines tell of the session: the first time and the first working directory given, and
/// how many lines there are.
pub fn meta_from_facts(facts: &Vec<LineFacts>) -> (res: (Option<Timestamp>, usize, Option<String>))
    ensures
        res.0 == first_given(times(facts@)),
        res.1 == facts@.len(),
        text_of(res.2) == first_given(cwds(facts@)),
{
    let mut started_at: Option<Timestamp> = None;
    let mut cwd: Option<String> = None;
    let mut i: usize = 0;
    while i < facts.len()
        invariant
            i <= facts.len(),
            started_at == first_given(times(facts@).take(i as int)),
            text_of(cwd) == first_given(cwds(facts@).take(i as int)),
        decreases facts.len() - i,
    {
        if started_at.is_none() {
            started_at = facts[i].time;
        }
        if cwd.is_none() {
            if let Some(d) = &facts[i].cwd {
                cwd = Some(d.clone());
            }
        }
        i += 1;
        assert(times(facts@).take(i as int).drop_last() =~= times(facts@).take(i - 1));
        assert(cwds(facts@).take(i as int).drop_last() =~= cwds(facts@).take(i - 1));
    }
    assert(times(facts@).take(i as int) =~= times(facts@));
    assert(cwds(facts@).take(i as int) =~= cwds(facts@));
    (started_at, facts.len(), cwd)
}

/// Reads what a transcript file tells of its session: when it started, how many entries it has,
/// and where it ran.
pub fn parse_session_meta(content: Option<&str>) -> (res: (
    Option<Timestamp>,
    usize,
    Option<String>,
))
    ensures
        (MetaView {
            started_at: res.0,
            message_count: res.1 as nat,
            cwd: text_of(res.2),
        }) == meta_of(
            match content {
                Some(s) => Some(s@),
                None => None,
            },
        ),
{
    match content {
        None => (None, 0, None),
        Some(content) => {
            let entries = entry_lines(content);
            let mut facts: Vec<LineFacts> = Vec::new();
            let mut i: usize = 0;
            while i < entries.len()
                invariant
                    i <= entries.len(),
                    facts@.len() == i,
                    forall|j: int|
                        0 <= j < i ==> (#[trigger] facts@[j]).time == line_time(entries@[j]@)
                            && text_of(facts@[j].cwd) == line_cwd(entries@[j]@),
                decreases entries.len() - i,
            {
                facts.push(line_facts(entries[i].as_str()));
                i += 1;
            }
            proof {
                let lines = entry_lines_of(content@);
                assert(texts(entries@) == lines);
                assert(lines.len() == entries@.len());
                assert forall|j: int| 0 <= j < lines.len() implies lines[j] == entries@[j]@ by {
                    assert(texts(entries@)[j] == entries@[j]@);
                }
                assert(times(facts@) =~= Seq::new(lines.len(), |i: int| line_time(lines[i])));
                assert(cwds(facts@) =~= Seq::new(lines.len(), |i: int| line_cwd(lines[i])));
            }
            meta_from_facts(&facts)
        },
    }
}

/// The name of a session: 36 bytes, four of them hyphens.
pub open spec fn is_session_id(stem: Seq<char>) -> bool {
    size_of_text(stem) == 36 && count_of(stem, '-') == 4
}

/// The file's name without its extension, or nothing where that is no text.
pub open spec fn stem_text(stem: Option<String>) -> Seq<char> {
    match stem {
        Some(s) => s@,
        None => ""@,
    }
}

/// A file with this extension and this name holds a session's transcript.
pub open spec fn is_transcript(extension: Option<String>, stem: Option<String>) -> bool {
    text_of(extension) == Some("jsonl"@) && is_session_id(stem_text(stem))
}

/// Whether a file with this extension and this name holds a session's transcript.
pub fn is_session_file(extension: &Option<String>, stem: &Option<String>) -> (res: bool)
    ensures
        res == is_transcript(*extension, *stem),
{
    let jsonl = match extension {
        Some(e) => same_text(e.as_str(), "jsonl"),
        None => false,
    };
    if !jsonl {
        return false;
    }
    let name = match stem {
        Some(s) => s.as_str(),
        None => "",
    };
    byte_count(name) == 36 && count(&chars_of(name), '-') == 4
}

/// The name of the file that holds a session's score.
pub open spec fn score_name(session_id: Seq<char>) -> Seq<char> {
    session_id + ".score.json"@
}

/// The name of the file that holds a session's score, next to the transcript.
pub fn score_file_name(session_id: &str) -> (res: String)
    ensures
        res@ == score_name(session_id@),
{
    String::from_str(session_id).concat(".score.json")
}

// ── Sessions ─────────────────────────────────────────────────────────────────
/// What a session holds.
pub struct SessionView {
    pub session_id: Seq<char>,
    pub project_slug: Seq<char>,
    pub project_dir: Seq<char>,
    pub jsonl_path: PathBuf,
    pub score_path: PathBuf,
    pub meta: MetaView,
}

impl View for Session {
    type V = SessionView;

    open spec fn view(&self) -> SessionView {
        SessionView {
            session_id: self.session_id@,
            project_slug: self.project_slug@,
            project_dir: self.project_dir@,
            jsonl_path: self.jsonl_path,
            score_path: self.score_path,
            meta: MetaView {
                started_at: self.started_at,
                message_count: self.message_count as nat,
                cwd: text_of(self.cwd),
            },
        }
    }
}

impl Clone for Session {
    fn clone(&self) -> (res: Self)
        ensures
            res@ == self@,
    {
        Session {
            session_id: self.session_id.clone(),
            project_slug: self.project_slug.clone(),
            project_dir: self.project_dir.clone(),
            jsonl_path: self.jsonl_path.clone(),
            score_path: self.score_path.clone(),
            started_at: self.started_at,
            message_count: self.message_count,
            cwd: match &self.cwd {
                Some(d) => Some(d.clone()),
                None => None,
            },
        }
    }
}

/// What the sessions hold, in order.
pub open spec fn views(sessions: Seq<Session>) -> Seq<SessionView> {
    Seq::new(sessions.len(), |i: int| sessions[i]@)
}

/// The path of a transcript that a caller names, and what is found there.
pub struct TranscriptFile {
    pub path: String,
    pub exists: bool,
    /// The directory that the file is in, as text, where the path has one.
    pub project_dir: Option<String>,
    /// The name of that directory, where it is a text.
    pub dir_name: Option<String>,
    /// The file's name without its extension, where it is a text.
    pub stem: Option<String>,
    pub jsonl_path: PathBuf,
    pub score_path: PathBuf,
    /// What the file holds, where it could be read.
    pub content: Option<String>,
}

/// The text, or `unknown` where there is none.
pub open spec fn known(s: Option<String>) -> Seq<char> {
    match s {
        Some(t) => t@,
        None => "unknown"@,
    }
}

/// The text, or `unknown` where there is none.
fn or_unknown(s: Option<String>) -> (res: String)
    ensures
        res@ == known(s),
{
    match s {
        Some(t) => t,
        None => String::from_str("unknown"),
    }
}

/// Reads what a transcript file tells of its session.
fn meta_from(content: &Option<String>) -> (res: (Option<Timestamp>, usize, Option<String>))
    ensures
        (MetaView {
            started_at: res.0,
            message_count: res.1 as nat,
            cwd: text_of(res.2),
        }) == meta_of(text_of(*content)),
{
    match content {
        Some(s) => parse_session_meta(Some(s.as_str())),
        None => parse_session_meta(None),
    }
}

/// What becomes of the transcript file that a caller names: a session, or why there is none.
pub open spec fn opens(file: TranscriptFile, res: Result<Session, SessionError>) -> bool {
    match res {
        Ok(session) => file.exists && file.project_dir is Some && session@ == (SessionView {
            session_id: known(file.stem),
            project_slug: known(file.dir_name),
            project_dir: file.project_dir->0@,
            jsonl_path: file.jsonl_path,
            score_path: file.score_path,
            meta: meta_of(text_of(file.content)),
        }),
        Err(SessionError::TranscriptMissing(path)) => !file.exists && path@ == file.path@,
        Err(SessionError::NoParent(path)) => file.exists && file.project_dir is None && path@
            == file.path@,
        Err(_) => false,
    }
}

impl Session {
    /// The session whose transcript is at the path that a caller names.
    pub fn from_transcript_path(file: TranscriptFile) -> (res: Result<Session, SessionError>)
        ensures
            opens(file, res),
    {
        if !file.exists {
            return Err(SessionError::TranscriptMissing(file.path));
        }
        match file.project_dir {
            None => Err(SessionError::NoParent(file.path)),
            Some(project_dir) => {
                let (started_at, message_count, cwd) = meta_from(&file.content);
                Ok(
                    Session {
                        session_id: or_unknown(file.stem),
                        project_slug: or_unknown(file.dir_name),
                        project_dir,
                        jsonl_path: file.jsonl_path,
                        score_path: file.score_path,
                        started_at,
                        message_count,
                        cwd,
                    },
                )
            },
        }
    }
}

/// A file in a project's directory.
pub struct FoundFile {
    pub project_slug: String,
    /// The project's directory, as text.
    pub project_dir: String,
    /// The file's extension, where it is a text.
    pub extension: Option<String>,
    /// The file's name without its extension, where it is a text.
    pub stem: Option<String>,
    pub jsonl_path: PathBuf,
    pub score_path: PathBuf,
    /// What the file holds, where it could be read.
    pub content: Option<String>,
}

/// The session whose transcript a file holds.
pub open spec fn session_in(file: FoundFile) -> SessionView {
    SessionView {
        session_id: stem_text(file.stem),
        project_slug: file.project_slug@,
        project_dir: file.project_dir@,
        jsonl_path: file.jsonl_path,
        score_path: file.score_path,
        meta: meta_of(text_of(file.content)),
    }
}

/// The sessions whose transcripts are among the files, in order.
pub open spec fn sessions_in(files: Seq<FoundFile>) -> Seq<SessionView>
    decreases files.len(),
{
    if files.len() == 0 {
        Seq::empty()
    } else if is_transcript(files.last().extension, files.last().stem) {
        sessions_in(files.drop_last()).push(session_in(files.last()))
    } else {
        sessions_in(files.drop_last())
    }
}

/// `a` started before `b`; one whose start is not known counts as older than any other.
pub open spec fn older(a: SessionView, b: SessionView) -> bool {
    match (a.meta.started_at, b.meta.started_at) {
        (Some(s), Some(t)) => s.before(t),
        (None, Some(t)) => true,
        (_, None) => false,
    }
}

/// `sorted` with `x` placed before those at the end that are older than it.
pub open spec fn placed(sorted: Seq<SessionView>, x: SessionView) -> Seq<SessionView>
    decreases sorted.len(),
{
    if sorted.len() > 0 && older(sorted.last(), x) {
        placed(sorted.drop_last(), x).push(sorted.last())
    } else {
        sorted.push(x)
    }
}

/// The sessions with the newest first; of those that started at the same time, in the order that
/// they were in.
pub open spec fn newest_first(s: Seq<SessionView>) -> Seq<SessionView>
    decreases s.len(),
{
    if s.len() == 0 {
        Seq::empty()
    } else {
        placed(newest_first(s.drop_last()), s.last())
    }
}

/// Whether `a` started before `b`.
fn is_older(a: &Session, b: &Session) -> (res: bool)
    ensures
        res == older(a@, b@),
{
    match (a.started_at, b.started_at) {
        (Some(s), Some(t)) => s.is_before(t),
        (None, Some(_)) => true,
        (_, None) => false,
    }
}

proof fn lemma_placed(s: Seq<SessionView>, x: SessionView, at: int)
    requires
        0 <= at <= s.len(),
        forall|j: int| at <= j < s.len() ==> older(#[trigger] s[j], x),
        at > 0 ==> !older(s[at - 1], x),
    ensures
        placed(s, x) == s.insert(at, x),
    decreases s.len(),
{
    if at < s.len() {
        assert(older(s[s.len() - 1], x));
        lemma_placed(s.drop_last(), x, at);
        assert(s.drop_last().insert(at, x).push(s.last()) =~= s.insert(at, x));
    } else {
        assert(s.push(x) =~= s.insert(at, x));
    }
}

/// Places a session before those at the end that are older than it.
fn place(sessions: &mut Vec<Session>, session: Session)
    ensures
        views(final(sessions)@) == placed(views(old(sessions)@), session@),
{
    let mut at: usize = sessions.len();
    while at > 0 && is_older(&sessions[at - 1], &session)
        invariant
            at <= sessions.len(),
            forall|j: int|
                at <= j < sessions.len() ==> older(#[trigger] views(sessions@)[j], session@),
        decreases at,
    {
        at -= 1;
    }
    proof {
        lemma_placed(views(sessions@), session@, at as int);
    }
    sessions.insert(at, session);
    assert(views(sessions@) =~= views(old(sessions)@).insert(at as int, session@));
}

/// The sessions whose transcripts are among the files, with the newest first.
pub fn discover_all_sessions(files: Vec<FoundFile>) -> (res: Vec<Session>)
    ensures
        views(res@) == newest_first(sessions_in(files@)),
        forall|i: int| 0 <= i < res@.len() ==> comes_from((#[trigger] res@[i])@, files@),
{
    let mut sessions: Vec<Session> = Vec::new();
    let ghost found = files@;
    assert(found.take(0) =~= Seq::empty());
    assert(views(sessions@) =~= newest_first(sessions_in(found.take(0))));
    for file in it: files
        invariant
            it.seq() == found,
            views(sessions@) == newest_first(sessions_in(found.take(it.index() as int))),
    {
        let ghost i = it.index() as int;
        assert(found.take(i + 1).drop_last() =~= found.take(i));
        assert(found.take(i + 1).last() == file);
        if is_session_file(&file.extension, &file.stem) {
            let (started_at, message_count, cwd) = meta_from(&file.content);
            let session = Session {
                session_id: match file.stem {
                    Some(s) => s,
                    None => String::from_str(""),
                },
                project_slug: file.project_slug,
                project_dir: file.project_dir,
                jsonl_path: file.jsonl_path,
                score_path: file.score_path,
                started_at,
                message_count,
                cwd,
            };
            proof {
                let all = sessions_in(found.take(i + 1));
                assert(session@ == session_in(found[i]));
                assert(all.drop_last() =~= sessions_in(found.take(i)));
            }
            place(&mut sessions, session);
        }
    }
    assert(found.take(found.len() as int) =~= found);
    proof {
        assert forall|i: int| 0 <= i < sessions@.len() implies comes_from(
            (#[trigger] sessions@[i])@,
            found,
        ) by {
            assert(views(sessions@)[i] == sessions@[i]@);
            law_discovered_sessions_are_of_files(found, i);
        }
    }
    sessions
}

/// The session has this id, and is of this project where one is named: by its slug, or by a part of
/// its directory.
pub open spec fn is_wanted(
    s: SessionView,
    session_id: Seq<char>,
    project: Option<Seq<char>>,
) -> bool {
    s.session_id == session_id && match project {
        Some(p) => s.project_slug == p || contains_text(s.project_dir, p),
        None => true,
    }
}

/// Whether the session has this id and is of this project.
fn wanted(s: &Session, session_id: &str, project_dir: Option<&str>) -> (res: bool)
    ensures
        res == is_wanted(
            s@,
            session_id@,
            match project_dir {
                Some(p) => Some(p@),
                None => None,
            },
        ),
{
    if !same_text(s.session_id.as_str(), session_id) {
        return false;
    }
    match project_dir {
        Some(p) => same_text(s.project_slug.as_str(), p) || contains(
            &chars_of(s.project_dir.as_str()),
            p,
        ),
        None => true,
    }
}

/// The first of the sessions that is wanted was found, or there is none.
pub open spec fn finds(
    sessions: Seq<Session>,
    session_id: Seq<char>,
    project: Option<Seq<char>>,
    res: Result<Session, SessionError>,
) -> bool {
    match res {
        Ok(s) => exists|i: int|
            0 <= i < sessions.len() && s == sessions[i] && is_wanted(
                (#[trigger] sessions[i])@,
                session_id,
                project,
            ) && forall|j: int|
                0 <= j < i ==> !is_wanted((#[trigger] sessions[j])@, session_id, project),
        Err(SessionError::NotFound(id)) => id@ == session_id && forall|j: int|
            0 <= j < sessions.len() ==> !is_wanted(
                (#[trigger] sessions[j])@,
                session_id,
                project,
            ),
        Err(_) => false,
    }
}

/// The first of the sessions that has this id and is of this project, where one is named.
pub fn find_session(sessions: Vec<Session>, session_id: &str, project_dir: Option<&str>) -> (res:
    Result<Session, SessionError>)
    ensures
        finds(
            sessions@,
            session_id@,
            match project_dir {
                Some(p) => Some(p@),
                None => None,
            },
            res,
        ),
{
    let mut rest = sessions;
    let ghost project = match project_dir {
        Some(p) => Some(p@),
        None => None,
    };
    let mut i: usize = 0;
    while i < rest.len()
        invariant
            rest == sessions,
            i <= rest.len(),
            project == (match project_dir {
                Some(p) => Some(p@),
                None => None,
            }),
            forall|j: int|
                0 <= j < i ==> !is_wanted((#[trigger] sessions@[j])@, session_id@, project),
        decreases rest.len() - i,
    {
        if wanted(&rest[i], session_id, project_dir) {
            let found = rest.remove(i);
            assert(found == sessions@[i as int]);
            return Ok(found);
        }
        i += 1;
    }
    Err(SessionError::NotFound(String::from_str(session_id)))
}

/// A file that may hold the latest session.
pub struct Candidate {
    /// The file's extension, where it is a text.
    pub extension: Option<String>,
    /// The file's name without its extension, where it is a text.
    pub stem: Option<String>,
    /// When the file was last modified, in nanoseconds since the start of 1970, where that is
    /// known.
    pub modified: Option<i128>,
}

impl Candidate {
    /// The file holds a session's transcript.
    pub open spec fn counts(self) -> bool {
        is_transcript(self.extension, self.stem)
    }

    /// When the file was last modified; the start of 1970 where that is not known.
    pub open spec fn time(self) -> i128 {
        match self.modified {
            Some(t) => t,
            None => 0,
        }
    }
}

/// The transcript that was modified last, and of several the first, was found among the
/// candidates in `dir`, or there is none.
pub open spec fn finds_latest(
    candidates: Seq<Candidate>,
    dir: Seq<char>,
    res: Result<usize, SessionError>,
) -> bool {
    match res {
        Ok(i) => i < candidates.len() && candidates[i as int].counts() && (forall|j: int|
            0 <= j < candidates.len() && (#[trigger] candidates[j]).counts()
                ==> candidates[j].time() <= candidates[i as int].time()) && (forall|j: int|
            0 <= j < i && (#[trigger] candidates[j]).counts() ==> candidates[j].time()
                < candidates[i as int].time()),
        Err(SessionError::NoSessions(d)) => d@ == dir && forall|j: int|
            0 <= j < candidates.len() ==> !(#[trigger] candidates[j]).counts(),
        Err(_) => false,
    }
}

/// The position of the transcript that was modified last, and of several the first, among the
/// candidates in `dir`.
pub fn find_latest_session(candidates: &Vec<Candidate>, dir: &str) -> (res: Result<
    usize,
    SessionError,
>)
    ensures
        finds_latest(candidates@, dir@, res),
{
    let mut best: Option<usize> = None;
    let mut i: usize = 0;
    while i < candidates.len()
        invariant
            i <= candidates.len(),
            match best {
                Some(b) => b < i && candidates@[b as int].counts() && (forall|j: int|
                    0 <= j < i && (#[trigger] candidates@[j]).counts() ==> candidates@[j].time()
                        <= candidates@[b as int].time()) && (forall|j: int|
                    0 <= j < b && (#[trigger] candidates@[j]).counts() ==> candidates@[j].time()
                        < candidates@[b as int].time()),
                None => forall|j: int| 0 <= j < i ==> !(#[trigger] candidates@[j]).counts(),
            },
        decreases candidates.len() - i,
    {
        let c = &candidates[i];
        if is_session_file(&c.extension, &c.stem) {
            let time: i128 = match c.modified {
                Some(t) => t,
                None => 0,
            };
            let newer = match best {
                Some(b) => {
                    let best_time: i128 = match candidates[b].modified {
                        Some(t) => t,
                        None => 0,
                    };
                    time > best_time
                },
                None => true,
            };
            if newer {
                best = Some(i);
            }
        }
        i += 1;
    }
    match best {
        Some(b) => Ok(b),
        None => Err(SessionError::NoSessions(String::from_str(dir))),
    }
}

// ── Laws ─────────────────────────────────────────────────────────────────────
proof fn lemma_placed_members(s: Seq<SessionView>, x: SessionView, i: int)
    requires
        0 <= i < placed(s, x).len(),
    ensures
        placed(s, x).len() == s.len() + 1,
        placed(s, x)[i] == x || s.contains(placed(s, x)[i]),
    decreases s.len(),
{
    if s.len() > 0 && older(s.last(), x) {
        let rest = s.drop_last();
        if i < placed(rest, x).len() {
            lemma_placed_members(rest, x, i);
            if rest.contains(placed(rest, x)[i]) {
                let j = choose|j: int| 0 <= j < rest.len() && rest[j] == placed(rest, x)[i];
                assert(s[j] == placed(s, x)[i]);
            }
        } else {
            assert(placed(rest, x).len() > 0) by {
                assert(rest.len() >= 0);
            }
            lemma_placed_members(rest, x, 0);
            assert(s[s.len() - 1] == placed(s, x)[i]);
        }
    } else {
        if i < s.len() {
            assert(s[i] == placed(s, x)[i]);
        }
    }
}

/// No session is older than one that comes after it.
pub open spec fn is_sorted(s: Seq<SessionView>) -> bool {
    forall|i: int, j: int| 0 <= i < j < s.len() ==> !older(#[trigger] s[i], #[trigger] s[j])
}

proof fn lemma_placed_sorted(s: Seq<SessionView>, x: SessionView)
    requires
        is_sorted(s),
    ensures
        is_sorted(placed(s, x)),
    decreases s.len(),
{
    if s.len() > 0 && older(s.last(), x) {
        let rest = s.drop_last();
        lemma_placed_sorted(rest, x);
        let p = placed(rest, x);
        assert forall|i: int, j: int| 0 <= i < j < placed(s, x).len() implies !older(
            #[trigger] placed(s, x)[i],
            #[trigger] placed(s, x)[j],
        ) by {
            if j == p.len() {
                lemma_placed_members(rest, x, i);
                if p[i] != x {
                    let k = choose|k: int| 0 <= k < rest.len() && rest[k] == p[i];
                    assert(!older(s[k], s[s.len() - 1]));
                }
            } else {
                assert(placed(s, x)[i] == p[i] && placed(s, x)[j] == p[j]);
            }
        }
    } else {
        assert forall|i: int, j: int| 0 <= i < j < placed(s, x).len() implies !older(
            #[trigger] placed(s, x)[i],
            #[trigger] placed(s, x)[j],
        ) by {
            if j == s.len() {
                if i < s.len() - 1 {
                    assert(!older(s[i], s[s.len() - 1]));
                }
            } else {
                assert(!older(s[i], s[j]));
            }
        }
    }
}

/// The newest session comes first: none is older than one that comes after it.
pub proof fn law_newest_comes_first(s: Seq<SessionView>)
    ensures
        is_sorted(newest_first(s)),
    decreases s.len(),
{
    if s.len() > 0 {
        law_newest_comes_first(s.drop_last());
        lemma_placed_sorted(newest_first(s.drop_last()), s.last());
    }
}

proof fn lemma_placed_multiset(s: Seq<SessionView>, x: SessionView)
    ensures
        placed(s, x).to_multiset() == s.to_multiset().insert(x),
    decreases s.len(),
{
    broadcast use vstd::seq_lib::group_to_multiset_ensures;

    if s.len() > 0 && older(s.last(), x) {
        let rest = s.drop_last();
        lemma_placed_multiset(rest, x);
        assert(s =~= rest.push(s.last()));
        assert(s.to_multiset() == rest.to_multiset().insert(s.last()));
        assert(rest.to_multiset().insert(x).insert(s.last()) =~= rest.to_multiset().insert(
            s.last(),
        ).insert(x));
    }
}

/// Putting the sessions in order loses none, adds none and changes none.
pub proof fn law_ordering_keeps_sessions(s: Seq<SessionView>)
    ensures
        newest_first(s).to_multiset() == s.to_multiset(),
    decreases s.len(),
{
    broadcast use vstd::seq_lib::group_to_multiset_ensures;

    if s.len() > 0 {
        let rest = s.drop_last();
        law_ordering_keeps_sessions(rest);
        lemma_placed_multiset(newest_first(rest), s.last());
        assert(s =~= rest.push(s.last()));
    }
}

/// The sessions that started at that time, in order.
pub open spec fn started_at(s: Seq<SessionView>, time: Option<Timestamp>) -> Seq<SessionView>
    decreases s.len(),
{
    if s.len() == 0 {
        Seq::empty()
    } else if s.last().meta.started_at == time {
        started_at(s.drop_last(), time).push(s.last())
    } else {
        started_at(s.drop_last(), time)
    }
}

proof fn lemma_placed_started(s: Seq<SessionView>, x: SessionView, time: Option<Timestamp>)
    ensures
        started_at(placed(s, x), time) == started_at(s.push(x), time),
    decreases s.len(),
{
    assert(s.push(x).drop_last() =~= s);
    if s.len() > 0 && older(s.last(), x) {
        let rest = s.drop_last();
        lemma_placed_started(rest, x, time);
        assert(rest.push(x).drop_last() =~= rest);
        assert(placed(s, x).drop_last() =~= placed(rest, x));
        assert(placed(s, x).last() == s.last());
        assert(s.last().meta.started_at != x.meta.started_at);
        assert(started_at(s, time) == if s.last().meta.started_at == time {
            started_at(rest, time).push(s.last())
        } else {
            started_at(rest, time)
        });
    }
}

/// Sessions that started at the same time stay in the order that they were in.
pub proof fn law_ordering_is_stable(s: Seq<SessionView>, time: Option<Timestamp>)
    ensures
        started_at(newest_first(s), time) == started_at(s, time),
    decreases s.len(),
{
    if s.len() > 0 {
        let rest = s.drop_last();
        law_ordering_is_stable(rest, time);
        lemma_placed_started(newest_first(rest), s.last(), time);
        assert(newest_first(rest).push(s.last()).drop_last() =~= newest_first(rest));
    }
}

/// Every session that is found has a session's id.
pub proof fn law_found_sessions_have_ids(files: Seq<FoundFile>, i: int)
    requires
        0 <= i < sessions_in(files).len(),
    ensures
        is_session_id(sessions_in(files)[i].session_id),
    decreases files.len(),
{
    if i < sessions_in(files.drop_last()).len() {
        law_found_sessions_have_ids(files.drop_last(), i);
    }
}

/// Each error is told in its own words.
pub proof fn law_error_texts(e: SessionError)
    ensures
        e matches SessionError::TranscriptMissing(p) ==> e.text() == "Transcript not found: "@ + p@,
        e matches SessionError::NoParent(p) ==> e.text() == "No parent dir for "@ + p@,
        e matches SessionError::NotFound(id) ==> e.text() == "Session "@ + id@ + " not found"@,
        e matches SessionError::Unreadable(d) ==> e.text() == "Cannot read "@ + d@,
        e matches SessionError::NoSessions(d) ==> e.text() == "No sessions found in "@ + d@,
{
}

/// The lines that are kept are those that hold more than white space, each once and in order.
pub proof fn law_blank_lines_are_dropped(
    a: Seq<Seq<char>>,
    b: Seq<Seq<char>>,
    line: Seq<char>,
)
    ensures
        filled(a + b) == filled(a) + filled(b),
        filled(seq![line]) == if trimmed(line).len() > 0 {
            seq![line]
        } else {
            Seq::<Seq<char>>::empty()
        },
        filled(Seq::empty()) == Seq::<Seq<char>>::empty(),
    decreases b.len(),
{
    assert(filled(Seq::<Seq<char>>::empty()) =~= Seq::empty());
    assert(seq![line].drop_last() =~= Seq::empty());
    lemma_blank(line);
    assert(filled(seq![line]) =~= if trimmed(line).len() > 0 {
        seq![line]
    } else {
        Seq::<Seq<char>>::empty()
    });
    if b.len() == 0 {
        assert(a + b =~= a);
        assert(filled(a) + filled(b) =~= filled(a));
    } else {
        assert((a + b).drop_last() =~= a + b.drop_last());
        law_blank_lines_are_dropped(a, b.drop_last(), line);
        assert(filled(a + b) =~= filled(a) + filled(b));
    }
}

proof fn lemma_blank(s: Seq<char>)
    ensures
        is_blank(s) == (trimmed(s).len() == 0),
{
    law_trimming_takes_white_space(s);
    law_trimming_is_idempotent(s);
    let (a, b) = choose|a: Seq<char>, b: Seq<char>|
        s == #[trigger] (a + trimmed(s) + b) && (forall|i: int|
            0 <= i < a.len() ==> is_white_space(#[trigger] a[i])) && (forall|i: int|
            0 <= i < b.len() ==> is_white_space(#[trigger] b[i]));
    if trimmed(s).len() == 0 {
        assert forall|i: int| 0 <= i < s.len() implies is_white_space(#[trigger] s[i]) by {
            if i < a.len() {
                assert(s[i] == a[i]);
            } else {
                assert(s[i] == b[i - a.len()]);
            }
        }
    } else {
        assert(s[a.len() as int] == trimmed(s)[0]);
        assert(!is_white_space(s[a.len() as int]));
    }
}

/// The lines of a file that hold an entry are its lines without the blank ones.
pub proof fn law_entry_lines(content: Seq<char>)
    ensures
        entry_lines_of(content) == filled(lines_of(content)),
{
}

/// The entries that were read are kept, each once and in order, and failures are passed over.
pub proof fn law_failures_are_passed_over(
    a: Seq<Option<SessionEntry>>,
    b: Seq<Option<SessionEntry>>,
    entry: SessionEntry,
)
    ensures
        kept(a + b) == kept(a) + kept(b),
        kept(seq![Some(entry)]) == seq![entry],
        kept(seq![None::<SessionEntry>]) == Seq::<SessionEntry>::empty(),
        kept(Seq::empty()) == Seq::<SessionEntry>::empty(),
    decreases b.len(),
{
    assert(kept(Seq::<Option<SessionEntry>>::empty()) =~= Seq::empty());
    assert(seq![Some(entry)].drop_last() =~= Seq::empty());
    assert(seq![None::<SessionEntry>].drop_last() =~= Seq::empty());
    assert(kept(seq![Some(entry)]) =~= seq![entry]);
    assert(kept(seq![None::<SessionEntry>]) =~= Seq::empty());
    if b.len() == 0 {
        assert(a + b =~= a);
        assert(kept(a) + kept(b) =~= kept(a));
    } else {
        assert((a + b).drop_last() =~= a + b.drop_last());
        law_failures_are_passed_over(a, b.drop_last(), entry);
        assert(kept(a + b) =~= kept(a) + kept(b));
    }
}

/// What is given first is what counts: nothing before it, and what comes after it does not matter.
pub proof fn law_first_given<T>(nothing: Seq<Option<T>>, x: T, rest: Seq<Option<T>>)
    requires
        forall|i: int| 0 <= i < nothing.len() ==> #[trigger] nothing[i] is None,
    ensures
        first_given(nothing) is None,
        first_given(nothing.push(Some(x)) + rest) == Some(x),
    decreases nothing.len() + rest.len(),
{
    if nothing.len() > 0 {
        law_first_given(nothing.drop_last(), x, Seq::empty());
    }
    let all = nothing.push(Some(x)) + rest;
    if rest.len() == 0 {
        assert(all.drop_last() =~= nothing);
    } else {
        assert(all.drop_last() =~= nothing.push(Some(x)) + rest.drop_last());
        law_first_given(nothing, x, rest.drop_last());
    }
}

/// An entry gives a time only as a user's message, and then the one of its timestamp.
pub proof fn law_entry_times(entry: Json, text: Seq<char>)
    ensures
        entry.text_member("type"@) != Some("user"@) ==> entry_time(entry) is None,
        entry.text_member("timestamp"@) is None ==> entry_time(entry) is None,
        entry.text_member("type"@) == Some("user"@) && entry.text_member("timestamp"@) == Some(
            text,
        ) ==> entry_time(entry) == timestamp_of(text),
{
}

/// A line that is no JSON gives nothing; one that is gives what its entry does.
pub proof fn law_line_facts(line: Seq<char>)
    ensures
        parsed_json(line) is None ==> line_time(line) is None && line_cwd(line) is None,
        parsed_json(line) matches Some(entry) ==> line_time(line) == entry_time(entry) && line_cwd(
            line,
        ) == entry.text_member("cwd"@),
{
}

/// A file tells of its session the first time and the first directory that its lines give, and
/// how many lines hold an entry; one that could not be read tells nothing.
pub proof fn law_meta(content: Seq<char>, i: int)
    requires
        0 <= i < entry_lines_of(content).len(),
    ensures
        meta_of(Some(content)).message_count == entry_lines_of(content).len(),
        (forall|j: int| 0 <= j < i ==> line_time(#[trigger] entry_lines_of(content)[j]) is None)
            && line_time(entry_lines_of(content)[i]) is Some ==> meta_of(Some(content)).started_at
            == line_time(entry_lines_of(content)[i]),
        (forall|j: int| 0 <= j < i ==> line_cwd(#[trigger] entry_lines_of(content)[j]) is None)
            && line_cwd(entry_lines_of(content)[i]) is Some ==> meta_of(Some(content)).cwd
            == line_cwd(entry_lines_of(content)[i]),
        meta_of(None).started_at is None,
        meta_of(None).cwd is None,
        meta_of(None).message_count == 0,
{
    let lines = entry_lines_of(content);
    let times = Seq::new(lines.len(), |i: int| line_time(lines[i]));
    let cwds = Seq::new(lines.len(), |i: int| line_cwd(lines[i]));
    if (forall|j: int| 0 <= j < i ==> line_time(#[trigger] lines[j]) is None) && line_time(
        lines[i],
    ) is Some {
        law_first_given(times.take(i), times[i]->0, times.skip(i + 1));
        assert(times.take(i).push(Some(times[i]->0)) + times.skip(i + 1) =~= times);
    }
    if (forall|j: int| 0 <= j < i ==> line_cwd(#[trigger] lines[j]) is None) && line_cwd(
        lines[i],
    ) is Some {
        law_first_given(cwds.take(i), cwds[i]->0, cwds.skip(i + 1));
        assert(cwds.take(i).push(Some(cwds[i]->0)) + cwds.skip(i + 1) =~= cwds);
    }
}

/// Where no line gives a time there is none, and where none gives a directory there is none.
pub proof fn law_meta_of_nothing(content: Seq<char>)
    ensures
        (forall|j: int|
            0 <= j < entry_lines_of(content).len() ==> line_time(
                #[trigger] entry_lines_of(content)[j],
            ) is None) ==> meta_of(Some(content)).started_at is None,
        (forall|j: int|
            0 <= j < entry_lines_of(content).len() ==> line_cwd(
                #[trigger] entry_lines_of(content)[j],
            ) is None) ==> meta_of(Some(content)).cwd is None,
        meta_of(Some(content)).message_count == entry_lines_of(content).len(),
{
    let lines = entry_lines_of(content);
    let times = Seq::new(lines.len(), |i: int| line_time(lines[i]));
    let cwds = Seq::new(lines.len(), |i: int| line_cwd(lines[i]));
    if forall|j: int| 0 <= j < lines.len() ==> line_time(#[trigger] lines[j]) is None {
        law_first_given(times, arbitrary(), Seq::empty());
    }
    if forall|j: int| 0 <= j < lines.len() ==> line_cwd(#[trigger] lines[j]) is None {
        law_first_given(cwds, arbitrary(), Seq::empty());
    }
}

/// A transcript is a `.jsonl` file whose name takes 36 bytes and holds four hyphens.
pub proof fn law_transcript_names(extension: Option<String>, stem: Option<String>)
    ensures
        is_transcript(extension, stem) == match (extension, stem) {
            (Some(e), Some(s)) => e@ == "jsonl"@ && size_of_text(s@) == 36 && count_of(s@, '-')
                == 4,
            _ => false,
        },
{
    lemma_empty_is_no_id();
}

proof fn lemma_empty_is_no_id()
    ensures
        !is_session_id(""@),
{
    reveal_strlit("");
    assert(""@ =~= Seq::empty());
}

/// What is not known is called unknown.
pub proof fn law_unknown_names(s: Option<String>)
    ensures
        s is None ==> known(s) == "unknown"@,
        s matches Some(t) ==> known(s) == t@,
        text_of(s) matches Some(t) ==> s is Some && s->0@ == t,
        s matches Some(t) ==> text_of(s) == Some(t@),
{
}

/// The session is the one of the file: with its name, project, directory and paths, and what its
/// transcript tells.
pub open spec fn is_of_file(session: SessionView, file: FoundFile) -> bool {
    &&& file.stem matches Some(stem) && session.session_id == stem@
    &&& session.project_slug == file.project_slug@
    &&& session.project_dir == file.project_dir@
    &&& session.jsonl_path == file.jsonl_path
    &&& session.score_path == file.score_path
    &&& session.meta == meta_of(
        match file.content {
            Some(s) => Some(s@),
            None => None,
        },
    )
}

/// The session is the one of one of the files, which holds a transcript.
pub open spec fn comes_from(session: SessionView, files: Seq<FoundFile>) -> bool {
    exists|k: int|
        0 <= k < files.len() && is_transcript((#[trigger] files[k]).extension, files[k].stem)
            && is_of_file(session, files[k])
}

proof fn lemma_sessions_are_of_files(files: Seq<FoundFile>, i: int) -> (k: int)
    requires
        0 <= i < sessions_in(files).len(),
    ensures
        0 <= k < files.len(),
        is_transcript(files[k].extension, files[k].stem),
        is_of_file(sessions_in(files)[i], files[k]),
    decreases files.len(),
{
    let rest = files.drop_last();
    if i < sessions_in(rest).len() {
        let k = lemma_sessions_are_of_files(rest, i);
        assert(files[k] == rest[k]);
        k
    } else {
        let k = files.len() - 1;
        law_transcript_names(files[k].extension, files[k].stem);
        k
    }
}

/// Every session that is discovered comes from one of the files that hold transcripts, and has
/// that file's name, project, directory and paths.
pub proof fn law_discovered_sessions_are_of_files(files: Seq<FoundFile>, i: int)
    requires
        0 <= i < newest_first(sessions_in(files)).len(),
    ensures
        comes_from(newest_first(sessions_in(files))[i], files),
{
    broadcast use vstd::seq_lib::group_to_multiset_ensures;

    let s = sessions_in(files);
    let x = newest_first(s)[i];
    law_ordering_keeps_sessions(s);
    assert(newest_first(s).contains(x));
    assert(newest_first(s).to_multiset().count(x) > 0);
    assert(s.to_multiset().count(x) > 0);
    assert(s.contains(x));
    let j = choose|j: int| 0 <= j < s.len() && s[j] == x;
    let k = lemma_sessions_are_of_files(files, j);
    assert(is_of_file(x, files[k]));
}

/// Each file that holds a transcript gives one session, and any other file none.
pub proof fn law_one_session_for_each_transcript(
    a: Seq<FoundFile>,
    b: Seq<FoundFile>,
    file: FoundFile,
)
    ensures
        sessions_in(a + b) == sessions_in(a) + sessions_in(b),
        is_transcript(file.extension, file.stem) ==> sessions_in(seq![file]).len() == 1
            && is_of_file(sessions_in(seq![file])[0], file),
        !is_transcript(file.extension, file.stem) ==> sessions_in(seq![file]).len() == 0,
        newest_first(sessions_in(a)).len() == sessions_in(a).len(),
    decreases b.len(),
{
    assert(seq![file].drop_last() =~= Seq::empty());
    assert(seq![file].last() == file);
    assert(sessions_in(Seq::<FoundFile>::empty()) =~= Seq::empty());
    law_transcript_names(file.extension, file.stem);
    lemma_ordering_len(sessions_in(a));
    if b.len() == 0 {
        assert(a + b =~= a);
        assert(sessions_in(a) + sessions_in(b) =~= sessions_in(a));
    } else {
        assert((a + b).drop_last() =~= a + b.drop_last());
        law_one_session_for_each_transcript(a, b.drop_last(), file);
        assert(sessions_in(a + b) =~= sessions_in(a) + sessions_in(b));
    }
}

proof fn lemma_ordering_len(s: Seq<SessionView>)
    ensures
        newest_first(s).len() == s.len(),
{
    broadcast use vstd::seq_lib::group_to_multiset_ensures;

    law_ordering_keeps_sessions(s);
    assert(newest_first(s).to_multiset().len() == newest_first(s).len());
    assert(s.to_multiset().len() == s.len());
}

/// A session is older than another where it started before; one whose start is not known is older
/// than any whose start is.
pub proof fn law_older(a: SessionView, b: SessionView)
    ensures
        older(a, b) == match b.meta.started_at {
            Some(t) => match a.meta.started_at {
                Some(s) => s.secs < t.secs || (s.secs == t.secs && s.nanos < t.nanos),
                None => true,
            },
            None => false,
        },
{
}

/// A session is wanted by its id, and by the slug of its project or a part of its directory where
/// a project is named.
pub proof fn law_wanted(s: SessionView, id: Seq<char>, project: Seq<char>)
    ensures
        is_wanted(s, id, None) == (s.session_id == id),
        is_wanted(s, id, Some(project)) == (s.session_id == id && (s.project_slug == project
            || contains_text(s.project_dir, project))),
{
}

/// A session's view is what its fields say.
pub proof fn law_sessions_are_their_fields(s: Session, all: Seq<Session>, i: int)
    requires
        0 <= i < all.len(),
    ensures
        s@.session_id == s.session_id@,
        s@.project_slug == s.project_slug@,
        s@.project_dir == s.project_dir@,
        s@.jsonl_path == s.jsonl_path,
        s@.score_path == s.score_path,
        s@.meta.started_at == s.started_at,
        s@.meta.message_count == s.message_count,
        s@.meta.cwd == (match s.cwd {
            Some(d) => Some(d@),
            None => None,
        }),
        views(all).len() == all.len(),
        views(all)[i] == all[i]@,
{
}

/// The facts of the lines are taken as they are.
pub proof fn law_facts(facts: Seq<LineFacts>, i: int)
    requires
        0 <= i < facts.len(),
    ensures
        times(facts).len() == facts.len() && cwds(facts).len() == facts.len(),
        times(facts)[i] == facts[i].time,
        cwds(facts)[i] == (match facts[i].cwd {
            Some(d) => Some(d@),
            None => None,
        }),
{
}

/// A candidate counts where it is a transcript, and its time is that of its file, or the start of
/// 1970.
pub proof fn law_candidates(c: Candidate)
    ensures
        c.counts() == is_transcript(c.extension, c.stem),
        c.modified is None ==> c.time() == 0,
        c.modified matches Some(t) ==> c.time() == t,
{
}

/// Where what `parse` makes of a text is a function of the text, it makes of a line just that.
pub proof fn law_lines_are_parsed<F: Fn(&str) -> Option<SessionEntry>>(
    parse: F,
    made: spec_fn(Seq<char>) -> Option<SessionEntry>,
    line: Seq<char>,
    outcome: Option<SessionEntry>,
)
    requires
        forall|text: &str, o: Option<SessionEntry>|
            #[trigger] call_ensures(parse, (text,), o) ==> o == made(text@),
        parses_to(parse, line, outcome),
    ensures
        outcome == made(line),
{
}

/// A score stands in a file that is named by the session's id and ends in `.score.json`.
pub proof fn law_score_names(a: Seq<char>, b: Seq<char>)
    ensures
        score_name(a) == a + ".score.json"@,
        score_name(a) == score_name(b) ==> a == b,
{
    if score_name(a) == score_name(b) {
        assert(a =~= score_name(a).take(a.len() as int));
        assert(b =~= score_name(b).take(b.len() as int));
    }
}

/// A transcript that is not there, or is in no directory, is refused with its path. Any other is a
/// session of that file: what is not known of its names is called unknown, and the rest is the
/// file's.
pub proof fn law_opened_transcripts(file: TranscriptFile, res: Result<Session, SessionError>)
    requires
        opens(file, res),
    ensures
        !file.exists ==> (res matches Err(SessionError::TranscriptMissing(path)) && path@
            == file.path@),
        file.exists && file.project_dir is None ==> (res matches Err(SessionError::NoParent(path))
            && path@ == file.path@),
        file.exists && file.project_dir is Some ==> {
            &&& res matches Ok(session)
            &&& session.jsonl_path == file.jsonl_path
            &&& session.score_path == file.score_path
            &&& session.project_dir@ == file.project_dir->0@
            &&& (file.stem matches Some(stem) ==> session.session_id@ == stem@)
            &&& (file.stem is None ==> session.session_id@ == "unknown"@)
            &&& (file.dir_name matches Some(name) ==> session.project_slug@ == name@)
            &&& (file.dir_name is None ==> session.project_slug@ == "unknown"@)
            &&& (file.content matches Some(content) ==> session@.meta == meta_of(Some(content@)))
            &&& (file.content is None ==> session@.meta == meta_of(None))
        },
{
}

/// The session that is found is the one that is wanted and comes before every other such. Where
/// none is wanted, the id is reported.
pub proof fn law_found_session(
    before: Seq<Session>,
    session: Session,
    after: Seq<Session>,
    session_id: Seq<char>,
    project: Option<Seq<char>>,
    res: Result<Session, SessionError>,
)
    requires
        forall|j: int|
            0 <= j < before.len() ==> !is_wanted((#[trigger] before[j])@, session_id, project),
    ensures
        is_wanted(session@, session_id, project) && finds(
            before.push(session) + after,
            session_id,
            project,
            res,
        ) ==> res == Ok::<Session, SessionError>(session),
        finds(before, session_id, project, res) ==> (res matches Err(SessionError::NotFound(id))
            && id@ == session_id),
{
    let all = before.push(session) + after;
    if is_wanted(session@, session_id, project) && finds(all, session_id, project, res) {
        let at = before.len() as int;
        assert(all[at] == session);
        assert(is_wanted(all[at]@, session_id, project));
        assert(res is Ok);
        let s = res->Ok_0;
        let i = choose|i: int|
            0 <= i < all.len() && s == all[i] && is_wanted(
                (#[trigger] all[i])@,
                session_id,
                project,
            ) && forall|j: int|
                0 <= j < i ==> !is_wanted((#[trigger] all[j])@, session_id, project);
        if i < at {
            assert(all[i] == before[i]);
        }
    }
}

/// A transcript that was modified after every one before it and not before any after it is the
/// latest one. Without a transcript the directory is reported.
pub proof fn law_latest_session(
    candidates: Seq<Candidate>,
    i: int,
    dir: Seq<char>,
    res: Result<usize, SessionError>,
)
    requires
        finds_latest(candidates, dir, res),
    ensures
        0 <= i < candidates.len() && candidates[i].counts() && (forall|j: int|
            0 <= j < i && (#[trigger] candidates[j]).counts() ==> candidates[j].time()
                < candidates[i].time()) && (forall|j: int|
            i < j < candidates.len() && (#[trigger] candidates[j]).counts()
                ==> candidates[j].time() <= candidates[i].time()) ==> (res matches Ok(k) && k
            == i),
        (forall|j: int| 0 <= j < candidates.len() ==> !(#[trigger] candidates[j]).counts()) ==> (
        res matches Err(SessionError::NoSessions(d)) && d@ == dir),
{
}

} // verus!
