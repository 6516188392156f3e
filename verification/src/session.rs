//! Sessions and the entries of their transcripts.
use crate::json::{json_text, json_view, to_text};
use crate::text::{
    byte_count, first_bytes, head, join, joined, law_cutting, lemma_encode_concat,
    lemma_first_bytes, push_text, size_of_text, splits_at, texts,
};
use crate::time::Timestamp;
use serde_json::Value;
use std::path::PathBuf;
use vstd::prelude::*;
use vstd::string::StringExecFns;
use vstd::utf8::{encode_utf8, encode_utf8_decode_utf8};

verus! {

/// `std::path::PathBuf`, the path of a file. It is only carried along.
#[verifier::external_type_specification]
#[verifier::external_body]
pub struct ExPathBuf(std::path::PathBuf);

/// `PathBuf::clone` gives the same path.
pub assume_specification[ <std::path::PathBuf as Clone>::clone ](path: &std::path::PathBuf) -> (res:
    std::path::PathBuf)
    ensures
        res == *path,
;

/// A session found on disk.
#[derive(Debug)]
pub struct Session {
    pub session_id: String,
    pub project_slug: String,
    /// The project's directory, as text.
    pub project_dir: String,
    pub jsonl_path: PathBuf,
    pub score_path: PathBuf,
    pub started_at: Option<Timestamp>,
    pub message_count: usize,
    pub cwd: Option<String>,
}

// ── Transcript entries ───────────────────────────────────────────────────────
/// One entry of a transcript.
#[derive(Debug)]
#[allow(inconsistent_fields)]
pub enum SessionEntry {
    User {
        uuid: Option<String>,
        timestamp: Option<Timestamp>,
        message: UserMessage,
        meta: Value,
    },
    Assistant {
        uuid: Option<String>,
        timestamp: Option<Timestamp>,
        message: AssistantMessage,
        meta: Value,
    },
    Other,
}

/// What the user said.
#[derive(Debug)]
pub struct UserMessage {
    pub role: Option<String>,
    pub content: MessageContent,
}

/// What the assistant said and did.
#[derive(Debug)]
pub struct AssistantMessage {
    pub role: Option<String>,
    pub content: Vec<ContentBlock>,
    pub usage: Option<Usage>,
}

/// The content of a user's message: one text, or a list of blocks.
#[derive(Debug)]
pub enum MessageContent {
    Text(String),
    Blocks(Vec<ContentBlock>),
}

/// A block of a message.
#[derive(Debug)]
pub enum ContentBlock {
    Text { text: String },
    ToolUse { id: Option<String>, name: String, input: Value },
    ToolResult { tool_use_id: Option<String>, content: Option<Value> },
    Other,
}

/// The tokens that a message took.
#[derive(Debug, Clone, Copy)]
pub struct Usage {
    pub input_tokens: Option<u64>,
    pub output_tokens: Option<u64>,
    pub cache_read_input_tokens: Option<u64>,
    pub cache_creation_input_tokens: Option<u64>,
}

/// The texts of the text blocks, in order.
pub open spec fn block_texts(blocks: Seq<ContentBlock>) -> Seq<Seq<char>>
    decreases blocks.len(),
{
    if blocks.len() == 0 {
        Seq::empty()
    } else {
        match blocks.last() {
            ContentBlock::Text { text } => block_texts(blocks.drop_last()).push(text@),
            _ => block_texts(blocks.drop_last()),
        }
    }
}

/// The text of a message: the text itself, or the texts of its text blocks with a space between
/// each two.
pub open spec fn content_text(content: MessageContent) -> Seq<char> {
    match content {
        MessageContent::Text(s) => s@,
        MessageContent::Blocks(blocks) => joined(block_texts(blocks@), " "@),
    }
}

/// The text of a message.
pub fn extract_text_content(content: &MessageContent) -> (res: String)
    ensures
        res@ == content_text(*content),
{
    match content {
        MessageContent::Text(s) => s.clone(),
        MessageContent::Blocks(blocks) => {
            let mut parts: Vec<String> = Vec::new();
            let mut i: usize = 0;
            assert(texts(parts@) =~= block_texts(blocks@.take(0)));
            while i < blocks.len()
                invariant
                    i <= blocks.len(),
                    texts(parts@) == block_texts(blocks@.take(i as int)),
                decreases blocks.len() - i,
            {
                let ghost before = parts@;
                if let ContentBlock::Text { text } = &blocks[i] {
                    parts.push(text.clone());
                    assert(texts(parts@) =~= texts(before).push(text@));
                }
                i += 1;
                assert(blocks@.take(i as int).drop_last() =~= blocks@.take(i - 1));
            }
            assert(blocks@.take(i as int) =~= blocks@);
            join(&parts, " ")
        },
    }
}

// ── Transcript text ──────────────────────────────────────────────────────────
/// A text of at most `n` bytes as it is; of a longer one the first `n` bytes, and then the mark.
pub open spec fn shortened(s: Seq<char>, n: int, mark: Seq<char>) -> Seq<char> {
    if size_of_text(s) > n {
        first_bytes(s, n) + mark
    } else {
        s
    }
}

/// Where a text is cut after `n` bytes, no character is cut in two.
pub open spec fn can_shorten(s: Seq<char>, n: int) -> bool {
    size_of_text(s) > n ==> splits_at(s, n)
}

/// The line that the transcript has for a block of the assistant's message.
pub open spec fn block_line(block: ContentBlock) -> Option<Seq<char>> {
    match block {
        ContentBlock::Text { text } => Some("[ASSISTANT] "@ + shortened(text@, 500, "…"@)),
        ContentBlock::ToolUse { id, name, input } => Some(
            tool_line_of(name@, json_text(json_view(input))),
        ),
        _ => None,
    }
}

/// The block's line can be made without cutting a character in two.
pub open spec fn block_fits(block: ContentBlock) -> bool {
    match block {
        ContentBlock::Text { text } => can_shorten(text@, 500),
        ContentBlock::ToolUse { id, name, input } => can_shorten(json_text(json_view(input)), 200),
        _ => true,
    }
}

/// The lines that the transcript has for the blocks.
pub open spec fn block_lines(blocks: Seq<ContentBlock>) -> Seq<Seq<char>>
    decreases blocks.len(),
{
    if blocks.len() == 0 {
        Seq::empty()
    } else {
        match block_line(blocks.last()) {
            Some(line) => block_lines(blocks.drop_last()).push(line),
            None => block_lines(blocks.drop_last()),
        }
    }
}

/// The lines that the transcript has for an entry. A user's message without text has none.
pub open spec fn entry_transcript(entry: SessionEntry) -> Seq<Seq<char>> {
    match entry {
        SessionEntry::User { message, .. } => if content_text(message.content).len() > 0 {
            seq!["[USER] "@ + content_text(message.content)]
        } else {
            Seq::empty()
        },
        SessionEntry::Assistant { message, .. } => block_lines(message.content@),
        SessionEntry::Other => Seq::empty(),
    }
}

/// The lines that the transcript has for the entries.
pub open spec fn transcript_lines(entries: Seq<SessionEntry>) -> Seq<Seq<char>>
    decreases entries.len(),
{
    if entries.len() == 0 {
        Seq::empty()
    } else {
        transcript_lines(entries.drop_last()) + entry_transcript(entries.last())
    }
}

/// The lines of the entry can be made without cutting a character in two.
pub open spec fn entry_fits(entry: SessionEntry) -> bool {
    match entry {
        SessionEntry::Assistant { message, .. } => forall|i: int|
            0 <= i < message.content@.len() ==> block_fits(#[trigger] message.content@[i]),
        _ => true,
    }
}

/// The transcript: a line for each thing that was said or done, cut after 8000 bytes.
pub open spec fn transcript_of(entries: Seq<SessionEntry>) -> Seq<char> {
    shortened(joined(transcript_lines(entries), "\n"@), 8000, "…[truncated]"@)
}

/// The transcript can be made without cutting a character in two.
pub open spec fn transcript_fits(entries: Seq<SessionEntry>) -> bool {
    &&& forall|i: int| 0 <= i < entries.len() ==> entry_fits(#[trigger] entries[i])
    &&& can_shorten(joined(transcript_lines(entries), "\n"@), 8000)
}

/// A text shortened to `n` bytes and the mark, unless that cuts a character in two.
pub fn shorten(s: &str, n: usize, mark: &str) -> (res: Option<String>)
    ensures
        match res {
            Some(t) => can_shorten(s@, n as int) && t@ == shortened(s@, n as int, mark@),
            None => !can_shorten(s@, n as int),
        },
{
    if byte_count(s) > n {
        if s.is_char_boundary(n) {
            let mut t = String::from_str(head(s, n));
            t.append(mark);
            Some(t)
        } else {
            None
        }
    } else {
        Some(String::from_str(s))
    }
}

/// The transcript's line for a tool that was called with this input, written as JSON.
pub open spec fn tool_line_of(name: Seq<char>, input: Seq<char>) -> Seq<char> {
    "[TOOL:"@ + name + "] "@ + shortened(input, 200, "…"@)
}

/// The transcript's line for a tool, unless that cuts a character of the input in two.
pub fn tool_line(name: &str, input: &str) -> (res: Option<String>)
    ensures
        match res {
            Some(line) => can_shorten(input@, 200) && line@ == tool_line_of(name@, input@),
            None => !can_shorten(input@, 200),
        },
{
    match shorten(input, 200, "…") {
        Some(snippet) => {
            let mut line = String::from_str("[TOOL:");
            line.append(name);
            line.append("] ");
            line.append(snippet.as_str());
            Some(line)
        },
        None => None,
    }
}

/// Adds the lines for the blocks, unless that cuts a character in two.
fn push_block_lines(parts: &mut Vec<String>, blocks: &Vec<ContentBlock>) -> (res: bool)
    ensures
        res == (forall|i: int| 0 <= i < blocks@.len() ==> block_fits(#[trigger] blocks@[i])),
        res ==> texts(final(parts)@) == texts(old(parts)@) + block_lines(blocks@),
{
    let mut i: usize = 0;
    let ghost start = texts(parts@);
    assert(start + block_lines(blocks@.take(0)) =~= start);
    while i < blocks.len()
        invariant
            i <= blocks.len(),
            forall|j: int| 0 <= j < i ==> block_fits(#[trigger] blocks@[j]),
            texts(parts@) == start + block_lines(blocks@.take(i as int)),
        decreases blocks.len() - i,
    {
        let ghost before = texts(parts@);
        match &blocks[i] {
            ContentBlock::Text { text } => {
                match shorten(text.as_str(), 500, "…") {
                    Some(snippet) => {
                        let mut line = String::from_str("[ASSISTANT] ");
                        line.append(snippet.as_str());
                        push_text(parts, line);
                    },
                    None => {
                        assert(!block_fits(blocks@[i as int]));
                        return false;
                    },
                }
            },
            ContentBlock::ToolUse { id, name, input } => {
                match tool_line(name.as_str(), to_text(input).as_str()) {
                    Some(line) => {
                        push_text(parts, line);
                    },
                    None => {
                        assert(!block_fits(blocks@[i as int]));
                        return false;
                    },
                }
            },
            _ => {},
        }
        i += 1;
        proof {
            assert(blocks@.take(i as int).drop_last() =~= blocks@.take(i - 1));
            assert(texts(parts@) =~= start + block_lines(blocks@.take(i as int)));
        }
    }
    assert(blocks@.take(i as int) =~= blocks@);
    true
}

/// The transcript's lines, unless making them cuts a character in two.
fn collect_lines(entries: &[SessionEntry]) -> (res: Option<Vec<String>>)
    ensures
        match res {
            Some(parts) => texts(parts@) == transcript_lines(entries@) && (forall|i: int|
                0 <= i < entries@.len() ==> entry_fits(#[trigger] entries@[i])),
            None => exists|i: int| 0 <= i < entries@.len() && !entry_fits(#[trigger] entries@[i]),
        },
{
    let mut parts: Vec<String> = Vec::new();
    let mut i: usize = 0;
    assert(texts(parts@) =~= transcript_lines(entries@.take(0)));
    while i < entries.len()
        invariant
            i <= entries.len(),
            forall|j: int| 0 <= j < i ==> entry_fits(#[trigger] entries@[j]),
            texts(parts@) == transcript_lines(entries@.take(i as int)),
        decreases entries.len() - i,
    {
        let ghost before = texts(parts@);
        match &entries[i] {
            SessionEntry::User { message, .. } => {
                let text = extract_text_content(&message.content);
                if !text.as_str().is_empty() {
                    let mut line = String::from_str("[USER] ");
                    line.append(text.as_str());
                    push_text(&mut parts, line);
                }
            },
            SessionEntry::Assistant { message, .. } => {
                if !push_block_lines(&mut parts, &message.content) {
                    assert(!entry_fits(entries@[i as int]));
                    return None;
                }
            },
            SessionEntry::Other => {},
        }
        i += 1;
        proof {
            assert(entries@.take(i as int).drop_last() =~= entries@.take(i - 1));
            assert(texts(parts@) =~= before + entry_transcript(entries@[i - 1]));
        }
    }
    assert(entries@.take(i as int) =~= entries@);
    Some(parts)
}

impl Session {
    /// The transcript as compact text for the scoring service.
    pub fn transcript(entries: &[SessionEntry]) -> (res: String)
        requires
            transcript_fits(entries@),
        ensures
            res@ == transcript_of(entries@),
    {
        match collect_lines(entries) {
            Some(parts) => {
                let full = join(&parts, "\n");
                match shorten(full.as_str(), 8000, "…[truncated]") {
                    Some(t) => t,
                    None => full,
                }
            },
            None => String::new(),
        }
    }

    /// The transcript as compact text for the scoring service, or nothing where a cut would fall
    /// inside a character.
    pub fn checked_transcript(entries: &[SessionEntry]) -> (res: Option<String>)
        ensures
            match res {
                Some(t) => transcript_fits(entries@) && t@ == transcript_of(entries@),
                None => !transcript_fits(entries@),
            },
    {
        match collect_lines(entries) {
            Some(parts) => {
                let full = join(&parts, "\n");
                if byte_count(full.as_str()) > 8000 && !full.as_str().is_char_boundary(8000) {
                    None
                } else {
                    Some(Session::transcript(entries))
                }
            },
            None => None,
        }
    }
}

// ── Laws ─────────────────────────────────────────────────────────────────────
/// The transcript takes no more than 8000 bytes, and the mark where it was cut.
pub proof fn law_transcript_is_bounded(entries: Seq<SessionEntry>)
    requires
        transcript_fits(entries),
    ensures
        size_of_text(transcript_of(entries)) <= 8000 + size_of_text("…[truncated]"@),
{
    let full = joined(transcript_lines(entries), "\n"@);
    if size_of_text(full) > 8000 {
        lemma_first_bytes(full, 8000);
        lemma_encode_concat(first_bytes(full, 8000), "…[truncated]"@);
    }
}

/// The lines of a transcript are those of a part of it and then those of the rest.
pub proof fn law_transcript_lines_add_up(first: Seq<SessionEntry>, rest: Seq<SessionEntry>)
    ensures
        transcript_lines(first + rest) == transcript_lines(first) + transcript_lines(rest),
    decreases rest.len(),
{
    if rest.len() == 0 {
        assert(first + rest =~= first);
        assert(transcript_lines(first) + transcript_lines(rest) =~= transcript_lines(first));
    } else {
        assert((first + rest).drop_last() =~= first + rest.drop_last());
        law_transcript_lines_add_up(first, rest.drop_last());
        assert(transcript_lines(first + rest) =~= transcript_lines(first) + transcript_lines(rest));
    }
}

/// The text of a message in blocks is that of its text blocks, with spaces between them.
pub proof fn law_message_text(content: MessageContent)
    ensures
        content matches MessageContent::Text(s) ==> content_text(content) == s@,
        content matches MessageContent::Blocks(blocks) ==> content_text(content) == joined(
            block_texts(blocks@),
            " "@,
        ),
{
}

/// The texts of the blocks are those of the text blocks, each once and in order.
pub proof fn law_block_texts(a: Seq<ContentBlock>, b: Seq<ContentBlock>, block: ContentBlock)
    ensures
        block_texts(Seq::empty()) == Seq::<Seq<char>>::empty(),
        block_texts(seq![block]) == match block {
            ContentBlock::Text { text } => seq![text@],
            _ => Seq::<Seq<char>>::empty(),
        },
        block_texts(a + b) == block_texts(a) + block_texts(b),
    decreases b.len(),
{
    assert(seq![block].drop_last() =~= Seq::empty());
    assert(block_texts(Seq::<ContentBlock>::empty()) =~= Seq::empty());
    assert(block_texts(seq![block]) =~= match block {
        ContentBlock::Text { text } => seq![text@],
        _ => Seq::<Seq<char>>::empty(),
    });
    if b.len() == 0 {
        assert(a + b =~= a);
        assert(block_texts(a) + block_texts(b) =~= block_texts(a));
    } else {
        assert((a + b).drop_last() =~= a + b.drop_last());
        law_block_texts(a, b.drop_last(), block);
        assert(block_texts(a + b) =~= block_texts(a) + block_texts(b));
    }
}

/// A text of no more than `n` bytes is kept; of a longer one the first `n` bytes are kept, with the
/// mark behind them.
pub proof fn law_shortening(a: Seq<char>, b: Seq<char>, n: int, mark: Seq<char>)
    requires
        n >= 0,
    ensures
        size_of_text(a) <= n ==> shortened(a, n, mark) == a && can_shorten(a, n),
        size_of_text(a) == n && b.len() > 0 ==> shortened(a + b, n, mark) == a + mark
            && can_shorten(a + b, n),
{
    if size_of_text(a) == n && b.len() > 0 {
        law_cutting(a, b);
        lemma_text_takes_bytes(b);
    }
}

proof fn lemma_text_takes_bytes(s: Seq<char>)
    requires
        s.len() > 0,
    ensures
        size_of_text(s) > 0,
{
    encode_utf8_decode_utf8(s);
    encode_utf8_decode_utf8(Seq::empty());
    if size_of_text(s) == 0 {
        assert(encode_utf8(s) =~= encode_utf8(Seq::empty()));
    }
}

/// The lines of a message are those of its blocks, in order: those of a first part of the blocks
/// and then those of the rest.
pub proof fn law_block_lines_add_up(a: Seq<ContentBlock>, b: Seq<ContentBlock>)
    ensures
        block_lines(a + b) == block_lines(a) + block_lines(b),
    decreases b.len(),
{
    if b.len() == 0 {
        assert(a + b =~= a);
        assert(block_lines(a) + block_lines(b) =~= block_lines(a));
    } else {
        assert((a + b).drop_last() =~= a + b.drop_last());
        law_block_lines_add_up(a, b.drop_last());
        assert(block_lines(a + b) =~= block_lines(a) + block_lines(b));
    }
}

/// A text block has one line, with the text cut after 500 bytes; a tool block has one line, with
/// the input cut after 200 bytes; any other block has none.
pub proof fn law_line_of_a_block(block: ContentBlock)
    ensures
        block_lines(seq![block]) == match block {
            ContentBlock::Text { text } => seq!["[ASSISTANT] "@ + shortened(text@, 500, "…"@)],
            ContentBlock::ToolUse { id, name, input } => seq![
                "[TOOL:"@ + name@ + "] "@ + shortened(json_text(json_view(input)), 200, "…"@),
            ],
            _ => Seq::<Seq<char>>::empty(),
        },
{
    assert(seq![block].drop_last() =~= Seq::empty());
    assert(block_lines(Seq::<ContentBlock>::empty()) =~= Seq::empty());
    assert(block_lines(seq![block]) =~= match block {
        ContentBlock::Text { text } => seq!["[ASSISTANT] "@ + shortened(text@, 500, "…"@)],
        ContentBlock::ToolUse { id, name, input } => seq![
            "[TOOL:"@ + name@ + "] "@ + shortened(json_text(json_view(input)), 200, "…"@),
        ],
        _ => Seq::<Seq<char>>::empty(),
    });
}

/// The line of a tool names it, and shows its input, cut after 200 bytes.
pub proof fn law_tool_line(name: Seq<char>, input: Seq<char>)
    ensures
        tool_line_of(name, input) == "[TOOL:"@ + name + "] "@ + shortened(input, 200, "…"@),
{
}

/// A message has as many lines as it has text and tool blocks.
pub proof fn law_number_of_lines(blocks: Seq<ContentBlock>)
    ensures
        block_lines(blocks).len() == blocks.filter(
            |b: ContentBlock| b is Text || b is ToolUse,
        ).len(),
    decreases blocks.len(),
{
    let f = |b: ContentBlock| b is Text || b is ToolUse;
    reveal(Seq::filter);
    if blocks.len() > 0 {
        law_number_of_lines(blocks.drop_last());
    }
}

/// What is said by the user has one line, unless it is empty; what the assistant says and does has
/// the lines of its blocks; other entries have none.
pub proof fn law_lines_of_an_entry(entry: SessionEntry)
    ensures
        transcript_lines(seq![entry]) == match entry {
            SessionEntry::User { message, .. } => if content_text(message.content).len() > 0 {
                seq!["[USER] "@ + content_text(message.content)]
            } else {
                Seq::<Seq<char>>::empty()
            },
            SessionEntry::Assistant { message, .. } => block_lines(message.content@),
            SessionEntry::Other => Seq::<Seq<char>>::empty(),
        },
        transcript_lines(Seq::empty()) == Seq::<Seq<char>>::empty(),
{
    assert(seq![entry].drop_last() =~= Seq::empty());
    assert(transcript_lines(Seq::<SessionEntry>::empty()) =~= Seq::empty());
    assert(transcript_lines(seq![entry]) =~= entry_transcript(entry));
}

/// The transcript is its lines with line feeds between them, cut after 8000 bytes.
pub proof fn law_transcript_joins_lines(entries: Seq<SessionEntry>)
    ensures
        transcript_of(entries) == shortened(
            joined(transcript_lines(entries), "\n"@),
            8000,
            "…[truncated]"@,
        ),
{
}

/// A transcript can be made where no text is over 500 bytes, no input over 200 and the whole not
/// over 8000, and in general just where no cut falls inside a character.
pub proof fn law_transcript_can_be_made(entries: Seq<SessionEntry>)
    ensures
        transcript_fits(entries) == ({
            &&& forall|i: int, j: int|
                0 <= i < entries.len() && entries[i] is Assistant && 0 <= j < (
                entries[i]->Assistant_message).content@.len() ==> match #[trigger] (
                entries[i]->Assistant_message).content@[j] {
                    ContentBlock::Text { text } => size_of_text(text@) <= 500 || splits_at(
                        text@,
                        500,
                    ),
                    ContentBlock::ToolUse { id, name, input } => size_of_text(
                        json_text(json_view(input)),
                    ) <= 200 || splits_at(json_text(json_view(input)), 200),
                    _ => true,
                }
            &&& size_of_text(joined(transcript_lines(entries), "\n"@)) <= 8000 || splits_at(
                joined(transcript_lines(entries), "\n"@),
                8000,
            )
        }),
{
    if transcript_fits(entries) {
        assert forall|i: int, j: int|
            0 <= i < entries.len() && entries[i] is Assistant && 0 <= j < (
            entries[i]->Assistant_message).content@.len() implies match #[trigger] (
        entries[i]->Assistant_message).content@[j] {
            ContentBlock::Text { text } => size_of_text(text@) <= 500 || splits_at(text@, 500),
            ContentBlock::ToolUse { id, name, input } => size_of_text(json_text(json_view(input)))
                <= 200 || splits_at(json_text(json_view(input)), 200),
            _ => true,
        } by {
            assert(entry_fits(entries[i]));
            assert(block_fits((entries[i]->Assistant_message).content@[j]));
        }
    } else if can_shorten(joined(transcript_lines(entries), "\n"@), 8000) {
        let i = choose|i: int| 0 <= i < entries.len() && !entry_fits(#[trigger] entries[i]);
        let blocks = (entries[i]->Assistant_message).content@;
        let j = choose|j: int| 0 <= j < blocks.len() && !block_fits(#[trigger] blocks[j]);
        assert(!block_fits((entries[i]->Assistant_message).content@[j]));
    }
}

} // verus!
