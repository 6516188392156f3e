//! The signals that a transcript gives.
use crate::json::{json_view, text_member, Json};
use crate::session::{
    content_text, extract_text_content, AssistantMessage, ContentBlock, SessionEntry,
};
use crate::text::{
    byte_count, chars_of, contains, contains_text, lower, push_text, same_text, size_of_text,
    slices, texts, to_lower,
};
use serde_json::Value;
use vstd::hash_set::StringHashSet;
use vstd::prelude::*;
use vstd::seq_lib::seq_to_set_is_finite;
use vstd::string::StringExecFns;

verus! {

// ── Patterns ─────────────────────────────────────────────────────────────────
/// Commands that can do harm.
pub const RISKY_PATTERNS: [&'static str; 10] = [
    "rm -rf",
    "rm -r /",
    "chmod 777",
    "chmod -R 777",
    "sudo rm",
    "> /dev/sda",
    "dd if=/dev/zero",
    ":(){ :|:& };:",
    "mkfs.",
    "format c:",
];

/// Traces of credentials, in lower case.
pub const CREDENTIAL_PATTERNS: [&'static str; 9] = [
    "password=",
    "passwd=",
    "secret=",
    "api_key=",
    "apikey=",
    "sk-ant-",
    "ghp_",
    "-----begin",
    "authorization: bearer",
];

/// What a user says who is not content with the work.
pub const CORRECTION_PHRASES: [&'static str; 18] = [
    "no, ",
    "that's wrong",
    "that is wrong",
    "not right",
    "incorrect",
    "you misunderstood",
    "that's not what",
    "try again",
    "wrong file",
    "wrong approach",
    "revert",
    "undo",
    "that broke",
    "it failed",
    "still broken",
    "didn't work",
    "doesn't work",
    "not working",
];

/// The patterns that stand in the text, in their order.
pub open spec fn matched(s: Seq<char>, patterns: Seq<Seq<char>>) -> Seq<Seq<char>>
    decreases patterns.len(),
{
    if patterns.len() == 0 {
        Seq::empty()
    } else if contains_text(s, patterns.last()) {
        matched(s, patterns.drop_last()).push(patterns.last())
    } else {
        matched(s, patterns.drop_last())
    }
}

/// The risky patterns that stand in the text.
pub open spec fn risks(s: Seq<char>) -> Seq<Seq<char>> {
    matched(s, slices(RISKY_PATTERNS@))
}

/// How many of the credential patterns stand in the text.
pub open spec fn leaks(s: Seq<char>) -> nat {
    matched(s, slices(CREDENTIAL_PATTERNS@)).len()
}

/// One of the correction phrases stands in the text.
pub open spec fn is_correction(s: Seq<char>) -> bool {
    matched(s, slices(CORRECTION_PHRASES@)).len() > 0
}

/// The patterns that stand in the text, in their order.
fn matching(s: &Vec<char>, patterns: &[&'static str]) -> (res: Vec<&'static str>)
    ensures
        slices(res@) == matched(s@, slices(patterns@)),
{
    let mut out: Vec<&'static str> = Vec::new();
    let mut i: usize = 0;
    let ghost all = slices(patterns@);
    assert(slices(out@) =~= matched(s@, all.take(0)));
    while i < patterns.len()
        invariant
            i <= patterns.len(),
            all == slices(patterns@),
            slices(out@) == matched(s@, all.take(i as int)),
        decreases patterns.len() - i,
    {
        let ghost before = out@;
        let p = patterns[i];
        if contains(s, p) {
            out.push(p);
            assert(slices(out@) =~= slices(before).push(p@));
        }
        i += 1;
        assert(all.take(i as int).drop_last() =~= all.take(i - 1));
        assert(all.take(i as int).last() == p@);
    }
    assert(all.take(i as int) =~= all);
    out
}

// ── Signals ──────────────────────────────────────────────────────────────────
/// What the scorer counts in a transcript. A counter that has reached its greatest value stays
/// there.
#[derive(Debug)]
pub struct Signals {
    pub risky_command_hits: Vec<String>,
    pub credential_leaks: usize,
    pub bypass_permissions: bool,
    pub user_turns: usize,
    pub correction_turns: usize,
    pub assistant_turns: usize,
    pub session_produced_output: bool,
    pub test_file_edits: usize,
    pub git_commits: usize,
    pub pr_created: bool,
    pub code_edits: usize,
    pub total_tool_calls: usize,
    pub duplicate_reads: usize,
}

/// The signals with unbounded counters.
pub struct SignalsView {
    pub risky_command_hits: Seq<Seq<char>>,
    pub credential_leaks: nat,
    pub bypass_permissions: bool,
    pub user_turns: nat,
    pub correction_turns: nat,
    pub assistant_turns: nat,
    pub session_produced_output: bool,
    pub test_file_edits: nat,
    pub git_commits: nat,
    pub pr_created: bool,
    pub code_edits: nat,
    pub total_tool_calls: nat,
    pub duplicate_reads: nat,
}

impl View for Signals {
    type V = SignalsView;

    open spec fn view(&self) -> SignalsView {
        SignalsView {
            risky_command_hits: texts(self.risky_command_hits@),
            credential_leaks: self.credential_leaks as nat,
            bypass_permissions: self.bypass_permissions,
            user_turns: self.user_turns as nat,
            correction_turns: self.correction_turns as nat,
            assistant_turns: self.assistant_turns as nat,
            session_produced_output: self.session_produced_output,
            test_file_edits: self.test_file_edits as nat,
            git_commits: self.git_commits as nat,
            pr_created: self.pr_created,
            code_edits: self.code_edits as nat,
            total_tool_calls: self.total_tool_calls as nat,
            duplicate_reads: self.duplicate_reads as nat,
        }
    }
}

/// The value that a machine counter shows for a count.
pub open spec fn cap(n: nat) -> nat {
    if n <= usize::MAX {
        n
    } else {
        usize::MAX as nat
    }
}

impl SignalsView {
    /// No signals at all.
    pub open spec fn none() -> SignalsView {
        SignalsView {
            risky_command_hits: Seq::empty(),
            credential_leaks: 0,
            bypass_permissions: false,
            user_turns: 0,
            correction_turns: 0,
            assistant_turns: 0,
            session_produced_output: false,
            test_file_edits: 0,
            git_commits: 0,
            pr_created: false,
            code_edits: 0,
            total_tool_calls: 0,
            duplicate_reads: 0,
        }
    }

    /// The same signals, as machine counters show them.
    pub open spec fn capped(self) -> SignalsView {
        SignalsView {
            credential_leaks: cap(self.credential_leaks),
            user_turns: cap(self.user_turns),
            correction_turns: cap(self.correction_turns),
            assistant_turns: cap(self.assistant_turns),
            test_file_edits: cap(self.test_file_edits),
            git_commits: cap(self.git_commits),
            code_edits: cap(self.code_edits),
            total_tool_calls: cap(self.total_tool_calls),
            duplicate_reads: cap(self.duplicate_reads),
            ..self
        }
    }

    /// A user's turn with this text, in lower case.
    pub open spec fn after_user(self, text: Seq<char>) -> SignalsView {
        SignalsView {
            user_turns: self.user_turns + 1,
            credential_leaks: self.credential_leaks + leaks(text),
            correction_turns: self.correction_turns + if is_correction(text) {
                1nat
            } else {
                0
            },
            ..self
        }
    }

    /// A text of the assistant that takes `size` bytes and reads `text` in lower case. One of over
    /// 50 bytes counts as output.
    pub open spec fn after_text(self, size: nat, text: Seq<char>) -> SignalsView {
        SignalsView {
            session_produced_output: self.session_produced_output || size > 50,
            risky_command_hits: self.risky_command_hits + risks(text),
            credential_leaks: self.credential_leaks + leaks(text),
            ..self
        }
    }

    /// A shell command, in lower case.
    pub open spec fn after_command(self, command: Seq<char>) -> SignalsView {
        SignalsView {
            risky_command_hits: self.risky_command_hits + shell_risks(command),
            credential_leaks: self.credential_leaks + leaks(command),
            git_commits: self.git_commits + if contains_text(command, "git commit"@) {
                1nat
            } else {
                0
            },
            pr_created: self.pr_created || contains_text(command, "gh pr create"@)
                || contains_text(command, "git push"@),
            ..self
        }
    }

    /// An edit of the file at this path, in lower case.
    pub open spec fn after_edit(self, path: Seq<char>) -> SignalsView {
        SignalsView {
            code_edits: self.code_edits + 1,
            test_file_edits: self.test_file_edits + if is_test_path(path) {
                1nat
            } else {
                0
            },
            ..self
        }
    }
}

/// The risky patterns in a shell command, each marked as such.
pub open spec fn shell_risks(command: Seq<char>) -> Seq<Seq<char>> {
    Seq::new(risks(command).len(), |i: int| "bash:"@ + risks(command)[i])
}

/// The path of a test file. (One that ends in `_test.rs`, `.test.ts` or `_test.go` holds `test`.)
pub open spec fn is_test_path(path: Seq<char>) -> bool {
    contains_text(path, "test"@) || contains_text(path, "spec"@)
}

impl Default for Signals {
    fn default() -> (res: Self)
        ensures
            res@ == SignalsView::none(),
    {
        let res = Signals {
            risky_command_hits: Vec::new(),
            credential_leaks: 0,
            bypass_permissions: false,
            user_turns: 0,
            correction_turns: 0,
            assistant_turns: 0,
            session_produced_output: false,
            test_file_edits: 0,
            git_commits: 0,
            pr_created: false,
            code_edits: 0,
            total_tool_calls: 0,
            duplicate_reads: 0,
        };
        assert(texts(res.risky_command_hits@) =~= Seq::empty());
        res
    }
}

impl Signals {
    /// Counts a user's turn with this text, in lower case.
    pub fn note_user(&mut self, text: &str)
        ensures
            final(self)@ == old(self)@.after_user(text@).capped(),
    {
        let chars = chars_of(text);
        self.user_turns = self.user_turns.saturating_add(1);
        let leaked = matching(&chars, CREDENTIAL_PATTERNS.as_slice());
        self.credential_leaks = self.credential_leaks.saturating_add(leaked.len());
        let corrections = matching(&chars, CORRECTION_PHRASES.as_slice());
        proof {
            assert(slices(leaked@).len() == leaked@.len());
            assert(slices(corrections@).len() == corrections@.len());
        }
        if corrections.len() > 0 {
            self.correction_turns = self.correction_turns.saturating_add(1);
        }
    }

    /// Counts a text of the assistant that takes `size` bytes and reads `text` in lower case.
    pub fn note_text(&mut self, size: usize, text: &str)
        ensures
            final(self)@ == old(self)@.after_text(size as nat, text@).capped(),
    {
        let chars = chars_of(text);
        if size > 50 {
            self.session_produced_output = true;
        }
        let risky = matching(&chars, RISKY_PATTERNS.as_slice());
        let mut i: usize = 0;
        let ghost start = self@;
        let ghost found = slices(risky@);
        assert(start.risky_command_hits + found.take(0) =~= start.risky_command_hits);
        while i < risky.len()
            invariant
                i <= risky.len(),
                found == slices(risky@),
                self@ == (SignalsView {
                    risky_command_hits: start.risky_command_hits + found.take(i as int),
                    ..start
                }),
            decreases risky.len() - i,
        {
            push_text(&mut self.risky_command_hits, String::from_str(risky[i]));
            i += 1;
            assert(start.risky_command_hits + found.take(i as int) =~= (start.risky_command_hits
                + found.take(i - 1)).push(found[i - 1]));
        }
        assert(found.take(i as int) =~= found);
        let leaked = matching(&chars, CREDENTIAL_PATTERNS.as_slice());
        self.credential_leaks = self.credential_leaks.saturating_add(leaked.len());
        assert(slices(leaked@).len() == leaked@.len());
    }

    /// Counts a shell command, in lower case.
    pub fn note_command(&mut self, command: &str)
        ensures
            final(self)@ == old(self)@.after_command(command@).capped(),
    {
        let chars = chars_of(command);
        let risky = matching(&chars, RISKY_PATTERNS.as_slice());
        let mut i: usize = 0;
        let ghost start = self@;
        let ghost found = shell_risks(command@);
        assert(start.risky_command_hits + found.take(0) =~= start.risky_command_hits);
        while i < risky.len()
            invariant
                i <= risky.len(),
                slices(risky@) == risks(command@),
                found == shell_risks(command@),
                self@ == (SignalsView {
                    risky_command_hits: start.risky_command_hits + found.take(i as int),
                    ..start
                }),
            decreases risky.len() - i,
        {
            let mut hit = String::from_str("bash:");
            hit.append(risky[i]);
            assert(hit@ == found[i as int]) by {
                assert(slices(risky@)[i as int] == risky@[i as int]@);
            }
            push_text(&mut self.risky_command_hits, hit);
            i += 1;
            assert(start.risky_command_hits + found.take(i as int) =~= (start.risky_command_hits
                + found.take(i - 1)).push(found[i - 1]));
        }
        assert(slices(risky@).len() == risky@.len());
        assert(found.take(i as int) =~= found);
        let leaked = matching(&chars, CREDENTIAL_PATTERNS.as_slice());
        self.credential_leaks = self.credential_leaks.saturating_add(leaked.len());
        assert(slices(leaked@).len() == leaked@.len());
        if contains(&chars, "git commit") {
            self.git_commits = self.git_commits.saturating_add(1);
        }
        if contains(&chars, "gh pr create") || contains(&chars, "git push") {
            self.pr_created = true;
        }
    }

    /// Counts an edit of the file at this path, in lower case.
    pub fn note_edit(&mut self, path: &str)
        ensures
            final(self)@ == old(self)@.after_edit(path@).capped(),
    {
        let chars = chars_of(path);
        self.code_edits = self.code_edits.saturating_add(1);
        if contains(&chars, "test") || contains(&chars, "spec") {
            self.test_file_edits = self.test_file_edits.saturating_add(1);
        }
    }
}

// ── Extraction ───────────────────────────────────────────────────────────────
/// The signals so far, and the files that were read.
pub struct TallyView {
    pub signals: SignalsView,
    pub read_files: Set<Seq<char>>,
}

/// What a tool does, as far as it is counted.
#[derive(Debug, Clone, Copy, PartialEq, Eq, Structural)]
pub enum ToolKind {
    Shell,
    Read,
    Edit,
    Other,
}

/// What the tool does that has this name, in lower case.
pub open spec fn kind_of_tool(name: Seq<char>) -> ToolKind {
    if name == "bash"@ {
        ToolKind::Shell
    } else if name == "read"@ {
        ToolKind::Read
    } else if name == "edit"@ || name == "write"@ || name == "multiedit"@ {
        ToolKind::Edit
    } else {
        ToolKind::Other
    }
}

/// What the tool does that has this name, in lower case.
pub fn tool_kind(name: &str) -> (res: ToolKind)
    ensures
        res == kind_of_tool(name@),
{
    if same_text(name, "bash") {
        ToolKind::Shell
    } else if same_text(name, "read") {
        ToolKind::Read
    } else if same_text(name, "edit") || same_text(name, "write") || same_text(name, "multiedit") {
        ToolKind::Edit
    } else {
        ToolKind::Other
    }
}

/// The text member of that name of a tool's input, or nothing where there is none.
pub open spec fn input_text(input: Json, key: Seq<char>) -> Seq<char> {
    match input.text_member(key) {
        Some(s) => s,
        None => ""@,
    }
}

impl TallyView {
    /// Nothing counted yet.
    pub open spec fn none() -> TallyView {
        TallyView { signals: SignalsView::none(), read_files: Set::empty() }
    }

    /// The same tally, as machine counters show it.
    pub open spec fn capped(self) -> TallyView {
        TallyView { signals: self.signals.capped(), ..self }
    }

    /// A file was read. One that was read before is a duplicate.
    pub open spec fn after_read(self, file: Seq<char>) -> TallyView {
        TallyView {
            signals: SignalsView {
                duplicate_reads: self.signals.duplicate_reads + if self.read_files.contains(file) {
                    1nat
                } else {
                    0
                },
                ..self.signals
            },
            read_files: self.read_files.insert(file),
        }
    }

    /// A tool was called. Its name tells, without regard to case, what it did.
    pub open spec fn after_tool(self, name: Seq<char>, input: Json) -> TallyView {
        let s = SignalsView { total_tool_calls: self.signals.total_tool_calls + 1, ..self.signals };
        let t = TallyView { signals: s, ..self };
        match kind_of_tool(lower(name)) {
            ToolKind::Shell => TallyView {
                signals: s.after_command(lower(input_text(input, "command"@))),
                ..self
            },
            ToolKind::Read => t.after_read(input_text(input, "file_path"@)),
            ToolKind::Edit => TallyView {
                signals: s.after_edit(lower(input_text(input, "file_path"@))),
                ..self
            },
            ToolKind::Other => t,
        }
    }

    /// A block of the assistant's message.
    pub open spec fn after_block(self, block: ContentBlock) -> TallyView {
        match block {
            ContentBlock::Text { text } => TallyView {
                signals: self.signals.after_text(size_of_text(text@), lower(text@)),
                ..self
            },
            ContentBlock::ToolUse { id, name, input } => self.after_tool(name@, json_view(input)),
            _ => self,
        }
    }

    /// The blocks of the assistant's message, in order.
    pub open spec fn after_blocks(self, blocks: Seq<ContentBlock>) -> TallyView
        decreases blocks.len(),
    {
        if blocks.len() == 0 {
            self
        } else {
            self.after_blocks(blocks.drop_last()).after_block(blocks.last())
        }
    }

    /// The assistant's turn begins; the entry carries these further members.
    pub open spec fn after_turn(self, meta: Json) -> TallyView {
        TallyView {
            signals: SignalsView {
                assistant_turns: self.signals.assistant_turns + 1,
                bypass_permissions: self.signals.bypass_permissions || meta.text_member(
                    "permissionMode"@,
                ) == Some("bypassPermissions"@),
                ..self.signals
            },
            ..self
        }
    }

    /// An entry of the transcript.
    pub open spec fn after_entry(self, entry: SessionEntry) -> TallyView {
        match entry {
            SessionEntry::User { message, .. } => TallyView {
                signals: self.signals.after_user(lower(content_text(message.content))),
                ..self
            },
            SessionEntry::Assistant { message, meta, .. } => self.after_turn(
                json_view(meta),
            ).after_blocks(message.content@),
            SessionEntry::Other => self,
        }
    }

    /// The entries of a transcript, in order.
    pub open spec fn after_entries(self, entries: Seq<SessionEntry>) -> TallyView
        decreases entries.len(),
    {
        if entries.len() == 0 {
            self
        } else {
            self.after_entries(entries.drop_last()).after_entry(entries.last())
        }
    }
}

/// The signals in a transcript.
pub open spec fn signals_of(entries: Seq<SessionEntry>) -> SignalsView {
    TallyView::none().after_entries(entries).signals
}

proof fn lemma_capped_text(s: SignalsView, size: nat, text: Seq<char>)
    ensures
        s.capped().after_text(size, text).capped() == s.after_text(size, text).capped(),
{
}

proof fn lemma_capped_command(s: SignalsView, command: Seq<char>)
    ensures
        s.capped().after_command(command).capped() == s.after_command(command).capped(),
{
}

proof fn lemma_capped_edit(s: SignalsView, path: Seq<char>)
    ensures
        s.capped().after_edit(path).capped() == s.after_edit(path).capped(),
{
}

proof fn lemma_capped_read(t: TallyView, file: Seq<char>)
    ensures
        t.capped().after_read(file).capped() == t.after_read(file).capped(),
{
}

proof fn lemma_capped_tool(t: TallyView, name: Seq<char>, input: Json)
    ensures
        t.capped().after_tool(name, input).capped() == t.after_tool(name, input).capped(),
{
    let s = SignalsView { total_tool_calls: t.signals.total_tool_calls + 1, ..t.signals };
    let c = SignalsView {
        total_tool_calls: t.capped().signals.total_tool_calls + 1,
        ..t.capped().signals
    };
    assert(c.capped() == s.capped());
    let command = lower(input_text(input, "command"@));
    lemma_capped_command(s, command);
    lemma_capped_command(c, command);
    let path = lower(input_text(input, "file_path"@));
    lemma_capped_edit(s, path);
    lemma_capped_edit(c, path);
    let file = input_text(input, "file_path"@);
    lemma_capped_read(TallyView { signals: s, ..t }, file);
    lemma_capped_read(TallyView { signals: c, ..t }, file);
}

/// Counting goes on from what the machine counters show as it does from the counts.
proof fn lemma_capped_block(t: TallyView, block: ContentBlock)
    ensures
        t.capped().after_block(block).capped() == t.after_block(block).capped(),
{
    match block {
        ContentBlock::Text { text } => {
            lemma_capped_text(t.signals, size_of_text(text@), lower(text@));
        },
        ContentBlock::ToolUse { id, name, input } => {
            lemma_capped_tool(t, name@, json_view(input));
        },
        _ => {},
    }
}

proof fn lemma_capped_blocks(t: TallyView, blocks: Seq<ContentBlock>)
    ensures
        t.capped().after_blocks(blocks).capped() == t.after_blocks(blocks).capped(),
    decreases blocks.len(),
{
    if blocks.len() > 0 {
        let rest = blocks.drop_last();
        lemma_capped_blocks(t, rest);
        lemma_capped_block(t.capped().after_blocks(rest), blocks.last());
        lemma_capped_block(t.after_blocks(rest), blocks.last());
    }
}

proof fn lemma_capped_user(s: SignalsView, text: Seq<char>)
    ensures
        s.capped().after_user(text).capped() == s.after_user(text).capped(),
{
}

proof fn lemma_capped_turn(t: TallyView, meta: Json)
    ensures
        t.capped().after_turn(meta).capped() == t.after_turn(meta).capped(),
{
}

proof fn lemma_capped_message(t: TallyView, meta: Json, blocks: Seq<ContentBlock>)
    ensures
        t.capped().after_turn(meta).after_blocks(blocks).capped() == t.after_turn(
            meta,
        ).after_blocks(blocks).capped(),
{
    lemma_capped_turn(t, meta);
    lemma_capped_blocks(t.after_turn(meta), blocks);
    lemma_capped_blocks(t.capped().after_turn(meta), blocks);
}

proof fn lemma_capped_entry(t: TallyView, entry: SessionEntry)
    ensures
        t.capped().after_entry(entry).capped() == t.after_entry(entry).capped(),
{
    match entry {
        SessionEntry::User { message, .. } => {
            lemma_capped_user(t.signals, lower(content_text(message.content)));
        },
        SessionEntry::Assistant { message, meta, .. } => {
            lemma_capped_message(t, json_view(meta), message.content@);
        },
        SessionEntry::Other => {},
    }
}

/// The signals so far, and the files that were read.
struct Tally {
    signals: Signals,
    read_files: StringHashSet,
}

impl View for Tally {
    type V = TallyView;

    closed spec fn view(&self) -> TallyView {
        TallyView { signals: self.signals@, read_files: self.read_files@ }
    }
}

/// The text member of that name of a tool's input.
fn text_or_empty<'a>(input: &'a Value, key: &str) -> (res: &'a str)
    ensures
        res@ == input_text(json_view(*input), key@),
{
    match text_member(input, key) {
        Some(s) => s,
        None => "",
    }
}

impl Tally {
    /// Counts a tool call.
    fn note_tool(&mut self, name: &str, input: &Value)
        ensures
            final(self)@ == old(self)@.after_tool(name@, json_view(*input)).capped(),
    {
        self.signals.total_tool_calls = self.signals.total_tool_calls.saturating_add(1);
        match tool_kind(to_lower(name).as_str()) {
            ToolKind::Shell => {
                let command = to_lower(text_or_empty(input, "command"));
                self.signals.note_command(command.as_str());
            },
            ToolKind::Read => {
                let file = text_or_empty(input, "file_path");
                let fresh = self.read_files.insert(String::from_str(file));
                if !fresh {
                    self.signals.duplicate_reads = self.signals.duplicate_reads.saturating_add(1);
                }
            },
            ToolKind::Edit => {
                let path = to_lower(text_or_empty(input, "file_path"));
                self.signals.note_edit(path.as_str());
            },
            ToolKind::Other => {},
        }
    }

    /// Counts a block of the assistant's message.
    fn note_block(&mut self, block: &ContentBlock)
        ensures
            final(self)@ == old(self)@.after_block(*block).capped(),
    {
        match block {
            ContentBlock::Text { text } => {
                let lowered = to_lower(text.as_str());
                self.signals.note_text(byte_count(text.as_str()), lowered.as_str());
            },
            ContentBlock::ToolUse { id, name, input } => {
                self.note_tool(name.as_str(), input);
            },
            _ => {},
        }
    }

    /// Counts the assistant's turn.
    fn note_turn(&mut self, message: &AssistantMessage, meta: &Value)
        ensures
            final(self)@ == old(self)@.after_turn(json_view(*meta)).after_blocks(
                message.content@,
            ).capped(),
    {
        self.signals.assistant_turns = self.signals.assistant_turns.saturating_add(1);
        if let Some(mode) = text_member(meta, "permissionMode") {
            if same_text(mode, "bypassPermissions") {
                self.signals.bypass_permissions = true;
            }
        }
        let ghost begun = old(self)@.after_turn(json_view(*meta));
        assert(self@ == begun.capped());
        let blocks = &message.content;
        let mut i: usize = 0;
        assert(begun.after_blocks(blocks@.take(0)) == begun);
        while i < blocks.len()
            invariant
                i <= blocks.len(),
                self@ == begun.after_blocks(blocks@.take(i as int)).capped(),
            decreases blocks.len() - i,
        {
            let ghost counted = begun.after_blocks(blocks@.take(i as int));
            self.note_block(&blocks[i]);
            i += 1;
            proof {
                assert(blocks@.take(i as int).drop_last() =~= blocks@.take(i - 1));
                lemma_capped_block(counted, blocks@[i - 1]);
            }
        }
        assert(blocks@.take(i as int) =~= blocks@);
    }

    /// Counts an entry of the transcript.
    fn note_entry(&mut self, entry: &SessionEntry)
        ensures
            final(self)@ == old(self)@.after_entry(*entry).capped(),
    {
        match entry {
            SessionEntry::User { message, .. } => {
                let content = extract_text_content(&message.content);
                let text = to_lower(content.as_str());
                self.signals.note_user(text.as_str());
            },
            SessionEntry::Assistant { message, meta, .. } => {
                self.note_turn(message, meta);
            },
            SessionEntry::Other => {},
        }
    }
}

/// Counts the signals in a transcript.
pub fn extract_signals(entries: &[SessionEntry]) -> (res: Signals)
    ensures
        res@ == signals_of(entries@).capped(),
{
    let mut tally = Tally { signals: Signals::default(), read_files: StringHashSet::new() };
    let mut i: usize = 0;
    assert(tally@ == TallyView::none().after_entries(entries@.take(0)).capped());
    while i < entries.len()
        invariant
            i <= entries.len(),
            tally@ == TallyView::none().after_entries(entries@.take(i as int)).capped(),
        decreases entries.len() - i,
    {
        let ghost counted = TallyView::none().after_entries(entries@.take(i as int));
        tally.note_entry(&entries[i]);
        i += 1;
        proof {
            assert(entries@.take(i as int).drop_last() =~= entries@.take(i - 1));
            lemma_capped_entry(counted, entries@[i - 1]);
        }
    }
    assert(entries@.take(i as int) =~= entries@);
    tally.signals
}

// ── Laws ─────────────────────────────────────────────────────────────────────
/// Counting the rest of a transcript goes on from what was counted in the first part.
pub proof fn law_counting_goes_on(t: TallyView, first: Seq<SessionEntry>, rest: Seq<SessionEntry>)
    ensures
        t.after_entries(first + rest) == t.after_entries(first).after_entries(rest),
    decreases rest.len(),
{
    if rest.len() == 0 {
        assert(first + rest =~= first);
    } else {
        assert((first + rest).drop_last() =~= first + rest.drop_last());
        law_counting_goes_on(t, first, rest.drop_last());
    }
}

/// `all` holds the signals of `a` and of `b`: the counts are the sums, the risky hits those of `a`
/// and then those of `b`, and what is noted in one of them is noted. A file that was read in `a`
/// and again in `b` is one more duplicate read.
pub open spec fn adds_up(a: SignalsView, b: SignalsView, all: SignalsView) -> bool {
    &&& all.risky_command_hits == a.risky_command_hits + b.risky_command_hits
    &&& all.credential_leaks == a.credential_leaks + b.credential_leaks
    &&& all.bypass_permissions == (a.bypass_permissions || b.bypass_permissions)
    &&& all.user_turns == a.user_turns + b.user_turns
    &&& all.correction_turns == a.correction_turns + b.correction_turns
    &&& all.assistant_turns == a.assistant_turns + b.assistant_turns
    &&& all.session_produced_output == (a.session_produced_output || b.session_produced_output)
    &&& all.test_file_edits == a.test_file_edits + b.test_file_edits
    &&& all.git_commits == a.git_commits + b.git_commits
    &&& all.pr_created == (a.pr_created || b.pr_created)
    &&& all.code_edits == a.code_edits + b.code_edits
    &&& all.total_tool_calls == a.total_tool_calls + b.total_tool_calls
    &&& all.duplicate_reads >= a.duplicate_reads + b.duplicate_reads
}

/// The tally `all` holds the signals of `a` and those of the tally `b`, and the files read in `b`.
spec fn tally_adds_up(a: SignalsView, b: TallyView, all: TallyView) -> bool {
    adds_up(a, b.signals, all.signals) && b.read_files.subset_of(all.read_files)
}

proof fn lemma_tool_adds_up(
    a: SignalsView,
    b: TallyView,
    all: TallyView,
    name: Seq<char>,
    input: Json,
)
    requires
        tally_adds_up(a, b, all),
    ensures
        tally_adds_up(a, b.after_tool(name, input), all.after_tool(name, input)),
{
    let hits = shell_risks(lower(input_text(input, "command"@)));
    let x = a.risky_command_hits;
    let y = b.signals.risky_command_hits;
    assert((x + y) + hits =~= x + (y + hits));
}

proof fn lemma_block_adds_up(a: SignalsView, b: TallyView, all: TallyView, block: ContentBlock)
    requires
        tally_adds_up(a, b, all),
    ensures
        tally_adds_up(a, b.after_block(block), all.after_block(block)),
{
    match block {
        ContentBlock::Text { text } => {
            let hits = risks(lower(text@));
            let x = a.risky_command_hits;
            let y = b.signals.risky_command_hits;
            assert((x + y) + hits =~= x + (y + hits));
        },
        ContentBlock::ToolUse { id, name, input } => {
            lemma_tool_adds_up(a, b, all, name@, json_view(input));
        },
        _ => {},
    }
}

proof fn lemma_blocks_add_up(
    a: SignalsView,
    b: TallyView,
    all: TallyView,
    blocks: Seq<ContentBlock>,
)
    requires
        tally_adds_up(a, b, all),
    ensures
        tally_adds_up(a, b.after_blocks(blocks), all.after_blocks(blocks)),
    decreases blocks.len(),
{
    if blocks.len() > 0 {
        let rest = blocks.drop_last();
        lemma_blocks_add_up(a, b, all, rest);
        lemma_block_adds_up(a, b.after_blocks(rest), all.after_blocks(rest), blocks.last());
    }
}

proof fn lemma_entries_add_up(
    a: SignalsView,
    b: TallyView,
    all: TallyView,
    entries: Seq<SessionEntry>,
)
    requires
        tally_adds_up(a, b, all),
    ensures
        tally_adds_up(a, b.after_entries(entries), all.after_entries(entries)),
    decreases entries.len(),
{
    if entries.len() > 0 {
        let rest = entries.drop_last();
        lemma_entries_add_up(a, b, all, rest);
        let x = b.after_entries(rest);
        let y = all.after_entries(rest);
        if let SessionEntry::Assistant { message, meta, .. } = entries.last() {
            let m = json_view(meta);
            lemma_blocks_add_up(a, x.after_turn(m), y.after_turn(m), message.content@);
        }
    }
}

/// The signals of two transcripts in a row are those of the one and those of the other, also as
/// machine counters show them, where these can hold the counts.
pub proof fn law_signals_add_up(first: Seq<SessionEntry>, rest: Seq<SessionEntry>)
    ensures
        adds_up(signals_of(first), signals_of(rest), signals_of(first + rest)),
        signals_of(first + rest).capped() == signals_of(first + rest) ==> adds_up(
            signals_of(first).capped(),
            signals_of(rest).capped(),
            signals_of(first + rest).capped(),
        ),
{
    let t = TallyView::none().after_entries(first);
    law_counting_goes_on(TallyView::none(), first, rest);
    assert(t.signals.risky_command_hits + Seq::<Seq<char>>::empty()
        =~= t.signals.risky_command_hits);
    lemma_entries_add_up(t.signals, TallyView::none(), t, rest);
}

/// Entries of other kinds do not count, wherever they stand.
pub proof fn law_other_entries_do_not_count(first: Seq<SessionEntry>, rest: Seq<SessionEntry>)
    ensures
        signals_of(first.push(SessionEntry::Other) + rest) == signals_of(first + rest),
{
    let other = first.push(SessionEntry::Other);
    assert(other.drop_last() =~= first);
    law_counting_goes_on(TallyView::none(), other, rest);
    law_counting_goes_on(TallyView::none(), first, rest);
}

/// The second signals hold all of the first, and perhaps more.
pub open spec fn grown(a: SignalsView, b: SignalsView) -> bool {
    &&& a.risky_command_hits.is_prefix_of(b.risky_command_hits)
    &&& a.credential_leaks <= b.credential_leaks
    &&& a.bypass_permissions ==> b.bypass_permissions
    &&& a.user_turns <= b.user_turns
    &&& a.correction_turns <= b.correction_turns
    &&& a.assistant_turns <= b.assistant_turns
    &&& a.session_produced_output ==> b.session_produced_output
    &&& a.test_file_edits <= b.test_file_edits
    &&& a.git_commits <= b.git_commits
    &&& a.pr_created ==> b.pr_created
    &&& a.code_edits <= b.code_edits
    &&& a.total_tool_calls <= b.total_tool_calls
    &&& a.duplicate_reads <= b.duplicate_reads
}

proof fn lemma_blocks_grow(t: TallyView, blocks: Seq<ContentBlock>)
    ensures
        grown(t.signals, t.after_blocks(blocks).signals),
    decreases blocks.len(),
{
    if blocks.len() > 0 {
        lemma_blocks_grow(t, blocks.drop_last());
    }
}

/// The signals only grow as a transcript goes on.
pub proof fn law_signals_only_grow(t: TallyView, entries: Seq<SessionEntry>)
    ensures
        grown(t.signals, t.after_entries(entries).signals),
        grown(t.signals.capped(), t.after_entries(entries).signals.capped()),
    decreases entries.len(),
{
    if entries.len() > 0 {
        let before = t.after_entries(entries.drop_last());
        law_signals_only_grow(t, entries.drop_last());
        if let SessionEntry::Assistant { message, meta, .. } = entries.last() {
            lemma_blocks_grow(before.after_turn(json_view(meta)), message.content@);
        }
    }
}

/// No more turns of the user are corrections than there are, no more edits are edits of tests, and
/// no more calls read or edit files, or commit, than there are.
pub open spec fn counts_agree(s: SignalsView) -> bool {
    &&& s.correction_turns <= s.user_turns
    &&& s.test_file_edits <= s.code_edits
    &&& s.code_edits <= s.total_tool_calls
    &&& s.duplicate_reads <= s.total_tool_calls
    &&& s.git_commits <= s.total_tool_calls
}

/// Each call does one thing at most: it edits a file, reads one again, or commits.
pub open spec fn calls_cover(s: SignalsView) -> bool {
    s.code_edits + s.duplicate_reads + s.git_commits <= s.total_tool_calls
}

/// A risky hit is one of the risky patterns, or one of them marked as a shell command's.
pub open spec fn is_hit(hit: Seq<char>) -> bool {
    exists|i: int|
        0 <= i < slices(RISKY_PATTERNS@).len() && (hit == #[trigger] slices(RISKY_PATTERNS@)[i]
            || hit == "bash:"@ + slices(RISKY_PATTERNS@)[i])
}

/// All the risky hits are such.
pub open spec fn hits_are_patterns(s: SignalsView) -> bool {
    forall|i: int|
        0 <= i < s.risky_command_hits.len() ==> is_hit(#[trigger] s.risky_command_hits[i])
}

proof fn lemma_matched(s: Seq<char>, patterns: Seq<Seq<char>>, i: int)
    requires
        0 <= i < matched(s, patterns).len(),
    ensures
        patterns.contains(matched(s, patterns)[i]),
    decreases patterns.len(),
{
    let rest = patterns.drop_last();
    if i < matched(s, rest).len() {
        lemma_matched(s, rest, i);
        let k = choose|k: int| 0 <= k < rest.len() && rest[k] == matched(s, rest)[i];
        assert(patterns[k] == matched(s, patterns)[i]);
    } else {
        assert(patterns[patterns.len() - 1] == matched(s, patterns)[i]);
    }
}

proof fn lemma_risks_are_hits(s: Seq<char>)
    ensures
        forall|i: int| 0 <= i < risks(s).len() ==> is_hit(#[trigger] risks(s)[i]),
        forall|i: int| 0 <= i < shell_risks(s).len() ==> is_hit(#[trigger] shell_risks(s)[i]),
{
    let patterns = slices(RISKY_PATTERNS@);
    assert forall|i: int| 0 <= i < risks(s).len() implies is_hit(#[trigger] risks(s)[i]) by {
        lemma_matched(s, patterns, i);
        let k = choose|k: int| 0 <= k < patterns.len() && patterns[k] == risks(s)[i];
        assert(risks(s)[i] == slices(RISKY_PATTERNS@)[k]);
    }
    assert forall|i: int| 0 <= i < shell_risks(s).len() implies is_hit(
        #[trigger] shell_risks(s)[i],
    ) by {
        lemma_matched(s, patterns, i);
        let k = choose|k: int| 0 <= k < patterns.len() && patterns[k] == risks(s)[i];
        assert(shell_risks(s)[i] == "bash:"@ + slices(RISKY_PATTERNS@)[k]);
    }
}

/// What holds of the signals of every transcript.
spec fn consistent(s: SignalsView) -> bool {
    counts_agree(s) && calls_cover(s) && hits_are_patterns(s)
}

proof fn lemma_block_consistent(t: TallyView, block: ContentBlock)
    requires
        consistent(t.signals),
    ensures
        consistent(t.after_block(block).signals),
{
    match block {
        ContentBlock::Text { text } => {
            lemma_risks_are_hits(lower(text@));
        },
        ContentBlock::ToolUse { id, name, input } => {
            lemma_risks_are_hits(lower(input_text(json_view(input), "command"@)));
        },
        _ => {},
    }
}

proof fn lemma_blocks_consistent(t: TallyView, blocks: Seq<ContentBlock>)
    requires
        consistent(t.signals),
    ensures
        consistent(t.after_blocks(blocks).signals),
    decreases blocks.len(),
{
    if blocks.len() > 0 {
        lemma_blocks_consistent(t, blocks.drop_last());
        lemma_block_consistent(t.after_blocks(blocks.drop_last()), blocks.last());
    }
}

proof fn lemma_entries_consistent(t: TallyView, entries: Seq<SessionEntry>)
    requires
        consistent(t.signals),
    ensures
        consistent(t.after_entries(entries).signals),
    decreases entries.len(),
{
    if entries.len() > 0 {
        let before = t.after_entries(entries.drop_last());
        lemma_entries_consistent(t, entries.drop_last());
        if let SessionEntry::Assistant { message, meta, .. } = entries.last() {
            lemma_blocks_consistent(before.after_turn(json_view(meta)), message.content@);
        }
    }
}

/// The counts of a transcript agree with each other, also as machine counters show them. Each tool
/// call is counted as no more than one thing.
pub proof fn law_counts_agree(entries: Seq<SessionEntry>)
    ensures
        counts_agree(signals_of(entries)),
        counts_agree(signals_of(entries).capped()),
        calls_cover(signals_of(entries)),
{
    lemma_entries_consistent(TallyView::none(), entries);
}

/// Every risky hit in a transcript is one of the risky patterns, or one of them marked as a shell
/// command's.
pub proof fn law_hits_are_patterns(entries: Seq<SessionEntry>)
    ensures
        hits_are_patterns(signals_of(entries)),
{
    lemma_entries_consistent(TallyView::none(), entries);
}

/// Which commands are risky, what betrays a credential, and what a correction sounds like.
pub proof fn law_patterns_looked_for()
    ensures
        slices(RISKY_PATTERNS@) == seq![
            "rm -rf"@,
            "rm -r /"@,
            "chmod 777"@,
            "chmod -R 777"@,
            "sudo rm"@,
            "> /dev/sda"@,
            "dd if=/dev/zero"@,
            ":(){ :|:& };:"@,
            "mkfs."@,
            "format c:"@,
        ],
        slices(CREDENTIAL_PATTERNS@) == seq![
            "password="@,
            "passwd="@,
            "secret="@,
            "api_key="@,
            "apikey="@,
            "sk-ant-"@,
            "ghp_"@,
            "-----begin"@,
            "authorization: bearer"@,
        ],
        slices(CORRECTION_PHRASES@) == seq![
            "no, "@,
            "that's wrong"@,
            "that is wrong"@,
            "not right"@,
            "incorrect"@,
            "you misunderstood"@,
            "that's not what"@,
            "try again"@,
            "wrong file"@,
            "wrong approach"@,
            "revert"@,
            "undo"@,
            "that broke"@,
            "it failed"@,
            "still broken"@,
            "didn't work"@,
            "doesn't work"@,
            "not working"@,
        ],
{
    assert(slices(RISKY_PATTERNS@) =~= seq![
            "rm -rf"@,
            "rm -r /"@,
            "chmod 777"@,
            "chmod -R 777"@,
            "sudo rm"@,
            "> /dev/sda"@,
            "dd if=/dev/zero"@,
            ":(){ :|:& };:"@,
            "mkfs."@,
            "format c:"@,
    ]);
    assert(slices(CREDENTIAL_PATTERNS@) =~= seq![
            "password="@,
            "passwd="@,
            "secret="@,
            "api_key="@,
            "apikey="@,
            "sk-ant-"@,
            "ghp_"@,
            "-----begin"@,
            "authorization: bearer"@,
    ]);
    assert(slices(CORRECTION_PHRASES@) =~= seq![
            "no, "@,
            "that's wrong"@,
            "that is wrong"@,
            "not right"@,
            "incorrect"@,
            "you misunderstood"@,
            "that's not what"@,
            "try again"@,
            "wrong file"@,
            "wrong approach"@,
            "revert"@,
            "undo"@,
            "that broke"@,
            "it failed"@,
            "still broken"@,
            "didn't work"@,
            "doesn't work"@,
            "not working"@,
    ]);
}

/// `at` are the positions, in order, of the patterns that stand in the text.
pub open spec fn are_positions(at: Seq<int>, text: Seq<char>, patterns: Seq<Seq<char>>) -> bool {
    &&& forall|i: int, j: int| 0 <= i < j < at.len() ==> #[trigger] at[i] < #[trigger] at[j]
    &&& forall|i: int|
        0 <= i < at.len() ==> 0 <= #[trigger] at[i] < patterns.len() && contains_text(
            text,
            patterns[at[i]],
        )
    &&& forall|k: int|
        0 <= k < patterns.len() && contains_text(text, #[trigger] patterns[k]) ==> at.contains(k)
}

/// The hits are the patterns that stand in the text, each once, in their order and with that mark.
pub open spec fn are_hits(
    hits: Seq<Seq<char>>,
    mark: Seq<char>,
    text: Seq<char>,
    patterns: Seq<Seq<char>>,
) -> bool {
    exists|at: Seq<int>|
        #[trigger] are_positions(at, text, patterns) && hits.len() == at.len() && forall|i: int|
            0 <= i < at.len() ==> #[trigger] hits[i] == mark + patterns[at[i]]
}

/// The positions of the patterns that stand in the text.
pub open spec fn positions(text: Seq<char>, patterns: Seq<Seq<char>>) -> Set<int> {
    Set::new(|k: int| 0 <= k < patterns.len() && contains_text(text, patterns[k]))
}

proof fn lemma_positions(text: Seq<char>, patterns: Seq<Seq<char>>) -> (at: Seq<int>)
    ensures
        are_positions(at, text, patterns),
        at.len() == matched(text, patterns).len(),
        forall|i: int|
            0 <= i < at.len() ==> #[trigger] matched(text, patterns)[i] == patterns[at[i]],
        positions(text, patterns).finite(),
        positions(text, patterns).len() == matched(text, patterns).len(),
    decreases patterns.len(),
{
    if patterns.len() == 0 {
        assert(positions(text, patterns) =~= Set::empty());
        Seq::empty()
    } else {
        let rest = patterns.drop_last();
        let last = patterns.len() - 1;
        let before = lemma_positions(text, rest);
        assert(forall|k: int| 0 <= k < last ==> #[trigger] patterns[k] == rest[k]);
        if contains_text(text, patterns.last()) {
            let at = before.push(last);
            assert(positions(text, patterns) =~= positions(text, rest).insert(last));
            assert forall|k: int|
                0 <= k < patterns.len() && contains_text(
                    text,
                    #[trigger] patterns[k],
                ) implies at.contains(k) by {
                if k < last {
                    assert(contains_text(text, rest[k]));
                    let i = choose|i: int| 0 <= i < before.len() && before[i] == k;
                    assert(at[i] == k);
                } else {
                    assert(at[before.len() as int] == k);
                }
            }
            at
        } else {
            assert(positions(text, patterns) =~= positions(text, rest));
            assert forall|k: int|
                0 <= k < patterns.len() && contains_text(
                    text,
                    #[trigger] patterns[k],
                ) implies before.contains(k) by {
                assert(contains_text(text, rest[k]));
            }
            before
        }
    }
}

proof fn lemma_risks(text: Seq<char>)
    ensures
        are_hits(risks(text), Seq::empty(), text, slices(RISKY_PATTERNS@)),
        are_hits(shell_risks(text), "bash:"@, text, slices(RISKY_PATTERNS@)),
        leaks(text) == positions(text, slices(CREDENTIAL_PATTERNS@)).len(),
        is_correction(text) == exists|k: int|
            0 <= k < slices(CORRECTION_PHRASES@).len() && contains_text(
                text,
                #[trigger] slices(CORRECTION_PHRASES@)[k],
            ),
{
    let patterns = slices(RISKY_PATTERNS@);
    let at = lemma_positions(text, patterns);
    assert forall|i: int| 0 <= i < at.len() implies #[trigger] risks(text)[i] == Seq::<
        char,
    >::empty() + patterns[at[i]] by {
        assert(matched(text, patterns)[i] == patterns[at[i]]);
        assert(Seq::<char>::empty() + patterns[at[i]] =~= patterns[at[i]]);
    }
    assert forall|i: int| 0 <= i < at.len() implies #[trigger] shell_risks(text)[i] == "bash:"@
        + patterns[at[i]] by {
        assert(matched(text, patterns)[i] == patterns[at[i]]);
    }
    let leaked = lemma_positions(text, slices(CREDENTIAL_PATTERNS@));
    let phrases = slices(CORRECTION_PHRASES@);
    let said = lemma_positions(text, phrases);
    if said.len() > 0 {
        assert(contains_text(text, phrases[said[0]]));
    }
}

proof fn lemma_one_entry(entry: SessionEntry)
    ensures
        signals_of(seq![entry]) == TallyView::none().after_entry(entry).signals,
{
    assert(seq![entry].drop_last() =~= Seq::empty());
    assert(TallyView::none().after_entries(Seq::empty()) == TallyView::none());
}

/// A message of the user is one turn. It is a correction just where one of the phrases stands in
/// it, and leaks a credential for each of the credential patterns in it, without regard to case.
pub proof fn law_user_turn(entry: SessionEntry, text: Seq<char>)
    requires
        entry matches SessionEntry::User { message, .. } && text == lower(
            content_text(message.content),
        ),
    ensures
        ({
            let s = signals_of(seq![entry]);
            &&& s.user_turns == 1
            &&& s.correction_turns <= 1
            &&& (s.correction_turns == 1) == exists|k: int|
                0 <= k < slices(CORRECTION_PHRASES@).len() && contains_text(
                    text,
                    #[trigger] slices(CORRECTION_PHRASES@)[k],
                )
            &&& s.credential_leaks == positions(text, slices(CREDENTIAL_PATTERNS@)).len()
            &&& s.assistant_turns == 0 && s.total_tool_calls == 0 && s.duplicate_reads == 0
            &&& s.code_edits == 0 && s.test_file_edits == 0 && s.git_commits == 0
            &&& s.risky_command_hits.len() == 0
            &&& !s.bypass_permissions && !s.session_produced_output && !s.pr_created
        }),
{
    lemma_one_entry(entry);
    lemma_risks(text);
}

/// A message of the assistant is one turn, and bypasses permissions just where it says so.
pub proof fn law_assistant_turn(entry: SessionEntry)
    requires
        entry is Assistant,
    ensures
        signals_of(seq![entry]).assistant_turns == 1,
        signals_of(seq![entry]).user_turns == 0,
        signals_of(seq![entry]).correction_turns == 0,
        signals_of(seq![entry]).bypass_permissions == (json_view(
            entry->Assistant_meta,
        ).text_member("permissionMode"@) == Some("bypassPermissions"@)),
{
    lemma_one_entry(entry);
    if let SessionEntry::Assistant { message, meta, .. } = entry {
        lemma_blocks_keep_turns(TallyView::none().after_turn(json_view(meta)), message.content@);
    }
}

proof fn lemma_blocks_keep_turns(t: TallyView, blocks: Seq<ContentBlock>)
    ensures
        t.after_blocks(blocks).signals.assistant_turns == t.signals.assistant_turns,
        t.after_blocks(blocks).signals.user_turns == t.signals.user_turns,
        t.after_blocks(blocks).signals.correction_turns == t.signals.correction_turns,
        t.after_blocks(blocks).signals.bypass_permissions == t.signals.bypass_permissions,
    decreases blocks.len(),
{
    if blocks.len() > 0 {
        lemma_blocks_keep_turns(t, blocks.drop_last());
    }
}

/// The entry is a message of the assistant with just this block.
pub open spec fn says_only(entry: SessionEntry, block: ContentBlock) -> bool {
    entry matches SessionEntry::Assistant { message, .. } && message.content@ == seq![block]
}

proof fn lemma_one_block(entry: SessionEntry, block: ContentBlock)
    requires
        says_only(entry, block),
    ensures
        signals_of(seq![entry]) == TallyView::none().after_turn(
            json_view(entry->Assistant_meta),
        ).after_block(block).signals,
{
    lemma_one_entry(entry);
    let t = TallyView::none().after_turn(json_view(entry->Assistant_meta));
    assert(seq![block].drop_last() =~= Seq::empty());
    assert(t.after_blocks(Seq::empty()) == t);
}

/// A text of the assistant is output where it takes over 50 bytes. Each risky pattern in it is a
/// hit, and each credential pattern a leak, without regard to case.
pub proof fn law_text_block(entry: SessionEntry, block: ContentBlock)
    requires
        says_only(entry, block),
        block is Text,
    ensures
        ({
            let s = signals_of(seq![entry]);
            let text = block->Text_text@;
            &&& s.session_produced_output == (size_of_text(text) > 50)
            &&& are_hits(
                s.risky_command_hits,
                Seq::empty(),
                lower(text),
                slices(RISKY_PATTERNS@),
            )
            &&& s.credential_leaks == positions(lower(text), slices(CREDENTIAL_PATTERNS@)).len()
            &&& s.total_tool_calls == 0 && s.duplicate_reads == 0 && s.code_edits == 0
            &&& s.test_file_edits == 0 && s.git_commits == 0 && !s.pr_created
        }),
{
    lemma_one_block(entry, block);
    lemma_risks(lower(block->Text_text@));
    let hits = risks(lower(block->Text_text@));
    assert(Seq::<Seq<char>>::empty() + hits =~= hits);
}

/// A shell command counts a hit for each risky pattern in it, a leak for each credential pattern,
/// a commit, and a pull request where it opens one or pushes, without regard to case. A call
/// without a command counts as an empty one.
pub proof fn law_shell_call(entry: SessionEntry, block: ContentBlock, command: Seq<char>)
    requires
        says_only(entry, block),
        block is ToolUse,
        lower(block->ToolUse_name@) == "bash"@,
        match json_view(block->ToolUse_input).text_member("command"@) {
            Some(c) => command == lower(c),
            None => command == lower(""@),
        },
    ensures
        ({
            let s = signals_of(seq![entry]);
            &&& s.total_tool_calls == 1
            &&& are_hits(s.risky_command_hits, "bash:"@, command, slices(RISKY_PATTERNS@))
            &&& s.credential_leaks == positions(command, slices(CREDENTIAL_PATTERNS@)).len()
            &&& s.git_commits <= 1
            &&& (s.git_commits == 1) == contains_text(command, "git commit"@)
            &&& s.pr_created == (contains_text(command, "gh pr create"@) || contains_text(
                command,
                "git push"@,
            ))
            &&& s.duplicate_reads == 0 && s.code_edits == 0 && s.test_file_edits == 0
            &&& !s.session_produced_output
        }),
{
    lemma_one_block(entry, block);
    lemma_risks(command);
    let hits = shell_risks(command);
    assert(Seq::<Seq<char>>::empty() + hits =~= hits);
}

/// As soon as a credential pattern stands in a shell command, in a text of the assistant or in a
/// message of the user, there is a leak.
pub proof fn law_credentials_are_noticed(text: Seq<char>, k: int)
    requires
        0 <= k < slices(CREDENTIAL_PATTERNS@).len(),
        contains_text(text, slices(CREDENTIAL_PATTERNS@)[k]),
    ensures
        positions(text, slices(CREDENTIAL_PATTERNS@)).len() >= 1,
        leaks(text) >= 1,
{
    let at = lemma_positions(text, slices(CREDENTIAL_PATTERNS@));
    assert(positions(text, slices(CREDENTIAL_PATTERNS@)).contains(k));
    lemma_risks(text);
    assert(at.contains(k));
}

/// An edit counts as one, and as one of a test where the path says so, without regard to case.
pub proof fn law_edit_call(entry: SessionEntry, block: ContentBlock, path: Seq<char>)
    requires
        says_only(entry, block),
        block is ToolUse,
        lower(block->ToolUse_name@) == "edit"@ || lower(block->ToolUse_name@) == "write"@ || lower(
            block->ToolUse_name@,
        ) == "multiedit"@,
        match json_view(block->ToolUse_input).text_member("file_path"@) {
            Some(p) => path == lower(p),
            None => path == lower(""@),
        },
    ensures
        ({
            let s = signals_of(seq![entry]);
            &&& s.total_tool_calls == 1 && s.code_edits == 1
            &&& s.test_file_edits <= 1
            &&& (s.test_file_edits == 1) == (contains_text(path, "test"@) || contains_text(
                path,
                "spec"@,
            ))
            &&& s.risky_command_hits.len() == 0 && s.credential_leaks == 0
            &&& s.duplicate_reads == 0 && s.git_commits == 0
            &&& !s.pr_created && !s.session_produced_output
        }),
{
    lemma_one_block(entry, block);
    lemma_tool_names_differ();
}

proof fn lemma_tool_names_differ()
    ensures
        "bash"@ != "read"@,
        "bash"@ != "edit"@,
        "bash"@ != "write"@,
        "bash"@ != "multiedit"@,
        "read"@ != "edit"@,
        "read"@ != "write"@,
        "read"@ != "multiedit"@,
{
    reveal_strlit("bash");
    reveal_strlit("read");
    reveal_strlit("edit");
    reveal_strlit("write");
    reveal_strlit("multiedit");
    assert("bash"@[0] == 'b');
    assert("read"@[0] == 'r');
    assert("edit"@[0] == 'e');
}

/// Any other call counts as a call and nothing else.
pub proof fn law_other_call(entry: SessionEntry, block: ContentBlock)
    requires
        says_only(entry, block),
        block is ToolUse,
        lower(block->ToolUse_name@) != "bash"@,
        lower(block->ToolUse_name@) != "edit"@,
        lower(block->ToolUse_name@) != "write"@,
        lower(block->ToolUse_name@) != "multiedit"@,
    ensures
        ({
            let s = signals_of(seq![entry]);
            &&& s.total_tool_calls == 1
            &&& s.risky_command_hits.len() == 0 && s.credential_leaks == 0
            &&& s.duplicate_reads == 0 && s.code_edits == 0 && s.test_file_edits == 0
            &&& s.git_commits == 0 && !s.pr_created && !s.session_produced_output
        }),
{
    lemma_one_block(entry, block);
}

/// A block that is neither text nor a call counts nothing.
pub proof fn law_silent_block(entry: SessionEntry, block: ContentBlock)
    requires
        says_only(entry, block),
        !(block is Text) && !(block is ToolUse),
    ensures
        ({
            let s = signals_of(seq![entry]);
            &&& s.total_tool_calls == 0 && s.risky_command_hits.len() == 0
            &&& s.credential_leaks == 0 && s.duplicate_reads == 0 && s.code_edits == 0
            &&& s.test_file_edits == 0 && s.git_commits == 0
            &&& !s.pr_created && !s.session_produced_output
        }),
{
    lemma_one_block(entry, block);
}

/// The same tally, but for the number of turns.
spec fn with_turns(t: TallyView, n: nat) -> TallyView {
    TallyView { signals: SignalsView { assistant_turns: n, ..t.signals }, ..t }
}

proof fn lemma_turns_apart(t: TallyView, n: nat, blocks: Seq<ContentBlock>)
    ensures
        with_turns(t, n).after_blocks(blocks) == with_turns(t.after_blocks(blocks), n),
    decreases blocks.len(),
{
    if blocks.len() > 0 {
        lemma_turns_apart(t, n, blocks.drop_last());
    }
}

proof fn lemma_blocks_go_on(t: TallyView, a: Seq<ContentBlock>, b: Seq<ContentBlock>)
    ensures
        t.after_blocks(a + b) == t.after_blocks(a).after_blocks(b),
    decreases b.len(),
{
    if b.len() == 0 {
        assert(a + b =~= a);
    } else {
        assert((a + b).drop_last() =~= a + b.drop_last());
        lemma_blocks_go_on(t, a, b.drop_last());
    }
}

/// The signals of a message are those of its blocks: those of a first part of them and those of
/// the rest, in one turn.
pub proof fn law_blocks_add_up(all: SessionEntry, first: SessionEntry, rest: SessionEntry)
    requires
        all is Assistant,
        first is Assistant,
        rest is Assistant,
        all->Assistant_message.content@ == first->Assistant_message.content@
            + rest->Assistant_message.content@,
        json_view(all->Assistant_meta) == json_view(first->Assistant_meta),
        json_view(all->Assistant_meta) == json_view(rest->Assistant_meta),
    ensures
        adds_up(
            signals_of(seq![first]),
            SignalsView { assistant_turns: 0, ..signals_of(seq![rest]) },
            signals_of(seq![all]),
        ),
{
    lemma_one_entry(all);
    lemma_one_entry(first);
    lemma_one_entry(rest);
    let a = first->Assistant_message.content@;
    let b = rest->Assistant_message.content@;
    let t = TallyView::none().after_turn(json_view(all->Assistant_meta));
    lemma_blocks_go_on(t, a, b);
    lemma_turns_apart(t, 0, b);
    let begun = t.after_blocks(a);
    lemma_blocks_keep_turns(t, a);
    assert(begun.signals.risky_command_hits + Seq::<Seq<char>>::empty()
        =~= begun.signals.risky_command_hits);
    lemma_blocks_add_up(begun.signals, with_turns(t, 0), begun, b);
}

/// The files that a block reads.
pub open spec fn reads_of_block(block: ContentBlock) -> Seq<Seq<char>> {
    match block {
        ContentBlock::ToolUse { id, name, input } => if lower(name@) == "read"@ {
            seq![
                match json_view(input).text_member("file_path"@) {
                    Some(file) => file,
                    None => ""@,
                },
            ]
        } else {
            Seq::empty()
        },
        _ => Seq::empty(),
    }
}

/// The files that the blocks read, in order.
pub open spec fn reads_of_blocks(blocks: Seq<ContentBlock>) -> Seq<Seq<char>>
    decreases blocks.len(),
{
    if blocks.len() == 0 {
        Seq::empty()
    } else {
        reads_of_blocks(blocks.drop_last()) + reads_of_block(blocks.last())
    }
}

/// The files that are read in a transcript, in order.
pub open spec fn reads_of(entries: Seq<SessionEntry>) -> Seq<Seq<char>>
    decreases entries.len(),
{
    if entries.len() == 0 {
        Seq::empty()
    } else {
        reads_of(entries.drop_last()) + match entries.last() {
            SessionEntry::Assistant { message, .. } => reads_of_blocks(message.content@),
            _ => Seq::empty(),
        }
    }
}

/// The tally has counted these reads.
spec fn has_read(t: TallyView, reads: Seq<Seq<char>>) -> bool {
    &&& t.read_files == reads.to_set()
    &&& t.signals.duplicate_reads + reads.to_set().len() == reads.len()
}

proof fn lemma_block_reads(t: TallyView, reads: Seq<Seq<char>>, block: ContentBlock)
    requires
        has_read(t, reads),
    ensures
        has_read(t.after_block(block), reads + reads_of_block(block)),
{
    let more = reads_of_block(block);
    lemma_tool_names_differ();
    seq_to_set_is_finite(reads);
    if more.len() == 0 {
        assert(reads + more =~= reads);
    } else {
        let file = more[0];
        assert(more =~= seq![file]);
        assert(reads + more =~= reads.push(file));
        assert(reads.push(file).to_set() =~= reads.to_set().insert(file)) by {
            assert forall|f: Seq<char>| reads.push(file).to_set().contains(f)
                == reads.to_set().insert(file).contains(f) by {
                if reads.contains(f) {
                    let i = choose|i: int| 0 <= i < reads.len() && reads[i] == f;
                    assert(reads.push(file)[i] == f);
                }
                if reads.push(file).contains(f) {
                    let i = choose|i: int|
                        0 <= i < reads.push(file).len() && reads.push(file)[i] == f;
                    if i < reads.len() {
                        assert(reads[i] == f);
                    }
                }
                assert(reads.push(file)[reads.len() as int] == file);
            }
        }
    }
}

proof fn lemma_blocks_read(t: TallyView, reads: Seq<Seq<char>>, blocks: Seq<ContentBlock>)
    requires
        has_read(t, reads),
    ensures
        has_read(t.after_blocks(blocks), reads + reads_of_blocks(blocks)),
    decreases blocks.len(),
{
    if blocks.len() == 0 {
        assert(reads + reads_of_blocks(blocks) =~= reads);
    } else {
        let rest = blocks.drop_last();
        lemma_blocks_read(t, reads, rest);
        lemma_block_reads(t.after_blocks(rest), reads + reads_of_blocks(rest), blocks.last());
        assert(reads + reads_of_blocks(rest) + reads_of_block(blocks.last()) =~= reads
            + reads_of_blocks(blocks));
    }
}

proof fn lemma_entries_read(entries: Seq<SessionEntry>)
    ensures
        has_read(TallyView::none().after_entries(entries), reads_of(entries)),
    decreases entries.len(),
{
    if entries.len() == 0 {
        assert(Seq::<Seq<char>>::empty().to_set() =~= Set::empty());
    } else {
        let rest = entries.drop_last();
        lemma_entries_read(rest);
        let t = TallyView::none().after_entries(rest);
        match entries.last() {
            SessionEntry::Assistant { message, meta, .. } => {
                lemma_blocks_read(t.after_turn(json_view(meta)), reads_of(rest), message.content@);
            },
            _ => {
                assert(reads_of(entries) =~= reads_of(rest));
            },
        }
    }
}

/// The duplicate reads are the reads less the different files that were read.
pub proof fn law_duplicate_reads(entries: Seq<SessionEntry>)
    ensures
        signals_of(entries).duplicate_reads == reads_of(entries).len() - reads_of(
            entries,
        ).to_set().len(),
{
    lemma_entries_read(entries);
}

/// An empty transcript gives no signals.
pub proof fn law_no_entries_no_signals()
    ensures
        ({
            let s = signals_of(Seq::empty());
            &&& s.user_turns == 0 && s.correction_turns == 0 && s.assistant_turns == 0
            &&& s.risky_command_hits.len() == 0 && s.credential_leaks == 0
            &&& s.total_tool_calls == 0 && s.duplicate_reads == 0 && s.code_edits == 0
            &&& s.test_file_edits == 0 && s.git_commits == 0
            &&& !s.bypass_permissions && !s.session_produced_output && !s.pr_created
        }),
{
}

/// Machine counters show the counts, up to the greatest that they can hold.
pub proof fn law_counters(s: SignalsView)
    ensures
        ({
            let c = s.capped();
            let most = usize::MAX as nat;
            &&& c.credential_leaks == if s.credential_leaks <= most {
                s.credential_leaks
            } else {
                most
            }
            &&& c.user_turns == if s.user_turns <= most {
                s.user_turns
            } else {
                most
            }
            &&& c.correction_turns == if s.correction_turns <= most {
                s.correction_turns
            } else {
                most
            }
            &&& c.assistant_turns == if s.assistant_turns <= most {
                s.assistant_turns
            } else {
                most
            }
            &&& c.test_file_edits == if s.test_file_edits <= most {
                s.test_file_edits
            } else {
                most
            }
            &&& c.git_commits == if s.git_commits <= most {
                s.git_commits
            } else {
                most
            }
            &&& c.code_edits == if s.code_edits <= most {
                s.code_edits
            } else {
                most
            }
            &&& c.total_tool_calls == if s.total_tool_calls <= most {
                s.total_tool_calls
            } else {
                most
            }
            &&& c.duplicate_reads == if s.duplicate_reads <= most {
                s.duplicate_reads
            } else {
                most
            }
            &&& c.risky_command_hits == s.risky_command_hits
            &&& c.bypass_permissions == s.bypass_permissions
            &&& c.session_produced_output == s.session_produced_output
            &&& c.pr_created == s.pr_created
        }),
{
}

/// The signals hold what their fields say.
pub proof fn law_signals_are_their_fields(s: Signals)
    ensures
        s@.risky_command_hits.len() == s.risky_command_hits@.len(),
        forall|i: int|
            0 <= i < s.risky_command_hits@.len() ==> #[trigger] s@.risky_command_hits[i]
                == s.risky_command_hits@[i]@,
        s@.credential_leaks == s.credential_leaks,
        s@.bypass_permissions == s.bypass_permissions,
        s@.user_turns == s.user_turns,
        s@.correction_turns == s.correction_turns,
        s@.assistant_turns == s.assistant_turns,
        s@.session_produced_output == s.session_produced_output,
        s@.test_file_edits == s.test_file_edits,
        s@.git_commits == s.git_commits,
        s@.pr_created == s.pr_created,
        s@.code_edits == s.code_edits,
        s@.total_tool_calls == s.total_tool_calls,
        s@.duplicate_reads == s.duplicate_reads,
{
}

} // verus!
