//! Building a session summary from the entries of a coding-agent JSONL log. Walking the
//! projects directory and reading the files is left to the caller.

use vstd::prelude::*;
use crate::json::{
    json_array_len, json_array_len_at, json_as_bool, json_as_string, json_as_u64, json_bool_at, json_item, json_member,
    json_parses, json_string_at, json_u64_at, item_at, member_at, parse_json, Json, JsonStep,
};
use crate::rank_sort::{key_view, rank_ordered, rank_sort};
use crate::strutil::{contains_exec, contains_seq, str_chars};
use crate::text_utils::{truncate, truncated};

verus! {

broadcast use vstd::string::group_string_axioms;

/// Lines read from a file in a quick scan, at most.
pub const QUICK_SCAN_MAX_LINES: usize = 50;

/// Length, in bytes, of the first-message preview.
pub const FIRST_MESSAGE_MAX_LEN: usize = 200;

#[derive(Debug)]
pub struct TokenUsage {
    pub input_tokens: u64,
    pub output_tokens: u64,
}

impl Default for TokenUsage {
    fn default() -> (r: Self)
        ensures
            r.input_tokens == 0 && r.output_tokens == 0,
    {
        TokenUsage { input_tokens: 0, output_tokens: 0 }
    }
}

#[derive(Debug)]
pub struct ScanResult {
    pub sessions: Vec<SessionInfo>,
    pub warnings: Vec<String>,
}

#[derive(Debug)]
pub struct SessionInfo {
    pub session_id: String,
    pub slug: Option<String>,
    pub cwd: Option<String>,
    pub project_dir: String,
    pub git_branch: Option<String>,
    pub model: Option<String>,
    pub version: Option<String>,
    pub first_message: Option<String>,
    pub message_count: u32,
    pub token_usage: TokenUsage,
    pub subagent_count: u16,
    pub last_active: String,
    pub source_file: String,
    pub is_complete: bool,
}

// ---------------------------------------------------------------------------
// A log entry, as plain values
// ---------------------------------------------------------------------------

/// One item of an array-valued message content.
#[derive(Debug, Clone)]
pub struct ContentBlock {
    /// Its `type` field, when that is a string.
    pub block_type: Option<String>,
    /// Its `text` field, when that is a string.
    pub text: Option<String>,
}

/// The `message.content` of an entry.
#[derive(Debug, Clone)]
pub enum MessageContent {
    Text(String),
    Blocks(Vec<ContentBlock>),
    Other,
}

/// What the builder reads from one JSONL entry; each field is `None` when absent or not of
/// the expected JSON type.
#[derive(Debug, Clone)]
pub struct LogEntry {
    /// `type`
    pub entry_type: Option<String>,
    /// `timestamp`
    pub timestamp: Option<String>,
    /// `slug`
    pub slug: Option<String>,
    /// `cwd`
    pub cwd: Option<String>,
    /// `gitBranch`
    pub git_branch: Option<String>,
    /// `version`
    pub version: Option<String>,
    /// `isMeta`
    pub is_meta: Option<bool>,
    /// `message.model`
    pub model: Option<String>,
    /// `message.usage.input_tokens`
    pub input_tokens: Option<u64>,
    /// `message.usage.output_tokens`
    pub output_tokens: Option<u64>,
    /// `message.content`
    pub content: MessageContent,
}

pub open spec fn ov(o: Option<String>) -> Option<Seq<char>> {
    match o {
        Some(s) => Some(s@),
        None => None,
    }
}

fn clone_opt(o: &Option<String>) -> (r: Option<String>)
    ensures
        ov(r) == ov(*o),
{
    match o {
        Some(s) => Some(s.as_str().to_owned()),
        None => None,
    }
}

// ---------------------------------------------------------------------------
// SessionBuilder
// ---------------------------------------------------------------------------

#[derive(Debug)]
pub struct SessionBuilder {
    pub session_id: String,
    pub slug: Option<String>,
    pub cwd: Option<String>,
    pub git_branch: Option<String>,
    pub model: Option<String>,
    pub version: Option<String>,
    pub first_message: Option<String>,
    pub message_count: u32,
    pub token_usage: TokenUsage,
    pub last_timestamp: Option<String>,
    pub found_first_message: bool,
}

/// "First wins": the value already held stays.
pub open spec fn first_wins(held: Option<Seq<char>>, seen: Option<Seq<char>>) -> Option<Seq<char>> {
    if held is Some { held } else { seen }
}

/// "Last wins": a newly seen value replaces the one held.
pub open spec fn last_wins(held: Option<Seq<char>>, seen: Option<Seq<char>>) -> Option<Seq<char>> {
    if seen is Some { seen } else { held }
}

/// The marker of a command invocation, whose message is no preview.
pub open spec fn command_marker() -> Seq<char> {
    "<command-message>"@
}

/// The index of the first content block of type `text` that has a text.
pub open spec fn first_text_block(blocks: Seq<ContentBlock>) -> Option<int> {
    if exists|i: int| 0 <= i < blocks.len() && #[trigger] is_text_block(blocks[i]) {
        Some(choose|i: int| 0 <= i < blocks.len() && #[trigger] is_text_block(blocks[i]) && forall|j: int| 0 <= j < i ==> !#[trigger] is_text_block(blocks[j]))
    } else {
        None
    }
}

/// A content block of type `text` with a text.
pub open spec fn is_text_block(b: ContentBlock) -> bool {
    ov(b.block_type) == Some("text"@) && b.text is Some
}

/// The text of the message content that a first-message preview is made of, if any: the
/// content itself when it is a string, or the text of its first text block.
pub open spec fn message_text(c: MessageContent) -> Option<Seq<char>> {
    match c {
        MessageContent::Text(s) => Some(s@),
        MessageContent::Blocks(blocks) => match first_text_block(blocks@) {
            Some(i) => Some(blocks@[i].text->0@),
            None => None,
        },
        MessageContent::Other => None,
    }
}

/// The preview taken from a message: its text cut to FIRST_MESSAGE_MAX_LEN bytes, unless it
/// is a command invocation.
pub open spec fn preview_of(c: MessageContent) -> Option<Seq<char>> {
    match message_text(c) {
        Some(t) => if contains_seq(t, command_marker()) { None } else { Some(truncated(t, FIRST_MESSAGE_MAX_LEN as nat)) },
        None => None,
    }
}

/// The entry's type, `""` when it has none.
pub open spec fn type_of(e: LogEntry) -> Seq<char> {
    match e.entry_type {
        Some(t) => t@,
        None => Seq::empty(),
    }
}

/// A user entry that counts as a message (not a meta entry).
pub open spec fn counts_user_message(e: LogEntry) -> bool {
    type_of(e) == "user"@ && !(match e.is_meta { Some(b) => b, None => false })
}

/// An assistant entry with a real model (not `<synthetic>`).
pub open spec fn counts_assistant_message(e: LogEntry) -> bool {
    type_of(e) == "assistant"@ && e.model is Some && e.model->0@ != "<synthetic>"@
}

/// A user or progress entry, which carries session metadata.
pub open spec fn carries_metadata(e: LogEntry) -> bool {
    type_of(e) == "user"@ || type_of(e) == "progress"@
}

/// Tokens added by an entry.
pub open spec fn tokens(o: Option<u64>) -> int {
    match o {
        Some(n) => n as int,
        None => 0,
    }
}

/// What a builder has gathered, as plain values.
pub struct BuilderState {
    pub slug: Option<Seq<char>>,
    pub cwd: Option<Seq<char>>,
    pub git_branch: Option<Seq<char>>,
    pub model: Option<Seq<char>>,
    pub version: Option<Seq<char>>,
    pub first_message: Option<Seq<char>>,
    pub message_count: int,
    pub input_tokens: int,
    pub output_tokens: int,
    pub last_timestamp: Option<Seq<char>>,
    pub found_first_message: bool,
}

impl View for SessionBuilder {
    type V = BuilderState;

    open spec fn view(&self) -> BuilderState {
        BuilderState {
            slug: ov(self.slug),
            cwd: ov(self.cwd),
            git_branch: ov(self.git_branch),
            model: ov(self.model),
            version: ov(self.version),
            first_message: ov(self.first_message),
            message_count: self.message_count as int,
            input_tokens: self.token_usage.input_tokens as int,
            output_tokens: self.token_usage.output_tokens as int,
            last_timestamp: ov(self.last_timestamp),
            found_first_message: self.found_first_message,
        }
    }
}

/// The builder holds something worth listing: a working directory, a slug or a first
/// message.
pub open spec fn meaningful(s: BuilderState) -> bool {
    s.cwd is Some || s.slug is Some || s.first_message is Some
}

/// Every field that a quick scan looks for is known.
pub open spec fn all_quick_fields(s: BuilderState) -> bool {
    s.cwd is Some && s.slug is Some && s.model is Some && s.version is Some && s.found_first_message
}

/// The state of a new builder: nothing gathered.
pub open spec fn empty_state() -> BuilderState {
    BuilderState {
        slug: None,
        cwd: None,
        git_branch: None,
        model: None,
        version: None,
        first_message: None,
        message_count: 0,
        input_tokens: 0,
        output_tokens: 0,
        last_timestamp: None,
        found_first_message: false,
    }
}

/// What one entry adds to what a builder has gathered. "First wins" for cwd, slug, model
/// and version (the earliest value stays); "last wins" for the git branch and the
/// timestamp. Meta user entries and `<synthetic>` assistant entries are no messages.
pub open spec fn step(o: BuilderState, e: LogEntry) -> BuilderState {
    let takes_first = counts_user_message(e) && !o.found_first_message && preview_of(e.content) is Some;
    BuilderState {
        slug: first_wins(o.slug, ov(e.slug)),
        cwd: if carries_metadata(e) { first_wins(o.cwd, ov(e.cwd)) } else { o.cwd },
        git_branch: if carries_metadata(e) { last_wins(o.git_branch, ov(e.git_branch)) } else { o.git_branch },
        model: if counts_assistant_message(e) { first_wins(o.model, ov(e.model)) } else { o.model },
        version: if carries_metadata(e) { first_wins(o.version, ov(e.version)) } else { o.version },
        first_message: if takes_first { preview_of(e.content) } else { o.first_message },
        message_count: o.message_count + if counts_user_message(e) || counts_assistant_message(e) { 1int } else { 0 },
        input_tokens: o.input_tokens + if type_of(e) == "assistant"@ { tokens(e.input_tokens) } else { 0 },
        output_tokens: o.output_tokens + if type_of(e) == "assistant"@ { tokens(e.output_tokens) } else { 0 },
        last_timestamp: last_wins(o.last_timestamp, ov(e.timestamp)),
        found_first_message: o.found_first_message || takes_first,
    }
}

impl SessionBuilder {
    pub fn new(session_id: String) -> (r: Self)
        ensures
            r.session_id@ == session_id@,
            r@ == empty_state(),
    {
        SessionBuilder {
            session_id,
            slug: None,
            cwd: None,
            git_branch: None,
            model: None,
            version: None,
            first_message: None,
            message_count: 0,
            token_usage: TokenUsage::default(),
            last_timestamp: None,
            found_first_message: false,
        }
    }

    /// Process a single JSONL entry, accumulating fields into the builder.
    ///
    /// Field update semantics:
    /// - "first wins": cwd, slug, model, version (keep earliest value)
    /// - "last wins": git_branch, last_timestamp (always update to latest)
    pub fn process_entry(&mut self, entry: &LogEntry)
        requires
            counts_user_message(*entry) || counts_assistant_message(*entry) ==> old(self).message_count < u32::MAX,
            type_of(*entry) == "assistant"@ ==> old(self).token_usage.input_tokens + tokens(entry.input_tokens) <= u64::MAX
                && old(self).token_usage.output_tokens + tokens(entry.output_tokens) <= u64::MAX,
        ensures
            final(self).session_id@ == old(self).session_id@,
            final(self)@ == step(old(self)@, *entry),
    {
        let user = "user";
        let progress = "progress";
        let assistant = "assistant";
        let entry_type: &str = match &entry.entry_type {
            Some(t) => t.as_str(),
            None => "",
        };
        proof {
            reveal_strlit("");
            reveal_strlit("user");
            reveal_strlit("progress");
            reveal_strlit("assistant");
        }
        assert(entry_type@ == type_of(*entry));
        // Extract timestamp from any entry that has one
        if let Some(ts) = &entry.timestamp {
            self.last_timestamp = Some(ts.as_str().to_owned());
        }
        // Extract slug from any entry that has it (appears on assistant + progress entries)
        if self.slug.is_none() {
            if let Some(slug) = &entry.slug {
                self.slug = Some(slug.as_str().to_owned());
            }
        }
        let is_user = str_eq(entry_type, user);
        let is_progress = str_eq(entry_type, progress);
        let is_assistant = str_eq(entry_type, assistant);
        if is_user || is_progress {
            // Common metadata from user/progress entries
            if self.cwd.is_none() {
                self.cwd = clone_opt(&entry.cwd);
            }
            // Always update: branch may change mid-session ("last wins")
            if let Some(branch) = &entry.git_branch {
                self.git_branch = Some(branch.as_str().to_owned());
            }
            if self.version.is_none() {
                self.version = clone_opt(&entry.version);
            }
            // User-specific: first message and message count
            if is_user {
                let is_meta = match entry.is_meta {
                    Some(b) => b,
                    None => false,
                };
                if !is_meta {
                    self.message_count += 1;
                    if !self.found_first_message {
                        self.try_extract_first_message(entry);
                    }
                }
            }
        } else if is_assistant {
            assert(entry_type@ == type_of(*entry));
            assert(type_of(*entry) == "assistant"@);
            if let Some(model) = &entry.model {
                if !str_eq(model.as_str(), "<synthetic>") {
                    if self.model.is_none() {
                        self.model = Some(model.as_str().to_owned());
                    }
                    self.message_count += 1;
                }
            }
            // Token usage
            if let Some(input) = entry.input_tokens {
                self.token_usage.input_tokens += input;
            }
            if let Some(output) = entry.output_tokens {
                self.token_usage.output_tokens += output;
            }
        }
        // queue-operation, system: only timestamp (already handled above)
        // file-history-snapshot, pr-link, unknown: skip
    }

    /// Take the first-message preview from a user entry's content.
    fn try_extract_first_message(&mut self, entry: &LogEntry)
        ensures
            final(self).session_id@ == old(self).session_id@,
            ov(final(self).slug) == ov(old(self).slug),
            ov(final(self).cwd) == ov(old(self).cwd),
            ov(final(self).git_branch) == ov(old(self).git_branch),
            ov(final(self).version) == ov(old(self).version),
            ov(final(self).model) == ov(old(self).model),
            ov(final(self).last_timestamp) == ov(old(self).last_timestamp),
            final(self).message_count == old(self).message_count,
            final(self).token_usage.input_tokens == old(self).token_usage.input_tokens,
            final(self).token_usage.output_tokens == old(self).token_usage.output_tokens,
            if preview_of(entry.content) is Some {
                &&& final(self).found_first_message
                &&& ov(final(self).first_message) == preview_of(entry.content)
            } else {
                &&& final(self).found_first_message == old(self).found_first_message
                &&& ov(final(self).first_message) == ov(old(self).first_message)
            },
    {
        let marker = str_chars("<command-message>");
        match &entry.content {
            MessageContent::Text(s) => {
                // Skip command-message invocations
                if contains_exec(&str_chars(s.as_str()), &marker) {
                    return;
                }
                self.first_message = Some(truncate(s.as_str(), FIRST_MESSAGE_MAX_LEN));
                self.found_first_message = true;
            },
            MessageContent::Blocks(arr) => {
                // Look for the first text-type item
                let mut i: usize = 0;
                while i < arr.len()
                    invariant
                        i <= arr@.len(),
                        marker@ == command_marker(),
                        entry.content == MessageContent::Blocks(*arr),
                        *self == *old(self),
                        forall|j: int| 0 <= j < i ==> !#[trigger] is_text_block(arr@[j]),
                    decreases arr@.len() - i,
                {
                    let is_text_type = match &arr[i].block_type {
                        Some(t) => str_eq(t.as_str(), "text"),
                        None => false,
                    };
                    if is_text_type {
                        if let Some(text) = &arr[i].text {
                            proof {
                                assert(is_text_block(arr@[i as int]));
                                let k = choose|k: int| 0 <= k < arr@.len() && #[trigger] is_text_block(arr@[k]) && forall|j: int| 0 <= j < k ==> !#[trigger] is_text_block(arr@[j]);
                                assert(0 <= i < arr@.len() && is_text_block(arr@[i as int]) && forall|j: int| 0 <= j < i ==> !#[trigger] is_text_block(arr@[j]));
                                if k < i {
                                    assert(!is_text_block(arr@[k]));
                                } else if k > i {
                                    assert(!is_text_block(arr@[i as int]));
                                }
                            }
                            if contains_exec(&str_chars(text.as_str()), &marker) {
                                return;
                            }
                            self.first_message = Some(truncate(text.as_str(), FIRST_MESSAGE_MAX_LEN));
                            self.found_first_message = true;
                            return;
                        }
                    }
                    i += 1;
                }
            },
            MessageContent::Other => {},
        }
    }

    pub fn has_meaningful_data(&self) -> (r: bool)
        ensures
            r == meaningful(self@),
    {
        self.cwd.is_some() || self.slug.is_some() || self.first_message.is_some()
    }

    pub fn has_all_quick_fields(&self) -> (r: bool)
        ensures
            r == all_quick_fields(self@),
    {
        self.cwd.is_some() && self.slug.is_some() && self.model.is_some() && self.version.is_some()
            && self.found_first_message
    }

    /// The session summary, the last timestamp seen standing for the last activity (the
    /// given fallback when no entry had one).
    pub fn build(self, project_dir: String, subagent_count: u16, fallback_timestamp: String, source_file: String, is_complete: bool) -> (r: SessionInfo)
        ensures
            r.session_id@ == self.session_id@,
            ov(r.slug) == ov(self.slug),
            ov(r.cwd) == ov(self.cwd),
            r.project_dir@ == project_dir@,
            ov(r.git_branch) == ov(self.git_branch),
            ov(r.model) == ov(self.model),
            ov(r.version) == ov(self.version),
            ov(r.first_message) == ov(self.first_message),
            r.message_count == self.message_count,
            r.token_usage.input_tokens == self.token_usage.input_tokens,
            r.token_usage.output_tokens == self.token_usage.output_tokens,
            r.subagent_count == subagent_count,
            r.last_active@ == match self.last_timestamp {
                Some(t) => t@,
                None => fallback_timestamp@,
            },
            r.source_file@ == source_file@,
            r.is_complete == is_complete,
    {
        SessionInfo {
            session_id: self.session_id,
            slug: self.slug,
            cwd: self.cwd,
            project_dir,
            git_branch: self.git_branch,
            model: self.model,
            version: self.version,
            first_message: self.first_message,
            message_count: self.message_count,
            token_usage: self.token_usage,
            subagent_count,
            last_active: match self.last_timestamp {
                Some(t) => t,
                None => fallback_timestamp,
            },
            source_file,
            is_complete,
        }
    }
}

/// Whether two texts are equal.
pub fn str_eq(a: &str, b: &str) -> (r: bool)
    ensures
        r == (a@ == b@),
{
    let x = str_chars(a);
    let y = str_chars(b);
    if x.len() != y.len() {
        return false;
    }
    let mut i: usize = 0;
    while i < x.len()
        invariant
            x@ == a@,
            y@ == b@,
            x@.len() == y@.len(),
            i <= x@.len(),
            forall|j: int| 0 <= j < i ==> x@[j] == y@[j],
        decreases x@.len() - i,
    {
        if x[i] != y[i] {
            assert(a@[i as int] != b@[i as int]);
            return false;
        }
        i += 1;
    }
    assert(a@ =~= b@);
    true
}

// ---------------------------------------------------------------------------
// Reading a log file, line by line
// ---------------------------------------------------------------------------

/// What a new builder has gathered after the entries `es`, in order.
pub open spec fn fold_entries(es: Seq<LogEntry>) -> BuilderState
    decreases es.len(),
{
    if es.len() == 0 { empty_state() } else { step(fold_entries(es.drop_last()), es.last()) }
}

/// The first value that is there, if any.
pub open spec fn first_seen(vals: Seq<Option<Seq<char>>>) -> Option<Seq<char>>
    decreases vals.len(),
{
    if vals.len() == 0 { None } else { first_wins(first_seen(vals.drop_last()), vals.last()) }
}

/// The last value that is there, if any.
pub open spec fn last_seen(vals: Seq<Option<Seq<char>>>) -> Option<Seq<char>>
    decreases vals.len(),
{
    if vals.len() == 0 { None } else { last_wins(last_seen(vals.drop_last()), vals.last()) }
}

/// How many of the entries are messages: user entries that are not meta, assistant
/// entries with a real model.
pub open spec fn message_entries(es: Seq<LogEntry>) -> int
    decreases es.len(),
{
    if es.len() == 0 {
        0
    } else {
        message_entries(es.drop_last()) + if counts_user_message(es.last()) || counts_assistant_message(es.last()) { 1int } else { 0 }
    }
}

/// The tokens of the assistant entries, input (`true`) or output.
pub open spec fn assistant_tokens(es: Seq<LogEntry>, input: bool) -> int
    decreases es.len(),
{
    if es.len() == 0 {
        0
    } else {
        assistant_tokens(es.drop_last(), input) + if type_of(es.last()) == "assistant"@ {
            tokens(if input { es.last().input_tokens } else { es.last().output_tokens })
        } else {
            0
        }
    }
}

pub open spec fn metadata_cwds(es: Seq<LogEntry>) -> Seq<Option<Seq<char>>> {
    es.map_values(|e: LogEntry| if carries_metadata(e) { ov(e.cwd) } else { None })
}

pub open spec fn metadata_branches(es: Seq<LogEntry>) -> Seq<Option<Seq<char>>> {
    es.map_values(|e: LogEntry| if carries_metadata(e) { ov(e.git_branch) } else { None })
}

pub open spec fn metadata_versions(es: Seq<LogEntry>) -> Seq<Option<Seq<char>>> {
    es.map_values(|e: LogEntry| if carries_metadata(e) { ov(e.version) } else { None })
}

pub open spec fn entry_slugs(es: Seq<LogEntry>) -> Seq<Option<Seq<char>>> {
    es.map_values(|e: LogEntry| ov(e.slug))
}

pub open spec fn real_models(es: Seq<LogEntry>) -> Seq<Option<Seq<char>>> {
    es.map_values(|e: LogEntry| if counts_assistant_message(e) { ov(e.model) } else { None })
}

pub open spec fn entry_timestamps(es: Seq<LogEntry>) -> Seq<Option<Seq<char>>> {
    es.map_values(|e: LogEntry| ov(e.timestamp))
}

/// Law: after any entries, in order, a new builder holds the first working directory and
/// version of a user or progress entry, the first slug of any entry, the first model of a
/// real assistant entry; the last git branch of a user or progress entry and the last
/// timestamp; the number of messages (user entries that are not meta, assistant entries
/// with a real model); and the sums of the assistant entries' tokens.
pub proof fn lemma_fold_entries(es: Seq<LogEntry>)
    ensures
        fold_entries(es).cwd == first_seen(metadata_cwds(es)),
        fold_entries(es).version == first_seen(metadata_versions(es)),
        fold_entries(es).slug == first_seen(entry_slugs(es)),
        fold_entries(es).model == first_seen(real_models(es)),
        fold_entries(es).git_branch == last_seen(metadata_branches(es)),
        fold_entries(es).last_timestamp == last_seen(entry_timestamps(es)),
        fold_entries(es).message_count == message_entries(es),
        fold_entries(es).input_tokens == assistant_tokens(es, true),
        fold_entries(es).output_tokens == assistant_tokens(es, false),
    decreases es.len(),
{
    if es.len() > 0 {
        let init = es.drop_last();
        lemma_fold_entries(init);
        assert(metadata_cwds(es).drop_last() =~= metadata_cwds(init));
        assert(metadata_versions(es).drop_last() =~= metadata_versions(init));
        assert(entry_slugs(es).drop_last() =~= entry_slugs(init));
        assert(real_models(es).drop_last() =~= real_models(init));
        assert(metadata_branches(es).drop_last() =~= metadata_branches(init));
        assert(entry_timestamps(es).drop_last() =~= entry_timestamps(init));
    } else {
        assert(metadata_cwds(es) =~= Seq::<Option<Seq<char>>>::empty());
        assert(metadata_versions(es) =~= Seq::<Option<Seq<char>>>::empty());
        assert(entry_slugs(es) =~= Seq::<Option<Seq<char>>>::empty());
        assert(real_models(es) =~= Seq::<Option<Seq<char>>>::empty());
        assert(metadata_branches(es) =~= Seq::<Option<Seq<char>>>::empty());
        assert(entry_timestamps(es) =~= Seq::<Option<Seq<char>>>::empty());
    }
}

/// Where reading stops: in a quick scan, at line QUICK_SCAN_MAX_LINES, or once every quick
/// field is known; a full scan reads every line.
pub open spec fn scan_stops(s: BuilderState, quick: bool, line_index: int) -> bool {
    quick && (line_index >= QUICK_SCAN_MAX_LINES || all_quick_fields(s))
}

/// A quick scan stops after QUICK_SCAN_MAX_LINES lines, or once every quick field is known.
pub fn quick_scan_done(quick: bool, line_index: usize, builder: &SessionBuilder) -> (r: bool)
    ensures
        r == scan_stops(builder@, quick, line_index as int),
{
    quick && (line_index >= QUICK_SCAN_MAX_LINES || builder.has_all_quick_fields())
}

/// What a line of a session log holds.
#[derive(Debug)]
pub enum LogLine {
    /// An empty line, or a file-history snapshot (skipped without parsing).
    Skipped,
    /// A JSON value, with what the builder reads from it.
    Entry(LogEntry),
    /// Text that is not JSON.
    Malformed,
}

/// The string that member `key` of the value at `p` is, if any.
pub open spec fn string_member(p: (Seq<char>, Seq<JsonStep>), key: Seq<char>) -> Option<Seq<char>> {
    json_string_at(member_at(p, key))
}

fn member_string(v: &Json, key: &str) -> (r: Option<String>)
    ensures
        ov(r) == string_member(v@, key@),
{
    json_as_string(&json_member(v, key))
}

/// `e` is what the session builder reads from the JSON entry at `p`: the strings `type`,
/// `timestamp`, `slug`, `cwd`, `gitBranch`, `version` and `message.model`, the boolean
/// `isMeta`, the numbers `message.usage.input_tokens` and `output_tokens`, and
/// `message.content`: a string, an array (the strings `type` and `text` of each item), or
/// anything else.
pub open spec fn log_entry_at(p: (Seq<char>, Seq<JsonStep>), e: LogEntry) -> bool {
    let message = member_at(p, "message"@);
    let usage = member_at(message, "usage"@);
    let c = member_at(message, "content"@);
    &&& ov(e.entry_type) == string_member(p, "type"@)
    &&& ov(e.timestamp) == string_member(p, "timestamp"@)
    &&& ov(e.slug) == string_member(p, "slug"@)
    &&& ov(e.cwd) == string_member(p, "cwd"@)
    &&& ov(e.git_branch) == string_member(p, "gitBranch"@)
    &&& ov(e.version) == string_member(p, "version"@)
    &&& e.is_meta == json_bool_at(member_at(p, "isMeta"@))
    &&& ov(e.model) == string_member(message, "model"@)
    &&& e.input_tokens == json_u64_at(member_at(usage, "input_tokens"@))
    &&& e.output_tokens == json_u64_at(member_at(usage, "output_tokens"@))
    &&& match e.content {
        MessageContent::Text(s) => json_string_at(c) == Some(s@),
        MessageContent::Blocks(b) => {
            &&& json_string_at(c) is None
            &&& json_array_len_at(c) == Some(b@.len())
            &&& forall|i: int| 0 <= i < b@.len() ==> {
                &&& ov((#[trigger] b@[i]).block_type) == string_member(item_at(c, i), "type"@)
                &&& ov(b@[i].text) == string_member(item_at(c, i), "text"@)
            }
        },
        MessageContent::Other => json_string_at(c) is None && json_array_len_at(c) is None,
    }
}

/// What the session builder reads from a JSON entry.
fn log_entry_of(entry: &Json) -> (r: LogEntry)
    ensures
        log_entry_at(entry@, r),
{
    let message = json_member(entry, "message");
    let usage = json_member(&message, "usage");
    let content_value = json_member(&message, "content");
    let content = match json_as_string(&content_value) {
        Some(s) => MessageContent::Text(s),
        None => match json_array_len(&content_value) {
            Some(n) => {
                let mut blocks: Vec<ContentBlock> = Vec::new();
                let mut i: usize = 0;
                while i < n
                    invariant
                        i <= n,
                        blocks@.len() == i,
                        content_value@ == member_at(member_at(entry@, "message"@), "content"@),
                        forall|j: int| 0 <= j < i ==> {
                            &&& ov((#[trigger] blocks@[j]).block_type) == string_member(item_at(content_value@, j), "type"@)
                            &&& ov(blocks@[j].text) == string_member(item_at(content_value@, j), "text"@)
                        },
                    decreases n - i,
                {
                    let item = json_item(&content_value, i);
                    blocks.push(ContentBlock { block_type: member_string(&item, "type"), text: member_string(&item, "text") });
                    i += 1;
                }
                MessageContent::Blocks(blocks)
            },
            None => MessageContent::Other,
        },
    };
    LogEntry {
        entry_type: member_string(entry, "type"),
        timestamp: member_string(entry, "timestamp"),
        slug: member_string(entry, "slug"),
        cwd: member_string(entry, "cwd"),
        git_branch: member_string(entry, "gitBranch"),
        version: member_string(entry, "version"),
        is_meta: json_as_bool(&json_member(entry, "isMeta")),
        model: member_string(&message, "model"),
        input_tokens: json_as_u64(&json_member(&usage, "input_tokens")),
        output_tokens: json_as_u64(&json_member(&usage, "output_tokens")),
        content,
    }
}

/// How a line's text is classified: empty lines and file-history snapshots are skipped;
/// other lines are JSON entries or malformed.
pub open spec fn line_read_as(text: Seq<char>, l: LogLine) -> bool {
    match l {
        LogLine::Skipped => text.len() == 0 || contains_seq(text, "\"file-history-snapshot\""@),
        LogLine::Entry(e) => text.len() > 0 && !contains_seq(text, "\"file-history-snapshot\""@) && json_parses(text)
            && log_entry_at((text, Seq::empty()), e),
        LogLine::Malformed => text.len() > 0 && !contains_seq(text, "\"file-history-snapshot\""@) && !json_parses(text),
    }
}

/// Read one line of a session log: empty lines and file-history snapshots (recognised
/// without parsing) are skipped; other lines are JSON entries or malformed.
pub fn read_log_line(line: &str) -> (r: LogLine)
    ensures
        line_read_as(line@, r),
{
    let chars = str_chars(line);
    if chars.len() == 0 {
        return LogLine::Skipped;
    }
    // Cheap pre-filter: skip file-history-snapshot lines without parsing
    if contains_exec(&chars, &str_chars("\"file-history-snapshot\"")) {
        return LogLine::Skipped;
    }
    match parse_json(line) {
        Some(v) => LogLine::Entry(log_entry_of(&v)),
        None => LogLine::Malformed,
    }
}

/// The order in which sessions are listed: most recent activity first (equal timestamps in
/// scan order).
pub fn session_order(last_active: &Vec<String>) -> (r: Vec<usize>)
    ensures
        ({
            let keys = Seq::new(last_active@.len(), |i: int| (0u32, last_active@[i]@));
            &&& r@.to_multiset() == Seq::new(last_active@.len(), |i: int| i as usize).to_multiset()
            &&& rank_ordered(keys, r@, false)
        }),
{
    let mut keys: Vec<(u32, Vec<char>)> = Vec::new();
    let mut all: Vec<usize> = Vec::new();
    let mut i: usize = 0;
    while i < last_active.len()
        invariant
            i <= last_active@.len(),
            keys@.len() == i,
            all@ == Seq::new(i as nat, |k: int| k as usize),
            forall|k: int| 0 <= k < i ==> key_view(#[trigger] keys@[k]) == (0u32, last_active@[k]@),
        decreases last_active@.len() - i,
    {
        keys.push((0u32, str_chars(last_active[i].as_str())));
        all.push(i);
        i += 1;
        assert(all@ =~= Seq::new(i as nat, |k: int| k as usize));
    }
    let r = rank_sort(&keys, &all, false);
    assert(keys@.map_values(|k: (u32, Vec<char>)| key_view(k)) =~= Seq::new(last_active@.len(), |i: int| (0u32, last_active@[i]@)));
    r
}

/// The name of the log directory of a project: its working directory with `/` and `.`
/// made `-`.
pub open spec fn project_dir_name_of(cwd: Seq<char>) -> Seq<char> {
    Seq::new(cwd.len(), |i: int| if cwd[i] == '/' || cwd[i] == '.' { '-' } else { cwd[i] })
}

/// Law: the log directory name has one character for each character of the working
/// directory: `-` for each `/` and `.`, and every other character kept as it is; so no
/// `/` or `.` is left, and a name already free of them is its own log directory name.
pub proof fn lemma_project_dir_name_chars(cwd: Seq<char>)
    ensures
        project_dir_name_of(cwd).len() == cwd.len(),
        forall|i: int| 0 <= i < cwd.len() && cwd[i] != '/' && cwd[i] != '.' ==> #[trigger] project_dir_name_of(cwd)[i] == cwd[i],
        forall|i: int| 0 <= i < cwd.len() && (cwd[i] == '/' || cwd[i] == '.') ==> #[trigger] project_dir_name_of(cwd)[i] == '-',
        forall|i: int| 0 <= i < cwd.len() ==> #[trigger] project_dir_name_of(cwd)[i] != '/' && project_dir_name_of(cwd)[i] != '.',
        (forall|i: int| 0 <= i < cwd.len() ==> #[trigger] cwd[i] != '/' && cwd[i] != '.') ==> project_dir_name_of(cwd) == cwd,
{
    if forall|i: int| 0 <= i < cwd.len() ==> #[trigger] cwd[i] != '/' && cwd[i] != '.' {
        assert(project_dir_name_of(cwd) =~= cwd);
    }
}

pub fn project_dir_name(cwd: &str) -> (r: String)
    ensures
        r@ == project_dir_name_of(cwd@),
        r@.len() == cwd@.len(),
        forall|i: int| 0 <= i < cwd@.len() && cwd@[i] != '/' && cwd@[i] != '.' ==> #[trigger] r@[i] == cwd@[i],
        forall|i: int| 0 <= i < cwd@.len() && (cwd@[i] == '/' || cwd@[i] == '.') ==> #[trigger] r@[i] == '-',
{
    proof {
        lemma_project_dir_name_chars(cwd@);
    }
    let chars = str_chars(cwd);
    let mut out: Vec<char> = Vec::new();
    let mut i: usize = 0;
    while i < chars.len()
        invariant
            i <= chars@.len(),
            chars@ == cwd@,
            out@ == project_dir_name_of(cwd@).take(i as int),
        decreases chars@.len() - i,
    {
        let c = chars[i];
        out.push(if c == '/' || c == '.' { '-' } else { c });
        i += 1;
        assert(out@ =~= project_dir_name_of(cwd@).take(i as int));
    }
    assert(project_dir_name_of(cwd@).take(i as int) =~= project_dir_name_of(cwd@));
    crate::strutil::string_from_chars(out.as_slice())
}

/// The log `(stem, modified)` may be the new session's: it was not there before the launch
/// (when what was there is known).
pub open spec fn eligible_log(entry: (String, u128), before: Option<Seq<Seq<char>>>) -> bool {
    match before {
        Some(b) => !b.contains(entry.0@),
        None => true,
    }
}

/// `k` is the newest eligible log, the first listed among equally new ones.
pub open spec fn newest_log(entries: Seq<(String, u128)>, before: Option<Seq<Seq<char>>>, k: int) -> bool {
    &&& 0 <= k < entries.len()
    &&& eligible_log(entries[k], before)
    &&& forall|j: int| 0 <= j < entries.len() && eligible_log(#[trigger] entries[j], before) ==> entries[j].1 <= entries[k].1
    &&& forall|j: int| 0 <= j < k && eligible_log(#[trigger] entries[j], before) ==> entries[j].1 < entries[k].1
}

pub open spec fn opt_stems(v: Option<&Vec<String>>) -> Option<Seq<Seq<char>>> {
    match v {
        Some(x) => Some(x@.map_values(|s: String| s@)),
        None => None,
    }
}

fn listed(names: &Vec<String>, name: &str) -> (r: bool)
    ensures
        r == names@.map_values(|s: String| s@).contains(name@),
{
    let mut i: usize = 0;
    while i < names.len()
        invariant
            i <= names@.len(),
            forall|j: int| 0 <= j < i ==> names@[j]@ != name@,
        decreases names@.len() - i,
    {
        if str_eq(names[i].as_str(), name) {
            assert(names@.map_values(|s: String| s@)[i as int] == name@);
            return true;
        }
        i += 1;
    }
    proof {
        let views = names@.map_values(|s: String| s@);
        if views.contains(name@) {
            let j = choose|j: int| 0 <= j < views.len() && #[trigger] views[j] == name@;
            assert(names@[j]@ == name@);
        }
    }
    false
}

/// The log of a session just launched: among the logs of its project, given as `(file
/// stem, modification time)`, the newest one that was not there before the launch (any,
/// when that is not known); the first listed among equally new ones.
pub fn pick_new_log(entries: &Vec<(String, u128)>, before: Option<&Vec<String>>) -> (r: Option<String>)
    ensures
        match r {
            Some(stem) => exists|k: int| newest_log(entries@, opt_stems(before), k) && entries@[k].0@ == stem@,
            None => forall|j: int| 0 <= j < entries@.len() ==> !eligible_log(#[trigger] entries@[j], opt_stems(before)),
        },
{
    let mut best: Option<usize> = None;
    let mut i: usize = 0;
    while i < entries.len()
        invariant
            i <= entries@.len(),
            match best {
                Some(k) => k < i && eligible_log(entries@[k as int], opt_stems(before))
                    && (forall|j: int| 0 <= j < i && eligible_log(#[trigger] entries@[j], opt_stems(before)) ==> entries@[j].1 <= entries@[k as int].1)
                    && (forall|j: int| 0 <= j < k && eligible_log(#[trigger] entries@[j], opt_stems(before)) ==> entries@[j].1 < entries@[k as int].1),
                None => forall|j: int| 0 <= j < i ==> !eligible_log(#[trigger] entries@[j], opt_stems(before)),
            },
        decreases entries@.len() - i,
    {
        let ok = match before {
            Some(b) => !listed(b, entries[i].0.as_str()),
            None => true,
        };
        if ok {
            match best {
                Some(k) => {
                    if entries[i].1 > entries[k].1 {
                        best = Some(i);
                    }
                },
                None => {
                    best = Some(i);
                },
            }
        }
        i += 1;
    }
    match best {
        Some(k) => {
            let stem = entries[k].0.clone();
            assert(newest_log(entries@, opt_stems(before), k as int));
            Some(stem)
        },
        None => None,
    }
}

// ---------------------------------------------------------------------------
// Reading a whole log
// ---------------------------------------------------------------------------

/// What a line adds to what a builder has gathered: an entry is processed, other lines add
/// nothing.
pub open spec fn line_step(s: BuilderState, l: LogLine) -> BuilderState {
    match l {
        LogLine::Entry(e) => step(s, e),
        _ => s,
    }
}

/// What the builder has gathered after reading `lines` from index `i` on, starting from
/// `s`, up to where the scan stops.
pub open spec fn scan_from(s: BuilderState, lines: Seq<LogLine>, quick: bool, i: int) -> BuilderState
    decreases lines.len() - i,
{
    if i < 0 || i >= lines.len() || scan_stops(s, quick, i) {
        s
    } else {
        scan_from(line_step(s, lines[i]), lines, quick, i + 1)
    }
}

/// The index of the first malformed line read from index `i` on, starting from `s`.
pub open spec fn first_malformed_from(s: BuilderState, lines: Seq<LogLine>, quick: bool, i: int) -> Option<int>
    decreases lines.len() - i,
{
    if i < 0 || i >= lines.len() || scan_stops(s, quick, i) {
        None
    } else if lines[i] is Malformed {
        Some(i)
    } else {
        first_malformed_from(line_step(s, lines[i]), lines, quick, i + 1)
    }
}

/// The message count and the token totals fit the builder's counters.
pub open spec fn fits(s: BuilderState) -> bool {
    s.message_count <= u32::MAX && s.input_tokens <= u64::MAX && s.output_tokens <= u64::MAX
}

pub open spec fn opt_index(o: Option<usize>) -> Option<int> {
    match o {
        Some(k) => Some(k as int),
        None => None,
    }
}

/// What reading a log gives: the session gathered from its lines when it holds meaningful
/// data, and the index of the first malformed line read.
#[derive(Debug)]
pub struct LogReading {
    pub builder: Option<SessionBuilder>,
    pub first_malformed: Option<usize>,
}

/// `r` is what reading the lines `lines` of the log of session `session_id` gives: nothing
/// when a counter would overflow; else the session when it holds meaningful data, and the
/// first malformed line.
pub open spec fn reading_of(session_id: Seq<char>, lines: Seq<LogLine>, quick: bool, r: Option<LogReading>) -> bool {
    let fin = scan_from(empty_state(), lines, quick, 0);
    match r {
        None => !fits(fin),
        Some(rd) => {
            &&& fits(fin)
            &&& opt_index(rd.first_malformed) == first_malformed_from(empty_state(), lines, quick, 0)
            &&& match rd.builder {
                Some(b) => b.session_id@ == session_id && b@ == fin && meaningful(fin),
                None => !meaningful(fin),
            }
        },
    }
}

/// Reading on never makes the counters smaller.
proof fn lemma_scan_grows(s: BuilderState, lines: Seq<LogLine>, quick: bool, i: int)
    ensures
        scan_from(s, lines, quick, i).message_count >= s.message_count,
        scan_from(s, lines, quick, i).input_tokens >= s.input_tokens,
        scan_from(s, lines, quick, i).output_tokens >= s.output_tokens,
    decreases lines.len() - i,
{
    if i < 0 || i >= lines.len() || scan_stops(s, quick, i) {
    } else {
        lemma_scan_grows(line_step(s, lines[i]), lines, quick, i + 1);
    }
}

/// Whether an entry counts as a message, and the input and output tokens that it adds.
fn entry_increments(e: &LogEntry) -> (r: (bool, u64, u64))
    ensures
        r.0 == (counts_user_message(*e) || counts_assistant_message(*e)),
        r.1 == (if type_of(*e) == "assistant"@ { tokens(e.input_tokens) } else { 0 }),
        r.2 == (if type_of(*e) == "assistant"@ { tokens(e.output_tokens) } else { 0 }),
{
    let entry_type: &str = match &e.entry_type {
        Some(t) => t.as_str(),
        None => "",
    };
    proof {
        reveal_strlit("");
        reveal_strlit("user");
        reveal_strlit("assistant");
    }
    assert(entry_type@ == type_of(*e));
    let is_user = str_eq(entry_type, "user");
    let is_assistant = str_eq(entry_type, "assistant");
    let is_meta = match e.is_meta {
        Some(b) => b,
        None => false,
    };
    let real_model = match &e.model {
        Some(m) => !str_eq(m.as_str(), "<synthetic>"),
        None => false,
    };
    let input = if is_assistant {
        match e.input_tokens {
            Some(n) => n,
            None => 0,
        }
    } else {
        0
    };
    let output = if is_assistant {
        match e.output_tokens {
            Some(n) => n,
            None => 0,
        }
    } else {
        0
    };
    ((is_user && !is_meta) || (is_assistant && real_model), input, output)
}

/// Read the classified lines of the log of session `session_id`, in order: entries are
/// processed, the first malformed line is noted, and a quick scan stops early (see
/// `scan_stops`). Nothing comes back when the message count or a token total would
/// overflow.
pub fn read_session_entries(session_id: String, lines: &Vec<LogLine>, quick: bool) -> (r: Option<LogReading>)
    ensures
        reading_of(session_id@, lines@, quick, r),
{
    let ghost sid = session_id@;
    let ghost total = scan_from(empty_state(), lines@, quick, 0);
    let ghost malformed = first_malformed_from(empty_state(), lines@, quick, 0);
    let mut builder = SessionBuilder::new(session_id);
    let mut first_malformed: Option<usize> = None;
    let mut i: usize = 0;
    while i < lines.len()
        invariant
            i <= lines@.len(),
            builder.session_id@ == sid,
            total == scan_from(empty_state(), lines@, quick, 0),
            malformed == first_malformed_from(empty_state(), lines@, quick, 0),
            total == scan_from(builder@, lines@, quick, i as int),
            malformed == match first_malformed {
                Some(k) => Some(k as int),
                None => first_malformed_from(builder@, lines@, quick, i as int),
            },
        ensures
            builder.session_id@ == sid,
            total == scan_from(builder@, lines@, quick, i as int),
            malformed == match first_malformed {
                Some(k) => Some(k as int),
                None => first_malformed_from(builder@, lines@, quick, i as int),
            },
            i >= lines@.len() || scan_stops(builder@, quick, i as int),
        decreases lines@.len() - i,
    {
        if quick_scan_done(quick, i, &builder) {
            break;
        }
        match &lines[i] {
            LogLine::Entry(e) => {
                let (counts, input, output) = entry_increments(e);
                if (counts && builder.message_count == u32::MAX) || builder.token_usage.input_tokens > u64::MAX - input
                    || builder.token_usage.output_tokens > u64::MAX - output {
                    proof {
                        lemma_scan_grows(step(builder@, *e), lines@, quick, i + 1);
                    }
                    return None;
                }
                builder.process_entry(e);
            },
            LogLine::Malformed => {
                if first_malformed.is_none() {
                    first_malformed = Some(i);
                }
            },
            LogLine::Skipped => {},
        }
        i += 1;
    }
    let reading = if builder.has_meaningful_data() {
        LogReading { builder: Some(builder), first_malformed }
    } else {
        LogReading { builder: None, first_malformed }
    };
    Some(reading)
}

/// Read the lines of the log of session `session_id` (see `read_log_line` and
/// `read_session_entries`). The caller hands over the lines that it read: in a quick scan,
/// at least the first QUICK_SCAN_MAX_LINES (the scan reads no further).
pub fn read_session_lines(session_id: String, lines: &Vec<String>, quick: bool) -> (r: Option<LogReading>)
    ensures
        exists|ls: Seq<LogLine>| {
            &&& ls.len() == lines@.len()
            &&& forall|i: int| 0 <= i < ls.len() ==> line_read_as(lines@[i]@, #[trigger] ls[i])
            &&& reading_of(session_id@, ls, quick, r)
        },
{
    let mut classified: Vec<LogLine> = Vec::new();
    let mut i: usize = 0;
    while i < lines.len()
        invariant
            i <= lines@.len(),
            classified@.len() == i,
            forall|j: int| 0 <= j < i ==> line_read_as(lines@[j]@, #[trigger] classified@[j]),
        decreases lines@.len() - i,
    {
        classified.push(read_log_line(lines[i].as_str()));
        i += 1;
    }
    read_session_entries(session_id, &classified, quick)
}

// ---------------------------------------------------------------------------
// Subagent logs
// ---------------------------------------------------------------------------

/// What `Path::extension` gives for a path, as text.
pub uninterp spec fn path_extension(p: Seq<char>) -> Option<Seq<char>>;

/// std's `Path::extension` on a path given as text; the result is named `path_extension`.
#[verifier::external_body]
fn std_path_extension(p: &str) -> (r: Option<String>)
    ensures
        ov(r) == path_extension(p@),
{
    match std::path::Path::new(p).extension() {
        Some(x) => Some(x.to_string_lossy().into_owned()),
        None => None,
    }
}

/// The number of names with the extension `jsonl`.
pub open spec fn jsonl_count(names: Seq<String>) -> nat
    decreases names.len(),
{
    if names.len() == 0 {
        0
    } else {
        jsonl_count(names.drop_last()) + if path_extension(names.last()@) == Some("jsonl"@) { 1nat } else { 0 }
    }
}

/// How many subagent logs a session has, from the names of the files in its `subagents`
/// directory: those with the extension `jsonl`, at most u16::MAX.
pub fn count_jsonl(names: &Vec<String>) -> (r: u16)
    ensures
        r == if jsonl_count(names@) <= u16::MAX { jsonl_count(names@) } else { u16::MAX as nat },
{
    let mut count: usize = 0;
    let mut i: usize = 0;
    while i < names.len()
        invariant
            i <= names@.len(),
            count == jsonl_count(names@.take(i as int)),
            count <= i,
        decreases names@.len() - i,
    {
        let ext = std_path_extension(names[i].as_str());
        let is_jsonl = match &ext {
            Some(x) => str_eq(x.as_str(), "jsonl"),
            None => false,
        };
        assert(names@.take(i + 1).drop_last() =~= names@.take(i as int));
        if is_jsonl {
            count += 1;
        }
        i += 1;
    }
    assert(names@.take(i as int) =~= names@);
    if count > 65535 {
        u16::MAX
    } else {
        count as u16
    }
}

} // verus!
