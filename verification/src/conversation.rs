//! Reading the conversation of a coding-agent JSONL session log: which lines are turns,
//! and the text of a turn. Reading the file is left to the caller.

use vstd::prelude::*;
use crate::json::{
    json_array_len, json_array_len_at, json_as_string, json_get, json_has_member, json_item, json_parses, json_string_at,
    item_at, member_at, parse_json, Json, JsonStep,
};
use crate::scanner::str_eq;
use crate::strutil::{push_char, push_str, str_chars};
use crate::time_utils::{trim_chars, trimmed};
use crate::types::{ConversationTurn, Role};

verus! {

broadcast use vstd::string::group_string_axioms;

/// A content value: a string, an array of blocks (each with its `text`, when that is a
/// string), or anything else.
#[derive(Debug, Clone)]
pub enum ContentValue {
    Text(String),
    Blocks(Vec<Option<String>>),
    Other,
}

/// Texts joined with newlines between them.
pub open spec fn joined(parts: Seq<Seq<char>>) -> Seq<char>
    decreases parts.len(),
{
    if parts.len() == 0 {
        Seq::empty()
    } else if parts.len() == 1 {
        parts[0]
    } else {
        joined(parts.drop_last()) + seq!['\n'] + parts.last()
    }
}

/// The texts of the blocks that have one, in order.
pub open spec fn block_texts(blocks: Seq<Option<String>>) -> Seq<Seq<char>>
    decreases blocks.len(),
{
    if blocks.len() == 0 {
        Seq::empty()
    } else {
        match blocks.last() {
            Some(t) => block_texts(blocks.drop_last()).push(t@),
            None => block_texts(blocks.drop_last()),
        }
    }
}

/// The plain text of a content value: the string itself, or the texts of the blocks joined
/// with newlines; empty for anything else.
pub open spec fn content_text(c: ContentValue) -> Seq<char> {
    match c {
        ContentValue::Text(s) => s@,
        ContentValue::Blocks(b) => joined(block_texts(b@)),
        ContentValue::Other => Seq::empty(),
    }
}

/// Convert a content value (string or array of blocks) to a plain string.
pub fn content_to_string(content: &ContentValue) -> (r: String)
    ensures
        r@ == content_text(*content),
{
    match content {
        ContentValue::Text(s) => s.as_str().to_owned(),
        ContentValue::Blocks(blocks) => {
            let mut out = String::new();
            let mut count: usize = 0;
            let mut i: usize = 0;
            while i < blocks.len()
                invariant
                    i <= blocks@.len(),
                    count == block_texts(blocks@.take(i as int)).len(),
                    count <= i,
                    out@ == joined(block_texts(blocks@.take(i as int))),
                decreases blocks@.len() - i,
            {
                assert(blocks@.take(i + 1).drop_last() =~= blocks@.take(i as int));
                assert(blocks@.take(i + 1).last() == blocks@[i as int]);
                if let Some(text) = &blocks[i] {
                    let ghost parts = block_texts(blocks@.take(i as int));
                    if count > 0 {
                        push_char(&mut out, '\n');
                    }
                    push_str(&mut out, text.as_str());
                    proof {
                        let p2 = parts.push(text@);
                        assert(p2.drop_last() =~= parts);
                        if count == 0 {
                            assert(p2 =~= seq![text@]);
                        }
                    }
                    count += 1;
                }
                i += 1;
            }
            assert(blocks@.take(i as int) =~= blocks@);
            out
        },
        ContentValue::Other => String::new(),
    }
}

/// The role of an entry type: `human` and `assistant` entries are turns.
pub open spec fn role_of(entry_type: Seq<char>) -> Option<Role> {
    if entry_type == "human"@ {
        Some(Role::Human)
    } else if entry_type == "assistant"@ {
        Some(Role::Assistant)
    } else {
        None
    }
}

pub open spec fn turn_view(t: ConversationTurn) -> (Role, Seq<char>) {
    (t.role, t.content@)
}

pub open spec fn opt_turn_view(t: Option<ConversationTurn>) -> Option<(Role, Seq<char>)> {
    match t {
        Some(x) => Some(turn_view(x)),
        None => None,
    }
}

/// The turn an entry makes: none for other entry types or an empty text.
pub open spec fn turn_for(entry_type: Option<Seq<char>>, content: ContentValue) -> Option<(Role, Seq<char>)> {
    match role_of(match entry_type { Some(t) => t, None => Seq::empty() }) {
        Some(role) => if content_text(content).len() == 0 { None } else { Some((role, content_text(content))) },
        None => None,
    }
}

pub open spec fn opt_view(o: Option<&str>) -> Option<Seq<char>> {
    match o {
        Some(s) => Some(s@),
        None => None,
    }
}

/// The conversation turn of an entry with the given type and content.
pub fn turn_of(entry_type: Option<&str>, content: &ContentValue) -> (r: Option<ConversationTurn>)
    ensures
        opt_turn_view(r) == turn_for(opt_view(entry_type), *content),
{
    proof {
        reveal_strlit("human");
        reveal_strlit("assistant");
        reveal_strlit("");
    }
    let t: &str = match entry_type {
        Some(t) => t,
        None => "",
    };
    let role = if str_eq(t, "human") {
        Role::Human
    } else if str_eq(t, "assistant") {
        Role::Assistant
    } else {
        return None;
    };
    assert(t@ == match opt_view(entry_type) { Some(x) => x, None => Seq::<char>::empty() });
    let text = content_to_string(content);
    if str_chars(text.as_str()).len() == 0 {
        return None;
    }
    Some(ConversationTurn { role, content: text })
}

pub open spec fn turn_views(v: Seq<ConversationTurn>) -> Seq<(Role, Seq<char>)> {
    v.map_values(|t: ConversationTurn| turn_view(t))
}

/// Keep only the last `max_turns` turns.
pub fn last_turns(turns: Vec<ConversationTurn>, max_turns: usize) -> (r: Vec<ConversationTurn>)
    ensures
        r@.len() == if turns@.len() > max_turns { max_turns as int } else { turns@.len() as int },
        turn_views(r@) == if turns@.len() > max_turns {
            turn_views(turns@).skip(turns@.len() - max_turns)
        } else {
            turn_views(turns@)
        },
{
    let mut turns = turns;
    if turns.len() > max_turns {
        let ghost before = turns@;
        let at = turns.len() - max_turns;
        let r = turns.split_off(at);
        assert(turn_views(r@) =~= turn_views(before).skip(at as int));
        r
    } else {
        turns
    }
}

/// Where an entry's content is: `message.content` when the entry has a message with a
/// content, otherwise its top-level `content`, if it has one.
pub open spec fn content_place(p: (Seq<char>, Seq<JsonStep>)) -> Option<(Seq<char>, Seq<JsonStep>)> {
    let message = member_at(p, "message"@);
    if json_has_member(p, "message"@) && json_has_member(message, "content"@) {
        Some(member_at(message, "content"@))
    } else if json_has_member(p, "content"@) {
        Some(member_at(p, "content"@))
    } else {
        None
    }
}

/// The text of item `i` of the array at `q`: its `text` member, when that is a string.
pub open spec fn item_text(q: (Seq<char>, Seq<JsonStep>), i: int) -> Option<Seq<char>> {
    if json_has_member(item_at(q, i), "text"@) {
        json_string_at(member_at(item_at(q, i), "text"@))
    } else {
        None
    }
}

/// The texts of the first `n` items of the array at `q` that have one, in order.
pub open spec fn item_texts(q: (Seq<char>, Seq<JsonStep>), n: nat) -> Seq<Seq<char>>
    decreases n,
{
    if n == 0 {
        Seq::empty()
    } else {
        match item_text(q, n - 1) {
            Some(t) => item_texts(q, (n - 1) as nat).push(t),
            None => item_texts(q, (n - 1) as nat),
        }
    }
}

/// The plain text of the content at `c`: the string itself, or the texts of the items of an
/// array joined with newlines; empty for anything else or no content.
pub open spec fn place_text(c: Option<(Seq<char>, Seq<JsonStep>)>) -> Seq<char> {
    match c {
        None => Seq::empty(),
        Some(q) => match json_string_at(q) {
            Some(s) => s,
            None => match json_array_len_at(q) {
                Some(n) => joined(item_texts(q, n)),
                None => Seq::empty(),
            },
        },
    }
}

pub open spec fn opt_string(o: Option<String>) -> Option<Seq<char>> {
    match o {
        Some(s) => Some(s@),
        None => None,
    }
}

/// The content of an entry (see `content_place`): a string, the texts of the items of an
/// array, or anything else.
fn content_value_of(entry: &Json) -> (r: ContentValue)
    ensures
        match content_place(entry@) {
            None => r is Other,
            Some(q) => match json_string_at(q) {
                Some(s) => r matches ContentValue::Text(t) && t@ == s,
                None => match json_array_len_at(q) {
                    Some(n) => r matches ContentValue::Blocks(b) && b@.len() == n
                        && forall|i: int| 0 <= i < n ==> opt_string(#[trigger] b@[i]) == item_text(q, i),
                    None => r is Other,
                },
            },
        },
        content_text(r) == place_text(content_place(entry@)),
{
    let content = match json_get(entry, "message") {
        Some(message) => match json_get(&message, "content") {
            Some(c) => Some(c),
            None => json_get(entry, "content"),
        },
        None => json_get(entry, "content"),
    };
    match content {
        Some(c) => match json_as_string(&c) {
            Some(s) => ContentValue::Text(s),
            None => match json_array_len(&c) {
                Some(n) => {
                    let ghost q = c@;
                    let mut blocks: Vec<Option<String>> = Vec::new();
                    let mut i: usize = 0;
                    while i < n
                        invariant
                            q == c@,
                            i <= n,
                            blocks@.len() == i,
                            forall|j: int| 0 <= j < i ==> opt_string(#[trigger] blocks@[j]) == item_text(q, j),
                            block_texts(blocks@) == item_texts(q, i as nat),
                        decreases n - i,
                    {
                        let item = json_item(&c, i);
                        let text = match json_get(&item, "text") {
                            Some(t) => json_as_string(&t),
                            None => None,
                        };
                        let ghost before = blocks@;
                        blocks.push(text);
                        assert(blocks@.drop_last() =~= before);
                        i += 1;
                    }
                    ContentValue::Blocks(blocks)
                },
                None => ContentValue::Other,
            },
        },
        None => ContentValue::Other,
    }
}

/// The turn on a line of a session log: none for a blank line or a line that is not JSON;
/// otherwise the turn that an entry with the line's `type` (when a string) and content
/// (see `place_text`) makes.
pub open spec fn turn_at(line: Seq<char>) -> Option<(Role, Seq<char>)> {
    if trimmed(line).len() == 0 || !json_parses(line) {
        None
    } else {
        let root = (line, Seq::<JsonStep>::empty());
        let entry_type = if json_has_member(root, "type"@) { json_string_at(member_at(root, "type"@)) } else { None };
        let text = place_text(content_place(root));
        match role_of(match entry_type { Some(t) => t, None => Seq::empty() }) {
            Some(role) => if text.len() == 0 { None } else { Some((role, text)) },
            None => None,
        }
    }
}

/// The turn recorded on one line of a session log (see `turn_at`).
pub fn read_conversation_line(line: &str) -> (r: Option<ConversationTurn>)
    ensures
        opt_turn_view(r) == turn_at(line@),
{
    if trim_chars(&str_chars(line)).len() == 0 {
        return None;
    }
    let value = match parse_json(line) {
        Some(v) => v,
        None => return None,
    };
    let entry_type = match json_get(&value, "type") {
        Some(t) => json_as_string(&t),
        None => None,
    };
    let content = content_value_of(&value);
    match entry_type {
        Some(t) => turn_of(Some(t.as_str()), &content),
        None => turn_of(None, &content),
    }
}

/// The turns on the lines of a session log, in order.
pub open spec fn line_turns(lines: Seq<String>) -> Seq<(Role, Seq<char>)>
    decreases lines.len(),
{
    if lines.len() == 0 {
        Seq::empty()
    } else {
        match turn_at(lines.last()@) {
            Some(t) => line_turns(lines.drop_last()).push(t),
            None => line_turns(lines.drop_last()),
        }
    }
}

/// The last `n` items of `s` (all of them when it has fewer).
pub open spec fn last_n<A>(s: Seq<A>, n: nat) -> Seq<A> {
    if s.len() > n { s.skip(s.len() - n) } else { s }
}

/// The conversation recorded in the lines of a session log: the turns of the lines that hold
/// one, in order, the last `max_turns` of them kept.
pub fn conversation_from_lines(lines: &Vec<String>, max_turns: usize) -> (r: Vec<ConversationTurn>)
    ensures
        turn_views(r@) == last_n(line_turns(lines@), max_turns as nat),
        r@.len() <= max_turns,
{
    let mut turns: Vec<ConversationTurn> = Vec::new();
    let mut i: usize = 0;
    assert(lines@.take(0) =~= Seq::<String>::empty());
    assert(turn_views(turns@) =~= Seq::<(Role, Seq<char>)>::empty());
    while i < lines.len()
        invariant
            i <= lines@.len(),
            turn_views(turns@) == line_turns(lines@.take(i as int)),
        decreases lines@.len() - i,
    {
        assert(lines@.take(i + 1).drop_last() =~= lines@.take(i as int));
        assert(lines@.take(i + 1).last() == lines@[i as int]);
        let ghost before = turns@;
        if let Some(t) = read_conversation_line(lines[i].as_str()) {
            turns.push(t);
            assert(turn_views(turns@) =~= turn_views(before).push(turn_view(t)));
        }
        i += 1;
    }
    assert(lines@.take(i as int) =~= lines@);
    last_turns(turns, max_turns)
}

} // verus!
