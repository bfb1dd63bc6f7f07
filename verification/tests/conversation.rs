use nexus::conversation::{content_to_string, conversation_from_lines, last_turns, read_conversation_line, turn_of, ContentValue};
use nexus::types::{ConversationTurn, Role};

fn parse(lines: &[&str], max_turns: usize) -> Vec<ConversationTurn> {
    let lines: Vec<String> = lines.iter().map(|l| l.to_string()).collect();
    conversation_from_lines(&lines, max_turns)
}

#[test]
fn parse_empty_file() {
    let turns = parse(&[], 100);
    assert!(turns.is_empty());
}

#[test]
fn parse_human_and_assistant_turns() {
    let turns = parse(
        &[r#"{"type":"human","message":{"content":"Hello"}}"#, r#"{"type":"assistant","message":{"content":"Hi there!"}}"#],
        100,
    );
    assert_eq!(turns.len(), 2);
    assert_eq!(turns[0].role, Role::Human);
    assert_eq!(turns[0].content, "Hello");
    assert_eq!(turns[1].role, Role::Assistant);
    assert_eq!(turns[1].content, "Hi there!");
}

#[test]
fn skips_non_conversation_types() {
    let turns = parse(
        &[
            r#"{"type":"human","message":{"content":"Hello"}}"#,
            r#"{"type":"tool_use","name":"Read","input":{}}"#,
            r#"{"type":"tool_result","content":"file contents"}"#,
            r#"{"type":"assistant","message":{"content":"Done!"}}"#,
        ],
        100,
    );
    assert_eq!(turns.len(), 2);
}

#[test]
fn respects_max_turns() {
    let turns = parse(
        &[
            r#"{"type":"human","message":{"content":"First"}}"#,
            r#"{"type":"assistant","message":{"content":"Response 1"}}"#,
            r#"{"type":"human","message":{"content":"Second"}}"#,
            r#"{"type":"assistant","message":{"content":"Response 2"}}"#,
        ],
        2,
    );
    assert_eq!(turns.len(), 2);
    assert_eq!(turns[0].content, "Second");
    assert_eq!(turns[1].content, "Response 2");
}

#[test]
fn handles_array_content_blocks() {
    let turns = parse(
        &[r#"{"type":"assistant","message":{"content":[{"type":"text","text":"Part 1"},{"type":"text","text":"Part 2"}]}}"#],
        100,
    );
    assert_eq!(turns.len(), 1);
    assert_eq!(turns[0].content, "Part 1\nPart 2");
}

#[test]
fn skips_malformed_lines() {
    let turns = parse(&["not valid json", r#"{"type":"human","message":{"content":"Valid"}}"#, "{incomplete"], 100);
    assert_eq!(turns.len(), 1);
    assert_eq!(turns[0].content, "Valid");
}

#[test]
fn single_lines_are_read() {
    let t = read_conversation_line(r#"{"type":"assistant","message":{"content":[{"type":"text","text":"Line one"},{"type":"tool_use","id":"x"},{"type":"text","text":"Line two"}]}}"#).unwrap();
    assert_eq!(t.content, "Line one\nLine two");
    assert!(read_conversation_line("   ").is_none());
    assert!(read_conversation_line(r#"{"type":"human","message":{"content":""}}"#).is_none());
    // without message.content, the top-level content counts
    let t = read_conversation_line(r#"{"type":"human","message":{"role":"user"},"content":"top"}"#).unwrap();
    assert_eq!(t.content, "top");
}

fn turn(n: usize) -> ConversationTurn {
    ConversationTurn { role: Role::Human, content: format!("Message {n}") }
}

#[test]
fn last_turns_keeps_the_end() {
    let turns: Vec<ConversationTurn> = (0..10).map(turn).collect();
    let last = last_turns(turns, 3);
    assert_eq!(last.len(), 3);
    assert_eq!(last[0].content, "Message 7");
    assert_eq!(last[2].content, "Message 9");
    let few: Vec<ConversationTurn> = (0..2).map(turn).collect();
    assert_eq!(last_turns(few, 3).len(), 2);
}

#[test]
fn content_text_of_values() {
    assert_eq!(content_to_string(&ContentValue::Text("x".to_string())), "x");
    assert_eq!(content_to_string(&ContentValue::Blocks(vec![None, Some("a".to_string()), None, Some("b".to_string())])), "a\nb");
    assert_eq!(content_to_string(&ContentValue::Other), "");
    assert!(turn_of(Some("human"), &ContentValue::Other).is_none());
    assert!(turn_of(None, &ContentValue::Text("x".to_string())).is_none());
}
