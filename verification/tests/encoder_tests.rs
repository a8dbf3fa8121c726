use promptrs_client::encoder::{encode_messages, Message, Role};

#[test]
fn simple_turns_map_one_to_one() {
    let ms = vec![
        Message::System("be brief".to_string()),
        Message::User("hello".to_string()),
        Message::Assistant("hi".to_string()),
    ];
    let pairs = encode_messages(&ms);
    assert_eq!(pairs.len(), 3);
    assert!(matches!(pairs[0].role, Role::System));
    assert_eq!(pairs[0].content, "be brief");
    assert!(matches!(pairs[1].role, Role::User));
    assert_eq!(pairs[1].content, "hello");
    assert!(matches!(pairs[2].role, Role::Assistant));
    assert_eq!(pairs[2].content, "hi");
}

#[test]
fn tool_call_turn_expands_to_two_pairs() {
    let ms = vec![
        Message::User("question".to_string()),
        Message::ToolCall(("calling lookup".to_string(), "lookup result".to_string())),
    ];
    let pairs = encode_messages(&ms);
    assert_eq!(pairs.len(), 3);
    assert!(matches!(pairs[1].role, Role::Assistant));
    assert_eq!(pairs[1].content, "calling lookup");
    assert!(matches!(pairs[2].role, Role::Tool));
    assert_eq!(pairs[2].content, "lookup result");
}

#[test]
fn status_turn_expands_to_two_pairs() {
    let ms = vec![Message::Status(("progress".to_string(), "ack".to_string()))];
    let pairs = encode_messages(&ms);
    assert_eq!(pairs.len(), 2);
    assert!(matches!(pairs[0].role, Role::Assistant));
    assert_eq!(pairs[0].content, "progress");
    assert!(matches!(pairs[1].role, Role::Tool));
    assert_eq!(pairs[1].content, "ack");
}

#[test]
fn expansion_preserves_order_with_mixed_turns() {
    let ms = vec![
        Message::System("s".to_string()),
        Message::ToolCall(("a".to_string(), "t".to_string())),
        Message::User("u".to_string()),
    ];
    let pairs = encode_messages(&ms);
    assert_eq!(pairs.len(), 4);
    assert!(matches!(pairs[0].role, Role::System));
    assert!(matches!(pairs[1].role, Role::Assistant));
    assert!(matches!(pairs[2].role, Role::Tool));
    assert!(matches!(pairs[3].role, Role::User));
    assert_eq!(pairs[0].content, "s");
    assert_eq!(pairs[1].content, "a");
    assert_eq!(pairs[2].content, "t");
    assert_eq!(pairs[3].content, "u");
}

#[test]
fn empty_conversation_encodes_to_nothing() {
    let ms: Vec<Message> = Vec::new();
    let pairs = encode_messages(&ms);
    assert_eq!(pairs.len(), 0);
}
