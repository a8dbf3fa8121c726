use promptrs_client::accumulator::{
    accumulate_all, Accumulator, ChatCompletionChunk, Choice, Delta, Function, StreamItem,
    ToolCall,
};

fn text_chunk(text: &str) -> StreamItem {
    StreamItem::Chunk(ChatCompletionChunk {
        choices: vec![Choice {
            delta: Delta {
                content: Some(text.to_string()),
                tool_calls: None,
            },
        }],
    })
}

fn tool_chunk(name: &str, arguments: &str) -> StreamItem {
    StreamItem::Chunk(ChatCompletionChunk {
        choices: vec![Choice {
            delta: Delta {
                content: None,
                tool_calls: Some(vec![ToolCall {
                    function: Function {
                        name: name.to_string(),
                        arguments: arguments.to_string(),
                    },
                }]),
            },
        }],
    })
}

#[test]
fn text_deltas_concatenate_in_arrival_order() {
    let r = accumulate_all(vec![text_chunk("Hel"), text_chunk("lo")]);
    assert_eq!(r.text, "Hello");
    assert_eq!(r.tool_calls.len(), 0);
}

#[test]
fn tool_call_fragment_is_collected_with_empty_text() {
    let r = accumulate_all(vec![tool_chunk("lookup", "{\"q\":\"x\"}")]);
    assert_eq!(r.text, "");
    assert_eq!(r.tool_calls.len(), 1);
    assert_eq!(r.tool_calls[0].name, "lookup");
    assert_eq!(r.tool_calls[0].arguments, "{\"q\":\"x\"}");
}

#[test]
fn tool_calls_keep_arrival_order_relative_to_text() {
    let r = accumulate_all(vec![
        text_chunk("a"),
        tool_chunk("first", "1"),
        text_chunk("b"),
        tool_chunk("second", "2"),
    ]);
    assert_eq!(r.text, "ab");
    assert_eq!(r.tool_calls.len(), 2);
    assert_eq!(r.tool_calls[0].name, "first");
    assert_eq!(r.tool_calls[1].name, "second");
}

#[test]
fn duplicate_tool_calls_are_not_merged() {
    let r = accumulate_all(vec![tool_chunk("same", "1"), tool_chunk("same", "1")]);
    assert_eq!(r.tool_calls.len(), 2);
    assert_eq!(r.tool_calls[0].name, "same");
    assert_eq!(r.tool_calls[1].name, "same");
}

#[test]
fn malformed_frames_are_skipped_not_fatal() {
    let r = accumulate_all(vec![
        StreamItem::Malformed,
        text_chunk("a"),
        StreamItem::Malformed,
        text_chunk("b"),
    ]);
    assert_eq!(r.text, "ab");
    assert_eq!(r.tool_calls.len(), 0);
}

#[test]
fn chunk_without_choice_is_skipped() {
    let r = accumulate_all(vec![
        StreamItem::Chunk(ChatCompletionChunk { choices: Vec::new() }),
        text_chunk("x"),
    ]);
    assert_eq!(r.text, "x");
}

#[test]
fn one_chunk_can_carry_text_and_tool_calls() {
    let item = StreamItem::Chunk(ChatCompletionChunk {
        choices: vec![Choice {
            delta: Delta {
                content: Some("note".to_string()),
                tool_calls: Some(vec![
                    ToolCall {
                        function: Function {
                            name: "a".to_string(),
                            arguments: "1".to_string(),
                        },
                    },
                    ToolCall {
                        function: Function {
                            name: "b".to_string(),
                            arguments: "2".to_string(),
                        },
                    },
                ]),
            },
        }],
    });
    let r = accumulate_all(vec![item]);
    assert_eq!(r.text, "note");
    assert_eq!(r.tool_calls.len(), 2);
    assert_eq!(r.tool_calls[0].name, "a");
    assert_eq!(r.tool_calls[1].name, "b");
}

#[test]
fn feed_echoes_exactly_the_appended_text() {
    let mut acc = Accumulator::new();
    let echo = acc.feed(text_chunk("Hel"));
    assert_eq!(echo.as_deref(), Some("Hel"));
    let echo = acc.feed(StreamItem::Malformed);
    assert!(echo.is_none());
    let echo = acc.feed(tool_chunk("t", "1"));
    assert!(echo.is_none());
    let echo = acc.feed(text_chunk("lo"));
    assert_eq!(echo.as_deref(), Some("lo"));
    let r = acc.finish();
    assert_eq!(r.text, "Hello");
    assert_eq!(r.tool_calls.len(), 1);
}

#[test]
fn empty_stream_freezes_to_empty_result() {
    let r = accumulate_all(Vec::new());
    assert_eq!(r.text, "");
    assert_eq!(r.tool_calls.len(), 0);
}
