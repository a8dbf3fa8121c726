//! End-to-end: decode a recorded wire stream, parse each payload with the
//! real JSON parser as the surrounding program would, and fold the items.

use promptrs_client::accumulator::{
    accumulate_all, ChatCompletionChunk, Choice, Delta, Function, StreamItem, ToolCall,
};
use promptrs_client::decoder::{decode_all, LineEvent};

fn parse_item(payload: &[u8]) -> StreamItem {
    let v: serde_json::Value = match serde_json::from_slice(payload) {
        Ok(v) => v,
        Err(_) => return StreamItem::Malformed,
    };
    let arr = match v.get("choices").and_then(|c| c.as_array()) {
        Some(a) => a,
        None => return StreamItem::Malformed,
    };
    let mut choices = Vec::new();
    for ch in arr {
        let delta = match ch.get("delta").or_else(|| ch.get("message")) {
            Some(d) => d,
            None => return StreamItem::Malformed,
        };
        let content = delta
            .get("content")
            .and_then(|c| c.as_str())
            .map(|s| s.to_string());
        let tool_calls = delta.get("tool_calls").and_then(|t| t.as_array()).map(|ts| {
            ts.iter()
                .filter_map(|t| {
                    let f = t.get("function")?;
                    Some(ToolCall {
                        function: Function {
                            name: f.get("name")?.as_str()?.to_string(),
                            arguments: f.get("arguments")?.as_str()?.to_string(),
                        },
                    })
                })
                .collect()
        });
        choices.push(Choice {
            delta: Delta { content, tool_calls },
        });
    }
    StreamItem::Chunk(ChatCompletionChunk { choices })
}

fn run_pipeline(raw: &[&[u8]]) -> promptrs_client::accumulator::Response {
    let lines: Vec<Vec<u8>> = raw.iter().map(|l| l.to_vec()).collect();
    let events = decode_all(&lines);
    let mut items = Vec::new();
    for ev in events {
        match ev {
            LineEvent::Payload(p) => items.push(parse_item(&p)),
            LineEvent::Separator => {}
            LineEvent::Finished => break,
        }
    }
    accumulate_all(items)
}

#[test]
fn streamed_text_is_reassembled() {
    let r = run_pipeline(&[
        br#"{"choices":[{"delta":{"content":"Hel"}}]}"#,
        b"",
        br#"{"choices":[{"delta":{"content":"lo"}}]}"#,
        b"",
        b"[DONE]",
    ]);
    assert_eq!(r.text, "Hello");
    assert_eq!(r.tool_calls.len(), 0);
}

#[test]
fn malformed_line_becomes_a_skipped_item() {
    let r = run_pipeline(&[
        b"this is not json",
        b"",
        br#"{"choices":[{"delta":{"content":"ok"}}]}"#,
        b"",
        b"[DONE]",
    ]);
    assert_eq!(r.text, "ok");
}

#[test]
fn data_prefixed_frames_parse_after_stripping() {
    let r = run_pipeline(&[
        br#"data: {"choices":[{"delta":{"content":"a"}}]}"#,
        b"",
        br#"data: {"choices":[{"delta":{"tool_calls":[{"function":{"name":"lookup","arguments":"{\"q\":\"x\"}"}}]}}]}"#,
        b"",
        b"data: [DONE]",
    ]);
    assert_eq!(r.text, "a");
    assert_eq!(r.tool_calls.len(), 1);
    assert_eq!(r.tool_calls[0].name, "lookup");
    assert_eq!(r.tool_calls[0].arguments, "{\"q\":\"x\"}");
}

#[test]
fn chunk_with_no_choice_is_ignored() {
    let r = run_pipeline(&[
        br#"{"choices":[]}"#,
        b"",
        br#"{"choices":[{"delta":{"content":"x"}}]}"#,
        b"",
        b"[DONE]",
    ]);
    assert_eq!(r.text, "x");
}
