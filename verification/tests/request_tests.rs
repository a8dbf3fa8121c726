use promptrs_client::encoder::Message;
use promptrs_client::request::{
    check_status, completions_url, render_body, u16_digits, Params,
};

#[test]
fn body_without_optional_fields() {
    let p = Params {
        model: "m".to_string(),
        temperature: None,
        top_p: None,
        messages: vec![Message::User("hi".to_string())],
        stream: true,
    };
    let body = render_body(&p);
    assert_eq!(
        String::from_utf8(body).unwrap(),
        r#"{"model":"m","messages":[{"role":"user","content":"hi"}],"stream":true}"#
    );
}

#[test]
fn body_with_sampling_parameters() {
    let p = Params {
        model: "m".to_string(),
        temperature: Some("0.7".to_string()),
        top_p: Some("0.9".to_string()),
        messages: vec![Message::System("s".to_string())],
        stream: true,
    };
    let body = render_body(&p);
    assert_eq!(
        String::from_utf8(body).unwrap(),
        r#"{"model":"m","temperature":0.7,"top_p":0.9,"messages":[{"role":"system","content":"s"}],"stream":true}"#
    );
}

#[test]
fn body_expands_tool_call_turn() {
    let p = Params {
        model: "m".to_string(),
        temperature: None,
        top_p: None,
        messages: vec![Message::ToolCall(("a".to_string(), "t".to_string()))],
        stream: false,
    };
    let body = render_body(&p);
    assert_eq!(
        String::from_utf8(body).unwrap(),
        r#"{"model":"m","messages":[{"role":"assistant","content":"a"},{"role":"tool","content":"t"}],"stream":false}"#
    );
}

#[test]
fn body_escapes_content() {
    let p = Params {
        model: "m".to_string(),
        temperature: None,
        top_p: None,
        messages: vec![Message::User("a\"b\\c\nd\u{1}".to_string())],
        stream: true,
    };
    let body = render_body(&p);
    let expected = "{\"model\":\"m\",\"messages\":[{\"role\":\"user\",\"content\":\"a\\\"b\\\\c\\nd\\u0001\"}],\"stream\":true}";
    assert_eq!(String::from_utf8(body).unwrap(), expected);
}

#[test]
fn body_keeps_multibyte_text() {
    let p = Params {
        model: "m".to_string(),
        temperature: None,
        top_p: None,
        messages: vec![Message::User("héllo".to_string())],
        stream: true,
    };
    let body = render_body(&p);
    let text = String::from_utf8(body).unwrap();
    assert!(text.contains("héllo"));
}

#[test]
fn reencoding_is_byte_identical() {
    let p = Params {
        model: "m".to_string(),
        temperature: Some("0.2".to_string()),
        top_p: None,
        messages: vec![
            Message::User("hello".to_string()),
            Message::Status(("a".to_string(), "b".to_string())),
        ],
        stream: true,
    };
    let first = render_body(&p);
    let second = render_body(&p);
    assert_eq!(first, second);
}

#[test]
fn error_message_contains_status_and_body() {
    let r = check_status(500, b"boom");
    let msg = r.unwrap_err();
    let text = String::from_utf8(msg).unwrap();
    assert_eq!(text, "Status Code: 500\nResponse: boom");
    assert!(text.contains("500"));
    assert!(text.contains("boom"));
}

#[test]
fn success_statuses_open_the_stream() {
    assert!(check_status(200, b"").is_ok());
    assert!(check_status(204, b"").is_ok());
    assert!(check_status(299, b"").is_ok());
    assert!(check_status(199, b"x").is_err());
    assert!(check_status(300, b"x").is_err());
    assert!(check_status(404, b"not found").is_err());
}

#[test]
fn url_gets_fixed_completions_path() {
    let url = completions_url("http://example.test");
    assert_eq!(url, "http://example.test/v1/chat/completions");
}

#[test]
fn decimal_digits_render_exactly() {
    assert_eq!(u16_digits(0), b"0".to_vec());
    assert_eq!(u16_digits(500), b"500".to_vec());
    assert_eq!(u16_digits(65535), b"65535".to_vec());
}
