use switchyard::forward::{
    answer_is_streamed, answer_with_usage, decide_forward, ForwardOutcome, ForwardReply,
};
use switchyard::text::{prefix_chars, str_equal};

fn answered(status: u16, stream: bool, body: Option<&str>) -> ForwardOutcome {
    ForwardOutcome::Answered { status, stream, body: body.map(|b| b.to_string()) }
}

#[test]
fn connect_failure_is_bad_gateway_and_logged() {
    let (reply, log) = decide_forward(&ForwardOutcome::ConnectFailed("refused".to_string()));
    assert!(matches!(reply, ForwardReply::Fail(502)));
    assert_eq!(log.status, "error");
    assert_eq!(log.error, Some("refused".to_string()));
    assert_eq!((log.input_tokens, log.output_tokens), (None, None));
}

#[test]
fn error_status_is_passed_on_and_logged() {
    let (reply, log) = decide_forward(&answered(429, false, Some("slow down")));
    match reply {
        ForwardReply::PassOn { status, body } => {
            assert_eq!(status, 429);
            assert_eq!(body, "slow down");
        }
        _ => panic!("the error answer is not passed on"),
    }
    assert_eq!(log.status, "error");
    assert_eq!(log.error, Some("slow down".to_string()));
    let (reply, _) = decide_forward(&answered(500, true, Some("boom")));
    assert!(matches!(reply, ForwardReply::PassOn { status: 500, ref body } if body == "boom"));
    let (reply, log) = decide_forward(&answered(404, false, None));
    assert!(matches!(reply, ForwardReply::Fail(502)));
    assert_eq!(log.status, "error");
    assert_eq!(log.error, Some("the backend's answer could not be read".to_string()));
    let (reply, _) = decide_forward(&answered(1000, false, Some("odd")));
    assert!(matches!(reply, ForwardReply::PassOn { status: 502, ref body } if body == "odd"));
}

#[test]
fn streamed_success_is_logged_without_tokens() {
    assert!(answer_is_streamed(200, true));
    assert!(!answer_is_streamed(200, false));
    assert!(!answer_is_streamed(503, true));
    let (reply, log) = decide_forward(&answered(200, true, None));
    assert!(matches!(reply, ForwardReply::Stream));
    assert_eq!(log.status, "ok");
    assert!(log.error.is_none());
    assert_eq!((log.input_tokens, log.output_tokens), (None, None));
}

#[test]
fn json_success_logs_token_counts() {
    let body = r#"{"choices":[],"usage":{"prompt_tokens":12,"completion_tokens":30}}"#;
    let (reply, log) = decide_forward(&answered(200, false, Some(body)));
    assert!(matches!(reply, ForwardReply::Json));
    assert_eq!(log.status, "ok");
    assert_eq!((log.input_tokens, log.output_tokens), (Some(12), Some(30)));
    let (_, log) = decide_forward(&answered(201, false, Some(r#"{"usage":{"prompt_tokens":1.5}}"#)));
    assert_eq!((log.input_tokens, log.output_tokens), (None, None));
}

#[test]
fn non_json_success_fails_and_is_logged() {
    let (reply, log) = decide_forward(&answered(200, false, Some("not json")));
    assert!(matches!(reply, ForwardReply::Fail(500)));
    assert_eq!(log.status, "error");
    assert_eq!(log.error, Some("the backend's answer is not JSON".to_string()));
    let (reply, log) = decide_forward(&answered(200, false, None));
    assert!(matches!(reply, ForwardReply::Fail(502)));
    assert_eq!(log.status, "error");
}

#[test]
fn answer_with_usage_cases() {
    let (reply, log) = answer_with_usage(None);
    assert!(matches!(reply, ForwardReply::Fail(500)));
    assert_eq!(log.status, "error");
    let (reply, log) = answer_with_usage(Some((Some(1), None)));
    assert!(matches!(reply, ForwardReply::Json));
    assert_eq!(log.input_tokens, Some(1));
    assert_eq!(log.status, "ok");
}

#[test]
fn text_helpers() {
    assert!(str_equal("abc", "abc"));
    assert!(!str_equal("abc", "abd"));
    assert!(!str_equal("ab", "abc"));
    assert_eq!(prefix_chars("héllo", 2), "hé");
    assert_eq!(prefix_chars("hi", 60), "hi");
}
