//! What the router does with the answer of the backend that a chat request was
//! forwarded to: what it answers its caller, and the route event it logs.
//!
//! The caller sends the request and reads the answer; this module decides.

use vstd::prelude::*;
use crate::text::push_char;

verus! {

/// What came of forwarding a request.
pub enum ForwardOutcome {
    /// The request could not be sent; the error's text.
    ConnectFailed(String),
    /// The backend answered with `status`. `stream` tells whether the caller
    /// asked for a stream; `body` is the text of the answer, `None` where it was
    /// not read (a stream passed through) or could not be read.
    Answered { status: u16, stream: bool, body: Option<String> },
}

/// What the router answers its caller.
pub enum ForwardReply {
    /// An error of the router's own, with this HTTP status.
    Fail(u16),
    /// The backend's error answer, passed on: the status to answer with and
    /// the backend's text.
    PassOn { status: u16, body: String },
    /// The backend's stream, passed through.
    Stream,
    /// The backend's JSON answer, with the routing decision added.
    Json,
}

/// The route event logged for a forward.
pub struct RouteLog {
    /// `ok` or `error`.
    pub status: String,
    pub error: Option<String>,
    pub input_tokens: Option<i64>,
    pub output_tokens: Option<i64>,
}

/// The token counts that a completion answer's text gives: `None` where the
/// text is not JSON; else the integers at `usage.prompt_tokens` and
/// `usage.completion_tokens`, each `None` where it is absent or not an integer.
pub uninterp spec fn usage_of(body: Seq<char>) -> Option<(Option<i64>, Option<i64>)>;

/// Reads the token counts of a completion answer.
///
/// Trusted: the body parses `body` with `serde_json::from_str` into a
/// `serde_json::Value` and reads `usage.prompt_tokens` and
/// `usage.completion_tokens` as `i64` (indexing a `Value` gives `Null` where a
/// member is missing, and `as_i64` gives `None` for what is not an integer). The contract
/// claims only that the result is `usage_of(body@)`, a function of the text
/// alone; what JSON parsing gives is left unsaid.
#[verifier::external_body]
fn usage_tokens(body: &str) -> (r: Option<(Option<i64>, Option<i64>)>)
    ensures
        r == usage_of(body@),
{
    let v: serde_json::Value = match serde_json::from_str(body) {
        Ok(v) => v,
        Err(_) => return None,
    };
    Some((v["usage"]["prompt_tokens"].as_i64(), v["usage"]["completion_tokens"].as_i64()))
}

/// A 2xx status.
pub open spec fn is_success(status: u16) -> bool {
    200 <= status < 300
}

/// The status passed on for a backend's error: its own where it is a valid
/// HTTP status, else 502 (Bad Gateway).
pub open spec fn passed_status(status: u16) -> u16 {
    if 100 <= status <= 999 {
        status
    } else {
        502
    }
}

/// `l` is the event logged for a failed forward with the error text `e`.
pub open spec fn is_error_log(l: RouteLog, e: Seq<char>) -> bool {
    &&& l.status@ == seq!['e', 'r', 'r', 'o', 'r']
    &&& (l.error matches Some(x) && x@ == e)
    &&& l.input_tokens is None
    &&& l.output_tokens is None
}

/// `l` is the event logged for a successful forward with the token counts.
pub open spec fn is_ok_log(l: RouteLog, input: Option<i64>, output: Option<i64>) -> bool {
    &&& l.status@ == seq!['o', 'k']
    &&& l.error is None
    &&& l.input_tokens == input
    &&& l.output_tokens == output
}

fn error_log(e: String) -> (l: RouteLog)
    ensures
        is_error_log(l, e@),
{
    let mut status = String::new();
    push_char(&mut status, 'e');
    push_char(&mut status, 'r');
    push_char(&mut status, 'r');
    push_char(&mut status, 'o');
    push_char(&mut status, 'r');
    assert(status@ =~= seq!['e', 'r', 'r', 'o', 'r']);
    RouteLog { status, error: Some(e), input_tokens: None, output_tokens: None }
}

fn ok_log(input: Option<i64>, output: Option<i64>) -> (l: RouteLog)
    ensures
        is_ok_log(l, input, output),
{
    let mut status = String::new();
    push_char(&mut status, 'o');
    push_char(&mut status, 'k');
    assert(status@ =~= seq!['o', 'k']);
    RouteLog { status, error: None, input_tokens: input, output_tokens: output }
}

/// The error logged where the backend's answer could not be read.
pub open spec fn unreadable_answer() -> Seq<char> {
    "the backend's answer could not be read"@
}

/// The error logged where a successful answer is not JSON.
pub open spec fn answer_not_json() -> Seq<char> {
    "the backend's answer is not JSON"@
}

/// The answer is passed through as a stream, unread: the caller asked for a
/// stream and the backend answered with success.
pub fn answer_is_streamed(status: u16, stream: bool) -> (r: bool)
    ensures
        r == (stream && is_success(status)),
{
    stream && 200 <= status && status < 300
}

/// What follows a successful answer that is not streamed, given what its text
/// gives as token counts (`usage_of`): an answer that is not JSON fails with 500
/// and is logged as an error; else the JSON is answered and a success is logged
/// with the counts.
pub fn answer_with_usage(usage: Option<(Option<i64>, Option<i64>)>) -> (r: (ForwardReply, RouteLog))
    ensures
        match usage {
            None => r.0 == ForwardReply::Fail(500) && is_error_log(r.1, answer_not_json()),
            Some(u) => r.0 == ForwardReply::Json && is_ok_log(r.1, u.0, u.1),
        },
{
    match usage {
        None => (ForwardReply::Fail(500), error_log(String::from_str("the backend's answer is not JSON"))),
        Some((input, output)) => (ForwardReply::Json, ok_log(input, output)),
    }
}

/// What the router answers and logs for the outcome of a forward; every
/// outcome is logged, as a success exactly where the backend answered with
/// success and the answer is passed on:
/// - a request that could not be sent fails with 502, logging the error;
/// - an answer that could not be read fails with 502;
/// - an error answer is passed on, its status and its text, logging the text
///   as the error;
/// - a streamed success is passed through, logged without token counts;
/// - any other success goes as `answer_with_usage` says for its text.
pub fn decide_forward(outcome: &ForwardOutcome) -> (r: (ForwardReply, RouteLog))
    ensures
        outcome matches ForwardOutcome::ConnectFailed(e) ==> r.0 == ForwardReply::Fail(502)
            && is_error_log(r.1, e@),
        outcome matches ForwardOutcome::Answered { status, stream, body } ==> {
            if !is_success(*status) {
                match body {
                    None => r.0 == ForwardReply::Fail(502) && is_error_log(r.1, unreadable_answer()),
                    Some(b) => (r.0 matches ForwardReply::PassOn { status: s, body: e }
                        && s == passed_status(*status) && e@ == b@) && is_error_log(r.1, b@),
                }
            } else if *stream {
                r.0 == ForwardReply::Stream && is_ok_log(r.1, None, None)
            } else {
                match body {
                    None => r.0 == ForwardReply::Fail(502) && is_error_log(r.1, unreadable_answer()),
                    Some(b) => match usage_of(b@) {
                        None => r.0 == ForwardReply::Fail(500) && is_error_log(r.1, answer_not_json()),
                        Some(u) => r.0 == ForwardReply::Json && is_ok_log(r.1, u.0, u.1),
                    },
                }
            }
        },
{
    match outcome {
        ForwardOutcome::ConnectFailed(e) => (ForwardReply::Fail(502), error_log(e.clone())),
        ForwardOutcome::Answered { status, stream, body } => {
            if !(200 <= *status && *status < 300) {
                match body {
                    None => (ForwardReply::Fail(502), error_log(String::from_str("the backend's answer could not be read"))),
                    Some(b) => {
                        let code = if 100 <= *status && *status <= 999 {
                            *status
                        } else {
                            502
                        };
                        (ForwardReply::PassOn { status: code, body: b.clone() }, error_log(b.clone()))
                    },
                }
            } else if *stream {
                (ForwardReply::Stream, ok_log(None, None))
            } else {
                match body {
                    None => (ForwardReply::Fail(502), error_log(String::from_str("the backend's answer could not be read"))),
                    Some(b) => answer_with_usage(usage_tokens(b.as_str())),
                }
            }
        },
    }
}

} // verus!
