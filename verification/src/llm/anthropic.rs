//! Decision logic of the Anthropic Messages API client: error mapping,
//! reading a reply's text, and the events of a streamed answer.
//!
//! Requests go to `{base}/v1/messages` with `anthropic-version: 2023-06-01`
//! and no sampling parameters (removed on Opus 4.7+ models).

use vstd::prelude::*;
use crate::error::{Error, Result};
use crate::text::{trim, trim_str, concat, push_str};
use crate::llm::shared::{snippet, http_failure, http_failure_message, endpoint};
use crate::llm::openai_compat::api_message;
use crate::models::chars_eq;

verus! {

/// Provider name used in errors.
pub const PROVIDER: &'static str = "anthropic";

/// The API version sent with every request.
pub const API_VERSION: &'static str = "2023-06-01";

/// Message of a refusal by the model's safety system.
pub const REFUSAL: &'static str = "the request was declined by the model's safety system";

/// Message of a classification cut short by the token limit.
pub const TRUNCATED: &'static str = "classification output was truncated (max_tokens reached)";

/// Message of a reply without a `content` array.
pub const NO_CONTENT: &'static str = "response had no content";

/// Message of a reply without text.
pub const NO_TEXT: &'static str = "response contained no text";

/// The Messages URL under `base_url` (trailing slashes dropped).
pub fn messages_url(base_url: &str) -> (r: String)
    ensures
        r@ == crate::zotero::plugin_api::trim_end_char(base_url@, '/') + "/v1/messages"@,
{
    endpoint(base_url, "/v1/messages")
}

/// `e` is an Anthropic error with message `m`.
pub open spec fn llm_error(e: Error, m: Seq<char>) -> bool {
    e matches Error::Llm { provider, message } && provider@ == PROVIDER@ && message@ == m
}

/// The error for a request that got no answer.
pub fn send_error(detail: &str) -> (e: Error)
    ensures
        llm_error(e, "request failed: "@ + detail@),
{
    Error::llm(PROVIDER.to_owned(), concat("request failed: ", detail))
}

/// The error for a failure status `code`; `field` is the body's
/// `error.message` string when it has one.
pub fn http_error(model: &str, code: u16, field: Option<String>, body: &str) -> (e: Error)
    requires
        100 <= code <= 999,
    ensures
        llm_error(
            e,
            if code == 401 {
                "Invalid Anthropic API key"@
            } else if code == 404 {
                "Unknown model '"@ + model@ + "': "@ + api_message(field, body@)
            } else if code == 429 {
                "Anthropic rate limit reached \u{2014} try again shortly"@
            } else {
                http_failure_message(code, api_message(field, body@))
            },
        ),
{
    let msg = match field {
        Some(m) => m,
        None => snippet(body),
    };
    let message = if code == 401 {
        "Invalid Anthropic API key".to_owned()
    } else if code == 404 {
        let a = concat("Unknown model '", model);
        let a = concat(a.as_str(), "': ");
        concat(a.as_str(), msg.as_str())
    } else if code == 429 {
        "Anthropic rate limit reached \u{2014} try again shortly".to_owned()
    } else {
        http_failure(code, msg.as_str())
    };
    Error::llm(PROVIDER.to_owned(), message)
}

/// One block of a reply's `content` (each field its string, when it is one).
#[derive(Debug, Clone)]
pub struct ContentBlock {
    pub kind: Option<String>,
    pub text: Option<String>,
}

/// The text of the `text` blocks, concatenated.
pub open spec fn text_of_blocks(blocks: Seq<ContentBlock>) -> Seq<char>
    decreases blocks.len(),
{
    if blocks.len() == 0 {
        seq![]
    } else {
        let b = blocks.last();
        text_of_blocks(blocks.drop_last()) + match (b.kind, b.text) {
            (Some(k), Some(t)) => if k@ == "text"@ {
                t@
            } else {
                seq![]
            },
            _ => seq![],
        }
    }
}

/// The text of a reply with stop reason `stop_reason` and `content`
/// blocks: a refusal is an error; so is a classification cut short by the
/// token limit, a reply without content, or one without text.
pub fn extract_text(stop_reason: Option<&str>, content: Option<&Vec<ContentBlock>>, classifying: bool) -> (r: Result<String>)
    ensures
        stop_reason matches Some(s) && s@ == "refusal"@ ==> (r matches Err(e) && llm_error(e, REFUSAL@)),
        !(stop_reason matches Some(s) && s@ == "refusal"@) && classifying && (stop_reason matches Some(
            s,
        ) && s@ == "max_tokens"@) ==> (r matches Err(e) && llm_error(e, TRUNCATED@)),
        !(stop_reason matches Some(s) && (s@ == "refusal"@ || (classifying && s@ == "max_tokens"@)))
            ==> match content {
            None => r matches Err(e) && llm_error(e, NO_CONTENT@),
            Some(blocks) => if trim(text_of_blocks(blocks@)).len() == 0 {
                r matches Err(e) && llm_error(e, NO_TEXT@)
            } else {
                r matches Ok(t) && t@ == text_of_blocks(blocks@)
            },
        },
{
    if let Some(s) = stop_reason {
        let v = crate::text::chars_of(s);
        if chars_eq(&v, "refusal") {
            return Err(Error::llm(PROVIDER.to_owned(), REFUSAL.to_owned()));
        }
        if classifying && chars_eq(&v, "max_tokens") {
            return Err(Error::llm(PROVIDER.to_owned(), TRUNCATED.to_owned()));
        }
    }
    let blocks = match content {
        Some(b) => b,
        None => return Err(Error::llm(PROVIDER.to_owned(), NO_CONTENT.to_owned())),
    };
    let mut text = String::new();
    let mut i: usize = 0;
    while i < blocks.len()
        invariant
            i <= blocks.len(),
            text@ == text_of_blocks(blocks@.take(i as int)),
        decreases blocks.len() - i,
    {
        assert(blocks@.take(i + 1).drop_last() =~= blocks@.take(i as int));
        let b = &blocks[i];
        match (&b.kind, &b.text) {
            (Some(k), Some(t)) => {
                if chars_eq(&crate::text::chars_of(k.as_str()), "text") {
                    push_str(&mut text, t.as_str());
                } else {
                    assert(text@ + Seq::<char>::empty() =~= text@);
                }
            },
            _ => {
                assert(text@ + Seq::<char>::empty() =~= text@);
            },
        }
        i += 1;
    }
    assert(blocks@.take(blocks.len() as int) =~= blocks@);
    let t = trim_str(text.as_str());
    if t.as_str().is_empty() {
        return Err(Error::llm(PROVIDER.to_owned(), NO_TEXT.to_owned()));
    }
    Ok(text)
}

/// One event of a streamed answer (each field its string, when it is one):
/// `type`, `delta.type`, `delta.text`, `delta.stop_reason`, `error.message`.
#[derive(Debug, Clone)]
pub struct StreamEvent {
    pub kind: Option<String>,
    pub delta_type: Option<String>,
    pub delta_text: Option<String>,
    pub stop_reason: Option<String>,
    pub error_message: Option<String>,
}

/// `o` holds `lit`.
pub open spec fn is_lit(o: Option<String>, lit: Seq<char>) -> bool {
    o matches Some(s) && s@ == lit
}

fn is_lit_exec(o: &Option<String>, lit: &str) -> (r: bool)
    ensures
        r == is_lit(*o, lit@),
{
    match o {
        Some(s) => chars_eq(&crate::text::chars_of(s.as_str()), lit),
        None => false,
    }
}

/// Handles one event: a text delta is appended to `full` and returned to
/// be shown; a refusal or an error event ends the stream with an error;
/// anything else is ignored.
pub fn stream_event(full: &mut String, ev: &StreamEvent) -> (r: Result<Option<String>>)
    ensures
        ({
            let text_delta = is_lit(ev.kind, "content_block_delta"@) && is_lit(ev.delta_type, "text_delta"@)
                && ev.delta_text is Some;
            let refusal = is_lit(ev.kind, "message_delta"@) && is_lit(ev.stop_reason, "refusal"@);
            let failed = is_lit(ev.kind, "error"@);
            &&& text_delta ==> (r matches Ok(Some(d)) && d@ == ev.delta_text->0@ && final(full)@ == old(full)@ + d@)
            &&& !text_delta ==> final(full)@ == old(full)@
            &&& refusal ==> (r matches Err(e) && llm_error(e, REFUSAL@))
            &&& failed ==> (r matches Err(e) && llm_error(e, match ev.error_message {
                Some(m) => m@,
                None => "stream error"@,
            }))
            &&& !text_delta && !refusal && !failed ==> r == Ok::<Option<String>, Error>(None)
        }),
{
    proof {
        reveal_strlit("content_block_delta");
        reveal_strlit("message_delta");
        reveal_strlit("error");
        assert("content_block_delta"@.len() == 19);
        assert("message_delta"@.len() == 13);
        assert("error"@.len() == 5);
    }
    if is_lit_exec(&ev.kind, "content_block_delta") {
        if is_lit_exec(&ev.delta_type, "text_delta") {
            if let Some(t) = &ev.delta_text {
                push_str(full, t.as_str());
                return Ok(Some(t.clone()));
            }
        }
        Ok(None)
    } else if is_lit_exec(&ev.kind, "message_delta") {
        if is_lit_exec(&ev.stop_reason, "refusal") {
            return Err(Error::llm(PROVIDER.to_owned(), REFUSAL.to_owned()));
        }
        Ok(None)
    } else if is_lit_exec(&ev.kind, "error") {
        let m = match &ev.error_message {
            Some(m) => m.clone(),
            None => "stream error".to_owned(),
        };
        Err(Error::llm(PROVIDER.to_owned(), m))
    } else {
        Ok(None)
    }
}

} // verus!
