//! Decision logic of the client for OpenAI-compatible chat-completions
//! servers — the protocol of local LLM runtimes (Ollama's `/v1`, LM Studio,
//! llama.cpp server, vLLM, …).
//!
//! Structured-output support varies by runtime: the schema is always
//! embedded in the prompt, `response_format` is requested opportunistically
//! and dropped on a retry when the server rejects it, and the reply goes
//! through a tolerant JSON extractor.

use vstd::prelude::*;
use crate::error::{Error, Result};
use crate::models::opt_view;
use crate::text::{
    chars_of, trim, trim_chars, string_of, slice_chars, concat, has_prefix, has_prefix_exec,
    occurs_at, occurs_at_exec, index_of_char, index_of_char_exec, contains_seq, contains_exec,
};
use crate::llm::shared::{snippet, snippet_spec, http_failure, http_failure_message, endpoint};

verus! {

/// Provider name used in errors.
pub const PROVIDER: &'static str = "local";

// ── JSON extraction ─────────────────────────────────────────────────────

/// Start of the last occurrence of `p` in `s` at or before `i`.
pub open spec fn last_occurrence_upto(s: Seq<char>, p: Seq<char>, i: int) -> Option<int>
    decreases i + 1,
{
    if i < 0 {
        None
    } else if occurs_at(s, p, i) {
        Some(i)
    } else {
        last_occurrence_upto(s, p, i - 1)
    }
}

/// Start of the last occurrence of `p` in `s` (`str::rfind`).
pub open spec fn last_occurrence(s: Seq<char>, p: Seq<char>) -> Option<int> {
    last_occurrence_upto(s, p, s.len() - p.len())
}

/// Index of the last `c` in `s` (`str::rfind` of a character).
pub open spec fn last_index_of(s: Seq<char>, c: char) -> Option<int>
    decreases s.len(),
{
    if s.len() == 0 {
        None
    } else if s.last() == c {
        Some(s.len() - 1)
    } else {
        last_index_of(s.drop_last(), c)
    }
}

/// The body of a fenced block: after a leading "```json" (or else "```"),
/// up to the last "```", trimmed; `None` when `t` does not open a fence or
/// the fence is not closed.
pub open spec fn fence_body(t: Seq<char>) -> Option<Seq<char>> {
    let rest = if has_prefix(t, "```json"@) {
        Some(t.skip("```json"@.len() as int))
    } else if has_prefix(t, "```"@) {
        Some(t.skip("```"@.len() as int))
    } else {
        None
    };
    match rest {
        Some(r) => match last_occurrence(r, "```"@) {
            Some(i) => Some(trim(r.take(i))),
            None => None,
        },
        None => None,
    }
}

/// The JSON object in a model's reply: the trimmed text, or the body of
/// its code fence; kept as is when it starts with `{`, else the span from
/// its first `{` to its last `}` when the latter follows the former.
pub open spec fn extract_json_spec(text: Seq<char>) -> Seq<char> {
    let t = trim(text);
    let inner = match fence_body(t) {
        Some(b) => b,
        None => t,
    };
    if inner.len() > 0 && inner[0] == '{' {
        inner
    } else {
        let start = index_of_char(inner, '{');
        match last_index_of(inner, '}') {
            Some(end) => if start < inner.len() && end > start {
                inner.subrange(start as int, end + 1)
            } else {
                inner
            },
            None => inner,
        }
    }
}

fn last_occurrence_exec(s: &Vec<char>, p: &Vec<char>) -> (r: Option<usize>)
    ensures
        match r {
            Some(i) => last_occurrence(s@, p@) == Some(i as int) && occurs_at(s@, p@, i as int),
            None => last_occurrence(s@, p@) is None,
        },
{
    if p.len() > s.len() {
        assert(last_occurrence(s@, p@) is None);
        return None;
    }
    let mut i: usize = s.len() - p.len();
    loop
        invariant
            p.len() <= s.len(),
            i <= s.len() - p.len(),
            last_occurrence(s@, p@) == last_occurrence_upto(s@, p@, i as int),
        decreases i,
    {
        if occurs_at_exec(s, p, i) {
            return Some(i);
        }
        if i == 0 {
            assert(last_occurrence_upto(s@, p@, -1) is None);
            return None;
        }
        i -= 1;
    }
}

fn last_index_of_exec(s: &Vec<char>, c: char) -> (r: Option<usize>)
    ensures
        match r {
            Some(i) => last_index_of(s@, c) == Some(i as int) && i < s.len(),
            None => last_index_of(s@, c) is None,
        },
{
    let mut n = s.len();
    assert(s@.take(n as int) =~= s@);
    while n > 0
        invariant
            n <= s.len(),
            last_index_of(s@, c) == last_index_of(s@.take(n as int), c),
        decreases n,
    {
        if s[n - 1] == c {
            return Some(n - 1);
        }
        assert(s@.take(n as int).drop_last() =~= s@.take(n - 1));
        n -= 1;
    }
    None
}

/// Local models often wrap JSON in markdown fences or prose despite
/// instructions. Pull out the first plausible JSON object.
pub fn extract_json(text: &str) -> (r: String)
    ensures
        r@ == extract_json_spec(text@),
{
    let v = chars_of(text);
    let t = trim_chars(&v);
    let f_json = chars_of("```json");
    let fence = chars_of("```");
    let rest: Option<Vec<char>> = if has_prefix_exec(&t, &f_json) {
        Some(slice_chars(&t, f_json.len(), t.len()))
    } else if has_prefix_exec(&t, &fence) {
        Some(slice_chars(&t, fence.len(), t.len()))
    } else {
        None
    };
    proof {
        if has_prefix(t@, "```json"@) {
            assert(t@.subrange(f_json@.len() as int, t@.len() as int) =~= t@.skip("```json"@.len() as int));
        } else if has_prefix(t@, "```"@) {
            assert(t@.subrange(fence@.len() as int, t@.len() as int) =~= t@.skip("```"@.len() as int));
        }
    }
    let inner: Vec<char> = match rest {
        Some(r) => match last_occurrence_exec(&r, &fence) {
            Some(i) => {
                let body = slice_chars(&r, 0, i);
                assert(body@ =~= r@.take(i as int));
                trim_chars(&body)
            },
            None => t,
        },
        None => t,
    };
    if inner.len() > 0 && inner[0] == '{' {
        return string_of(&inner);
    }
    let start = index_of_char_exec(&inner, '{');
    match last_index_of_exec(&inner, '}') {
        Some(end) => if start < inner.len() && end > start {
            string_of(&slice_chars(&inner, start, end + 1))
        } else {
            string_of(&inner)
        },
        None => string_of(&inner),
    }
}

// ── Requests ────────────────────────────────────────────────────────────

/// The chat-completions URL under `base_url` (trailing slashes dropped).
pub fn completions_url(base_url: &str) -> (r: String)
    ensures
        r@ == crate::zotero::plugin_api::trim_end_char(base_url@, '/') + "/chat/completions"@,
{
    endpoint(base_url, "/chat/completions")
}

/// The `authorization` header value: a bearer token when a non-empty key
/// is configured, none otherwise.
pub fn authorization(api_key: Option<&str>) -> (r: Option<String>)
    ensures
        match api_key {
            Some(k) => if k@.len() > 0 {
                opt_view(r) == Some("Bearer "@ + k@)
            } else {
                r is None
            },
            None => r is None,
        },
{
    match api_key {
        Some(k) => if k.is_empty() {
            None
        } else {
            Some(concat("Bearer ", k))
        },
        None => None,
    }
}

/// What follows the prompt of a structured request: the instruction to
/// answer with one JSON object, then the schema.
pub open spec fn structured_prompt_spec(prompt: Seq<char>, schema: Seq<char>) -> Seq<char> {
    prompt
        + "\n\nRespond with ONLY a single JSON object (no markdown, no explanation) matching this JSON Schema:\n"@
        + schema + "\n"@
}

/// The prompt of a structured request, with `schema` (serialized JSON
/// Schema) embedded for servers that ignore `response_format`.
pub fn structured_prompt(prompt: &str, schema: &str) -> (r: String)
    ensures
        r@ == structured_prompt_spec(prompt@, schema@),
{
    let a = concat(
        prompt,
        "\n\nRespond with ONLY a single JSON object (no markdown, no explanation) matching this JSON Schema:\n",
    );
    let a = concat(a.as_str(), schema);
    concat(a.as_str(), "\n")
}

/// The failure is the server rejecting `response_format` (an HTTP 400
/// naming it), so the request is retried without it.
pub open spec fn is_format_rejection(e: Error) -> bool {
    match e {
        Error::Llm { message, .. } => has_prefix(message@, "HTTP 400"@) && contains_seq(
            message@,
            "response_format"@,
        ),
        _ => false,
    }
}

/// Whether a structured request that failed with `e` is retried without
/// `response_format`.
pub fn retry_without_format(e: &Error) -> (r: bool)
    ensures
        r == is_format_rejection(*e),
{
    match e {
        Error::Llm { message, .. } => {
            let m = chars_of(message.as_str());
            has_prefix_exec(&m, &chars_of("HTTP 400")) && contains_exec(&m, &chars_of("response_format"))
        },
        _ => false,
    }
}

// ── Errors ──────────────────────────────────────────────────────────────

/// The error for a request that got no answer.
pub fn send_error(base_url: &str, is_connect: bool, is_timeout: bool, detail: &str) -> (e: Error)
    ensures
        e matches Error::Llm { provider, message } && provider@ == PROVIDER@ && message@ == (if is_connect {
            "could not reach the local LLM server at "@ + base_url@
                + " \u{2014} is it running? (Ollama: `ollama serve` usually runs automatically; LM Studio: start the local server)"@
        } else if is_timeout {
            "the local model took too long to answer \u{2014} try a smaller model"@
        } else {
            "request failed: "@ + detail@
        }),
{
    let message = if is_connect {
        let a = concat("could not reach the local LLM server at ", base_url);
        concat(
            a.as_str(),
            " \u{2014} is it running? (Ollama: `ollama serve` usually runs automatically; LM Studio: start the local server)",
        )
    } else if is_timeout {
        "the local model took too long to answer \u{2014} try a smaller model".to_owned()
    } else {
        concat("request failed: ", detail)
    };
    Error::llm(PROVIDER.to_owned(), message)
}

/// The message quoted from a failed response: the API's
/// `error.message` when the body carries one, else a snippet of the body.
pub open spec fn api_message(field: Option<String>, body: Seq<char>) -> Seq<char> {
    match field {
        Some(m) => m@,
        None => snippet_spec(body),
    }
}

/// The error for a failure status `code` of the local server; `field` is
/// the body's `error.message` string when it has one.
pub fn http_error(model: &str, code: u16, field: Option<String>, body: &str) -> (e: Error)
    requires
        100 <= code <= 999,
    ensures
        e matches Error::Llm { provider, message } && provider@ == PROVIDER@ && message@ == (if code
            == 401 || code == 403 {
            "the local server rejected the request \u{2014} set or clear the API key in Settings"@
        } else if code == 404 {
            "model '"@ + model@ + "' not found on the local server: "@ + api_message(field, body@)
                + " (Ollama: `ollama pull "@ + model@ + "`)"@
        } else {
            http_failure_message(code, api_message(field, body@))
        }),
{
    let msg = match field {
        Some(m) => m,
        None => snippet(body),
    };
    let message = if code == 401 || code == 403 {
        "the local server rejected the request \u{2014} set or clear the API key in Settings".to_owned()
    } else if code == 404 {
        let a = concat("model '", model);
        let a = concat(a.as_str(), "' not found on the local server: ");
        let a = concat(a.as_str(), msg.as_str());
        let a = concat(a.as_str(), " (Ollama: `ollama pull ");
        let a = concat(a.as_str(), model);
        concat(a.as_str(), "`)")
    } else {
        http_failure(code, msg.as_str())
    };
    Error::llm(PROVIDER.to_owned(), message)
}

/// Message of a reply with no text.
pub const EMPTY_RESPONSE: &'static str = "the model returned an empty response";

/// The text of a completion (`choices[0].message.content` when it is a
/// string): an error when it is missing or blank.
pub fn extract_content(content: Option<String>) -> (r: Result<String>)
    ensures
        match content {
            Some(c) => if trim(c@).len() > 0 {
                r == Ok::<String, Error>(c)
            } else {
                r matches Err(Error::Llm { provider, message }) && provider@ == PROVIDER@ && message@
                    == EMPTY_RESPONSE@
            },
            None => r matches Err(Error::Llm { provider, message }) && provider@ == PROVIDER@
                && message@ == EMPTY_RESPONSE@,
        },
{
    match content {
        Some(c) => {
            let t = crate::text::trim_str(c.as_str());
            if t.as_str().is_empty() {
                Err(Error::llm(PROVIDER.to_owned(), EMPTY_RESPONSE.to_owned()))
            } else {
                Ok(c)
            }
        },
        None => Err(Error::llm(PROVIDER.to_owned(), EMPTY_RESPONSE.to_owned())),
    }
}

/// One chunk of a streamed completion (`choices[0].delta.content` when it
/// is a string): a non-empty delta is appended to `full` and returned to
/// be shown; anything else changes nothing.
pub fn stream_delta(full: &mut String, delta: Option<String>) -> (shown: Option<String>)
    ensures
        match delta {
            Some(t) => if t@.len() > 0 {
                final(full)@ == old(full)@ + t@ && shown == Some(t)
            } else {
                final(full)@ == old(full)@ && shown is None
            },
            None => final(full)@ == old(full)@ && shown is None,
        },
{
    match delta {
        Some(t) => if t.as_str().is_empty() {
            None
        } else {
            crate::text::push_str(full, t.as_str());
            Some(t)
        },
        None => None,
    }
}

} // verus!
