//! Decision logic of the Google AI Studio (Gemini) client: URLs, error
//! mapping, reading a reply's text and the chunks of a streamed answer.
//! Wire format: `POST {base}/v1beta/models/{model}:generateContent?key={key}`.

use vstd::prelude::*;
use crate::error::{Error, Result};
use crate::text::{trim, trim_str, concat, push_str, chars_of, contains_seq, contains_exec};
use crate::llm::shared::{snippet, snippet_spec, http_failure, http_failure_message};
use crate::zotero::plugin_api::{trim_end_char, plugin_base_url};

verus! {

/// Provider name used in errors.
pub const PROVIDER: &'static str = "gemini";

/// The model a key test is run against.
pub const TEST_MODEL: &'static str = "gemini-2.5-flash";

/// Message of a rejected key.
pub const INVALID_KEY: &'static str = "Invalid Gemini API key";

/// Message of a reply without candidates.
pub const NO_CANDIDATES: &'static str = "Gemini returned no candidates";

/// Message of a reply without text.
pub const EMPTY: &'static str = "Gemini returned an empty response";

/// `e` is a Gemini error with message `m`.
pub open spec fn llm_error(e: Error, m: Seq<char>) -> bool {
    e matches Error::Llm { provider, message } && provider@ == PROVIDER@ && message@ == m
}

/// `{base}/v1beta/models/{model}:{method}?{query}key={key}`.
pub open spec fn model_url(base: Seq<char>, model: Seq<char>, method_and_query: Seq<char>, key: Seq<char>) -> Seq<char> {
    trim_end_char(base, '/') + "/v1beta/models/"@ + model + method_and_query + key
}

/// The `generateContent` URL of `model`.
pub fn generate_url(base_url: &str, model: &str, api_key: &str) -> (r: String)
    ensures
        r@ == model_url(base_url@, model@, ":generateContent?key="@, api_key@),
{
    let b = plugin_base_url(base_url);
    let a = concat(b.as_str(), "/v1beta/models/");
    let a = concat(a.as_str(), model);
    let a = concat(a.as_str(), ":generateContent?key=");
    concat(a.as_str(), api_key)
}

/// The streaming (`alt=sse`) URL of `model`.
pub fn stream_url(base_url: &str, model: &str, api_key: &str) -> (r: String)
    ensures
        r@ == model_url(base_url@, model@, ":streamGenerateContent?alt=sse&key="@, api_key@),
{
    let b = plugin_base_url(base_url);
    let a = concat(b.as_str(), "/v1beta/models/");
    let a = concat(a.as_str(), model);
    let a = concat(a.as_str(), ":streamGenerateContent?alt=sse&key=");
    concat(a.as_str(), api_key)
}

/// The error for a request that got no answer.
pub fn send_error(detail: &str) -> (e: Error)
    ensures
        llm_error(e, "request failed: "@ + detail@),
{
    Error::llm(PROVIDER.to_owned(), concat("request failed: ", detail))
}

/// The error for a failure status `code` with body `body`: a rejected key
/// (a 400 naming `API_KEY_INVALID`, or a 401/403), the rate limit, or the
/// status with a snippet of the body.
pub fn http_error(code: u16, body: &str) -> (e: Error)
    requires
        100 <= code <= 999,
    ensures
        llm_error(
            e,
            if (code == 400 && contains_seq(body@, "API_KEY_INVALID"@)) || code == 401 || code == 403 {
                INVALID_KEY@
            } else if code == 429 {
                "Gemini rate limit reached \u{2014} try again shortly"@
            } else {
                http_failure_message(code, snippet_spec(body@))
            },
        ),
{
    let invalid = code == 400 && contains_exec(&chars_of(body), &chars_of("API_KEY_INVALID"));
    let message = if invalid || code == 401 || code == 403 {
        INVALID_KEY.to_owned()
    } else if code == 429 {
        "Gemini rate limit reached \u{2014} try again shortly".to_owned()
    } else {
        http_failure(code, snippet(body).as_str())
    };
    Error::llm(PROVIDER.to_owned(), message)
}

/// The message of a prompt blocked for `reason`.
pub open spec fn blocked_message(reason: Seq<char>) -> Seq<char> {
    "the request was blocked by Gemini (reason: "@ + reason + ")"@
}

fn blocked(reason: &str) -> (e: Error)
    ensures
        llm_error(e, blocked_message(reason@)),
{
    let a = concat("the request was blocked by Gemini (reason: ", reason);
    Error::llm(PROVIDER.to_owned(), concat(a.as_str(), ")"))
}

/// The texts of the parts that have one, concatenated.
pub open spec fn text_of_parts(parts: Seq<Option<String>>) -> Seq<char>
    decreases parts.len(),
{
    if parts.len() == 0 {
        seq![]
    } else {
        text_of_parts(parts.drop_last()) + match parts.last() {
            Some(t) => t@,
            None => seq![],
        }
    }
}

fn join_parts(parts: &Vec<Option<String>>) -> (r: String)
    ensures
        r@ == text_of_parts(parts@),
{
    let mut text = String::new();
    let mut i: usize = 0;
    while i < parts.len()
        invariant
            i <= parts.len(),
            text@ == text_of_parts(parts@.take(i as int)),
        decreases parts.len() - i,
    {
        assert(parts@.take(i + 1).drop_last() =~= parts@.take(i as int));
        match &parts[i] {
            Some(t) => push_str(&mut text, t.as_str()),
            None => {
                assert(text@ + Seq::<char>::empty() =~= text@);
            },
        }
        i += 1;
    }
    assert(parts@.take(parts.len() as int) =~= parts@);
    text
}

/// The text of a reply: `block_reason` is `promptFeedback.blockReason` and
/// `parts` the `text` of each part of the first candidate (absent when
/// there is no such array). A blocked prompt, a reply without candidates
/// and a blank reply are errors.
pub fn extract_text(block_reason: Option<&str>, parts: Option<&Vec<Option<String>>>) -> (r: Result<String>)
    ensures
        match block_reason {
            Some(reason) => r matches Err(e) && llm_error(e, blocked_message(reason@)),
            None => match parts {
                None => r matches Err(e) && llm_error(e, NO_CANDIDATES@),
                Some(p) => if trim(text_of_parts(p@)).len() == 0 {
                    r matches Err(e) && llm_error(e, EMPTY@)
                } else {
                    r matches Ok(t) && t@ == text_of_parts(p@)
                },
            },
        },
{
    if let Some(reason) = block_reason {
        return Err(blocked(reason));
    }
    let p = match parts {
        Some(p) => p,
        None => return Err(Error::llm(PROVIDER.to_owned(), NO_CANDIDATES.to_owned())),
    };
    let text = join_parts(p);
    let t = trim_str(text.as_str());
    if t.as_str().is_empty() {
        return Err(Error::llm(PROVIDER.to_owned(), EMPTY.to_owned()));
    }
    Ok(text)
}

/// The texts of the parts that have one, in order.
pub open spec fn part_texts(parts: Seq<Option<String>>) -> Seq<Seq<char>>
    decreases parts.len(),
{
    if parts.len() == 0 {
        seq![]
    } else {
        part_texts(parts.drop_last()) + match parts.last() {
            Some(t) => seq![t@],
            None => seq![],
        }
    }
}

/// Handles one chunk of a streamed answer: a blocked prompt ends the
/// stream with an error; otherwise the text of each part is appended to
/// `full` and returned, in order, to be shown.
pub fn stream_chunk(full: &mut String, block_reason: Option<&str>, parts: Option<&Vec<Option<String>>>) -> (r: Result<Vec<String>>)
    ensures
        match block_reason {
            Some(reason) => (r matches Err(e) && llm_error(e, blocked_message(reason@))) && final(full)@
                == old(full)@,
            None => match parts {
                None => (r matches Ok(v) && v@.len() == 0) && final(full)@ == old(full)@,
                Some(p) => (r matches Ok(v) && crate::models::views(v@) == part_texts(p@)) && final(full)@
                    == old(full)@ + text_of_parts(p@),
            },
        },
{
    if let Some(reason) = block_reason {
        return Err(blocked(reason));
    }
    let mut shown: Vec<String> = Vec::new();
    let p = match parts {
        Some(p) => p,
        None => return Ok(shown),
    };
    let ghost start = full@;
    let mut i: usize = 0;
    while i < p.len()
        invariant
            i <= p.len(),
            full@ == start + text_of_parts(p@.take(i as int)),
            crate::models::views(shown@) == part_texts(p@.take(i as int)),
        decreases p.len() - i,
    {
        assert(p@.take(i + 1).drop_last() =~= p@.take(i as int));
        match &p[i] {
            Some(t) => {
                push_str(full, t.as_str());
                let ghost before = shown@;
                shown.push(t.clone());
                assert(crate::models::views(shown@) =~= crate::models::views(before) + seq![t@]);
                assert(start + text_of_parts(p@.take(i as int)) + t@ =~= start + (text_of_parts(
                    p@.take(i as int),
                ) + t@));
            },
            None => {
                assert(crate::models::views(shown@) =~= crate::models::views(shown@) + Seq::<Seq<char>>::empty());
                assert(full@ + Seq::<char>::empty() =~= full@);
                assert(text_of_parts(p@.take(i as int)) + Seq::<char>::empty() =~= text_of_parts(p@.take(i as int)));
            },
        }
        i += 1;
    }
    assert(p@.take(p.len() as int) =~= p@);
    Ok(shown)
}

} // verus!
