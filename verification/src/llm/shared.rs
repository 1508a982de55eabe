//! Pieces shared by the provider clients: error snippets, HTTP status
//! text, token usage and the closing checks of a streamed answer.

use vstd::prelude::*;
use crate::error::Error;
use crate::models::{ChatRole, opt_view};
use crate::llm::provider::Usage;
use crate::text::{
    chars_of, trim, trim_chars, string_of, slice_chars, utf8_len, fit_prefix, fit_prefix_exec, concat,
    trim_str, decimal, decimal_spec,
};

verus! {

/// Longest quoted error body, in UTF-8 bytes.
pub const SNIPPET_BYTES: usize = 200;

/// `s` with every newline replaced by a space.
pub open spec fn newlines_to_spaces(s: Seq<char>) -> Seq<char> {
    Seq::new(s.len(), |i: int| if s[i] == '\n' { ' ' } else { s[i] })
}

/// An error body as quoted in messages: trimmed, newlines as spaces, and
/// cut to [`SNIPPET_BYTES`] at a character boundary with an ellipsis.
pub open spec fn snippet_spec(s: Seq<char>) -> Seq<char> {
    let t = newlines_to_spaces(trim(s));
    if utf8_len(t) <= SNIPPET_BYTES {
        t
    } else {
        t.take(fit_prefix(t, SNIPPET_BYTES as nat) as int).push('\u{2026}')
    }
}

/// Quotes an error body (see [`snippet_spec`]).
pub fn snippet(s: &str) -> (r: String)
    ensures
        r@ == snippet_spec(s@),
{
    let v = chars_of(s);
    let t = trim_chars(&v);
    let mut u: Vec<char> = Vec::new();
    let mut i: usize = 0;
    while i < t.len()
        invariant
            i <= t.len(),
            u@ =~= newlines_to_spaces(t@).take(i as int),
        decreases t.len() - i,
    {
        let c = t[i];
        u.push(if c == '\n' { ' ' } else { c });
        i += 1;
    }
    assert(newlines_to_spaces(t@).take(t.len() as int) =~= newlines_to_spaces(t@));
    let (n, fits) = fit_prefix_exec(&u, SNIPPET_BYTES);
    if fits {
        string_of(&u)
    } else {
        proof {
            crate::text::lemma_fit_prefix_le(u@, SNIPPET_BYTES as nat);
        }
        let mut p = slice_chars(&u, 0, n);
        p.push('\u{2026}');
        string_of(&p)
    }
}

/// The reason phrase registered for an HTTP status code.
pub uninterp spec fn canonical_reason_of(code: u16) -> Option<Seq<char>>;

/// Calls `http::StatusCode::canonical_reason` (re-exported by `reqwest`) on
/// the status `code`: the reason phrase of the IANA registry for the codes
/// the `http` crate lists, `None` for the others. `from_u16` accepts
/// exactly the codes 100–999.
#[verifier::external_body]
fn canonical_reason(code: u16) -> (r: Option<String>)
    requires
        100 <= code <= 999,
    ensures
        opt_view(r) == canonical_reason_of(code),
{
    match reqwest::StatusCode::from_u16(code) {
        Ok(s) => s.canonical_reason().map(|p| p.to_owned()),
        Err(_) => None,
    }
}

/// How an HTTP status is printed: the code, a space and its reason phrase.
pub open spec fn status_text_spec(code: u16) -> Seq<char> {
    decimal_spec(code as nat) + " "@ + match canonical_reason_of(code) {
        Some(p) => p,
        None => "<unknown status code>"@,
    }
}

/// The printed form of an HTTP status (what `StatusCode`'s `Display` gives).
pub fn status_text(code: u16) -> (r: String)
    requires
        100 <= code <= 999,
    ensures
        r@ == status_text_spec(code),
{
    let a = concat(decimal(code as u64).as_str(), " ");
    match canonical_reason(code) {
        Some(p) => concat(a.as_str(), p.as_str()),
        None => concat(a.as_str(), "<unknown status code>"),
    }
}

/// `HTTP {status}: {message}`, the message of an unexpected failure status.
pub open spec fn http_failure_message(code: u16, message: Seq<char>) -> Seq<char> {
    "HTTP "@ + status_text_spec(code) + ": "@ + message
}

/// Builds [`http_failure_message`].
pub fn http_failure(code: u16, message: &str) -> (r: String)
    requires
        100 <= code <= 999,
    ensures
        r@ == http_failure_message(code, message@),
{
    let a = concat("HTTP ", status_text(code).as_str());
    let a = concat(a.as_str(), ": ");
    concat(a.as_str(), message)
}

/// Token usage of a call from the counts the provider reported (absent
/// counts are 0; counts are kept modulo 2^32, as `as u32` does).
pub fn usage_from(input: Option<u64>, output: Option<u64>) -> (u: Usage)
    ensures
        u.input_tokens == (match input {
            Some(n) => n,
            None => 0,
        }) % 0x1_0000_0000,
        u.output_tokens == (match output {
            Some(n) => n,
            None => 0,
        }) % 0x1_0000_0000,
{
    let i = match input {
        Some(n) => n,
        None => 0,
    };
    let o = match output {
        Some(n) => n,
        None => 0,
    };
    Usage { input_tokens: (i % 0x1_0000_0000) as u32, output_tokens: (o % 0x1_0000_0000) as u32 }
}

/// The wire name of a chat role; Gemini calls the assistant `model`.
pub fn role_name(role: ChatRole, gemini: bool) -> (r: &'static str)
    ensures
        r@ == (match role {
            ChatRole::User => "user"@,
            ChatRole::Assistant => if gemini {
                "model"@
            } else {
                "assistant"@
            },
        }),
{
    match role {
        ChatRole::User => "user",
        ChatRole::Assistant => if gemini {
            "model"
        } else {
            "assistant"
        },
    }
}

/// The end of a streamed answer: the concatenated text, or the provider's
/// empty-response error when it holds nothing but white space.
pub fn finish_stream(provider: &str, full: String, empty_message: &str) -> (r: Result<String, Error>)
    ensures
        trim(full@).len() == 0 ==> (r matches Err(Error::Llm { provider: p, message: m }) && p@
            == provider@ && m@ == empty_message@),
        trim(full@).len() > 0 ==> r == Ok::<String, Error>(full),
{
    let t = trim_str(full.as_str());
    if t.as_str().is_empty() {
        Err(Error::llm(provider.to_owned(), empty_message.to_owned()))
    } else {
        Ok(full)
    }
}

/// `base` without trailing slashes, followed by `path`.
pub fn endpoint(base: &str, path: &str) -> (r: String)
    ensures
        r@ == crate::zotero::plugin_api::trim_end_char(base@, '/') + path@,
{
    let b = crate::zotero::plugin_api::plugin_base_url(base);
    concat(b.as_str(), path)
}


/// A quoted error body never exceeds the cap by more than the ellipsis:
/// at most 203 UTF-8 bytes.
pub proof fn law_snippet_bounded(s: Seq<char>)
    ensures
        utf8_len(snippet_spec(s)) <= SNIPPET_BYTES + 3,
{
    let t = newlines_to_spaces(trim(s));
    if utf8_len(t) > SNIPPET_BYTES {
        let n = fit_prefix(t, SNIPPET_BYTES as nat);
        crate::text::lemma_fit_prefix_le(t, SNIPPET_BYTES as nat);
        crate::text::lemma_fit_prefix_bytes(t, SNIPPET_BYTES as nat);
        crate::text::lemma_utf8_len_concat(t.take(n as int), seq!['\u{2026}']);
        crate::text::lemma_utf8_len_single('\u{2026}');
        assert(t.take(n as int).push('\u{2026}') =~= t.take(n as int) + seq!['\u{2026}']);
    }
}
} // verus!
