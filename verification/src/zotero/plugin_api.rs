//! Decisions of the companion-plugin client: version gate, error mapping,
//! status probing and request URLs. The HTTP exchanges themselves are the
//! caller's.

use vstd::prelude::*;
use crate::error::{Error, Result};
use crate::models::{Library, MoveResult, ZoteroStatus, opt_view};
use crate::text::{
    chars_of, trim, trim_chars, trim_str, slice_chars, string_of, parse_u32, parse_u32_spec,
    index_of_char, index_of_char_exec, utf8_len, fit_prefix, fit_prefix_exec, concat,
    url_encode_component, percent_encode, decimal, decimal_spec,
};

verus! {

/// Lowest plugin version (major, minor) the app is willing to WRITE through.
pub const EXPECTED_PLUGIN_VERSION: (u32, u32) = (0, 1);

/// The first two dot-separated pieces of a trimmed version string (the
/// second absent when there is no dot).
pub open spec fn version_pieces(v: Seq<char>) -> (Seq<char>, Option<Seq<char>>) {
    let t = trim(v);
    let i = index_of_char(t, '.');
    if i < t.len() {
        let rest = t.skip(i + 1int);
        (t.take(i as int), Some(rest.take(index_of_char(rest, '.') as int)))
    } else {
        (t, None)
    }
}

/// Every `.`-separated field of `s` parses as a `u32` (so `s` has at least
/// one field, and none is empty).
pub open spec fn version_fields_parse(s: Seq<char>) -> bool
    decreases s.len(),
{
    let i = index_of_char(s, '.');
    if i < s.len() {
        parse_u32_spec(s.take(i as int)) is Some && version_fields_parse(s.skip(i + 1int))
    } else {
        parse_u32_spec(s) is Some
    }
}

/// `version`, trimmed, is "major[.minor[...]]" with every field a `u32`,
/// and `(major, minor)` is at least [`EXPECTED_PLUGIN_VERSION`], a missing
/// minor counting as 0.
pub open spec fn version_compatible_spec(version: Seq<char>) -> bool {
    let pieces = version_pieces(version);
    version_fields_parse(trim(version)) && match parse_u32_spec(pieces.0) {
        None => false,
        Some(major) => {
            let minor: u32 = match pieces.1 {
                Some(p) => match parse_u32_spec(p) {
                    Some(m) => m,
                    None => 0,
                },
                None => 0,
            };
            major > EXPECTED_PLUGIN_VERSION.0 || (major == EXPECTED_PLUGIN_VERSION.0 && minor
                >= EXPECTED_PLUGIN_VERSION.1)
        },
    }
}

fn fields_parse(t: &Vec<char>) -> (r: bool)
    ensures
        r == version_fields_parse(t@),
{
    let mut start: usize = 0;
    assert(t@.skip(0) =~= t@);
    loop
        invariant
            start <= t.len(),
            version_fields_parse(t@) == version_fields_parse(t@.skip(start as int)),
        decreases t.len() - start,
    {
        let rest = slice_chars(t, start, t.len());
        assert(rest@ =~= t@.skip(start as int));
        let i = index_of_char_exec(&rest, '.');
        let piece = slice_chars(&rest, 0, i);
        proof {
            assert(piece@ =~= rest@.take(i as int));
            if i >= rest.len() {
                assert(rest@.take(i as int) =~= rest@);
            }
        }
        if parse_u32(&piece).is_none() {
            return false;
        }
        if i >= rest.len() {
            return true;
        }
        assert(rest@.skip(i + 1) =~= t@.skip(start + i + 1));
        start = start + i + 1;
    }
}

/// True when `version` ("major.minor.patch") is at least
/// `EXPECTED_PLUGIN_VERSION`. Unparsable versions are incompatible.
pub fn plugin_version_compatible(version: &str) -> (b: bool)
    ensures
        b == version_compatible_spec(version@),
{
    let v = chars_of(version);
    let t = trim_chars(&v);
    if !fields_parse(&t) {
        return false;
    }
    let i = index_of_char_exec(&t, '.');
    let p0 = slice_chars(&t, 0, i);
    proof {
        assert(p0@ =~= t@.take(i as int));
        if i >= t.len() {
            assert(t@.take(i as int) =~= t@);
        }
    }
    let major = match parse_u32(&p0) {
        Some(m) => m,
        None => return false,
    };
    let minor: u32 = if i < t.len() {
        let rest = slice_chars(&t, i + 1, t.len());
        assert(rest@ =~= t@.skip(i + 1));
        let j = index_of_char_exec(&rest, '.');
        let p1 = slice_chars(&rest, 0, j);
        assert(p1@ =~= rest@.take(j as int));
        match parse_u32(&p1) {
            Some(m) => m,
            None => 0,
        }
    } else {
        0
    };
    major > EXPECTED_PLUGIN_VERSION.0 || (major == EXPECTED_PLUGIN_VERSION.0 && minor
        >= EXPECTED_PLUGIN_VERSION.1)
}

/// Extracted PDF text served by `/zotero-notebook/fulltext`.
#[derive(Debug, Clone, PartialEq)]
pub struct Fulltext {
    pub text: String,
    /// Total extracted length before truncation.
    pub chars: usize,
    pub truncated: bool,
}

/// Result of an additive write-back (`/zotero-notebook/update-item`).
#[derive(Debug, Clone, PartialEq)]
pub struct UpdateItemResult {
    pub ok: bool,
    pub wrote_abstract: bool,
    pub added_tags: Vec<String>,
    pub note_key: Option<String>,
}

/// The full text of a successful `/fulltext` answer: absent when the plugin
/// sent no text or only white space.
pub fn fulltext_from(text: Option<String>, chars: usize, truncated: bool) -> (r: Option<Fulltext>)
    ensures
        match text {
            Some(t) => if trim(t@).len() == 0 {
                r is None
            } else {
                r == Some(Fulltext { text: t, chars, truncated })
            },
            None => r is None,
        },
{
    match text {
        Some(t) => {
            let trimmed = trim_str(t.as_str());
            if trimmed.as_str().is_empty() {
                None
            } else {
                Some(Fulltext { text: t, chars, truncated })
            }
        },
        None => None,
    }
}

/// Longest error body quoted in a rejection, in UTF-8 bytes.
pub const ERROR_SNIPPET_BYTES: usize = 200;

/// `s` trimmed and, when longer than `max` UTF-8 bytes, cut at the last
/// character that fits and ended with an ellipsis.
pub open spec fn truncate_spec(s: Seq<char>, max: nat) -> Seq<char> {
    let t = trim(s);
    if utf8_len(t) <= max {
        t
    } else {
        t.take(fit_prefix(t, max) as int).push('\u{2026}')
    }
}

/// Trims `s` and cuts it to at most `max` UTF-8 bytes at a character
/// boundary, marking the cut with an ellipsis.
fn truncate(s: &str, max: usize) -> (r: String)
    requires
        max <= usize::MAX - 4,
    ensures
        r@ == truncate_spec(s@, max as nat),
{
    let v = chars_of(s);
    let t = trim_chars(&v);
    let (n, fits) = fit_prefix_exec(&t, max);
    if fits {
        string_of(&t)
    } else {
        proof {
            crate::text::lemma_fit_prefix_le(t@, max as nat);
        }
        let mut p = slice_chars(&t, 0, n);
        p.push('\u{2026}');
        string_of(&p)
    }
}

/// `e` is the error for a failed plugin request with HTTP `status`, body
/// `body`, and `field` the body's `error` string when the body is a JSON
/// object carrying one: the plugin's own message when there is one; else a
/// 404 from Zotero's server means the route (the plugin) is missing; else
/// the start of the body is quoted.
pub open spec fn is_plugin_error(e: Error, status: u16, field: Option<String>, body: Seq<char>) -> bool {
    match field {
        Some(m) => e == Error::ZoteroRejected { status, message: m },
        None => if status == 404 {
            e == Error::PluginMissing
        } else {
            e matches Error::ZoteroRejected { status: s, message } && s == status && message@
                == truncate_spec(body, ERROR_SNIPPET_BYTES as nat)
        },
    }
}

/// Distinguish "the plugin answered with an error" (JSON `{"error"}`)
/// from "Zotero answered but the plugin route does not exist" (HTML or
/// plain-text body from Zotero's own server).
pub fn classify_error(status: u16, error_field: Option<String>, body: &str) -> (e: Error)
    ensures
        is_plugin_error(e, status, error_field, body@),
{
    match error_field {
        Some(m) => Error::ZoteroRejected { status, message: m },
        None => if status == 404 {
            Error::PluginMissing
        } else {
            Error::ZoteroRejected { status, message: truncate(body, ERROR_SNIPPET_BYTES) }
        },
    }
}

/// Outcome of a failed `/fulltext` request: a plugin without the route
/// (pre-1.2) means "no full text", anything else is an error.
pub fn fulltext_failure(status: u16, error_field: Option<String>, body: &str) -> (r: Result<Option<Fulltext>>)
    ensures
        (r == Ok::<Option<Fulltext>, Error>(None)) <==> (error_field is None && status == 404),
        r matches Err(e) ==> is_plugin_error(e, status, error_field, body@),
{
    match classify_error(status, error_field, body) {
        Error::PluginMissing => Ok(None),
        e => Err(e),
    }
}

/// Outcome of `/ping`: the (plugin version, Zotero version) pair when the
/// request succeeded and its body parsed; otherwise the plugin is missing.
pub fn ping_result(success: bool, versions: Option<(String, String)>) -> (r: Result<(String, String)>)
    ensures
        success && versions is Some ==> r == Ok::<(String, String), Error>(versions->0),
        !(success && versions is Some) ==> r == Err::<(String, String), Error>(Error::PluginMissing),
{
    if !success {
        return Err(Error::PluginMissing);
    }
    match versions {
        Some(v) => Ok(v),
        None => Err(Error::PluginMissing),
    }
}

/// The message of a request that timed out after connecting.
pub open spec fn timeout_message(detail: Seq<char>) -> Seq<char> {
    "the request to Zotero timed out ("@ + detail
        + ") \u{2014} the library may be very large or the disk slow; try again"@
}

/// The error for a request that got no answer. Only connect-phase failures
/// mean Zotero is not running; a read timeout means Zotero is there but
/// slow; anything else is a transport error.
pub fn connection_error(base_url: &str, is_connect: bool, is_timeout: bool, detail: &str) -> (e: Error)
    ensures
        is_connect ==> (e matches Error::ZoteroOffline(u) && u@ == base_url@),
        !is_connect && is_timeout ==> (e matches Error::Other(m) && m@ == timeout_message(detail@)),
        !is_connect && !is_timeout ==> (e matches Error::Http(d) && d@ == detail@),
{
    if is_connect {
        Error::ZoteroOffline(base_url.to_owned())
    } else if is_timeout {
        let a = concat("the request to Zotero timed out (", detail);
        Error::Other(concat(a.as_str(), ") \u{2014} the library may be very large or the disk slow; try again"))
    } else {
        Error::Http(detail.to_owned())
    }
}

/// A library as served by the plugin: writable.
pub fn mark_writable(library: Library) -> (r: Library)
    ensures
        r == (Library { writable: true, ..library }),
{
    let mut library = library;
    library.writable = true;
    library
}

/// The result of a successful `/move-item` for `item_key`.
pub fn move_result_from(item_key: &str, ok: bool, collection_key: Option<String>, new_file_path: Option<String>) -> (r: MoveResult)
    ensures
        r.item_key@ == item_key@,
        r.ok == ok,
        r.error is None,
        r.collection_key == collection_key,
        r.new_file_path == new_file_path,
{
    MoveResult { item_key: item_key.to_owned(), ok, error: None, collection_key, new_file_path }
}

// ── URLs ────────────────────────────────────────────────────────────────

/// `s` without trailing `c` characters (`str::trim_end_matches`).
pub open spec fn trim_end_char(s: Seq<char>, c: char) -> Seq<char>
    decreases s.len(),
{
    if s.len() > 0 && s.last() == c {
        trim_end_char(s.drop_last(), c)
    } else {
        s
    }
}

/// The plugin's base URL without trailing slashes.
pub fn plugin_base_url(base_url: &str) -> (r: String)
    ensures
        r@ == trim_end_char(base_url@, '/'),
{
    let v = chars_of(base_url);
    let mut n = v.len();
    assert(v@.take(n as int) =~= v@);
    while n > 0 && v[n - 1] == '/'
        invariant
            n <= v.len(),
            trim_end_char(v@, '/') == trim_end_char(v@.take(n as int), '/'),
        decreases n,
    {
        assert(v@.take(n as int).drop_last() =~= v@.take(n - 1));
        n -= 1;
    }
    let p = slice_chars(&v, 0, n);
    proof {
        assert(v@.take(v.len() as int) =~= v@);
        assert(p@ =~= v@.take(n as int));
    }
    string_of(&p)
}

/// `{base}/zotero-notebook/{route}`.
pub fn plugin_url(base: &str, route: &str) -> (r: String)
    ensures
        r@ == base@ + "/zotero-notebook/"@ + route@,
{
    let a = concat(base, "/zotero-notebook/");
    concat(a.as_str(), route)
}

/// The `/fulltext` URL for an item, asking for at most `max_chars` characters.
pub fn fulltext_url(base: &str, item_key: &str, max_chars: u64) -> (r: String)
    ensures
        r@ == base@ + "/zotero-notebook/fulltext?itemKey="@ + percent_encode(
            vstd::utf8::encode_utf8(item_key@),
            false,
        ) + "&maxChars="@ + decimal_spec(max_chars as nat),
{
    let a = concat(base, "/zotero-notebook/fulltext?itemKey=");
    let b = concat(a.as_str(), url_encode_component(item_key).as_str());
    let c = concat(b.as_str(), "&maxChars=");
    concat(c.as_str(), decimal(max_chars).as_str())
}

// ── Status probe ────────────────────────────────────────────────────────

/// Hint shown when nothing answers on the Zotero port.
pub const OFFLINE_HINT: &'static str = "Start Zotero to connect.";

/// Hint shown when Zotero answers but the plugin does not.
pub const NO_PLUGIN_HINT: &'static str = "Zotero is running, but the Zotero Notebook plugin is not installed. Install it from Settings to enable AI classification and file moves.";

/// The status after the plugin ping, or `None` when something answered on
/// the port but not the plugin, so that Zotero's own API must be probed.
pub fn status_from_ping(ping: Result<(String, String)>) -> (r: Option<ZoteroStatus>)
    ensures
        match ping {
            Ok(v) => r == Some(ZoteroStatus {
                running: true,
                plugin_installed: true,
                plugin_version: Some(v.0),
                hint: None,
            }),
            Err(Error::ZoteroOffline(_)) => r matches Some(s) && !s.running && !s.plugin_installed
                && s.plugin_version is None && opt_view(s.hint) == Some(OFFLINE_HINT@),
            Err(_) => r is None,
        },
{
    match ping {
        Ok((plugin_version, _zotero_version)) => Some(ZoteroStatus {
            running: true,
            plugin_installed: true,
            plugin_version: Some(plugin_version),
            hint: None,
        }),
        Err(Error::ZoteroOffline(_)) => Some(ZoteroStatus {
            running: false,
            plugin_installed: false,
            plugin_version: None,
            hint: Some(OFFLINE_HINT.to_owned()),
        }),
        Err(_) => None,
    }
}

/// The status once Zotero's own API was probed: running without the
/// plugin when it answered, offline otherwise.
pub fn status_from_local_ping(reachable: bool) -> (s: ZoteroStatus)
    ensures
        s.running == reachable,
        !s.plugin_installed,
        s.plugin_version is None,
        opt_view(s.hint) == Some(if reachable { NO_PLUGIN_HINT@ } else { OFFLINE_HINT@ }),
{
    if reachable {
        ZoteroStatus {
            running: true,
            plugin_installed: false,
            plugin_version: None,
            hint: Some(NO_PLUGIN_HINT.to_owned()),
        }
    } else {
        ZoteroStatus {
            running: false,
            plugin_installed: false,
            plugin_version: None,
            hint: Some(OFFLINE_HINT.to_owned()),
        }
    }
}

} // verus!
