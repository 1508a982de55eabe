//! Decisions behind the app's commands: finding an item, which memberships
//! a move drops, the plugin-version gate for writes, what a summary was
//! based on, reading-state bookkeeping, sidecar-table details and the
//! freshness of cached citation graphs.

use vstd::prelude::*;
use crate::error::{Error, Result};
use crate::models::{
    Item, Library, Collection, SummarySource, ReadingStatus, ReadingState, UNCLASSIFIED_COLLECTION,
    views, status_name, opt_view, ProviderId, AppSettings, ProgressEvent, MoveResult, provider_name,
};
use crate::zotero::plugin_api::Fulltext;
use crate::text::{
    chars_of, trim, trim_chars, trim_str, concat, eq_ascii_ci, eq_ascii_ci_chars, contains_seq, contains_exec,
};
use crate::zotero::plugin_api::{plugin_version_compatible, version_compatible_spec};

verus! {

/// Index of the first item with key `key`.
pub open spec fn find_item_index(items: Seq<Item>, key: Seq<char>) -> Option<int>
    decreases items.len(),
{
    if items.len() == 0 {
        None
    } else {
        match find_item_index(items.drop_last(), key) {
            Some(i) => Some(i),
            None => if items.last().key@ == key {
                Some(items.len() - 1)
            } else {
                None
            },
        }
    }
}

/// The library's item with key `key` (the first, should keys repeat).
pub fn find_item(library: &Library, item_key: &str) -> (r: Result<Item>)
    ensures
        match find_item_index(library.items@, item_key@) {
            Some(i) => r matches Ok(it) && crate::models::same_item(it, library.items@[i]),
            None => r matches Err(Error::Other(m)) && m@ == "item "@ + item_key@
                + " not found in the library"@,
        },
{
    let mut i: usize = 0;
    while i < library.items.len()
        invariant
            i <= library.items.len(),
            find_item_index(library.items@.take(i as int), item_key@) is None,
        decreases library.items.len() - i,
    {
        proof {
            assert(library.items@.take(i + 1).drop_last() =~= library.items@.take(i as int));
        }
        if crate::models::chars_eq(&chars_of(library.items[i].key.as_str()), item_key) {
            proof {
                lemma_find_item_prefix(library.items@, item_key@, i + 1);
            }
            return Ok(crate::models::clone_item(&library.items[i]));
        }
        i += 1;
    }
    assert(library.items@.take(library.items.len() as int) =~= library.items@);
    let a = concat("item ", item_key);
    Err(Error::Other(concat(a.as_str(), " not found in the library")))
}

proof fn lemma_find_item_prefix(items: Seq<Item>, key: Seq<char>, n: int)
    requires
        0 < n <= items.len(),
        find_item_index(items.take(n), key) is Some,
    ensures
        find_item_index(items, key) == find_item_index(items.take(n), key),
    decreases items.len() - n,
{
    if n < items.len() {
        assert(items.take(n + 1).drop_last() =~= items.take(n));
        lemma_find_item_prefix(items, key, n + 1);
    } else {
        assert(items.take(n) =~= items);
    }
}

/// A top-level collection named "Unclassified" (trimmed, ASCII case ignored).
pub open spec fn is_unclassified_root(c: Collection) -> bool {
    c.parent_key is None && eq_ascii_ci(trim(c.name@), UNCLASSIFIED_COLLECTION@)
}

/// The keys of the top-level "Unclassified" collections, in order.
pub open spec fn unclassified_keys_spec(cols: Seq<Collection>) -> Seq<Seq<char>>
    decreases cols.len(),
{
    if cols.len() == 0 {
        seq![]
    } else {
        let rest = unclassified_keys_spec(cols.drop_last());
        if is_unclassified_root(cols.last()) {
            rest.push(cols.last().key@)
        } else {
            rest
        }
    }
}

/// The keys of the library's top-level "Unclassified" collections.
pub fn unclassified_keys(library: &Library) -> (r: Vec<String>)
    ensures
        views(r@) == unclassified_keys_spec(library.collections@),
{
    let cols = &library.collections;
    let target = chars_of(UNCLASSIFIED_COLLECTION);
    let mut r: Vec<String> = Vec::new();
    let mut i: usize = 0;
    while i < cols.len()
        invariant
            i <= cols.len(),
            target@ == UNCLASSIFIED_COLLECTION@,
            views(r@) == unclassified_keys_spec(cols@.take(i as int)),
        decreases cols.len() - i,
    {
        assert(cols@.take(i + 1).drop_last() =~= cols@.take(i as int));
        let c = &cols[i];
        if c.parent_key.is_none() && eq_ascii_ci_chars(&trim_chars(&chars_of(c.name.as_str())), &target) {
            let ghost before = r@;
            r.push(c.key.clone());
            assert(views(r@) =~= views(before).push(c.key@));
        }
        i += 1;
    }
    assert(cols@.take(cols.len() as int) =~= cols@);
    r
}

/// `keys` with `k` appended unless already present.
pub open spec fn add_unique(keys: Seq<Seq<char>>, k: Seq<char>) -> Seq<Seq<char>> {
    if keys.contains(k) {
        keys
    } else {
        keys.push(k)
    }
}

/// `base` followed by the keys of `extra` not already listed.
pub open spec fn removal_spec(base: Seq<Seq<char>>, extra: Seq<Seq<char>>) -> Seq<Seq<char>>
    decreases extra.len(),
{
    if extra.len() == 0 {
        base
    } else {
        add_unique(removal_spec(base, extra.drop_last()), extra.last())
    }
}

fn contains_key(keys: &Vec<String>, k: &String) -> (r: bool)
    ensures
        r == views(keys@).contains(k@),
{
    let kv = chars_of(k.as_str());
    let mut i: usize = 0;
    while i < keys.len()
        invariant
            i <= keys.len(),
            kv@ == k@,
            forall|q: int| 0 <= q < i ==> keys@[q]@ != k@,
        decreases keys.len() - i,
    {
        if crate::models::chars_eq(&kv, keys[i].as_str()) {
            assert(views(keys@)[i as int] == k@);
            return true;
        }
        i += 1;
    }
    proof {
        if views(keys@).contains(k@) {
            let q = choose|q: int| 0 <= q < views(keys@).len() && views(keys@)[q] == k@;
            assert(keys@[q]@ == k@);
        }
    }
    false
}

/// The memberships a move drops: always the Unclassified collections, plus
/// the keys the decision lists (the audit flow's current filing), each once.
pub fn removal_keys(unclassified: &Vec<String>, extra: &Vec<String>) -> (r: Vec<String>)
    ensures
        views(r@) == removal_spec(views(unclassified@), views(extra@)),
{
    let mut r: Vec<String> = crate::models::clone_strings(unclassified);
    let ghost base = views(unclassified@);
    let ghost ex = views(extra@);
    let mut i: usize = 0;
    while i < extra.len()
        invariant
            i <= extra.len(),
            base == views(unclassified@),
            ex == views(extra@),
            views(r@) == removal_spec(base, ex.take(i as int)),
        decreases extra.len() - i,
    {
        assert(ex.take(i + 1).drop_last() =~= ex.take(i as int));
        assert(ex.take(i + 1).last() == extra@[i as int]@);
        if !contains_key(&r, &extra[i]) {
            let ghost before = r@;
            r.push(extra[i].clone());
            assert(views(r@) =~= views(before).push(extra@[i as int]@));
        }
        i += 1;
    }
    assert(ex.take(extra.len() as int) =~= ex);
    r
}

/// A move drops every Unclassified membership and every membership the
/// decision names, and lists none twice when its inputs list none twice.
pub proof fn law_removal_covers(base: Seq<Seq<char>>, extra: Seq<Seq<char>>)
    requires
        base.no_duplicates(),
    ensures
        removal_spec(base, extra).len() >= base.len(),
        removal_spec(base, extra).take(base.len() as int) == base,
        forall|k: Seq<char>| extra.contains(k) ==> #[trigger] removal_spec(base, extra).contains(k),
        removal_spec(base, extra).no_duplicates(),
        forall|k: Seq<char>| #[trigger] removal_spec(base, extra).contains(k) ==> base.contains(k) || extra.contains(k),
    decreases extra.len(),
{
    if extra.len() == 0 {
        assert(base.take(base.len() as int) =~= base);
    } else {
        let prev = removal_spec(base, extra.drop_last());
        law_removal_covers(base, extra.drop_last());
        let k = extra.last();
        if !prev.contains(k) {
            assert(prev.push(k).take(base.len() as int) =~= prev.take(base.len() as int));
            assert forall|j: Seq<char>| extra.contains(j) implies #[trigger] prev.push(k).contains(j) by {
                if j != k {
                    let q = choose|q: int| 0 <= q < extra.len() && extra[q] == j;
                    assert(extra.drop_last()[q] == j);
                    assert(extra.drop_last().contains(j));
                    assert(prev.contains(j));
                    let p = choose|p: int| 0 <= p < prev.len() && prev[p] == j;
                    assert(prev.push(k)[p] == j);
                } else {
                    assert(prev.push(k)[prev.len() as int] == k);
                }
            }
            assert forall|j: Seq<char>| #[trigger] prev.push(k).contains(j) implies base.contains(j)
                || extra.contains(j) by {
                let p = choose|p: int| 0 <= p < prev.push(k).len() && prev.push(k)[p] == j;
                if p < prev.len() {
                    assert(prev[p] == j);
                    assert(prev.contains(j));
                    if extra.drop_last().contains(j) {
                        let q = choose|q: int| 0 <= q < extra.drop_last().len() && extra.drop_last()[q] == j;
                        assert(extra[q] == j);
                    }
                } else {
                    assert(extra[extra.len() - 1] == j);
                }
            }
        } else {
            assert forall|j: Seq<char>| extra.contains(j) implies #[trigger] prev.contains(j) by {
                if j != k {
                    let q = choose|q: int| 0 <= q < extra.len() && extra[q] == j;
                    assert(extra.drop_last()[q] == j);
                    assert(extra.drop_last().contains(j));
                }
            }
            assert forall|j: Seq<char>| #[trigger] prev.contains(j) implies base.contains(j) || extra.contains(j) by {
                if extra.drop_last().contains(j) {
                    let q = choose|q: int| 0 <= q < extra.drop_last().len() && extra.drop_last()[q] == j;
                    assert(extra[q] == j);
                }
            }
        }
    }
}

/// The message of a write refused to a plugin older than expected.
pub open spec fn outdated_plugin_message(version: Seq<char>) -> Seq<char> {
    "the Zotero Notebook plugin (v"@ + version
        + ") is older than this app expects \u{2014} update it from Settings \u{2192} Zotero before applying moves"@
}

/// Writes are gated on a compatible plugin: an older plugin could silently
/// mis-handle the wire format, so refuse instead.
pub fn plugin_write_gate(plugin_version: &str) -> (r: Result<()>)
    ensures
        version_compatible_spec(plugin_version@) ==> r is Ok,
        !version_compatible_spec(plugin_version@) ==> (r matches Err(Error::Other(m)) && m@
            == outdated_plugin_message(plugin_version@)),
{
    if plugin_version_compatible(plugin_version) {
        Ok(())
    } else {
        let a = concat("the Zotero Notebook plugin (v", plugin_version);
        Err(Error::Other(concat(
            a.as_str(),
            ") is older than this app expects \u{2014} update it from Settings \u{2192} Zotero before applying moves",
        )))
    }
}

/// The item has a non-blank abstract.
pub open spec fn has_abstract_spec(item: Item) -> bool {
    item.abstract_text matches Some(a) && trim(a@).len() > 0
}

/// Whether the item has a non-blank abstract.
pub fn has_abstract(item: &Item) -> (r: bool)
    ensures
        r == has_abstract_spec(*item),
{
    match &item.abstract_text {
        Some(a) => !trim_str(a.as_str()).as_str().is_empty(),
        None => false,
    }
}

/// What a summary was based on: the full text when an excerpt was sent,
/// else the abstract when there was one, else the metadata alone.
pub fn summary_source(has_body: bool, has_abstract: bool) -> (s: SummarySource)
    ensures
        s == (if has_body {
            SummarySource::Fulltext
        } else if has_abstract {
            SummarySource::Abstract
        } else {
            SummarySource::Metadata
        }),
{
    if has_body {
        SummarySource::Fulltext
    } else if has_abstract {
        SummarySource::Abstract
    } else {
        SummarySource::Metadata
    }
}

/// The new reading state of an item: status, star and (trimmed) note are
/// independent; when all three are empty the item is untracked (`None`,
/// its row is deleted).
pub fn reading_state_update(item_key: String, status: Option<ReadingStatus>, starred: bool, note: &str, updated_at: String) -> (r: Option<ReadingState>)
    ensures
        status is None && !starred && trim(note@).len() == 0 ==> r is None,
        !(status is None && !starred && trim(note@).len() == 0) ==> (r matches Some(s) && s.item_key
            == item_key && s.status == status && s.starred == starred && s.note@ == trim(note@)
            && s.updated_at == updated_at),
{
    let note = trim_str(note);
    if status.is_none() && !starred && note.as_str().is_empty() {
        return None;
    }
    Some(ReadingState { item_key, status, starred, note, updated_at })
}

/// The `status` column of a reading state: its storage name, or empty.
pub fn status_column(status: Option<ReadingStatus>) -> (r: &'static str)
    ensures
        r@ == match status {
            Some(s) => status_name(s),
            None => ""@,
        },
{
    match status {
        Some(s) => s.as_str(),
        None => "",
    }
}

/// The legacy `had_abstract` column, kept coherent with the source.
pub fn had_abstract_column(source: SummarySource) -> (r: bool)
    ensures
        r == (source != SummarySource::Metadata),
{
    source != SummarySource::Metadata
}

/// A failed column migration is harmless when the column already exists.
pub fn benign_migration_error(message: &str) -> (r: bool)
    ensures
        r == contains_seq(message@, "duplicate column name"@),
{
    contains_exec(&chars_of(message), &chars_of("duplicate column name"))
}

/// How long a cached citation graph stays fresh, in days.
pub const CITATION_CACHE_TTL_DAYS: i64 = 14;

/// The instant an RFC 3339 timestamp denotes, in UTC: whole seconds since
/// the Unix epoch and the nanoseconds within that second (from one billion
/// up during a leap second); `None` when it does not parse.
pub uninterp spec fn rfc3339_instant(s: Seq<char>) -> Option<(i64, u32)>;

/// Calls `chrono::DateTime::parse_from_rfc3339` and reads the parsed
/// instant with `timestamp` and `timestamp_subsec_nanos`.
#[verifier::external_body]
fn parse_rfc3339(s: &str) -> (r: Option<(i64, u32)>)
    ensures
        r == rfc3339_instant(s@),
{
    chrono::DateTime::parse_from_rfc3339(s).ok().map(|t| (t.timestamp(), t.timestamp_subsec_nanos()))
}

/// Nanoseconds in a second.
pub const NANOS_PER_SEC: i128 = 1_000_000_000;

/// The correction a leap second makes to the whole seconds between two
/// instants (`ns`, `nf`) and (`ts`, `tf`): the seconds of the later time of
/// day already contain a leap second of the earlier one.
pub open spec fn leap_adjust(ns: int, nf: int, ts: int, tf: int) -> int {
    let ntod = ns % 86400;
    let ttod = ts % 86400;
    if ntod > ttod && tf >= NANOS_PER_SEC {
        1
    } else if ntod < ttod && nf >= NANOS_PER_SEC {
        -1
    } else {
        0
    }
}

/// The time from (`ts`, `tf`) to (`ns`, `nf`), in nanoseconds, as chrono's
/// `signed_duration_since` counts it.
pub open spec fn elapsed_nanos(ns: int, nf: int, ts: int, tf: int) -> int {
    (ns - ts + leap_adjust(ns, nf, ts, tf)) * NANOS_PER_SEC + nf - tf
}

/// A cache stamped `fetched_at` is stale at the instant (`now_secs`,
/// `now_nanos`): at least the TTL in whole days has passed, or the stamp
/// does not parse.
pub open spec fn cache_stale_spec(fetched_at: Seq<char>, now_secs: i64, now_nanos: u32) -> bool {
    match rfc3339_instant(fetched_at) {
        Some((ts, tf)) => elapsed_nanos(now_secs as int, now_nanos as int, ts as int, tf as int)
            >= CITATION_CACHE_TTL_DAYS * 86400 * NANOS_PER_SEC,
        None => true,
    }
}

/// A cached graph fetched at `fetched_at` is stale at the instant
/// (`now_secs` since the Unix epoch, plus `now_nanos`) when at least the
/// TTL has passed, or when the stamp does not parse.
pub fn citation_cache_stale(fetched_at: &str, now_secs: i64, now_nanos: u32) -> (r: bool)
    ensures
        r == cache_stale_spec(fetched_at@, now_secs, now_nanos),
{
    match parse_rfc3339(fetched_at) {
        Some((ts, tf)) => {
            let ntod = (now_secs as i128) % 86400;
            let ntod = if ntod < 0 { ntod + 86400 } else { ntod };
            let ttod = (ts as i128) % 86400;
            let ttod = if ttod < 0 { ttod + 86400 } else { ttod };
            assert(ntod == (now_secs as int) % 86400 && ttod == (ts as int) % 86400);
            let adj: i128 = if ntod > ttod && (tf as i128) >= NANOS_PER_SEC {
                1
            } else if ntod < ttod && (now_nanos as i128) >= NANOS_PER_SEC {
                -1
            } else {
                0
            };
            let secs: i128 = (now_secs as i128) - (ts as i128) + adj;
            let elapsed: i128 = secs * NANOS_PER_SEC + (now_nanos as i128) - (tf as i128);
            elapsed >= (CITATION_CACHE_TTL_DAYS as i128) * 86400 * NANOS_PER_SEC
        },
        None => true,
    }
}

/// Most characters of a paper's extracted text sent for a full-text
/// summary or chat.
pub const BODY_MAX_CHARS: usize = 80000;

/// The provider a command uses: the requested one, else the default.
pub fn chosen_provider(requested: Option<ProviderId>, default: ProviderId) -> (p: ProviderId)
    ensures
        p == match requested {
            Some(r) => r,
            None => default,
        },
{
    match requested {
        Some(r) => r,
        None => default,
    }
}

/// The API key a provider client is built with, from what the keychain
/// answered: local servers need none (a stored one is forwarded, a
/// keychain failure ignored); the cloud providers need one.
pub fn provider_key(id: ProviderId, stored: Result<Option<String>>) -> (r: Result<Option<String>>)
    ensures
        id == ProviderId::Local ==> r == Ok::<Option<String>, Error>(match stored {
            Ok(k) => k,
            Err(_) => None,
        }),
        id != ProviderId::Local ==> match stored {
            Ok(Some(k)) => r == Ok::<Option<String>, Error>(Some(k)),
            Ok(None) => r matches Err(Error::MissingApiKey(n)) && n@ == provider_name(id),
            Err(e) => r == Err::<Option<String>, Error>(e),
        },
{
    if id == ProviderId::Local {
        return Ok(match stored {
            Ok(k) => k,
            Err(_) => None,
        });
    }
    match stored {
        Ok(Some(k)) => Ok(Some(k)),
        Ok(None) => Err(Error::MissingApiKey(id.as_str().to_owned())),
        Err(e) => Err(e),
    }
}

/// The configured model of a provider.
pub fn model_for(id: ProviderId, settings: &AppSettings) -> (m: String)
    ensures
        m == match id {
            ProviderId::Gemini => settings.gemini_model,
            ProviderId::Anthropic => settings.anthropic_model,
            ProviderId::Local => settings.local_model,
        },
{
    match id {
        ProviderId::Gemini => settings.gemini_model.clone(),
        ProviderId::Anthropic => settings.anthropic_model.clone(),
        ProviderId::Local => settings.local_model.clone(),
    }
}

/// The plugin's library request failed because the plugin is missing, so
/// the read-only local API is used instead.
pub fn use_local_fallback(plugin_result: &Result<Library>) -> (r: bool)
    ensures
        r == (*plugin_result matches Err(Error::PluginMissing)),
{
    match plugin_result {
        Err(Error::PluginMissing) => true,
        _ => false,
    }
}

/// The progress event sent when item `done` (0-based) of `total` starts.
pub fn progress_running(done: usize, total: usize, item_key: &str, message: Option<String>) -> (p: ProgressEvent)
    ensures
        p.done == done,
        p.total == total,
        opt_view(p.item_key) == Some(item_key@),
        p.state@ == "running"@,
        p.message == message,
{
    ProgressEvent { done, total, item_key: Some(item_key.to_owned()), state: "running".to_owned(), message }
}

/// The progress event sent when item `done - 1` of `total` finished, well
/// or not; a batch goes on after a failed item.
pub fn progress_finished(done: usize, total: usize, item_key: &str, ok: bool, message: Option<String>) -> (p: ProgressEvent)
    ensures
        p.done == done,
        p.total == total,
        opt_view(p.item_key) == Some(item_key@),
        p.state@ == (if ok { "ok"@ } else { "error"@ }),
        p.message == message,
{
    ProgressEvent {
        done,
        total,
        item_key: Some(item_key.to_owned()),
        state: if ok { "ok".to_owned() } else { "error".to_owned() },
        message,
    }
}

/// The result recorded for a move that failed with `e`.
pub fn move_failure(item_key: &str, e: &Error) -> (r: MoveResult)
    ensures
        r.item_key@ == item_key@,
        !r.ok,
        opt_view(r.error) == Some(crate::error::message_spec(*e)),
        r.collection_key is None,
        r.new_file_path is None,
{
    MoveResult {
        item_key: item_key.to_owned(),
        ok: false,
        error: Some(e.to_string()),
        collection_key: None,
        new_file_path: None,
    }
}

/// Approved tags ride along with a move only when it succeeded.
pub fn tags_follow_move(result: &MoveResult, add_tags: &Vec<String>) -> (r: bool)
    ensures
        r == (result.ok && add_tags@.len() > 0),
{
    result.ok && add_tags.len() > 0
}

/// The extracted text of a full-text request, when there is any; a failed
/// request counts as none.
pub fn body_excerpt(outcome: Result<Option<Fulltext>>) -> (r: Option<String>)
    ensures
        r == match outcome {
            Ok(Some(f)) => Some(f.text),
            _ => None,
        },
{
    match outcome {
        Ok(Some(f)) => Some(f.text),
        _ => None,
    }
}

/// Message of an audit of an item that is not filed anywhere yet.
pub const NOT_CLASSIFIED: &'static str = "not classified yet \u{2014} use the Unclassified flow";

/// A cached citation graph is used unless a refresh was asked for or the
/// cache is stale at the instant (`now_secs`, `now_nanos`).
pub fn use_cached_graph(refresh: bool, fetched_at: &str, now_secs: i64, now_nanos: u32) -> (r: bool)
    ensures
        r == (!refresh && !cache_stale_spec(fetched_at@, now_secs, now_nanos)),
{
    !refresh && !citation_cache_stale(fetched_at, now_secs, now_nanos)
}

/// A chat turn needs a conversation to answer.
pub fn check_history(history: &Vec<crate::models::ChatMessage>) -> (r: Result<()>)
    ensures
        history@.len() == 0 ==> (r matches Err(Error::Other(m)) && m@ == "the conversation is empty"@),
        history@.len() > 0 ==> r is Ok,
{
    if history.len() == 0 {
        return Err(Error::Other("the conversation is empty".to_owned()));
    }
    Ok(())
}

/// Message of an item without a PDF on disk.
pub const NO_PDF: &'static str = "this item has no PDF file on disk";

/// The path of an item's PDF, or the error that it has none.
pub fn pdf_path(item: &Item) -> (r: Result<String>)
    ensures
        match item.attachment {
            Some(a) => match a.file_path {
                Some(p) => r == Ok::<String, Error>(p),
                None => r matches Err(Error::Other(m)) && m@ == NO_PDF@,
            },
            None => r matches Err(Error::Other(m)) && m@ == NO_PDF@,
        },
{
    match &item.attachment {
        Some(a) => match &a.file_path {
            Some(p) => Ok(p.clone()),
            None => Err(Error::Other(NO_PDF.to_owned())),
        },
        None => Err(Error::Other(NO_PDF.to_owned())),
    }
}

/// The `zotero://` link that selects an item in Zotero.
pub fn zotero_select_url(item_key: &str) -> (r: String)
    ensures
        r@ == "zotero://select/library/items/"@ + item_key@,
{
    concat("zotero://select/library/items/", item_key)
}

/// The per-item result of a bulk tag addition.
pub fn tag_result(item_key: &str, outcome: Result<crate::zotero::plugin_api::UpdateItemResult>) -> (r: MoveResult)
    ensures
        r.item_key@ == item_key@,
        r.ok == outcome is Ok,
        match outcome {
            Ok(_) => r.error is None,
            Err(e) => opt_view(r.error) == Some(crate::error::message_spec(e)),
        },
        r.collection_key is None,
        r.new_file_path is None,
{
    match outcome {
        Ok(_) => MoveResult {
            item_key: item_key.to_owned(),
            ok: true,
            error: None,
            collection_key: None,
            new_file_path: None,
        },
        Err(e) => move_failure(item_key, &e),
    }
}

/// The items that `keys` name, in the order of the keys; a key that names
/// no item is skipped, and each key resolves to its first item.
pub open spec fn selected_items(items: Seq<Item>, keys: Seq<Seq<char>>) -> Seq<Item>
    decreases keys.len(),
{
    if keys.len() == 0 {
        Seq::empty()
    } else {
        let rest = selected_items(items, keys.drop_last());
        match find_item_index(items, keys.last()) {
            Some(i) => rest.push(items[i]),
            None => rest,
        }
    }
}

/// Two item lists that agree item by item.
pub open spec fn same_items(a: Seq<Item>, b: Seq<Item>) -> bool {
    &&& a.len() == b.len()
    &&& forall|i: int| 0 <= i < a.len() ==> crate::models::same_item(#[trigger] a[i], b[i])
}

/// The papers a multi-paper chat turn is about: the selected keys resolved
/// against the library in the requested order, silently skipping keys that
/// are no longer there. Refuses an empty selection, and a selection of which
/// nothing is left.
pub fn select_items(library: &Library, keys: &Vec<String>) -> (r: Result<Vec<Item>>)
    ensures
        keys@.len() == 0 ==> (r matches Err(Error::Other(m)) && m@ == "no papers selected"@),
        keys@.len() > 0 && selected_items(library.items@, views(keys@)).len() == 0 ==> (r matches Err(
            Error::Other(m),
        ) && m@ == "none of the selected papers are in the library"@),
        keys@.len() > 0 && selected_items(library.items@, views(keys@)).len() > 0 ==> (r matches Ok(v)
            && same_items(v@, selected_items(library.items@, views(keys@)))),
{
    if keys.len() == 0 {
        return Err(Error::Other("no papers selected".to_owned()));
    }
    let mut out: Vec<Item> = Vec::new();
    let mut k: usize = 0;
    while k < keys.len()
        invariant
            k <= keys.len(),
            same_items(out@, selected_items(library.items@, views(keys@.take(k as int)))),
        decreases keys.len() - k,
    {
        proof {
            assert(views(keys@.take(k + 1)).drop_last() =~= views(keys@.take(k as int)));
            assert(views(keys@.take(k + 1)).last() == keys@[k as int]@);
        }
        match find_item(library, keys[k].as_str()) {
            Ok(it) => {
                out.push(it);
            },
            Err(_) => {},
        }
        k += 1;
    }
    assert(keys@.take(keys.len() as int) =~= keys@);
    if out.len() == 0 {
        return Err(Error::Other("none of the selected papers are in the library".to_owned()));
    }
    Ok(out)
}

/// A batch over a list of item keys (summarize, classify, check filing,
/// apply moves): `next` is the position of the key to process next, and
/// the batch is over once it reaches the end of the list.
pub struct BatchRun {
    pub keys: Vec<String>,
    pub next: usize,
}

/// One batch step at position `next` with the current item's outcome `ok`:
/// the position moves past the current key whatever the outcome, and the
/// report names that key and outcome.
pub open spec fn batch_step(keys: Seq<Seq<char>>, next: nat, ok: bool) -> (nat, (Seq<char>, bool)) {
    (next + 1, (keys[next as int], ok))
}

/// A batch run from the start with the outcomes `oks`, one per processed
/// item: the position reached and the (key, outcome) reports, in order.
pub open spec fn batch_trace(keys: Seq<Seq<char>>, oks: Seq<bool>) -> (nat, Seq<(Seq<char>, bool)>)
    decreases oks.len(),
{
    if oks.len() == 0 {
        (0, seq![])
    } else {
        let (n, reports) = batch_trace(keys, oks.drop_last());
        let (n2, report) = batch_step(keys, n, oks.last());
        (n2, reports.push(report))
    }
}

/// Whatever the items' outcomes, a batch processes its keys one at a time
/// in the order given: after `n` items the position is `n` and the reports
/// name the first `n` keys, each once, with their outcomes. A failed item
/// is reported and the batch goes on to the next key.
pub proof fn law_batch_reports_each_key_once(keys: Seq<Seq<char>>, oks: Seq<bool>)
    requires
        oks.len() <= keys.len(),
    ensures
        batch_trace(keys, oks).0 == oks.len(),
        batch_trace(keys, oks).1 == Seq::new(oks.len(), |i: int| (keys[i], oks[i])),
    decreases oks.len(),
{
    if oks.len() > 0 {
        law_batch_reports_each_key_once(keys, oks.drop_last());
        assert(batch_trace(keys, oks).1 =~= Seq::new(oks.len(), |i: int| (keys[i], oks[i])));
    } else {
        assert(batch_trace(keys, oks).1 =~= Seq::new(oks.len(), |i: int| (keys[i], oks[i])));
    }
}

impl BatchRun {
    /// A batch over `keys`, at its start.
    pub fn new(keys: Vec<String>) -> (r: BatchRun)
        ensures
            r.keys@ == keys@,
            r.next == 0,
    {
        BatchRun { keys, next: 0 }
    }

    /// The key to process next, or `None` once every key was processed.
    pub fn current(&self) -> (r: Option<String>)
        ensures
            self.next < self.keys.len() ==> opt_view(r) == Some(self.keys@[self.next as int]@),
            self.next >= self.keys.len() ==> r is None,
    {
        if self.next < self.keys.len() {
            Some(self.keys[self.next].clone())
        } else {
            None
        }
    }

    /// The event announcing that the current key is being processed.
    pub fn started(&self, title: Option<String>) -> (p: ProgressEvent)
        requires
            self.next < self.keys.len(),
        ensures
            p.done == self.next,
            p.total == self.keys.len(),
            opt_view(p.item_key) == Some(self.keys@[self.next as int]@),
            p.state@ == "running"@,
            p.message == title,
    {
        progress_running(self.next, self.keys.len(), self.keys[self.next].as_str(), title)
    }

    /// Records the outcome of the current key and moves to the next one,
    /// after a failure as after a success; returns the event reporting it.
    pub fn finished(&mut self, ok: bool, message: Option<String>) -> (p: ProgressEvent)
        requires
            old(self).next < old(self).keys.len(),
        ensures
            final(self).keys@ == old(self).keys@,
            final(self).next == batch_step(views(old(self).keys@), old(self).next as nat, ok).0,
            opt_view(p.item_key) == Some(batch_step(views(old(self).keys@), old(self).next as nat, ok).1.0),
            p.state@ == (if ok { "ok"@ } else { "error"@ }),
            p.done == final(self).next,
            p.total == old(self).keys.len(),
            p.message == message,
    {
        let p = progress_finished(self.next + 1, self.keys.len(), self.keys[self.next].as_str(), ok, message);
        self.next = self.next + 1;
        p
    }
}

/// The audit request for an item, or the refusal for an item that sits in
/// no collection yet (such items go through the Unclassified flow).
pub fn audit_request_for(item: &Item, library: &Library) -> (r: Result<crate::llm::provider::AuditRequest>)
    ensures
        crate::classify::memberships_spec(views(item.collection_keys@), library.collections@).len() == 0
            ==> (r matches Err(Error::Other(m)) && m@ == NOT_CLASSIFIED@),
        crate::classify::memberships_spec(views(item.collection_keys@), library.collections@).len() > 0
            ==> (r matches Ok(req) && crate::classify::audit_request_of(req, *item, *library)),
{
    match crate::classify::build_audit_request(item, library) {
        Some(req) => Ok(req),
        None => Err(Error::Other(NOT_CLASSIFIED.to_owned())),
    }
}

/// How one filing check is reported: a proposed move as "misplaced", a
/// filing that stays with no message, a failure with its message.
pub fn audit_report(outcome: &Result<Option<crate::models::AuditProposal>>) -> (r: (bool, Option<String>))
    ensures
        match outcome {
            Ok(Some(_)) => r.0 && opt_view(r.1) == Some("misplaced"@),
            Ok(None) => r.0 && r.1 is None,
            Err(e) => !r.0 && opt_view(r.1) == Some(crate::error::message_spec(*e)),
        },
{
    match outcome {
        Ok(Some(_)) => (true, Some("misplaced".to_owned())),
        Ok(None) => (true, None),
        Err(e) => (false, Some(e.to_string())),
    }
}
} // verus!
