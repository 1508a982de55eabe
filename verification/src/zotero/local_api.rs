//! Logic of the read-only fallback client for Zotero 7's built-in local API.
//!
//! Used when the companion plugin is not installed, so the user can at least
//! browse the library. Quirks:
//! - the usable base path is `/api/users/0`;
//! - a 403 means "Allow other applications…" is disabled in Zotero settings;
//! - linked-file attachments may carry an `attachments:` relative path that
//!   cannot be resolved without knowing the base directory — those become
//!   `file_path: None` here (the plugin path resolves them properly).
//!
//! The JSON of the API reaches this module as the plain records below
//! ([`ItemFields`], [`ChildFields`]): each field holds the JSON value when
//! it is a string.

use vstd::prelude::*;
use crate::error::{Error, Result};
use crate::models::{Attachment, Collection, Item, Library, LinkMode, views, opt_view, chars_eq};
use crate::text::{
    chars_of, trim, trim_str, concat, has_prefix, index_of_char, index_of_char_exec, has_prefix_exec, string_of, decimal, decimal_spec,
};
use crate::abstract_lookup::present;

verus! {

/// Items requested per page.
pub const PAGE: usize = 100;

// ── Years in free-form dates ────────────────────────────────────────────

/// The four bytes at `i` are ASCII digits.
pub open spec fn digits4(b: Seq<u8>, i: int) -> bool {
    forall|j: int| i <= j < i + 4 ==> 48 <= #[trigger] b[j] <= 57
}

/// The number the four digits at `i` spell.
pub open spec fn value4(b: Seq<u8>, i: int) -> int {
    (b[i] - 48) * 1000 + (b[i + 1] - 48) * 100 + (b[i + 2] - 48) * 10 + (b[i + 3] - 48)
}

/// A plausible year (1000–2999) is written at `i`.
pub open spec fn year_at(b: Seq<u8>, i: int) -> bool {
    i + 4 <= b.len() && digits4(b, i) && 1000 <= value4(b, i) <= 2999
}

/// The first plausible year at or after byte `i`.
pub open spec fn first_year_from(b: Seq<u8>, i: int) -> Option<int>
    decreases b.len() - i,
{
    if i < 0 || i + 4 > b.len() {
        None
    } else if year_at(b, i) {
        Some(value4(b, i))
    } else {
        first_year_from(b, i + 1)
    }
}

fn year_at_exec(b: &[u8], i: usize) -> (r: Option<i32>)
    requires
        i + 4 <= b.len(),
    ensures
        year_at(b@, i as int) ==> r == Some(value4(b@, i as int) as i32),
        !year_at(b@, i as int) ==> r is None,
{
    let mut j = i;
    while j < i + 4
        invariant
            i <= j <= i + 4,
            i + 4 <= b.len(),
            forall|q: int| i <= q < j ==> 48 <= #[trigger] b@[q] <= 57,
        decreases i + 4 - j,
    {
        if b[j] < 48 || b[j] > 57 {
            return None;
        }
        j += 1;
    }
    let v = (b[i] as u32 - 48) * 1000 + (b[i + 1] as u32 - 48) * 100 + (b[i + 2] as u32 - 48) * 10
        + (b[i + 3] as u32 - 48);
    if 1000 <= v && v <= 2999 {
        Some(v as i32)
    } else {
        None
    }
}

/// The first run of four ASCII digits in `date` that reads as a year
/// between 1000 and 2999, scanning byte by byte; `None` when there is none.
/// Any text is accepted: a window of four ASCII digits always starts and
/// ends on character boundaries, so other characters are simply passed over.
pub fn year_from_date(date: &str) -> (r: Option<i32>)
    ensures
        r == (match first_year_from(vstd::utf8::encode_utf8(date@), 0) {
            Some(y) => Some(y as i32),
            None => None,
        }),
{
    let b = date.as_bytes();
    let ghost bs = b@;
    let mut i: usize = 0;
    while i < b.len() && b.len() - i >= 4
        invariant
            bs == b@,
            bs == vstd::utf8::encode_utf8(date@),
            i <= b.len(),
            first_year_from(bs, 0) == first_year_from(bs, i as int),
        decreases b.len() - i,
    {
        if let Some(y) = year_at_exec(b, i) {
            return Some(y);
        }
        i += 1;
    }
    None
}

// ── Errors and pagination ───────────────────────────────────────────────

/// What Zotero answers to a 403 on the local API.
pub const FORBIDDEN_MESSAGE: &'static str = "Zotero rejected the request. Enable \"Allow other applications on this computer to communicate with Zotero\" in Zotero Settings \u{2192} Advanced.";

/// The error for a request that got no answer: connect failures and
/// timeouts mean Zotero is offline, anything else is a transport error.
pub fn map_send_err(base_url: &str, is_connect: bool, is_timeout: bool, detail: &str) -> (e: Error)
    ensures
        is_connect || is_timeout ==> (e matches Error::ZoteroOffline(u) && u@ == base_url@),
        !(is_connect || is_timeout) ==> (e matches Error::Http(d) && d@ == detail@),
{
    if is_connect || is_timeout {
        Error::ZoteroOffline(base_url.to_owned())
    } else {
        Error::Http(detail.to_owned())
    }
}

/// A 403 means "Allow other applications" is off in Zotero's settings.
pub fn check_forbidden(status: u16) -> (r: Result<()>)
    ensures
        status == 403 ==> (r matches Err(Error::ZoteroRejected { status: s, message }) && s == 403
            && message@ == FORBIDDEN_MESSAGE@),
        status != 403 ==> r is Ok,
{
    if status == 403 {
        return Err(Error::ZoteroRejected { status: 403, message: FORBIDDEN_MESSAGE.to_owned() });
    }
    Ok(())
}

/// Outcome of the connector ping: success, or a rejection with the status.
pub fn ping_outcome(success: bool, status: u16) -> (r: Result<()>)
    ensures
        success ==> r is Ok,
        !success ==> (r matches Err(Error::ZoteroRejected { status: s, message }) && s == status
            && message@ == "unexpected response from Zotero connector ping"@),
{
    if success {
        Ok(())
    } else {
        Err(Error::ZoteroRejected {
            status,
            message: "unexpected response from Zotero connector ping".to_owned(),
        })
    }
}

/// Outcome of one page request with HTTP `status` for `path`: a 403
/// explains the setting, another failure names the path.
pub fn page_status(path: &str, status: u16, success: bool) -> (r: Result<()>)
    ensures
        status == 403 ==> (r matches Err(Error::ZoteroRejected { status: s, message }) && s == 403
            && message@ == FORBIDDEN_MESSAGE@),
        status != 403 && success ==> r is Ok,
        status != 403 && !success ==> (r matches Err(Error::ZoteroRejected { status: s, message })
            && s == status && message@ == "GET "@ + path@ + " failed"@),
{
    check_forbidden(status)?;
    if !success {
        let a = concat("GET ", path);
        return Err(Error::ZoteroRejected { status, message: concat(a.as_str(), " failed") });
    }
    Ok(())
}

/// The URL of the page of `path` starting at `start`.
pub fn page_url(base: &str, path: &str, start: u64) -> (r: String)
    ensures
        r@ == crate::zotero::plugin_api::trim_end_char(base@, '/') + "/api/users/0/"@ + path@ + (if index_of_char(path@, '?') < path@.len() {
            "&"@
        } else {
            "?"@
        }) + "limit=100&start="@ + decimal_spec(start as nat),
{
    let b = crate::zotero::plugin_api::plugin_base_url(base);
    let a = concat(b.as_str(), "/api/users/0/");
    let a = concat(a.as_str(), path);
    let pv = chars_of(path);
    let has_q = index_of_char_exec(&pv, '?') < pv.len();
    let a = concat(a.as_str(), if has_q { "&" } else { "?" });
    let a = concat(a.as_str(), "limit=100&start=");
    concat(a.as_str(), decimal(start).as_str())
}

/// Where the next page starts after a page of `n` entries at `start`, or
/// `None` when that page was the last (shorter than [`PAGE`]).
pub fn next_page_start(start: u64, n: usize) -> (r: Option<u64>)
    requires
        start + n <= u64::MAX,
    ensures
        n < PAGE ==> r is None,
        n >= PAGE ==> r == Some((start + n) as u64),
{
    if n < PAGE {
        None
    } else {
        Some(start + n as u64)
    }
}

// ── Wire records ────────────────────────────────────────────────────────

/// One entry of an item's `creators`: each field its string, when it is one.
#[derive(Debug, Clone)]
pub struct Creator {
    pub name: Option<String>,
    pub first_name: Option<String>,
    pub last_name: Option<String>,
}

/// The `data` of an API item, field by field (each its string, when it is one).
#[derive(Debug, Clone)]
pub struct ItemFields {
    pub title: Option<String>,
    pub item_type: Option<String>,
    pub date: Option<String>,
    pub publication_title: Option<String>,
    pub proceedings_title: Option<String>,
    pub conference_name: Option<String>,
    pub publisher: Option<String>,
    pub doi: Option<String>,
    pub url: Option<String>,
    pub abstract_note: Option<String>,
    pub date_added: Option<String>,
    /// The entries of `creators` (empty when it is not an array).
    pub creators: Vec<Creator>,
    /// The `tag` string of each entry of `tags`.
    pub tags: Vec<Option<String>>,
    /// Each entry of `collections` that is a string.
    pub collections: Vec<Option<String>>,
}

/// A field as the item model keeps it: trimmed, absent when blank.
pub open spec fn field(o: Option<String>) -> Option<Seq<char>> {
    match o {
        Some(s) => present(s@),
        None => None,
    }
}

fn fetch_str(o: &Option<String>) -> (r: Option<String>)
    ensures
        opt_view(r) == field(*o),
{
    match o {
        Some(s) => {
            let t = trim_str(s.as_str());
            if t.as_str().is_empty() {
                None
            } else {
                Some(t)
            }
        },
        None => None,
    }
}

/// The display name of a creator: its `name` trimmed; otherwise first and
/// last name (each trimmed) joined by a space and trimmed, absent when empty.
pub open spec fn creator_name(c: Creator) -> Option<Seq<char>> {
    match c.name {
        Some(n) => Some(trim(n@)),
        None => {
            let first = match c.first_name {
                Some(f) => f@,
                None => seq![],
            };
            let last = match c.last_name {
                Some(l) => l@,
                None => seq![],
            };
            let full = trim(trim(first) + " "@ + trim(last));
            if full.len() == 0 {
                None
            } else {
                Some(full)
            }
        },
    }
}

/// The names of the creators that have one, in order.
pub open spec fn creator_names(cs: Seq<Creator>) -> Seq<Seq<char>>
    decreases cs.len(),
{
    if cs.len() == 0 {
        seq![]
    } else {
        let rest = creator_names(cs.drop_last());
        match creator_name(cs.last()) {
            Some(n) => rest.push(n),
            None => rest,
        }
    }
}

/// The present entries, in order.
pub open spec fn somes(v: Seq<Option<String>>) -> Seq<Seq<char>>
    decreases v.len(),
{
    if v.len() == 0 {
        seq![]
    } else {
        let rest = somes(v.drop_last());
        match v.last() {
            Some(s) => rest.push(s@),
            None => rest,
        }
    }
}

fn some_strings(v: &Vec<Option<String>>) -> (r: Vec<String>)
    ensures
        views(r@) == somes(v@),
{
    let mut r: Vec<String> = Vec::new();
    let mut i: usize = 0;
    while i < v.len()
        invariant
            i <= v.len(),
            views(r@) == somes(v@.take(i as int)),
        decreases v.len() - i,
    {
        assert(v@.take(i + 1).drop_last() =~= v@.take(i as int));
        match &v[i] {
            Some(s) => {
                let ghost before = r@;
                r.push(s.clone());
                assert(views(r@) =~= views(before).push(s@));
            },
            None => {},
        }
        i += 1;
    }
    assert(v@.take(v.len() as int) =~= v@);
    r
}

fn creator_name_exec(c: &Creator) -> (r: Option<String>)
    ensures
        opt_view(r) == creator_name(*c),
{
    match &c.name {
        Some(n) => Some(trim_str(n.as_str())),
        None => {
            let first = match &c.first_name {
                Some(f) => trim_str(f.as_str()),
                None => String::new(),
            };
            let last = match &c.last_name {
                Some(l) => trim_str(l.as_str()),
                None => String::new(),
            };
            proof {
                if c.first_name is None {
                    assert(trim(Seq::<char>::empty()) =~= Seq::<char>::empty());
                }
                if c.last_name is None {
                    assert(trim(Seq::<char>::empty()) =~= Seq::<char>::empty());
                }
            }
            let a = concat(first.as_str(), " ");
            let full = trim_str(concat(a.as_str(), last.as_str()).as_str());
            if full.as_str().is_empty() {
                None
            } else {
                Some(full)
            }
        },
    }
}

fn creator_list(cs: &Vec<Creator>) -> (r: Vec<String>)
    ensures
        views(r@) == creator_names(cs@),
{
    let mut r: Vec<String> = Vec::new();
    let mut i: usize = 0;
    while i < cs.len()
        invariant
            i <= cs.len(),
            views(r@) == creator_names(cs@.take(i as int)),
        decreases cs.len() - i,
    {
        assert(cs@.take(i + 1).drop_last() =~= cs@.take(i as int));
        match creator_name_exec(&cs[i]) {
            Some(n) => {
                let ghost before = r@;
                r.push(n);
                assert(views(r@) =~= views(before).push(n@));
            },
            None => {},
        }
        i += 1;
    }
    assert(cs@.take(cs.len() as int) =~= cs@);
    r
}

/// `present` text, or `fallback`.
pub open spec fn or_default(o: Option<Seq<char>>, fallback: Seq<char>) -> Seq<char> {
    match o {
        Some(s) => s,
        None => fallback,
    }
}

/// The publication venue: the first present of publication title,
/// proceedings title, conference name and publisher.
pub open spec fn publication_of(d: ItemFields) -> Option<Seq<char>> {
    if field(d.publication_title) is Some {
        field(d.publication_title)
    } else if field(d.proceedings_title) is Some {
        field(d.proceedings_title)
    } else if field(d.conference_name) is Some {
        field(d.conference_name)
    } else {
        field(d.publisher)
    }
}

/// The year of an item: the first year in its (trimmed) date.
pub open spec fn year_of(d: ItemFields) -> Option<i32> {
    match field(d.date) {
        Some(t) => match first_year_from(vstd::utf8::encode_utf8(t), 0) {
            Some(y) => Some(y as i32),
            None => None,
        },
        None => None,
    }
}

/// Builds an item (without attachment) from its API record.
pub fn item_from_data(key: &str, data: &ItemFields) -> (it: Item)
    ensures
        it.key@ == key@,
        it.title@ == or_default(field(data.title), "(untitled)"@),
        it.item_type@ == or_default(field(data.item_type), "document"@),
        views(it.creators@) == creator_names(data.creators@),
        it.year == year_of(*data),
        opt_view(it.publication) == publication_of(*data),
        opt_view(it.doi) == field(data.doi),
        opt_view(it.url) == field(data.url),
        opt_view(it.abstract_text) == field(data.abstract_note),
        views(it.tags@) == somes(data.tags@),
        opt_view(it.date_added) == field(data.date_added),
        views(it.collection_keys@) == somes(data.collections@),
        it.attachment is None,
{
    let publication = match fetch_str(&data.publication_title) {
        Some(p) => Some(p),
        None => match fetch_str(&data.proceedings_title) {
            Some(p) => Some(p),
            None => match fetch_str(&data.conference_name) {
                Some(p) => Some(p),
                None => fetch_str(&data.publisher),
            },
        },
    };
    let year = match fetch_str(&data.date) {
        Some(d) => year_from_date(d.as_str()),
        None => None,
    };
    Item {
        key: key.to_owned(),
        title: match fetch_str(&data.title) {
            Some(t) => t,
            None => "(untitled)".to_owned(),
        },
        item_type: match fetch_str(&data.item_type) {
            Some(t) => t,
            None => "document".to_owned(),
        },
        creators: creator_list(&data.creators),
        year,
        publication,
        doi: fetch_str(&data.doi),
        url: fetch_str(&data.url),
        abstract_text: fetch_str(&data.abstract_note),
        tags: some_strings(&data.tags),
        date_added: fetch_str(&data.date_added),
        collection_keys: some_strings(&data.collections),
        attachment: None,
    }
}

/// Top-level entries that are not papers: attachments, notes, annotations.
pub open spec fn is_non_paper(item_type: Seq<char>) -> bool {
    item_type == "attachment"@ || item_type == "note"@ || item_type == "annotation"@
}

/// Whether a top-level entry (its `itemType` string, if any) is a paper.
pub fn is_paper(item_type: Option<&str>) -> (r: bool)
    ensures
        r == match item_type {
            Some(t) => !is_non_paper(t@),
            None => true,
        },
{
    match item_type {
        Some(t) => {
            let v = chars_of(t);
            !(chars_eq(&v, "attachment") || chars_eq(&v, "note") || chars_eq(&v, "annotation"))
        },
        None => true,
    }
}

/// The collection of an API record; `parent` is `parentCollection` when it
/// is a string (`false` marks a top-level collection).
pub fn collection_from(key: String, name: String, parent: Option<String>) -> (c: Collection)
    ensures
        c.key == key,
        c.name == name,
        c.parent_key == (match parent {
            Some(p) => if p@.len() > 0 {
                Some(p)
            } else {
                None
            },
            None => None,
        }),
{
    let parent_key = match parent {
        Some(p) => if p.as_str().is_empty() {
            None
        } else {
            Some(p)
        },
        None => None,
    };
    Collection { key, name, parent_key }
}

/// How an attachment is stored, from its `linkMode` string.
pub fn parse_link_mode(s: Option<&str>) -> (m: LinkMode)
    ensures
        m == match s {
            Some(t) => if t@ == "imported_file"@ {
                LinkMode::ImportedFile
            } else if t@ == "imported_url"@ {
                LinkMode::ImportedUrl
            } else if t@ == "linked_file"@ {
                LinkMode::LinkedFile
            } else if t@ == "linked_url"@ {
                LinkMode::LinkedUrl
            } else {
                LinkMode::Other
            },
            None => LinkMode::Other,
        },
{
    match s {
        Some(t) => {
            let v = chars_of(t);
            if chars_eq(&v, "imported_file") {
                LinkMode::ImportedFile
            } else if chars_eq(&v, "imported_url") {
                LinkMode::ImportedUrl
            } else if chars_eq(&v, "linked_file") {
                LinkMode::LinkedFile
            } else if chars_eq(&v, "linked_url") {
                LinkMode::LinkedUrl
            } else {
                LinkMode::Other
            }
        },
        None => LinkMode::Other,
    }
}

/// The `data` of a child item (each field its string, when it is one).
#[derive(Debug, Clone)]
pub struct ChildFields {
    pub key: String,
    pub content_type: Option<String>,
    pub link_mode: Option<String>,
    pub path: Option<String>,
    pub title: Option<String>,
    pub filename: Option<String>,
}

/// A child is a PDF when its (trimmed) content type is `application/pdf`.
pub open spec fn is_pdf_child(c: ChildFields) -> bool {
    field(c.content_type) == Some("application/pdf"@)
}

/// The attachment a PDF child stands for. Only absolute linked-file paths
/// are usable; the `attachments:`-relative form needs the base directory.
pub open spec fn attachment_of(c: ChildFields, a: Attachment) -> bool {
    let mode = match c.link_mode {
        Some(m) => if m@ == "imported_file"@ {
            LinkMode::ImportedFile
        } else if m@ == "imported_url"@ {
            LinkMode::ImportedUrl
        } else if m@ == "linked_file"@ {
            LinkMode::LinkedFile
        } else if m@ == "linked_url"@ {
            LinkMode::LinkedUrl
        } else {
            LinkMode::Other
        },
        None => LinkMode::Other,
    };
    &&& a.key == c.key
    &&& a.title@ == or_default(field(c.title), "PDF"@)
    &&& opt_view(a.filename) == field(c.filename)
    &&& opt_view(a.content_type) == field(c.content_type)
    &&& a.link_mode == mode
    &&& opt_view(a.file_path) == (if mode == LinkMode::LinkedFile {
        match field(c.path) {
            Some(p) => if has_prefix(p, "attachments:"@) {
                None
            } else {
                Some(p)
            },
            None => None,
        }
    } else {
        None
    })
}

/// The primary PDF of an item: its first PDF child.
pub fn pdf_attachment(children: Vec<ChildFields>) -> (r: Option<Attachment>)
    ensures
        match r {
            Some(a) => exists|i: int| 0 <= i < children@.len() && is_pdf_child(children@[i])
                && (forall|k: int| 0 <= k < i ==> !is_pdf_child(#[trigger] children@[k]))
                && attachment_of(children@[i], a),
            None => forall|k: int| 0 <= k < children@.len() ==> !is_pdf_child(#[trigger] children@[k]),
        },
{
    let mut i: usize = 0;
    while i < children.len()
        invariant
            i <= children.len(),
            forall|k: int| 0 <= k < i ==> !is_pdf_child(#[trigger] children@[k]),
        decreases children.len() - i,
    {
        let c = &children[i];
        let content_type = fetch_str(&c.content_type);
        let pdf = match &content_type {
            Some(t) => {
                let v = chars_of(t.as_str());
                chars_eq(&v, "application/pdf")
            },
            None => false,
        };
        if pdf {
            let link_mode = parse_link_mode(match &c.link_mode {
                Some(m) => Some(m.as_str()),
                None => None,
            });
            let file_path = match link_mode {
                LinkMode::LinkedFile => match fetch_str(&c.path) {
                    Some(p) => {
                        let pv = chars_of(p.as_str());
                        let prefix = chars_of("attachments:");
                        if has_prefix_exec(&pv, &prefix) {
                            None
                        } else {
                            Some(p)
                        }
                    },
                    None => None,
                },
                _ => None,
            };
            let a = Attachment {
                key: c.key.clone(),
                title: match fetch_str(&c.title) {
                    Some(t) => t,
                    None => "PDF".to_owned(),
                },
                filename: fetch_str(&c.filename),
                content_type,
                link_mode,
                file_path,
            };
            assert(attachment_of(children@[i as int], a));
            return Some(a);
        }
        i += 1;
    }
    None
}

/// The read-only library snapshot the local API yields.
pub fn local_library(collections: Vec<Collection>, items: Vec<Item>) -> (l: Library)
    ensures
        l.collections == collections,
        l.items == items,
        !l.writable,
{
    Library { collections, items, writable: false }
}
} // verus!
