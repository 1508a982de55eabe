//! Provider-agnostic request/response types and the prompts shared by
//! every provider.

use vstd::prelude::*;
use crate::models::{views, path_views};
use crate::text::{trim, trim_str, concat, push_str, decimal_i32, int_text};
use crate::citations::{join, join_strings};

verus! {

/// Input of a summary request.
#[derive(Debug, Clone, PartialEq)]
pub struct SummarizeRequest {
    pub title: String,
    pub creators: Vec<String>,
    pub year: Option<i32>,
    pub publication: Option<String>,
    pub abstract_text: Option<String>,
    /// Extracted PDF text (possibly truncated), only for full-text summaries.
    pub body_excerpt: Option<String>,
}

/// Input of a classification request.
#[derive(Debug, Clone, PartialEq)]
pub struct ClassifyRequest {
    pub title: String,
    pub creators: Vec<String>,
    pub year: Option<i32>,
    pub publication: Option<String>,
    pub abstract_text: Option<String>,
    pub tags: Vec<String>,
    /// Existing collection paths, root → leaf (Unclassified excluded).
    pub existing_paths: Vec<Vec<String>>,
    /// The library's most-used tags.
    pub existing_tags: Vec<String>,
}

/// What the model returns for a classify call. `confidence_bits` holds the
/// IEEE-754 binary64 encoding of the model's 0.0–1.0 confidence.
#[derive(Debug, Clone, PartialEq)]
pub struct ClassifyResponse {
    /// Chosen collection path, root → leaf.
    pub path: Vec<String>,
    /// The model's claim that this is a new path (re-verified by the caller).
    pub is_new: bool,
    pub confidence_bits: u64,
    pub rationale: String,
    /// Suggested tags.
    pub tags: Vec<String>,
}

/// Audit of an already-classified paper.
#[derive(Debug, Clone, PartialEq)]
pub struct AuditRequest {
    pub title: String,
    pub creators: Vec<String>,
    pub year: Option<i32>,
    pub publication: Option<String>,
    pub abstract_text: Option<String>,
    pub tags: Vec<String>,
    /// Collections the paper currently belongs to (Unclassified excluded).
    pub current_paths: Vec<Vec<String>>,
    /// Every existing collection path (Unclassified excluded).
    pub existing_paths: Vec<Vec<String>>,
}

/// What the model returns for an audit call (`confidence_bits` as above).
#[derive(Debug, Clone, PartialEq)]
pub struct AuditResponse {
    /// True only when no current collection is a reasonable home.
    pub misplaced: bool,
    /// Proposed path when misplaced; empty otherwise.
    pub path: Vec<String>,
    pub confidence_bits: u64,
    pub rationale: String,
}


/// Default public base URL of the Gemini API.
pub const GEMINI_BASE_URL: &'static str = "https://generativelanguage.googleapis.com";
/// Default public base URL of the Anthropic API.
pub const ANTHROPIC_BASE_URL: &'static str = "https://api.anthropic.com";

/// Token counts of one provider call.
#[derive(Debug, Clone, Copy, PartialEq, Eq, Structural)]
pub struct Usage {
    pub input_tokens: u32,
    pub output_tokens: u32,
}

/// Most papers folded into one multi-paper synthesis context.
pub const MAX_SYNTHESIS_PAPERS: usize = 50;

/// The metadata of one paper in a multi-paper synthesis.
#[derive(Debug, Clone, PartialEq)]
pub struct PaperBrief {
    pub title: String,
    pub creators: Vec<String>,
    pub year: Option<i32>,
    pub publication: Option<String>,
    pub abstract_text: Option<String>,
}

// ── Prompts ─────────────────────────────────────────────────────────────

/// The metadata block of a prompt: title; authors joined by ", " when there
/// are any; year and venue when known; the trimmed abstract, or a note that
/// it is not available when it is missing or blank. One line each.
pub open spec fn meta_spec(
    title: Seq<char>,
    creators: Seq<Seq<char>>,
    year: Option<i32>,
    publication: Option<Seq<char>>,
    abstract_text: Option<Seq<char>>,
) -> Seq<char> {
    "Title: "@ + title + "\n"@ + (if creators.len() > 0 {
        "Authors: "@ + join(creators, ", "@) + "\n"@
    } else {
        seq![]
    }) + (match year {
        Some(y) => "Year: "@ + int_text(y) + "\n"@,
        None => seq![],
    }) + (match publication {
        Some(p) => "Venue: "@ + p + "\n"@,
        None => seq![],
    }) + (match abstract_text {
        Some(a) => if trim(a).len() > 0 {
            "Abstract: "@ + trim(a) + "\n"@
        } else {
            "Abstract: (not available)\n"@
        },
        None => "Abstract: (not available)\n"@,
    })
}

/// View of an optional string.
pub open spec fn ov(o: Option<String>) -> Option<Seq<char>> {
    match o {
        Some(s) => Some(s@),
        None => None,
    }
}

/// Builds the metadata block (see [`meta_spec`]).
pub fn meta_block(
    title: &str,
    creators: &[String],
    year: Option<i32>,
    publication: Option<&str>,
    abstract_text: Option<&str>,
) -> (r: String)
    ensures
        r@ == meta_spec(
            title@,
            views(creators@),
            year,
            match publication {
                Some(p) => Some(p@),
                None => None,
            },
            match abstract_text {
                Some(a) => Some(a@),
                None => None,
            },
        ),
{
    let t = concat("Title: ", title);
    let t = concat(t.as_str(), "\n");
    let a = authors_line(creators);
    let y = year_line(year);
    let v = venue_line(publication);
    let ab = abstract_line(abstract_text);
    let s = concat(t.as_str(), a.as_str());
    let s = concat(s.as_str(), y.as_str());
    let s = concat(s.as_str(), v.as_str());
    concat(s.as_str(), ab.as_str())
}

fn authors_line(creators: &[String]) -> (r: String)
    ensures
        r@ == (if creators@.len() > 0 {
            "Authors: "@ + join(views(creators@), ", "@) + "\n"@
        } else {
            Seq::<char>::empty()
        }),
{
    if creators.len() > 0 {
        let s = concat("Authors: ", join_strings(creators, ", ").as_str());
        concat(s.as_str(), "\n")
    } else {
        String::new()
    }
}

fn year_line(year: Option<i32>) -> (r: String)
    ensures
        r@ == (match year {
            Some(y) => "Year: "@ + int_text(y) + "\n"@,
            None => Seq::<char>::empty(),
        }),
{
    match year {
        Some(y) => {
            let s = concat("Year: ", decimal_i32(y).as_str());
            concat(s.as_str(), "\n")
        },
        None => String::new(),
    }
}

fn venue_line(publication: Option<&str>) -> (r: String)
    ensures
        r@ == (match publication {
            Some(p) => "Venue: "@ + p@ + "\n"@,
            None => Seq::<char>::empty(),
        }),
{
    match publication {
        Some(p) => {
            let s = concat("Venue: ", p);
            concat(s.as_str(), "\n")
        },
        None => String::new(),
    }
}

fn abstract_line(abstract_text: Option<&str>) -> (r: String)
    ensures
        r@ == (match abstract_text {
            Some(a) => if trim(a@).len() > 0 {
                "Abstract: "@ + trim(a@) + "\n"@
            } else {
                "Abstract: (not available)\n"@
            },
            None => "Abstract: (not available)\n"@,
        }),
{
    if let Some(a) = abstract_text {
        let t = trim_str(a);
        if !t.as_str().is_empty() {
            let s = concat("Abstract: ", t.as_str());
            return concat(s.as_str(), "\n");
        }
    }
    "Abstract: (not available)\n".to_owned()
}

/// Opening line of a quoted full-text excerpt.
pub const FULL_TEXT_OPEN: &'static str = "Full text (may be truncated):\n\"\"\"\n";
/// Closing line of a quoted full-text excerpt.
pub const FULL_TEXT_CLOSE: &'static str = "\n\"\"\"\n";

/// Instructions of a metadata-only summary.
pub const SUMMARY_HEAD: &'static str = "You are helping a researcher maintain notes on academic papers.\n\
             Write a summary of the following paper in English, 5 to 8 sentences,\n\
             as a single plain-text paragraph (no markdown, no headings, no lists).\n\
             Cover: the problem addressed, the key idea or method, and the main\n\
             results or significance. Base the summary only on the metadata below;\n\
             do not invent specific numbers that are not present.\n\n";

/// Instructions of a full-text summary.
pub const SUMMARY_BODY_HEAD: &'static str = "You are helping a researcher maintain notes on academic papers.\n\
             Write a summary of the following paper in English, 5 to 8 sentences,\n\
             as a single plain-text paragraph (no markdown, no headings, no lists).\n\
             Cover: the problem addressed, the key idea or method, the main\n\
             experimental results (with concrete numbers when the text provides\n\
             them), and the significance or limitations. Base the summary on the\n\
             metadata and the full-text excerpt below; do not invent anything\n\
             that is not present.\n\n";

/// The body excerpt, when present and not blank.
pub open spec fn usable_body(b: Option<Seq<char>>) -> Option<Seq<char>> {
    match b {
        Some(t) => if trim(t).len() > 0 {
            Some(t)
        } else {
            None
        },
        None => None,
    }
}

/// The metadata block of a summary request.
pub open spec fn request_meta(req: SummarizeRequest) -> Seq<char> {
    meta_spec(req.title@, views(req.creators@), req.year, ov(req.publication), ov(req.abstract_text))
}

/// The summary prompt: with a usable body excerpt, the full-text
/// instructions, metadata and the quoted excerpt; otherwise the
/// metadata-only instructions and metadata.
pub open spec fn summarize_prompt_spec(req: SummarizeRequest) -> Seq<char> {
    match usable_body(ov(req.body_excerpt)) {
        Some(body) => SUMMARY_BODY_HEAD@ + request_meta(req) + "\n"@ + FULL_TEXT_OPEN@ + body
            + FULL_TEXT_CLOSE@,
        None => SUMMARY_HEAD@ + request_meta(req),
    }
}

fn usable_body_exec(b: Option<&str>) -> (r: Option<&str>)
    ensures
        match r {
            Some(t) => usable_body(match b {
                Some(x) => Some(x@),
                None => None,
            }) == Some(t@),
            None => usable_body(match b {
                Some(x) => Some(x@),
                None => None,
            }) is None,
        },
{
    match b {
        Some(t) => {
            let tr = trim_str(t);
            if tr.as_str().is_empty() {
                None
            } else {
                Some(t)
            }
        },
        None => None,
    }
}

/// The summary prompt for `req`.
pub fn summarize_prompt(req: &SummarizeRequest) -> (r: String)
    ensures
        r@ == summarize_prompt_spec(*req),
{
    let meta = meta_block(
        req.title.as_str(),
        req.creators.as_slice(),
        req.year,
        match &req.publication {
            Some(p) => Some(p.as_str()),
            None => None,
        },
        match &req.abstract_text {
            Some(a) => Some(a.as_str()),
            None => None,
        },
    );
    let body = usable_body_exec(match &req.body_excerpt {
        Some(b) => Some(b.as_str()),
        None => None,
    });
    match body {
        Some(b) => {
            let mut s = concat(SUMMARY_BODY_HEAD, meta.as_str());
            push_str(&mut s, "\n");
            push_str(&mut s, FULL_TEXT_OPEN);
            push_str(&mut s, b);
            push_str(&mut s, FULL_TEXT_CLOSE);
            s
        },
        None => concat(SUMMARY_HEAD, meta.as_str()),
    }
}

/// Instructions of the per-paper chat.
pub const CHAT_HEAD: &'static str = "You are helping a researcher understand one specific academic paper.\n\
         Answer questions about it using the material below.\n\n\
         Rules:\n\
         - Always answer in English, regardless of the language of the question.\n\
         - Ground every claim in the provided text; when the answer is not in\n\
           the material, say so plainly instead of guessing.\n\
         - Be concise: short paragraphs, no headings or bullet lists unless\n\
           the user asks for them.\n\n";

/// What the chat prompt says when there is no full text.
pub const CHAT_NO_BODY: &'static str = "Full text: (not available \u{2014} answer from the metadata above and say so \
                 when a question needs the body of the paper)\n";

/// The chat system prompt: instructions, metadata, then the quoted full
/// text when usable, or the note that it is not available.
pub open spec fn chat_system_prompt_spec(
    title: Seq<char>,
    creators: Seq<Seq<char>>,
    year: Option<i32>,
    publication: Option<Seq<char>>,
    abstract_text: Option<Seq<char>>,
    body_excerpt: Option<Seq<char>>,
) -> Seq<char> {
    CHAT_HEAD@ + meta_spec(title, creators, year, publication, abstract_text) + "\n"@ + match usable_body(
        body_excerpt,
    ) {
        Some(b) => FULL_TEXT_OPEN@ + b + FULL_TEXT_CLOSE@,
        None => CHAT_NO_BODY@,
    }
}

/// System prompt for the per-paper "Ask AI" chat. Answers are always in
/// English, grounded in the provided material.
pub fn chat_system_prompt(
    title: &str,
    creators: &[String],
    year: Option<i32>,
    publication: Option<&str>,
    abstract_text: Option<&str>,
    body_excerpt: Option<&str>,
) -> (r: String)
    ensures
        r@ == chat_system_prompt_spec(
            title@,
            views(creators@),
            year,
            match publication {
                Some(p) => Some(p@),
                None => None,
            },
            match abstract_text {
                Some(a) => Some(a@),
                None => None,
            },
            match body_excerpt {
                Some(b) => Some(b@),
                None => None,
            },
        ),
{
    let meta = meta_block(title, creators, year, publication, abstract_text);
    let mut s = concat(CHAT_HEAD, meta.as_str());
    push_str(&mut s, "\n");
    match usable_body_exec(body_excerpt) {
        Some(b) => {
            push_str(&mut s, FULL_TEXT_OPEN);
            push_str(&mut s, b);
            push_str(&mut s, FULL_TEXT_CLOSE);
        },
        None => {
            push_str(&mut s, CHAT_NO_BODY);
        },
    }
    s
}

/// One line per path, `- root / … / leaf`, joined by newlines; `empty`
/// when there are no paths.
pub open spec fn path_list(paths: Seq<Seq<Seq<char>>>, empty: Seq<char>) -> Seq<char> {
    if paths.len() == 0 {
        empty
    } else {
        join(Seq::new(paths.len(), |i: int| "- "@ + join(paths[i], " / "@)), "\n"@)
    }
}

fn path_list_exec(paths: &Vec<Vec<String>>, empty: &str) -> (r: String)
    ensures
        r@ == path_list(path_views(paths@), empty@),
{
    if paths.len() == 0 {
        return empty.to_owned();
    }
    let ghost pv = path_views(paths@);
    let ghost want = Seq::new(pv.len(), |i: int| "- "@ + join(pv[i], " / "@));
    let mut lines: Vec<String> = Vec::new();
    let mut i: usize = 0;
    while i < paths.len()
        invariant
            i <= paths.len(),
            pv == path_views(paths@),
            want == Seq::new(pv.len(), |k: int| "- "@ + join(pv[k], " / "@)),
            views(lines@) =~= want.take(i as int),
        decreases paths.len() - i,
    {
        let line = concat("- ", join_strings(paths[i].as_slice(), " / ").as_str());
        let ghost before = lines@;
        lines.push(line);
        proof {
            assert(views(lines@) =~= views(before).push(line@));
            assert(want.take(i + 1) =~= want.take(i as int).push(want[i as int]));
        }
        i += 1;
    }
    assert(want.take(paths.len() as int) =~= want);
    join_strings(lines.as_slice(), "\n")
}

/// `Tags: a, b\n`, or nothing when there are no tags.
pub open spec fn tags_line(tags: Seq<Seq<char>>) -> Seq<char> {
    if tags.len() == 0 {
        seq![]
    } else {
        "Tags: "@ + join(tags, ", "@) + "\n"@
    }
}

fn tags_line_exec(tags: &Vec<String>) -> (r: String)
    ensures
        r@ == tags_line(views(tags@)),
{
    if tags.len() == 0 {
        String::new()
    } else {
        let mut s = concat("Tags: ", join_strings(tags.as_slice(), ", ").as_str());
        push_str(&mut s, "\n");
        s
    }
}

/// Instructions of a classification, up to the collection list.
pub const CLASSIFY_HEAD: &'static str = "You are organizing a researcher's paper library. Assign the paper\n\
         below to exactly one collection, and suggest tags for it.\n\n\
         Existing collections (full nested paths):\n";

/// Rules of a classification, between the collection list and the tag vocabulary.
pub const CLASSIFY_RULES: &'static str = "\n\n\
         Collection rules:\n\
         1. STRONGLY prefer an existing collection. Choose the most specific\n\
            path that genuinely fits.\n\
         2. Only when no existing collection fits, propose a new one. A new\n\
            path may extend an existing path by one level (preferred) or be a\n\
            new top-level collection. Use concise Title Case names that match\n\
            the naming style of the existing collections.\n\
         3. Never propose a path deeper than 3 levels, and never invent more\n\
            than one new level at a time.\n\
         4. Do not use \"Unclassified\" as a target.\n\n\
         Tag rules:\n\
         5. Suggest 2 to 4 topical tags for the paper.\n\
         6. STRONGLY prefer reusing tags from the library's existing\n\
            vocabulary below (exact spelling). Propose a new tag only when\n\
            no existing tag describes the topic; new tags should be short,\n\
            lowercase, and specific. Do not repeat tags the paper already\n\
            has.\n\n\
         Existing tags in the library:\n";

/// Heading of the paper's metadata in classification and audit prompts.
pub const PAPER_HEAD: &'static str = "\n\nPaper:\n";

/// The classification prompt: instructions, the existing collection paths,
/// the rules, the tag vocabulary, then the paper's metadata and tags.
pub open spec fn classify_prompt_spec(req: ClassifyRequest) -> Seq<char> {
    CLASSIFY_HEAD@ + path_list(path_views(req.existing_paths@), "(no collections exist yet)"@)
        + CLASSIFY_RULES@ + (if req.existing_tags@.len() == 0 {
        "(no tags exist yet)"@
    } else {
        join(views(req.existing_tags@), ", "@)
    }) + PAPER_HEAD@ + meta_spec(
        req.title@,
        views(req.creators@),
        req.year,
        ov(req.publication),
        ov(req.abstract_text),
    ) + tags_line(views(req.tags@))
}

/// The classification prompt for `req`.
pub fn classify_prompt(req: &ClassifyRequest) -> (r: String)
    ensures
        r@ == classify_prompt_spec(*req),
{
    let paths = path_list_exec(&req.existing_paths, "(no collections exist yet)");
    let tags = tags_line_exec(&req.tags);
    let vocab = if req.existing_tags.len() == 0 {
        "(no tags exist yet)".to_owned()
    } else {
        join_strings(req.existing_tags.as_slice(), ", ")
    };
    let meta = meta_block(
        req.title.as_str(),
        req.creators.as_slice(),
        req.year,
        match &req.publication {
            Some(p) => Some(p.as_str()),
            None => None,
        },
        match &req.abstract_text {
            Some(a) => Some(a.as_str()),
            None => None,
        },
    );
    let mut s = concat(CLASSIFY_HEAD, paths.as_str());
    push_str(&mut s, CLASSIFY_RULES);
    push_str(&mut s, vocab.as_str());
    push_str(&mut s, PAPER_HEAD);
    push_str(&mut s, meta.as_str());
    push_str(&mut s, tags.as_str());
    s
}

/// Instructions of an audit, up to the collection list.
pub const AUDIT_HEAD: &'static str = "You are auditing how a researcher's paper library is filed. Decide\n\
         whether the paper below is appropriately filed where it is.\n\n\
         Existing collections (full nested paths):\n";

/// Heading of the current filing in an audit prompt.
pub const AUDIT_CURRENT: &'static str = "\n\nThe paper is currently filed in:\n";

/// Rules of an audit, up to the paper's metadata.
pub const AUDIT_RULES: &'static str = "\n\n\
         Rules:\n\
         1. Be conservative \u{2014} reorganizing has a cost. If ANY current\n\
            collection is a reasonable home for this paper, answer\n\
            misplaced=false. Do not flag borderline cases or stylistic\n\
            preferences.\n\
         2. Answer misplaced=true ONLY when no current collection fits the\n\
            paper's topic at all (e.g. an NLP paper filed under Hardware).\n\
         3. When misplaced=true, propose the best path: STRONGLY prefer an\n\
            existing collection; only when nothing fits, propose a new path\n\
            (max 3 levels, extending an existing path by at most one new\n\
            level). Never propose \"Unclassified\".\n\
         4. When misplaced=false, return an empty path array.\n\n\
         Paper:\n";

/// The audit prompt: instructions, the existing paths, the current filing,
/// the rules, then the paper's metadata and tags.
pub open spec fn audit_prompt_spec(req: AuditRequest) -> Seq<char> {
    AUDIT_HEAD@ + path_list(path_views(req.existing_paths@), "(no collections exist yet)"@)
        + AUDIT_CURRENT@ + path_list(path_views(req.current_paths@), "(none)"@) + AUDIT_RULES@
        + meta_spec(
        req.title@,
        views(req.creators@),
        req.year,
        ov(req.publication),
        ov(req.abstract_text),
    ) + tags_line(views(req.tags@))
}

/// The audit prompt for `req`.
pub fn audit_prompt(req: &AuditRequest) -> (r: String)
    ensures
        r@ == audit_prompt_spec(*req),
{
    let existing = path_list_exec(&req.existing_paths, "(no collections exist yet)");
    let current = path_list_exec(&req.current_paths, "(none)");
    let tags = tags_line_exec(&req.tags);
    let meta = meta_block(
        req.title.as_str(),
        req.creators.as_slice(),
        req.year,
        match &req.publication {
            Some(p) => Some(p.as_str()),
            None => None,
        },
        match &req.abstract_text {
            Some(a) => Some(a.as_str()),
            None => None,
        },
    );
    let mut s = concat(AUDIT_HEAD, existing.as_str());
    push_str(&mut s, AUDIT_CURRENT);
    push_str(&mut s, current.as_str());
    push_str(&mut s, AUDIT_RULES);
    push_str(&mut s, meta.as_str());
    push_str(&mut s, tags.as_str());
    s
}
} // verus!
