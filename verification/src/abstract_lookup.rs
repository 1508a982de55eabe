//! Filling in a missing paper abstract from public scholarly-metadata
//! services: Crossref, then Semantic Scholar, then OpenAlex by DOI, and a
//! Semantic Scholar title search last.
//!
//! The library decides which service to ask next, builds each request and
//! cleans what comes back; the caller performs the HTTP exchanges.

use vstd::prelude::*;
use crate::text::{chars_of, push_char, is_ws, is_whitespace, trim, trim_str, concat, percent_encode, url_encode_path};
use crate::models::{views, opt_view, pair_views};
use crate::citations::{join, join_strings};

verus! {

// ── Text clean-up ───────────────────────────────────────────────────────

/// Scanning state of tag stripping: the text so far and whether a tag is open.
pub open spec fn strip_state(s: Seq<char>) -> (Seq<char>, bool)
    decreases s.len(),
{
    if s.len() == 0 {
        (seq![], false)
    } else {
        let st = strip_state(s.drop_last());
        let c = s.last();
        if c == '<' {
            (st.0.push(' '), true)
        } else if c == '>' {
            (st.0.push(' '), false)
        } else if !st.1 {
            (st.0.push(c), false)
        } else {
            (st.0, true)
        }
    }
}

/// `s` with every `<…>` tag removed; each bracket becomes a space.
pub open spec fn strip_tags_spec(s: Seq<char>) -> Seq<char> {
    strip_state(s).0
}

/// Strip JATS / HTML tags without a full HTML parser. Anything between `<`
/// and `>` is removed; the brackets become spaces so adjacent words do not
/// get glued together.
pub fn strip_html_tags(s: &str) -> (r: String)
    ensures
        r@ == strip_tags_spec(s@),
{
    let v = chars_of(s);
    let mut out = String::new();
    let mut in_tag = false;
    let mut i: usize = 0;
    while i < v.len()
        invariant
            i <= v.len(),
            v@ == s@,
            (out@, in_tag) == strip_state(v@.take(i as int)),
        decreases v.len() - i,
    {
        let c = v[i];
        proof {
            assert(v@.take(i + 1).drop_last() =~= v@.take(i as int));
        }
        if c == '<' {
            in_tag = true;
            push_char(&mut out, ' ');
        } else if c == '>' {
            in_tag = false;
            push_char(&mut out, ' ');
        } else if !in_tag {
            push_char(&mut out, c);
        }
        i += 1;
    }
    assert(v@.take(v.len() as int) =~= v@);
    out
}

/// `s` with its white-space runs collapsed: every non-white character is
/// kept, a run of white space between two kept characters becomes one
/// space, and white space at either end is dropped.
pub open spec fn collapse_ws(s: Seq<char>) -> Seq<char>
    decreases s.len(),
{
    if s.len() == 0 {
        seq![]
    } else {
        let r = collapse_ws(s.drop_last());
        let c = s.last();
        if is_ws(c) {
            r
        } else if s.len() >= 2 && is_ws(s[s.len() - 2]) && r.len() > 0 {
            r.push(' ').push(c)
        } else {
            r.push(c)
        }
    }
}

/// Collapse runs of whitespace into single spaces and trim.
pub fn normalise_whitespace(s: &str) -> (r: String)
    ensures
        r@ == collapse_ws(s@),
{
    let v = chars_of(s);
    let mut out = String::new();
    let mut prev_ws = false;
    let mut any = false;
    let mut i: usize = 0;
    while i < v.len()
        invariant
            i <= v.len(),
            v@ == s@,
            out@ == collapse_ws(v@.take(i as int)),
            prev_ws == (i > 0 && is_ws(v@[i - 1])),
            any == (out@.len() > 0),
        decreases v.len() - i,
    {
        let c = v[i];
        proof {
            let t = v@.take(i + 1);
            assert(t.drop_last() =~= v@.take(i as int));
            assert(i > 0 ==> t[i - 1] == v@[i - 1]);
        }
        if is_whitespace(c) {
            prev_ws = true;
        } else {
            if prev_ws && any {
                push_char(&mut out, ' ');
            }
            push_char(&mut out, c);
            prev_ws = false;
            any = true;
        }
        i += 1;
    }
    assert(v@.take(v.len() as int) =~= v@);
    out
}

/// Text with only single spaces as white space and none at the start;
/// `closed` also rules out one at the end.
pub open spec fn tidy(t: Seq<char>, closed: bool) -> bool {
    &&& forall|k: int| 0 <= k < t.len() && is_ws(#[trigger] t[k]) ==> t[k] == ' '
    &&& forall|k: int| 0 <= k < t.len() - 1 && is_ws(#[trigger] t[k]) ==> !is_ws(t[k + 1])
    &&& t.len() > 0 ==> !is_ws(t[0])
    &&& closed && t.len() > 0 ==> !is_ws(t.last())
}

proof fn lemma_collapse_tidy(s: Seq<char>)
    ensures
        tidy(collapse_ws(s), true),
    decreases s.len(),
{
    if s.len() > 0 {
        lemma_collapse_tidy(s.drop_last());
        let r = collapse_ws(s.drop_last());
        let t = collapse_ws(s);
        assert(is_ws(' '));
        if !is_ws(s.last()) && s.len() >= 2 && is_ws(s[s.len() - 2]) && r.len() > 0 {
            assert forall|k: int| 0 <= k < t.len() - 1 && is_ws(#[trigger] t[k]) implies !is_ws(t[k + 1]) by {
                if k < r.len() - 1 {
                    assert(t[k] == r[k] && t[k + 1] == r[k + 1]);
                }
            }
        }
    }
}

proof fn lemma_collapse_of_tidy(t: Seq<char>)
    requires
        tidy(t, false),
    ensures
        collapse_ws(t) == (if t.len() > 0 && is_ws(t.last()) { t.drop_last() } else { t }),
    decreases t.len(),
{
    if t.len() > 0 {
        let u = t.drop_last();
        assert(tidy(u, false)) by {
            assert forall|k: int| 0 <= k < u.len() - 1 && is_ws(#[trigger] u[k]) implies !is_ws(u[k + 1]) by {
                assert(t[k] == u[k] && t[k + 1] == u[k + 1]);
            }
        }
        lemma_collapse_of_tidy(u);
        if is_ws(t.last()) {
            if u.len() > 0 {
                assert(!is_ws(t[t.len() - 2]));
            }
        } else if u.len() > 0 && is_ws(u.last()) {
            assert(u.len() >= 2);
            assert(u.drop_last().push(' ').push(t.last()) =~= t);
        } else {
            assert(u.push(t.last()) =~= t);
        }
    }
}

/// Collapsing white space twice gives what collapsing once gives, and the
/// result starts and ends with no white space and holds no white space but
/// single spaces.
pub proof fn law_normalise_whitespace_idempotent(s: Seq<char>)
    ensures
        collapse_ws(collapse_ws(s)) == collapse_ws(s),
        tidy(collapse_ws(s), true),
{
    lemma_collapse_tidy(s);
    lemma_collapse_of_tidy(collapse_ws(s));
}

/// `None` for an empty string, else the string.
fn non_empty(s: String) -> (r: Option<String>)
    ensures
        r == (if s@.len() == 0 { None } else { Some(s) }),
{
    if s.as_str().is_empty() {
        None
    } else {
        Some(s)
    }
}

// ── OpenAlex inverted index ─────────────────────────────────────────────

/// Every `(position, word)` pair of an inverted index, word by word and,
/// within a word, in the order its positions are listed.
pub open spec fn index_pairs(index: Seq<(String, Vec<u64>)>) -> Seq<(u64, Seq<char>)>
    decreases index.len(),
{
    if index.len() == 0 {
        seq![]
    } else {
        let last = index.last();
        index_pairs(index.drop_last()) + Seq::new(last.1@.len(), |k: int| (last.1@[k], last.0@))
    }
}

/// `x` placed after every pair whose position is not greater (stable).
pub open spec fn insert_by_position(s: Seq<(u64, Seq<char>)>, x: (u64, Seq<char>)) -> Seq<(u64, Seq<char>)>
    decreases s.len(),
{
    if s.len() == 0 {
        seq![x]
    } else if x.0 < s[0].0 {
        seq![x] + s
    } else {
        seq![s[0]] + insert_by_position(s.drop_first(), x)
    }
}

/// `s` stably sorted by position.
pub open spec fn by_position(s: Seq<(u64, Seq<char>)>) -> Seq<(u64, Seq<char>)>
    decreases s.len(),
{
    if s.len() == 0 {
        seq![]
    } else {
        insert_by_position(by_position(s.drop_last()), s.last())
    }
}

/// The words of an inverted index in position order, each occurrence once.
pub open spec fn index_words(index: Seq<(String, Vec<u64>)>) -> Seq<Seq<char>> {
    let sorted = by_position(index_pairs(index));
    Seq::new(sorted.len(), |i: int| sorted[i].1)
}

proof fn lemma_insert_by_position_at(s: Seq<(u64, Seq<char>)>, x: (u64, Seq<char>), p: int)
    requires
        0 <= p <= s.len(),
        forall|k: int| 0 <= k < p ==> !(x.0 < (#[trigger] s[k]).0),
        p < s.len() ==> x.0 < s[p].0,
    ensures
        insert_by_position(s, x) == s.take(p) + seq![x] + s.skip(p),
    decreases p,
{
    if p == 0 {
        assert(s.skip(0) =~= s);
        assert(s.take(0) + seq![x] + s.skip(0) =~= seq![x] + s);
    } else {
        lemma_insert_by_position_at(s.drop_first(), x, p - 1);
        assert(seq![s[0]] + (s.drop_first().take(p - 1) + seq![x] + s.drop_first().skip(p - 1))
            =~= s.take(p) + seq![x] + s.skip(p));
    }
}

spec fn position_views(v: Seq<(u64, String)>) -> Seq<(u64, Seq<char>)> {
    Seq::new(v.len(), |i: int| (v[i].0, v[i].1@))
}

/// OpenAlex stores abstracts as `{word: [positions]}` so the text doesn't
/// trip Elasticsearch copyright filters. Reconstruct word order from the
/// position arrays: the words sorted by position (stably) and joined by
/// single spaces.
pub fn reconstruct_inverted_index(index: &Vec<(String, Vec<u64>)>) -> (r: String)
    ensures
        r@ == join(index_words(index@), " "@),
{
    let mut out: Vec<(u64, String)> = Vec::new();
    let mut j: usize = 0;
    while j < index.len()
        invariant
            j <= index.len(),
            position_views(out@) == by_position(index_pairs(index@.take(j as int))),
        decreases index.len() - j,
    {
        let word = &index[j].0;
        let locs = &index[j].1;
        let ghost base = index_pairs(index@.take(j as int));
        let ghost fresh = Seq::new(locs@.len(), |k: int| (locs@[k], word@));
        proof {
            assert(index@.take(j + 1).drop_last() =~= index@.take(j as int));
            assert(base + fresh.take(0) =~= base);
        }
        let mut k: usize = 0;
        while k < locs.len()
            invariant
                j < index.len(),
                word == &index@[j as int].0,
                locs == &index@[j as int].1,
                k <= locs.len(),
                fresh == Seq::new(locs@.len(), |q: int| (locs@[q], word@)),
                position_views(out@) == by_position(base + fresh.take(k as int)),
            decreases locs.len() - k,
        {
            let x = (locs[k], word.clone());
            let mut p: usize = 0;
            while p < out.len() && !(x.0 < out[p].0)
                invariant
                    p <= out.len(),
                    forall|q: int| 0 <= q < p ==> !(x.0 < (#[trigger] out@[q]).0),
                decreases out.len() - p,
            {
                p += 1;
            }
            let ghost before = position_views(out@);
            proof {
                assert forall|q: int| 0 <= q < p implies !(x.0 < (#[trigger] before[q]).0) by {
                    assert(before[q].0 == out@[q].0);
                }
                lemma_insert_by_position_at(before, (x.0, x.1@), p as int);
                assert((base + fresh.take(k + 1)).drop_last() =~= base + fresh.take(k as int));
                assert((base + fresh.take(k + 1)).last() == (x.0, x.1@));
            }
            out.insert(p, x);
            proof {
                assert(position_views(out@) =~= before.take(p as int) + seq![(x.0, x.1@)] + before.skip(p as int));
            }
            k += 1;
        }
        proof {
            assert(fresh.take(locs@.len() as int) =~= fresh);
        }
        j += 1;
    }
    assert(index@.take(index.len() as int) =~= index@);
    let ghost sorted = position_views(out@);
    let mut words: Vec<String> = Vec::new();
    let mut i: usize = 0;
    while i < out.len()
        invariant
            i <= out.len(),
            sorted == position_views(out@),
            views(words@) =~= Seq::new(i as nat, |q: int| sorted[q].1),
        decreases out.len() - i,
    {
        let w = out[i].1.clone();
        proof {
            assert(sorted[i as int].1 == out@[i as int].1@);
        }
        let ghost before = words@;
        words.push(w);
        proof {
            assert(views(words@) =~= views(before).push(w@));
        }
        i += 1;
    }
    assert(views(words@) =~= index_words(index@));
    join_strings(words.as_slice(), " ")
}

// ── Cleaning what a service returned ────────────────────────────────────

/// The cleaned abstract `t`: `None` when nothing is left.
pub open spec fn cleaned(t: Seq<char>) -> Option<Seq<char>> {
    if t.len() == 0 {
        None
    } else {
        Some(t)
    }
}

/// A Crossref abstract (JATS markup): tags stripped, white space collapsed.
pub fn crossref_abstract(raw: &str) -> (r: Option<String>)
    ensures
        opt_view(r) == cleaned(collapse_ws(strip_tags_spec(raw@))),
{
    let stripped = strip_html_tags(raw);
    non_empty(normalise_whitespace(stripped.as_str()))
}

/// A Semantic Scholar abstract (plain text): white space collapsed.
pub fn plain_abstract(raw: &str) -> (r: Option<String>)
    ensures
        opt_view(r) == cleaned(collapse_ws(raw@)),
{
    non_empty(normalise_whitespace(raw))
}

/// An OpenAlex abstract, rebuilt from its inverted index.
pub fn openalex_abstract(index: &Vec<(String, Vec<u64>)>) -> (r: Option<String>)
    ensures
        opt_view(r) == cleaned(collapse_ws(join(index_words(index@), " "@))),
{
    let text = reconstruct_inverted_index(index);
    non_empty(normalise_whitespace(text.as_str()))
}

// ── Which service to ask, and how ───────────────────────────────────────

/// Backend base URLs. `Default` points at the public services.
#[derive(Debug, Clone)]
pub struct Sources {
    pub crossref: String,
    pub semantic_scholar: String,
    pub openalex: String,
}

impl Default for Sources {
    fn default() -> (s: Self)
        ensures
            s.crossref@ == "https://api.crossref.org"@,
            s.semantic_scholar@ == "https://api.semanticscholar.org"@,
            s.openalex@ == "https://api.openalex.org"@,
    {
        Sources {
            crossref: "https://api.crossref.org".to_owned(),
            semantic_scholar: "https://api.semanticscholar.org".to_owned(),
            openalex: "https://api.openalex.org".to_owned(),
        }
    }
}

/// The services an abstract can come from, in the order they are asked.
#[derive(Debug, Clone, Copy, PartialEq, Eq, Structural)]
pub enum Backend {
    /// `{crossref}/works/{doi}`
    Crossref,
    /// `{s2}/graph/v1/paper/DOI:{doi}`
    SemanticScholarDoi,
    /// `{openalex}/works/https://doi.org/{doi}`
    OpenAlex,
    /// `{s2}/graph/v1/paper/search?query={title}`
    SemanticScholarTitle,
}

/// What a lookup works from: the DOI and the title, trimmed, each `None`
/// when blank.
#[derive(Debug, Clone)]
pub struct LookupPlan {
    pub doi: Option<String>,
    pub title: Option<String>,
}

/// `s` trimmed, or `None` when only white space is left.
pub open spec fn present(s: Seq<char>) -> Option<Seq<char>> {
    if trim(s).len() > 0 {
        Some(trim(s))
    } else {
        None
    }
}

fn present_str(s: &str) -> (r: Option<String>)
    ensures
        opt_view(r) == present(s@),
{
    let t = trim_str(s);
    non_empty(t)
}

/// The inputs of a lookup, with blank ones dropped.
pub fn plan_lookup(doi: Option<&str>, title: &str) -> (p: LookupPlan)
    ensures
        opt_view(p.doi) == (match doi {
            Some(d) => present(d@),
            None => None,
        }),
        opt_view(p.title) == present(title@),
{
    let d = match doi {
        Some(d) => present_str(d),
        None => None,
    };
    LookupPlan { doi: d, title: present_str(title) }
}

/// The service asked after `after` (`None`: at the start): the DOI chain
/// Crossref → Semantic Scholar → OpenAlex when there is a DOI, then the
/// title search when there is a title.
pub open spec fn next_backend_spec(has_doi: bool, has_title: bool, after: Option<Backend>) -> Option<Backend> {
    match after {
        None => if has_doi {
            Some(Backend::Crossref)
        } else if has_title {
            Some(Backend::SemanticScholarTitle)
        } else {
            None
        },
        Some(Backend::Crossref) => Some(Backend::SemanticScholarDoi),
        Some(Backend::SemanticScholarDoi) => Some(Backend::OpenAlex),
        Some(Backend::OpenAlex) => if has_title {
            Some(Backend::SemanticScholarTitle)
        } else {
            None
        },
        Some(Backend::SemanticScholarTitle) => None,
    }
}

/// What the caller does next in a lookup.
#[derive(Debug, Clone)]
pub enum LookupAction {
    /// Ask this service.
    Fetch(Backend),
    /// Stop, with the abstract found (or `None` when every service came up empty).
    Finish(Option<String>),
}

/// One step of the lookup: after asking `after` (`None` at the start) and
/// getting `found`, either finish with the first abstract found or ask the
/// next service; when the plan is exhausted, finish with `None`.
pub fn advance(plan: &LookupPlan, after: Option<Backend>, found: Option<String>) -> (a: LookupAction)
    ensures
        match found {
            Some(f) => a == LookupAction::Finish(Some(f)),
            None => match next_backend_spec(plan.doi is Some, plan.title is Some, after) {
                Some(b) => a == LookupAction::Fetch(b),
                None => a == LookupAction::Finish(None),
            },
        },
{
    if found.is_some() {
        return LookupAction::Finish(found);
    }
    let has_doi = plan.doi.is_some();
    let has_title = plan.title.is_some();
    let next = match after {
        None => if has_doi {
            Some(Backend::Crossref)
        } else if has_title {
            Some(Backend::SemanticScholarTitle)
        } else {
            None
        },
        Some(Backend::Crossref) => Some(Backend::SemanticScholarDoi),
        Some(Backend::SemanticScholarDoi) => Some(Backend::OpenAlex),
        Some(Backend::OpenAlex) => if has_title {
            Some(Backend::SemanticScholarTitle)
        } else {
            None
        },
        Some(Backend::SemanticScholarTitle) => None,
    };
    match next {
        Some(b) => LookupAction::Fetch(b),
        None => LookupAction::Finish(None),
    }
}

/// A GET request: URL and query parameters.
#[derive(Debug, Clone)]
pub struct HttpGet {
    pub url: String,
    pub query: Vec<(String, String)>,
}


/// The URL of the request to `b` (its DOI is `doi`, percent-encoded for a
/// path; the title search carries its title in the query instead).
pub open spec fn backend_url(s: Sources, b: Backend, doi: Seq<char>) -> Seq<char> {
    let enc = percent_encode(vstd::utf8::encode_utf8(doi), true);
    match b {
        Backend::Crossref => s.crossref@ + "/works/"@ + enc,
        Backend::SemanticScholarDoi => s.semantic_scholar@ + "/graph/v1/paper/DOI:"@ + enc + "?fields=abstract"@,
        Backend::OpenAlex => s.openalex@ + "/works/https://doi.org/"@ + enc,
        Backend::SemanticScholarTitle => s.semantic_scholar@ + "/graph/v1/paper/search"@,
    }
}

/// The query of the title search for `title`.
pub open spec fn title_query(title: Seq<char>) -> Seq<(Seq<char>, Seq<char>)> {
    seq![("query"@, title), ("limit"@, "1"@), ("fields"@, "abstract,title"@)]
}

/// The request to `backend`, or `None` when the plan lacks what that
/// service is searched by (a DOI, or for the title search a title).
pub fn request_for(sources: &Sources, plan: &LookupPlan, backend: Backend) -> (r: Option<HttpGet>)
    ensures
        backend == Backend::SemanticScholarTitle ==> match plan.title {
            Some(t) => r matches Some(g) && g.url@ == backend_url(*sources, backend, seq![])
                && pair_views(g.query@) == title_query(t@),
            None => r is None,
        },
        backend != Backend::SemanticScholarTitle ==> match plan.doi {
            Some(d) => r matches Some(g) && g.url@ == backend_url(*sources, backend, d@)
                && g.query@.len() == 0,
            None => r is None,
        },
{
    match backend {
        Backend::SemanticScholarTitle => match &plan.title {
            Some(t) => {
                let url = concat(sources.semantic_scholar.as_str(), "/graph/v1/paper/search");
                let mut query: Vec<(String, String)> = Vec::new();
                query.push(("query".to_owned(), t.clone()));
                query.push(("limit".to_owned(), "1".to_owned()));
                query.push(("fields".to_owned(), "abstract,title".to_owned()));
                proof {
                    assert(pair_views(query@) =~= title_query(t@));
                }
                Some(HttpGet { url, query })
            },
            None => None,
        },
        _ => match &plan.doi {
            Some(d) => {
                let enc = url_encode_path(d.as_str());
                let url = match backend {
                    Backend::Crossref => concat(
                        concat(sources.crossref.as_str(), "/works/").as_str(),
                        enc.as_str(),
                    ),
                    Backend::SemanticScholarDoi => concat(
                        concat(
                            concat(sources.semantic_scholar.as_str(), "/graph/v1/paper/DOI:").as_str(),
                            enc.as_str(),
                        ).as_str(),
                        "?fields=abstract",
                    ),
                    _ => concat(
                        concat(sources.openalex.as_str(), "/works/https://doi.org/").as_str(),
                        enc.as_str(),
                    ),
                };
                Some(HttpGet { url, query: Vec::new() })
            },
            None => None,
        },
    }
}

/// The services are asked in a fixed order: with a DOI, Crossref, then
/// Semantic Scholar, then OpenAlex, then (with a title) the title search;
/// without a DOI only the title search; with neither, none. The lookup then
/// finishes, so it answers `None` only once every planned service came up
/// empty.
pub proof fn law_lookup_order(has_doi: bool, has_title: bool)
    ensures
        ({
            let n1 = next_backend_spec(has_doi, has_title, None);
            let n2 = next_backend_spec(has_doi, has_title, n1);
            let n3 = next_backend_spec(has_doi, has_title, n2);
            let n4 = next_backend_spec(has_doi, has_title, n3);
            let n5 = next_backend_spec(has_doi, has_title, n4);
            &&& has_doi ==> n1 == Some(Backend::Crossref) && n2 == Some(Backend::SemanticScholarDoi)
                && n3 == Some(Backend::OpenAlex)
                && n4 == (if has_title { Some(Backend::SemanticScholarTitle) } else { None })
                && (n4 is Some ==> n5 is None)
            &&& !has_doi && has_title ==> n1 == Some(Backend::SemanticScholarTitle) && n2 is None
            &&& !has_doi && !has_title ==> n1 is None
        }),
{
    let n1 = next_backend_spec(has_doi, has_title, None);
    if has_doi {
        assert(n1 == Some(Backend::Crossref));
        let n2 = next_backend_spec(has_doi, has_title, n1);
        assert(n2 == Some(Backend::SemanticScholarDoi));
        let n3 = next_backend_spec(has_doi, has_title, n2);
        assert(n3 == Some(Backend::OpenAlex));
        let n4 = next_backend_spec(has_doi, has_title, n3);
        assert(n4 == (if has_title { Some(Backend::SemanticScholarTitle) } else { None::<Backend> }));
    }
}

/// Positions never decrease along `s`.
pub open spec fn in_position_order(s: Seq<(u64, Seq<char>)>) -> bool {
    forall|i: int, j: int| 0 <= i < j < s.len() ==> (#[trigger] s[i]).0 <= (#[trigger] s[j]).0
}

proof fn lemma_insert_by_position_keeps(s: Seq<(u64, Seq<char>)>, x: (u64, Seq<char>))
    requires
        in_position_order(s),
    ensures
        in_position_order(insert_by_position(s, x)),
        insert_by_position(s, x).to_multiset() == s.to_multiset().insert(x),
    decreases s.len(),
{
    broadcast use vstd::seq_lib::group_to_multiset_ensures;
    if s.len() == 0 {
        assert(seq![x] =~= s.insert(0, x));
    } else if x.0 < s[0].0 {
        assert(seq![x] + s =~= s.insert(0, x));
    } else {
        let t = s.drop_first();
        assert(in_position_order(t)) by {
            assert forall|i: int, j: int| 0 <= i < j < t.len() implies (#[trigger] t[i]).0 <= (#[trigger] t[j]).0 by {
                assert(t[i] == s[i + 1] && t[j] == s[j + 1]);
            }
        }
        lemma_insert_by_position_keeps(t, x);
        let u = insert_by_position(t, x);
        let r = seq![s[0]] + u;
        assert(r =~= u.insert(0, s[0]));
        assert(s =~= t.insert(0, s[0]));
        assert(r.to_multiset() =~= s.to_multiset().insert(x));
        assert forall|i: int, j: int| 0 <= i < j < r.len() implies (#[trigger] r[i]).0 <= (#[trigger] r[j]).0 by {
            if i > 0 {
                assert(r[i] == u[i - 1] && r[j] == u[j - 1]);
            } else {
                assert(r[j] == u[j - 1]);
                assert(u.to_multiset().count(u[j - 1]) > 0);
                assert(s.to_multiset().insert(x).count(u[j - 1]) > 0);
                if u[j - 1] != x {
                    assert(s.to_multiset().count(u[j - 1]) > 0);
                    let k = choose|k: int| 0 <= k < s.len() && s[k] == u[j - 1];
                    if k > 0 {
                        assert(s[0].0 <= s[k].0);
                    }
                }
            }
        }
    }
}

/// An abstract rebuilt from an inverted index holds every listed
/// (position, word) pair exactly once, in position order.
pub proof fn law_inverted_index_in_order(index: Seq<(String, Vec<u64>)>)
    ensures
        in_position_order(by_position(index_pairs(index))),
        by_position(index_pairs(index)).to_multiset() == index_pairs(index).to_multiset(),
{
    lemma_by_position(index_pairs(index));
}

/// How many positions an inverted index lists, over all its words.
pub open spec fn total_positions(index: Seq<(String, Vec<u64>)>) -> nat
    decreases index.len(),
{
    if index.len() == 0 {
        0
    } else {
        total_positions(index.drop_last()) + index.last().1@.len()
    }
}

proof fn lemma_index_pairs_len(index: Seq<(String, Vec<u64>)>)
    ensures
        index_pairs(index).len() == total_positions(index),
    decreases index.len(),
{
    if index.len() > 0 {
        lemma_index_pairs_len(index.drop_last());
    }
}

/// The words of a rebuilt abstract are exactly the listed ones: one word
/// per listed position (as many words as positions in the index), each
/// the word of a listed (position, word) pair, every pair used once, and
/// in order of position.
pub proof fn law_inverted_index_words(index: Seq<(String, Vec<u64>)>)
    ensures
        index_words(index).len() == total_positions(index),
        exists|sorted: Seq<(u64, Seq<char>)>|
            #![trigger in_position_order(sorted)]
            {
                &&& sorted.to_multiset() == index_pairs(index).to_multiset()
                &&& in_position_order(sorted)
                &&& sorted.len() == index_words(index).len()
                &&& forall|i: int| 0 <= i < sorted.len() ==> index_words(index)[i] == (#[trigger] sorted[i]).1
            },
{
    broadcast use vstd::seq_lib::group_to_multiset_ensures;
    let s = index_pairs(index);
    lemma_by_position(s);
    lemma_index_pairs_len(index);
    let sorted = by_position(s);
    assert(sorted.to_multiset().len() == sorted.len());
    assert(s.to_multiset().len() == s.len());
    assert(in_position_order(sorted));
}

proof fn lemma_by_position(s: Seq<(u64, Seq<char>)>)
    ensures
        in_position_order(by_position(s)),
        by_position(s).to_multiset() == s.to_multiset(),
    decreases s.len(),
{
    broadcast use vstd::seq_lib::group_to_multiset_ensures;
    if s.len() == 0 {
        assert(by_position(s).to_multiset() =~= s.to_multiset());
    } else {
        lemma_by_position(s.drop_last());
        lemma_insert_by_position_keeps(by_position(s.drop_last()), s.last());
        assert(s =~= s.drop_last().push(s.last()));
    }
}
} // verus!
