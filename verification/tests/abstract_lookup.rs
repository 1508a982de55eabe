//! Abstract clean-up and the Crossref → Semantic Scholar → OpenAlex plan.

use zn_core::abstract_lookup::{
    advance, crossref_abstract, normalise_whitespace, openalex_abstract, plain_abstract, plan_lookup,
    reconstruct_inverted_index, request_for, strip_html_tags, Backend, LookupAction, Sources,
};
use zn_core::text::url_encode_path;

#[test]
fn strip_html_tags_removes_jats_paragraph() {
    let jats = "<jats:p>Hello <jats:italic>world</jats:italic>.</jats:p>";
    assert_eq!(normalise_whitespace(&strip_html_tags(jats)), "Hello world .");
}

#[test]
fn normalise_whitespace_collapses_runs() {
    assert_eq!(normalise_whitespace("  multiple\n\t  spaces  here  "), "multiple spaces here");
}

#[test]
fn url_encode_path_encodes_special_chars() {
    assert_eq!(url_encode_path("10.1/abc def"), "10.1/abc%20def");
    assert_eq!(url_encode_path("10.48550/arXiv.2106.09685"), "10.48550/arXiv.2106.09685");
}

#[test]
fn reconstruct_inverted_index_orders_and_repeats() {
    let m = vec![
        ("cat".to_string(), vec![1u64]),
        ("ran".to_string(), vec![3u64]),
        ("the".to_string(), vec![0u64, 2]),
    ];
    assert_eq!(reconstruct_inverted_index(&m), "the cat the ran");
}

#[test]
fn lookup_short_circuits_on_empty_inputs() {
    let plan = plan_lookup(None, "   ");
    assert!(matches!(advance(&plan, None, None), LookupAction::Finish(None)));
    let plan = plan_lookup(Some("  "), "");
    assert!(matches!(advance(&plan, None, None), LookupAction::Finish(None)));
}

fn fetch_of(a: LookupAction) -> Option<Backend> {
    match a {
        LookupAction::Fetch(b) => Some(b),
        LookupAction::Finish(_) => None,
    }
}

#[test]
fn doi_chain_then_title_search() {
    let plan = plan_lookup(Some(" 10.48550/arXiv.2006.11239 "), "DDPM");
    assert_eq!(plan.doi.as_deref(), Some("10.48550/arXiv.2006.11239"));
    let mut at = None;
    let mut order = Vec::new();
    while let Some(b) = fetch_of(advance(&plan, at, None)) {
        order.push(b);
        at = Some(b);
    }
    assert_eq!(
        order,
        vec![Backend::Crossref, Backend::SemanticScholarDoi, Backend::OpenAlex, Backend::SemanticScholarTitle]
    );
    let found = advance(&plan, Some(Backend::Crossref), Some("An abstract.".into()));
    assert!(matches!(found, LookupAction::Finish(Some(ref a)) if a == "An abstract."));
}

#[test]
fn no_doi_uses_title_search_only() {
    let plan = plan_lookup(None, "Some Obscure Paper");
    assert_eq!(fetch_of(advance(&plan, None, None)), Some(Backend::SemanticScholarTitle));
    assert_eq!(fetch_of(advance(&plan, Some(Backend::SemanticScholarTitle), None)), None);
    let req = request_for(&Sources::default(), &plan, Backend::SemanticScholarTitle).unwrap();
    assert_eq!(req.url, "https://api.semanticscholar.org/graph/v1/paper/search");
    assert_eq!(
        req.query,
        vec![
            ("query".to_string(), "Some Obscure Paper".to_string()),
            ("limit".to_string(), "1".to_string()),
            ("fields".to_string(), "abstract,title".to_string()),
        ]
    );
    assert!(request_for(&Sources::default(), &plan, Backend::Crossref).is_none());
}

#[test]
fn request_urls_per_backend() {
    let sources = Sources {
        crossref: "http://c".into(),
        semantic_scholar: "http://s".into(),
        openalex: "http://o".into(),
    };
    let plan = plan_lookup(Some("10.1/a b"), "");
    assert_eq!(request_for(&sources, &plan, Backend::Crossref).unwrap().url, "http://c/works/10.1/a%20b");
    assert_eq!(
        request_for(&sources, &plan, Backend::SemanticScholarDoi).unwrap().url,
        "http://s/graph/v1/paper/DOI:10.1/a%20b?fields=abstract"
    );
    assert_eq!(
        request_for(&sources, &plan, Backend::OpenAlex).unwrap().url,
        "http://o/works/https://doi.org/10.1/a%20b"
    );
    assert!(request_for(&sources, &plan, Backend::SemanticScholarTitle).is_none());
}

#[test]
fn backend_results_are_cleaned() {
    assert_eq!(
        crossref_abstract("<jats:p>We present  <jats:italic>DDPM</jats:italic>, a model.</jats:p>").as_deref(),
        Some("We present DDPM , a model.")
    );
    assert_eq!(crossref_abstract("<jats:p> </jats:p>"), None);
    assert_eq!(plain_abstract("Found by title.").as_deref(), Some("Found by title."));
    assert_eq!(plain_abstract(" \n "), None);
    let index = vec![("world".to_string(), vec![1u64]), ("Hello".to_string(), vec![0u64])];
    assert_eq!(openalex_abstract(&index).as_deref(), Some("Hello world"));
    assert_eq!(openalex_abstract(&vec![]), None);
}

#[test]
fn normalising_twice_changes_nothing() {
    for s in ["  a\t\tb  ", "", " x ", "a\u{3000}b\nc", "  \n "] {
        let once = normalise_whitespace(s);
        assert_eq!(normalise_whitespace(&once), once);
        assert!(!once.starts_with(' ') && !once.ends_with(' ') && !once.contains("  "));
    }
}

#[test]
fn tie_positions_keep_index_order() {
    let m = vec![("b".to_string(), vec![0u64]), ("a".to_string(), vec![0u64])];
    assert_eq!(reconstruct_inverted_index(&m), "b a");
}
