//! DOI/title normalization and library matching of citation graphs.

use zn_core::citations::{
    apply_library_match, citing_filter, graph_doi, normalize_doi, normalize_title, parse_related,
    reference_filters, reference_ids, short_id, sort_by_citations, work_url, WorkRecord,
};
use zn_core::models::{CitationGraph, Collection, Item, Library, RelatedPaper};

fn item(key: &str, title: &str, doi: Option<&str>) -> Item {
    Item {
        key: key.into(),
        title: title.into(),
        item_type: "journalArticle".into(),
        creators: vec![],
        year: None,
        publication: None,
        doi: doi.map(String::from),
        url: None,
        abstract_text: None,
        tags: vec![],
        date_added: None,
        collection_keys: vec![],
        attachment: None,
    }
}

#[test]
fn normalize_doi_strips_prefixes_and_lowercases() {
    assert_eq!(normalize_doi("https://doi.org/10.1/ABC"), "10.1/abc");
    assert_eq!(normalize_doi("  10.1/AbC "), "10.1/abc");
}

#[test]
fn normalize_title_drops_punctuation() {
    assert_eq!(normalize_title("Attention Is All You Need!"), "attention is all you need");
    assert_eq!(
        normalize_title("Denoising  Diffusion: Probabilistic-Models"),
        "denoising diffusion probabilistic models"
    );
}

#[test]
fn short_id_extracts_trailing_segment() {
    assert_eq!(short_id("https://openalex.org/W2741809807"), "W2741809807");
    assert_eq!(short_id("W123"), "W123");
}

#[test]
fn library_match_by_doi_and_title() {
    let library = Library {
        collections: vec![Collection { key: "C".into(), name: "X".into(), parent_key: None }],
        items: vec![
            item("HAVE_DOI", "Some Paper", Some("https://doi.org/10.1/XYZ")),
            item("HAVE_TITLE", "Attention Is All You Need", None),
        ],
        writable: true,
    };
    let mut graph = CitationGraph {
        references: vec![
            RelatedPaper {
                title: "totally different".into(),
                doi: Some("10.1/xyz".into()),
                year: None,
                cited_by_count: 5,
                in_library_key: None,
            },
            RelatedPaper {
                title: "attention is all you need".into(),
                doi: None,
                year: None,
                cited_by_count: 99,
                in_library_key: None,
            },
            RelatedPaper {
                title: "Not in library".into(),
                doi: Some("10.9/none".into()),
                year: None,
                cited_by_count: 1,
                in_library_key: None,
            },
        ],
        citations: vec![],
        cited_by_count: 10,
        fetch_failed: false,
    };
    apply_library_match(&mut graph, &library);
    assert_eq!(graph.references[0].in_library_key.as_deref(), Some("HAVE_DOI"));
    assert_eq!(graph.references[1].in_library_key.as_deref(), Some("HAVE_TITLE"));
    assert_eq!(graph.references[2].in_library_key, None);
}

#[test]
fn related_paper_from_work_record() {
    let w = WorkRecord {
        title: Some("  A Referenced Work ".into()),
        doi: Some("https://doi.org/10.2/REF".into()),
        publication_year: Some(2017),
        cited_by_count: Some(1000),
    };
    let p = parse_related(&w).unwrap();
    assert_eq!(p.title, "A Referenced Work");
    assert_eq!(p.doi.as_deref(), Some("10.2/ref"));
    assert_eq!(p.year, Some(2017));
    assert_eq!(p.cited_by_count, 1000);
    let blank = WorkRecord { title: Some("   ".into()), doi: None, publication_year: None, cited_by_count: None };
    assert!(parse_related(&blank).is_none());
}

#[test]
fn citation_queries_and_ordering() {
    assert_eq!(graph_doi("   "), None);
    assert_eq!(graph_doi("https://doi.org/10.1/ABC").as_deref(), Some("10.1/abc"));
    assert_eq!(
        work_url("http://x", "10.1/a b"),
        "http://x/works/https://doi.org/10.1/a%20b?select=id,cited_by_count,referenced_works"
    );
    let ids = reference_ids(&vec!["https://openalex.org/W2741809807".to_string(), " ".to_string()]);
    assert_eq!(ids, vec!["W2741809807"]);
    assert_eq!(reference_filters(&ids), vec!["openalex:W2741809807"]);
    assert_eq!(citing_filter("W100").as_deref(), Some("cites:W100"));
    assert_eq!(citing_filter(""), None);
    let paper = |t: &str, c: i64| RelatedPaper { title: t.into(), doi: None, year: None, cited_by_count: c, in_library_key: None };
    let sorted = sort_by_citations(vec![paper("a", 1), paper("b", 5), paper("c", 1), paper("d", 9)]);
    let titles: Vec<&str> = sorted.iter().map(|p| p.title.as_str()).collect();
    assert_eq!(titles, vec!["d", "b", "a", "c"], "most cited first, ties in input order");
}
