//! Plugin version gate, error mapping, status probing and the local API records.

use zn_core::error::Error;
use zn_core::models::{Collection, LinkMode};
use zn_core::zotero::local_api::{
    check_forbidden, collection_from, is_paper, item_from_data, next_page_start, page_url, parse_link_mode,
    pdf_attachment, year_from_date, ChildFields, Creator, ItemFields,
};
use zn_core::zotero::plugin_api::{
    classify_error, fulltext_failure, fulltext_from, fulltext_url, plugin_base_url, plugin_url,
    plugin_version_compatible, status_from_local_ping, status_from_ping, Fulltext,
};

#[test]
fn version_compatibility() {
    assert!(plugin_version_compatible("0.1.0"));
    assert!(plugin_version_compatible("0.1"));
    assert!(plugin_version_compatible("0.2.0"));
    assert!(plugin_version_compatible("1.0.0"));
    assert!(!plugin_version_compatible("0.0.9"));
    assert!(!plugin_version_compatible(""));
    assert!(!plugin_version_compatible("garbage"));
}

#[test]
fn version_edge_cases() {
    assert!(plugin_version_compatible("  +1 "));
    assert!(!plugin_version_compatible("1.x"));
    assert!(!plugin_version_compatible("0.x"));
    assert!(!plugin_version_compatible("1."));
    assert!(!plugin_version_compatible("1.0.beta"));
    assert!(!plugin_version_compatible("1..0"));
    assert!(plugin_version_compatible(" 0.1.7.2 "));
    assert!(!plugin_version_compatible("4294967296.0"));
    assert!(plugin_version_compatible("4294967295"));
}

#[test]
fn plugin_errors_are_classified() {
    let e = classify_error(500, Some("file already exists at destination".into()), "{...}");
    assert!(matches!(e, Error::ZoteroRejected { status: 500, ref message } if message.contains("already exists")));
    assert!(matches!(classify_error(404, None, "No endpoint found"), Error::PluginMissing));
    let long = "x".repeat(300);
    match classify_error(502, None, &long) {
        Error::ZoteroRejected { status, message } => {
            assert_eq!(status, 502);
            assert_eq!(message.chars().count(), 201);
            assert!(message.ends_with('\u{2026}'));
        }
        other => panic!("unexpected {other:?}"),
    }
}

#[test]
fn fulltext_outcomes() {
    assert_eq!(
        fulltext_from(Some("We present DDPM...".into()), 123456, true),
        Some(Fulltext { text: "We present DDPM...".into(), chars: 123456, truncated: true })
    );
    assert_eq!(fulltext_from(Some("  ".into()), 0, false), None);
    assert_eq!(fulltext_from(None, 0, false), None);
    assert_eq!(fulltext_failure(404, None, "Not Found"), Ok(None));
    assert!(fulltext_failure(500, None, "boom").is_err());
    assert!(fulltext_failure(404, Some("no such item".into()), "").is_err());
}

#[test]
fn plugin_urls() {
    assert_eq!(plugin_base_url("http://127.0.0.1:23119//"), "http://127.0.0.1:23119");
    assert_eq!(plugin_url("http://h", "ping"), "http://h/zotero-notebook/ping");
    assert_eq!(
        fulltext_url("http://h", "ITEM 1", 80000),
        "http://h/zotero-notebook/fulltext?itemKey=ITEM%201&maxChars=80000"
    );
}

#[test]
fn status_probe() {
    let s = status_from_ping(Ok(("0.1.0".into(), "7.0.11".into()))).unwrap();
    assert!(s.running && s.plugin_installed);
    assert_eq!(s.plugin_version.as_deref(), Some("0.1.0"));
    let s = status_from_ping(Err(Error::ZoteroOffline("http://127.0.0.1:1".into()))).unwrap();
    assert!(!s.running);
    assert!(s.hint.unwrap().contains("Start Zotero"));
    assert!(status_from_ping(Err(Error::PluginMissing)).is_none());
    let s = status_from_local_ping(true);
    assert!(s.running && !s.plugin_installed);
    assert!(s.hint.as_deref().unwrap().contains("Zotero is running"));
    assert!(s.hint.unwrap().contains("plugin"));
    assert!(!status_from_local_ping(false).running);
}

#[test]
fn local_api_403_explains_allow_other_applications() {
    match check_forbidden(403) {
        Err(Error::ZoteroRejected { status: 403, message }) => assert!(message.contains("Allow other applications")),
        other => panic!("expected ZoteroRejected, got {other:?}"),
    }
    assert!(check_forbidden(200).is_ok());
}

fn fields() -> ItemFields {
    ItemFields {
        title: Some("Last paper".into()),
        item_type: Some("journalArticle".into()),
        date: Some("March 2019".into()),
        publication_title: Some(" TPAMI ".into()),
        proceedings_title: None,
        conference_name: None,
        publisher: Some("Ignored".into()),
        doi: Some("10.1/xyz".into()),
        url: Some("".into()),
        abstract_note: Some("An abstract.".into()),
        date_added: None,
        creators: vec![
            Creator { name: None, first_name: Some("Ada".into()), last_name: Some("Lovelace".into()) },
            Creator { name: Some(" Some Org ".into()), first_name: None, last_name: None },
            Creator { name: None, first_name: None, last_name: None },
        ],
        tags: vec![Some("survey".into()), None],
        collections: vec![Some("COL2".into())],
    }
}

#[test]
fn local_item_from_record() {
    let it = item_from_data("LAST1", &fields());
    assert_eq!(it.key, "LAST1");
    assert_eq!(it.title, "Last paper");
    assert_eq!(it.year, Some(2019));
    assert_eq!(it.creators, vec!["Ada Lovelace", "Some Org"]);
    assert_eq!(it.publication.as_deref(), Some("TPAMI"));
    assert_eq!(it.doi.as_deref(), Some("10.1/xyz"));
    assert_eq!(it.url, None);
    assert_eq!(it.tags, vec!["survey"]);
    assert_eq!(it.collection_keys, vec!["COL2"]);
    let mut bare = fields();
    bare.title = Some("  ".into());
    bare.item_type = None;
    let it = item_from_data("X", &bare);
    assert_eq!(it.title, "(untitled)");
    assert_eq!(it.item_type, "document");
}

#[test]
fn years_in_dates() {
    assert_eq!(year_from_date("2021-05-01"), Some(2021));
    assert_eq!(year_from_date("March 2019"), Some(2019));
    assert_eq!(year_from_date("0999 or 3000"), None);
    assert_eq!(year_from_date("12"), None);
    assert_eq!(year_from_date("März 2019"), Some(2019));
    assert_eq!(year_from_date("2021年"), Some(2021));
    assert_eq!(year_from_date("日付 ١٢٣٤ 1987"), Some(1987));
    assert_eq!(year_from_date("99"), None);
}

#[test]
fn local_api_linked_file_relative_path_is_unresolvable() {
    let child = |ct: &str, mode: &str, path: &str| ChildFields {
        key: "A1".into(),
        content_type: Some(ct.into()),
        link_mode: Some(mode.into()),
        path: Some(path.into()),
        title: None,
        filename: Some("x.pdf".into()),
    };
    let a = pdf_attachment(vec![child("application/pdf", "linked_file", "attachments:papers/x.pdf")]).unwrap();
    assert_eq!(a.file_path, None, "attachments: paths cannot be resolved in fallback mode");
    assert_eq!(a.link_mode, LinkMode::LinkedFile);
    assert_eq!(a.title, "PDF");
    let a = pdf_attachment(vec![
        child("text/html", "linked_file", "/x.html"),
        child("application/pdf", "linked_file", "/papers/x.pdf"),
    ])
    .unwrap();
    assert_eq!(a.file_path.as_deref(), Some("/papers/x.pdf"));
    assert!(pdf_attachment(vec![child("text/html", "imported_file", "")]).is_none());
}

#[test]
fn local_api_records_and_paging() {
    assert_eq!(parse_link_mode(Some("imported_url")), LinkMode::ImportedUrl);
    assert_eq!(parse_link_mode(Some("whatever")), LinkMode::Other);
    assert_eq!(parse_link_mode(None), LinkMode::Other);
    assert!(!is_paper(Some("attachment")));
    assert!(is_paper(Some("journalArticle")));
    assert!(is_paper(None));
    assert_eq!(
        collection_from("COL2".into(), "Vision".into(), Some("".into())),
        Collection { key: "COL2".into(), name: "Vision".into(), parent_key: None }
    );
    assert_eq!(next_page_start(0, 100), Some(100));
    assert_eq!(next_page_start(100, 1), None);
    assert_eq!(page_url("http://h/", "items/top", 100), "http://h/api/users/0/items/top?limit=100&start=100");
    assert_eq!(page_url("http://h", "items?x=1", 0), "http://h/api/users/0/items?x=1&limit=100&start=0");
}
