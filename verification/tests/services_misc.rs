//! Keychain refusals, pricing tiers, synthesis context and command decisions.

use zn_core::commands::{
    audit_report, audit_request_for, BatchRun,
    benign_migration_error, body_excerpt, check_history, chosen_provider, citation_cache_stale, find_item,
    had_abstract_column, model_for, move_failure, pdf_path, plugin_write_gate, progress_finished,
    progress_running, provider_key, reading_state_update, removal_keys, select_items, status_column, summary_source,
    tag_result, tags_follow_move, unclassified_keys, use_cached_graph, use_local_fallback, zotero_select_url,
};
use zn_core::models::{stored_source, Attachment, ChatMessage, ChatRole, LinkMode};
use zn_core::zotero::plugin_api::{Fulltext, UpdateItemResult};
use zn_core::error::Error;
use zn_core::keychain::{deletion_outcome, keychain_user, lookup_outcome, presence_outcome, save_key, KeyFailure};
use zn_core::models::{
    AppSettings, Collection, Item, Library, ProviderId, ReadingStatus, SummarySource,
};
use zn_core::pricing::{price_tier, PriceTier};
use zn_core::synthesis::build_context;

fn item(key: &str) -> Item {
    Item {
        key: key.into(),
        title: format!("Title {key}"),
        item_type: "journalArticle".into(),
        creators: vec!["A".into()],
        year: Some(2020),
        publication: None,
        doi: None,
        url: None,
        abstract_text: Some("abs".into()),
        tags: vec![],
        date_added: None,
        collection_keys: vec![],
        attachment: None,
    }
}

#[test]
fn blank_api_key_is_refused() {
    match save_key(ProviderId::Gemini, "   ") {
        Err(Error::Other(m)) => assert_eq!(m, "API key must not be empty"),
        other => panic!("unexpected {other:?}"),
    }
    assert_eq!(keychain_user(ProviderId::Anthropic), "anthropic-api-key");
}

#[test]
fn keychain_outcomes() {
    let missing = KeyFailure { no_entry: true, message: "No matching entry found in secure storage".into() };
    let broken = KeyFailure { no_entry: false, message: "locked".into() };
    assert_eq!(lookup_outcome(Ok("k".into())), Ok(Some("k".into())));
    assert_eq!(lookup_outcome(Err(missing.clone())), Ok(None));
    assert_eq!(lookup_outcome(Err(broken.clone())), Err(Error::Keychain("locked".into())));
    assert_eq!(deletion_outcome(Err(missing)), Ok(()));
    assert_eq!(deletion_outcome(Err(broken)), Err(Error::Keychain("locked".into())));
}

#[test]
fn pricing_tiers() {
    assert_eq!(price_tier(ProviderId::Local, "llama3.1:8b"), None);
    assert_eq!(price_tier(ProviderId::Anthropic, "model-OPUS-4-8"), Some(PriceTier::Opus));
    assert_eq!(price_tier(ProviderId::Anthropic, "haiku-3"), Some(PriceTier::Haiku));
    assert_eq!(price_tier(ProviderId::Anthropic, "sonnet-x"), Some(PriceTier::Sonnet));
    assert_eq!(price_tier(ProviderId::Gemini, "gemini-2.5-flash"), Some(PriceTier::Flash));
    assert_eq!(price_tier(ProviderId::Gemini, "gemini-2.5-pro"), Some(PriceTier::Pro));
}

#[test]
fn synthesis_context_is_capped() {
    let items: Vec<Item> = (0..60).map(|i| item(&format!("K{i}"))).collect();
    let ctx = build_context(&items);
    assert_eq!(ctx.total, 60);
    assert_eq!(ctx.included, 50);
    assert_eq!(ctx.papers.len(), 50);
    assert_eq!(ctx.papers[49].title, "Title K49");
    let ctx = build_context(&items[..3]);
    assert_eq!((ctx.included, ctx.total), (3, 3));
}

#[test]
fn move_drops_unclassified_and_listed_memberships() {
    let lib = Library {
        collections: vec![
            Collection { key: "UNC".into(), name: " unclassified ".into(), parent_key: None },
            Collection { key: "SUB".into(), name: "Unclassified".into(), parent_key: Some("X".into()) },
            Collection { key: "CV".into(), name: "Computer Vision".into(), parent_key: None },
        ],
        items: vec![item("I1")],
        writable: true,
    };
    let unc = unclassified_keys(&lib);
    assert_eq!(unc, vec!["UNC"]);
    let keys = removal_keys(&unc, &vec!["CV".into(), "UNC".into(), "CV".into()]);
    assert_eq!(keys, vec!["UNC", "CV"]);
    assert_eq!(find_item(&lib, "I1").unwrap().key, "I1");
    match find_item(&lib, "NOPE") {
        Err(e) => assert_eq!(e.to_string(), "item NOPE not found in the library"),
        Ok(_) => panic!("found a missing item"),
    }
}

#[test]
fn write_gate_and_summary_source() {
    assert!(plugin_write_gate("0.1.0").is_ok());
    let e = plugin_write_gate("0.0.1").unwrap_err();
    assert!(e.to_string().starts_with("the Zotero Notebook plugin (v0.0.1) is older than this app expects"));
    assert_eq!(summary_source(true, false), SummarySource::Fulltext);
    assert_eq!(summary_source(false, true), SummarySource::Abstract);
    assert_eq!(summary_source(false, false), SummarySource::Metadata);
}

#[test]
fn reading_state_bookkeeping() {
    assert!(reading_state_update("K".into(), None, false, "  ", "t".into()).is_none());
    let s = reading_state_update("K".into(), None, true, " note ", "t".into()).unwrap();
    assert_eq!(s.note, "note");
    assert!(s.starred && s.status.is_none());
    assert_eq!(status_column(Some(ReadingStatus::Reading)), "reading");
    assert_eq!(status_column(None), "");
    assert_eq!(ReadingStatus::parse("to_read"), Some(ReadingStatus::ToRead));
    assert_eq!(ReadingStatus::parse(""), None);
    assert_eq!(SummarySource::parse("fulltext"), Some(SummarySource::Fulltext));
    assert_eq!(SummarySource::parse(""), None);
    assert!(benign_migration_error("duplicate column name: source"));
    assert!(!benign_migration_error("disk I/O error"));
}

#[test]
fn citation_cache_freshness() {
    let fetched = "2026-06-01T00:00:00Z";
    let t = 1_780_272_000i64; // 2026-06-01T00:00:00Z
    assert!(!citation_cache_stale(fetched, t + 13 * 86_400, 0));
    assert!(citation_cache_stale(fetched, t + 14 * 86_400, 0));
    assert!(citation_cache_stale("not a date", t, 0));
    // Fractions of a second count: 0.9 s after the stamp plus 14 days
    // minus 0.4 s is not yet 14 days.
    let frac = "2026-06-01T00:00:00.900Z";
    assert!(!citation_cache_stale(frac, t + 14 * 86_400, 500_000_000));
    assert!(citation_cache_stale(frac, t + 14 * 86_400, 900_000_000));
    // A leap-second stamp: chrono's difference from the next day on reads
    // 23:59:60.5 as half a second past midnight.
    let leap = "2016-12-31T23:59:60.500Z";
    let l = 1_483_228_799i64; // 2016-12-31T23:59:59Z
    assert!(!citation_cache_stale(leap, l + 14 * 86_400 + 1, 400_000_000));
    assert!(citation_cache_stale(leap, l + 14 * 86_400 + 1, 600_000_000));
}

#[test]
fn settings_defaults() {
    let s = AppSettings::default();
    assert_eq!(s.default_provider, ProviderId::Gemini);
    assert_eq!(s.local_base_url, "http://127.0.0.1:11434/v1");
    assert_eq!(s.local_model, "llama3.1:8b");
    assert_eq!(s.gemini_model, "gemini-2.5-pro");
    assert_eq!(ProviderId::Local.as_str(), "local");
}

#[test]
fn error_messages() {
    assert_eq!(
        Error::ZoteroRejected { status: 403, message: "no".into() }.to_string(),
        "Zotero rejected the request (HTTP 403): no"
    );
    assert_eq!(Error::llm("gemini".into(), "x".into()).to_string(), "LLM provider error (gemini): x");
    assert_eq!(Error::PluginMissing.to_string(), "Zotero Notebook plugin is not installed or not responding");
}

#[test]
fn provider_selection_and_keys() {
    assert_eq!(chosen_provider(None, ProviderId::Gemini), ProviderId::Gemini);
    assert_eq!(chosen_provider(Some(ProviderId::Local), ProviderId::Gemini), ProviderId::Local);
    assert_eq!(provider_key(ProviderId::Local, Err(Error::Keychain("locked".into()))), Ok(None));
    assert_eq!(provider_key(ProviderId::Local, Ok(Some("k".into()))), Ok(Some("k".into())));
    assert_eq!(provider_key(ProviderId::Gemini, Ok(None)), Err(Error::MissingApiKey("gemini".into())));
    assert_eq!(
        provider_key(ProviderId::Anthropic, Ok(None)).unwrap_err().to_string(),
        "API key for anthropic is not configured"
    );
    let s = AppSettings::default();
    assert_eq!(model_for(ProviderId::Local, &s), "llama3.1:8b");
    assert_eq!(model_for(ProviderId::Gemini, &s), "gemini-2.5-pro");
}

#[test]
fn batch_progress_and_moves() {
    let p = progress_running(0, 3, "K1", Some("Title".into()));
    assert_eq!((p.done, p.total, p.state.as_str()), (0, 3, "running"));
    let p = progress_finished(1, 3, "K1", false, Some("boom".into()));
    assert_eq!((p.done, p.state.as_str(), p.message.as_deref()), (1, "error", Some("boom")));
    let m = move_failure("K1", &Error::PluginMissing);
    assert!(!m.ok);
    assert_eq!(m.error.as_deref(), Some("Zotero Notebook plugin is not installed or not responding"));
    assert!(!tags_follow_move(&m, &vec!["t".into()]));
    let ok = tag_result("K2", Ok(UpdateItemResult {
        ok: true,
        wrote_abstract: false,
        added_tags: vec!["t".into()],
        note_key: None,
    }));
    assert!(ok.ok && ok.error.is_none());
    assert!(tags_follow_move(&ok, &vec!["t".into()]));
    assert!(!tags_follow_move(&ok, &vec![]));
}

#[test]
fn fallbacks_and_checks() {
    assert!(use_local_fallback(&Err(Error::PluginMissing)));
    assert!(!use_local_fallback(&Err(Error::ZoteroOffline("x".into()))));
    assert_eq!(
        body_excerpt(Ok(Some(Fulltext { text: "T".into(), chars: 1, truncated: false }))).as_deref(),
        Some("T")
    );
    assert_eq!(body_excerpt(Err(Error::PluginMissing)), None);
    let t = 1_780_272_000i64;
    assert!(use_cached_graph(false, "2026-06-01T00:00:00Z", t + 86_400, 0));
    assert!(!use_cached_graph(true, "2026-06-01T00:00:00Z", t + 86_400, 0));
    assert!(check_history(&vec![]).is_err());
    assert!(check_history(&vec![ChatMessage { role: ChatRole::User, content: "q".into() }]).is_ok());
    let mut it = item("K");
    assert_eq!(pdf_path(&it).unwrap_err().to_string(), "this item has no PDF file on disk");
    it.attachment = Some(Attachment {
        key: "A".into(),
        title: "PDF".into(),
        filename: None,
        content_type: None,
        link_mode: LinkMode::LinkedFile,
        file_path: Some("/papers/x.pdf".into()),
    });
    assert_eq!(pdf_path(&it).unwrap(), "/papers/x.pdf");
    assert_eq!(zotero_select_url("K"), "zotero://select/library/items/K");
}

#[test]
fn stored_rows_read_back() {
    for s in [SummarySource::Abstract, SummarySource::Metadata, SummarySource::Fulltext] {
        assert_eq!(stored_source(s.as_str(), had_abstract_column(s)), s, "source round-trips");
    }
    assert_eq!(stored_source("", true), SummarySource::Abstract, "legacy rows default to abstract");
    assert_eq!(stored_source("", false), SummarySource::Metadata);
    for s in [ReadingStatus::ToRead, ReadingStatus::Reading, ReadingStatus::Read] {
        assert_eq!(ReadingStatus::parse(status_column(Some(s))), Some(s));
    }
    assert_eq!(ReadingStatus::parse(status_column(None)), None);
}

#[test]
fn chat_selection_keeps_requested_order_and_skips_missing() {
    let lib = Library { collections: vec![], items: vec![item("A"), item("B"), item("C")], writable: true };
    let picked = select_items(&lib, &vec!["C".into(), "GONE".into(), "A".into()]).unwrap();
    let keys: Vec<&str> = picked.iter().map(|i| i.key.as_str()).collect();
    assert_eq!(keys, vec!["C", "A"]);
    assert_eq!(picked[0].title, "Title C");
    match select_items(&lib, &vec![]) {
        Err(Error::Other(m)) => assert_eq!(m, "no papers selected"),
        other => panic!("unexpected {other:?}"),
    }
    match select_items(&lib, &vec!["X".into(), "Y".into()]) {
        Err(Error::Other(m)) => assert_eq!(m, "none of the selected papers are in the library"),
        other => panic!("unexpected {other:?}"),
    }
}

#[test]
fn key_presence_follows_the_lookup() {
    assert_eq!(presence_outcome(Ok(Some("k".into()))), Ok(true));
    assert_eq!(presence_outcome(Ok(None)), Ok(false));
    assert_eq!(presence_outcome(Err(Error::Keychain("locked".into()))), Err(Error::Keychain("locked".into())));
}

#[test]
fn batch_reports_each_key_once_and_goes_on_after_failures() {
    let mut run = BatchRun::new(vec!["A".into(), "B".into(), "C".into()]);
    let mut seen = Vec::new();
    let mut n = 0;
    while let Some(key) = run.current() {
        let start = run.started(None);
        assert_eq!((start.done, start.total, start.state.as_str()), (n, 3, "running"));
        let ok = key != "B";
        let ev = run.finished(ok, if ok { None } else { Some("boom".into()) });
        n += 1;
        assert_eq!(ev.done, n);
        assert_eq!(ev.state, if ok { "ok" } else { "error" });
        seen.push(ev.item_key.unwrap());
    }
    assert_eq!(seen, vec!["A", "B", "C"]);
    assert_eq!(run.current(), None);
}

#[test]
fn filing_check_reports() {
    assert_eq!(audit_report(&Ok(None)), (true, None));
    assert_eq!(audit_report(&Err(Error::Other("x".into()))), (false, Some("x".into())));
    let lib = Library { collections: vec![], items: vec![item("A")], writable: true };
    match audit_request_for(&lib.items[0], &lib) {
        Err(Error::Other(m)) => assert_eq!(m, zn_core::commands::NOT_CLASSIFIED),
        other => panic!("unexpected {other:?}"),
    }
}
