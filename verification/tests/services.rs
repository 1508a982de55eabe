//! Classification normalization, audits and the other pure services.

use zn_core::classify::{
    audit_to_proposal, build_audit_request, build_request, clamp_unit, normalize_path, normalize_response,
    normalize_tags, to_proposal,
};
use zn_core::llm::provider::{AuditResponse, ClassifyResponse};
use zn_core::models::{Collection, Item, Library};

fn collection(key: &str, name: &str, parent: Option<&str>) -> Collection {
    Collection {
        key: key.into(),
        name: name.into(),
        parent_key: parent.map(String::from),
    }
}

fn item(key: &str, title: &str) -> Item {
    Item {
        key: key.into(),
        title: title.into(),
        item_type: "journalArticle".into(),
        creators: vec!["A B".into()],
        year: Some(2021),
        publication: Some("Venue".into()),
        doi: None,
        url: None,
        abstract_text: Some("Abstract.".into()),
        tags: vec![],
        date_added: None,
        collection_keys: vec![],
        attachment: None,
    }
}

fn library() -> Library {
    Library {
        collections: vec![
            collection("CV", "Computer Vision", None),
            collection("DM", "Diffusion Models", Some("CV")),
            collection("NLP", "NLP", None),
            collection("UNC", "Unclassified", None),
        ],
        items: vec![item("I1", "Paper one")],
        writable: true,
    }
}

fn resp(path: &[&str], is_new: bool) -> ClassifyResponse {
    ClassifyResponse {
        path: path.iter().map(|s| s.to_string()).collect(),
        is_new,
        confidence_bits: 0.8f64.to_bits(),
        rationale: "because".into(),
        tags: vec![],
    }
}

#[test]
fn build_request_excludes_unclassified_paths() {
    let lib = library();
    let req = build_request(&lib.items[0], &lib);
    assert!(req
        .existing_paths
        .iter()
        .all(|p| !p[0].eq_ignore_ascii_case("Unclassified")));
    assert!(req
        .existing_paths
        .contains(&vec!["Computer Vision".to_string(), "Diffusion Models".to_string()]));
}

#[test]
fn normalize_adopts_existing_casing_and_detects_existing_path() {
    let lib = library();
    let (path, is_new) =
        normalize_response(&resp(&["computer VISION", "diffusion models"], true), &lib).unwrap();
    assert_eq!(path, vec!["Computer Vision", "Diffusion Models"]);
    assert!(!is_new);
}

#[test]
fn normalize_detects_new_leaf_under_existing_parent() {
    let lib = library();
    let (path, is_new) =
        normalize_response(&resp(&["computer vision", "3D Reconstruction"], false), &lib).unwrap();
    assert_eq!(path[0], "Computer Vision", "parent canonicalized");
    assert_eq!(path[1], "3D Reconstruction", "new leaf kept as proposed");
    assert!(is_new, "is_new recomputed from the tree, not the model's claim");
}

#[test]
fn normalize_truncates_depth_and_trims_segments() {
    let lib = library();
    let (path, _) = normalize_response(&resp(&["  NLP  ", "A", "B", "C", "D"], true), &lib).unwrap();
    assert_eq!(path.len(), 3, "max depth 3");
    assert_eq!(path[0], "NLP");
}

#[test]
fn normalize_rejects_unclassified_target() {
    let lib = library();
    assert!(normalize_response(&resp(&["unclassified", "X"], true), &lib).is_err());
}

#[test]
fn normalize_rejects_empty_path() {
    let lib = library();
    assert!(normalize_response(&resp(&["  ", ""], true), &lib).is_err());
}

#[test]
fn proposal_clamps_confidence_and_truncates_rationale() {
    let lib = library();
    let mut r = resp(&["NLP"], false);
    r.confidence_bits = 7.5f64.to_bits();
    r.rationale = "x".repeat(1000);
    let p = to_proposal(&lib.items[0], r, &lib).unwrap();
    assert!((f64::from_bits(p.confidence_bits) - 1.0).abs() < 1e-9);
    assert!(p.rationale.len() <= 504, "truncated with ellipsis");
    assert!(!p.is_new_collection);
}

fn audit_resp(misplaced: bool, path: &[&str]) -> AuditResponse {
    AuditResponse {
        misplaced,
        path: path.iter().map(|s| s.to_string()).collect(),
        confidence_bits: 0.7f64.to_bits(),
        rationale: "reason".into(),
    }
}

#[test]
fn audit_request_excludes_unclassified_and_skips_unfiled() {
    let mut lib = library();
    lib.items[0].collection_keys = vec!["DM".into(), "UNC".into()];
    let req = build_audit_request(&lib.items[0], &lib).unwrap();
    assert_eq!(
        req.current_paths,
        vec![vec!["Computer Vision".to_string(), "Diffusion Models".to_string()]],
        "Unclassified membership is not part of the audited filing"
    );
    lib.items[0].collection_keys = vec!["UNC".into()];
    assert!(build_audit_request(&lib.items[0], &lib).is_none());
    lib.items[0].collection_keys = vec![];
    assert!(build_audit_request(&lib.items[0], &lib).is_none());
}

#[test]
fn audit_not_misplaced_yields_no_proposal() {
    let mut lib = library();
    lib.items[0].collection_keys = vec!["DM".into()];
    let out = audit_to_proposal(&lib.items[0], audit_resp(false, &[]), &lib).unwrap();
    assert!(out.is_none());
}

#[test]
fn audit_proposal_matching_current_path_is_dropped() {
    let mut lib = library();
    lib.items[0].collection_keys = vec!["DM".into()];
    let out = audit_to_proposal(
        &lib.items[0],
        audit_resp(true, &["computer vision", "DIFFUSION MODELS"]),
        &lib,
    )
    .unwrap();
    assert!(out.is_none());
}

#[test]
fn audit_proposal_carries_current_keys_and_normalized_target() {
    let mut lib = library();
    lib.items[0].collection_keys = vec!["DM".into(), "UNC".into()];
    let out = audit_to_proposal(&lib.items[0], audit_resp(true, &["nlp"]), &lib)
        .unwrap()
        .unwrap();
    assert_eq!(out.proposed_path, vec!["NLP"], "canonicalized to existing casing");
    assert!(!out.is_new_collection);
    assert_eq!(out.current_keys, vec!["DM"], "only real memberships are replaced");
    assert_eq!(out.current_paths.len(), 1);
}

#[test]
fn proposal_keeps_confidence_in_range_and_short_rationale() {
    let lib = library();
    let mut r = resp(&["NLP"], true);
    r.confidence_bits = (-0.5f64).to_bits();
    r.rationale = "  short reason  ".into();
    let p = to_proposal(&lib.items[0], r, &lib).unwrap();
    assert_eq!(f64::from_bits(p.confidence_bits), 0.0);
    assert_eq!(p.rationale, "short reason");
    assert_eq!(p.item_key, "I1");
}

#[test]
fn library_paths_are_nested() {
    let lib = library();
    assert_eq!(
        lib.collection_path("DM"),
        Some(vec!["Computer Vision".to_string(), "Diffusion Models".to_string()])
    );
    assert_eq!(lib.collection_path("missing"), None);
    assert_eq!(lib.all_paths().len(), 4);
}

#[test]
fn normalizing_a_normalized_path_changes_nothing() {
    let mut lib = library();
    lib.collections.push(collection("PAD", "  Padded  Name ", None));
    for raw in [
        vec![" computer VISION ", "", "diffusion models", "extra", "deeper"],
        vec!["padded  name", "Child"],
        vec!["Brand New", " Topic "],
    ] {
        let raw: Vec<String> = raw.into_iter().map(String::from).collect();
        let (p, b) = normalize_path(&raw, &lib).unwrap();
        assert_eq!(normalize_path(&p, &lib).unwrap(), (p.clone(), b));
    }
}

#[test]
fn suggested_tags_take_library_spelling_in_order() {
    let mut lib = library();
    lib.items[0].tags = vec!["Deep Learning".into(), "GANs".into()];
    let mut it = item("I2", "Paper two");
    it.tags = vec!["gans".into()];
    let raw: Vec<String> = [" deep learning ", "GANS", "", "Deep learning", "new tag", "a", "b", "c"]
        .iter()
        .map(|s| s.to_string())
        .collect();
    // Passing suggestions: "deep learning", "new tag", "a", "b", "c"; the first four are kept.
    assert_eq!(normalize_tags(&raw, &it, &lib), vec!["Deep Learning", "new tag", "a", "b"]);
}

#[test]
fn confidence_clamps_into_unit_range() {
    assert_eq!(clamp_unit(0.5f64.to_bits()), 0.5f64.to_bits());
    assert_eq!(clamp_unit(1.5f64.to_bits()), 1.0f64.to_bits());
    assert_eq!(clamp_unit((-0.25f64).to_bits()), 0.0f64.to_bits());
    assert_eq!(clamp_unit(f64::INFINITY.to_bits()), 1.0f64.to_bits());
    assert_eq!(f64::from_bits(clamp_unit((-0.0f64).to_bits())), 0.0);
}
