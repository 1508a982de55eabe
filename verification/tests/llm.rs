//! Prompts, JSON extraction, error mapping and stream reading of the LLM clients.

use zn_core::error::Error;
use zn_core::llm::openai_compat::extract_json;
use zn_core::llm::provider::{
    audit_prompt, chat_system_prompt, classify_prompt, summarize_prompt, AuditRequest, ClassifyRequest,
    SummarizeRequest,
};
use zn_core::llm::sse::{line_payload, SseBuffer};
use zn_core::llm::{anthropic, gemini, openai_compat, shared};

#[test]
fn json_extraction_handles_fences_and_prose() {
    assert_eq!(extract_json(r#"{"a":1}"#), r#"{"a":1}"#);
    assert_eq!(extract_json("```json\n{\"a\":1}\n```"), r#"{"a":1}"#);
    assert_eq!(extract_json("```\n{\"a\":1}\n```"), r#"{"a":1}"#);
    assert_eq!(
        extract_json("Sure! Here is the JSON: {\"a\": 1} Hope that helps."),
        r#"{"a": 1}"#
    );
}

#[test]
fn json_extraction_edge_cases() {
    assert_eq!(extract_json("no braces here"), "no braces here");
    assert_eq!(extract_json("} backwards {"), "} backwards {");
    assert_eq!(extract_json("```json\n{\"a\":1}"), "{\"a\":1}", "an unclosed fence falls back to the braces");
}

fn summarize_req(body: Option<&str>) -> SummarizeRequest {
    SummarizeRequest {
        title: "Denoising Diffusion".into(),
        creators: vec!["Jonathan Ho".into(), "Ajay Jain".into()],
        year: Some(2020),
        publication: Some("NeurIPS".into()),
        abstract_text: Some("  We present DDPM. ".into()),
        body_excerpt: body.map(String::from),
    }
}

#[test]
fn summarize_prompt_carries_metadata() {
    let p = summarize_prompt(&summarize_req(None));
    assert!(p.starts_with("You are helping a researcher maintain notes on academic papers.\nWrite a summary"));
    assert!(p.ends_with(
        "Title: Denoising Diffusion\nAuthors: Jonathan Ho, Ajay Jain\nYear: 2020\nVenue: NeurIPS\nAbstract: We present DDPM.\n"
    ));
    assert!(!p.contains("Full text"));
}

#[test]
fn summarize_prompt_with_body_quotes_it() {
    let p = summarize_prompt(&summarize_req(Some("UNIQUE_BODY_TOKEN and the rest of the paper")));
    assert!(p.contains("Full text (may be truncated):\n\"\"\"\nUNIQUE_BODY_TOKEN and the rest of the paper\n\"\"\"\n"));
    let blank = summarize_prompt(&summarize_req(Some("   ")));
    assert!(!blank.contains("Full text"), "a blank excerpt is ignored");
}

#[test]
fn metadata_block_without_optional_fields() {
    let p = summarize_prompt(&SummarizeRequest {
        title: "T".into(),
        creators: vec![],
        year: Some(-5),
        publication: None,
        abstract_text: Some("  ".into()),
        body_excerpt: None,
    });
    assert!(p.ends_with("Title: T\nYear: -5\nAbstract: (not available)\n"));
}

#[test]
fn chat_prompt_states_rules_and_body() {
    let p = chat_system_prompt("T", &[], None, None, None, None);
    assert!(p.contains("Always answer in English"));
    assert!(p.ends_with("Full text: (not available \u{2014} answer from the metadata above and say so when a question needs the body of the paper)\n"));
    let q = chat_system_prompt("T", &[], None, None, None, Some("BODY"));
    assert!(q.ends_with("Full text (may be truncated):\n\"\"\"\nBODY\n\"\"\"\n"));
}

#[test]
fn classify_prompt_lists_paths_and_vocabulary() {
    let req = ClassifyRequest {
        title: "P".into(),
        creators: vec![],
        year: None,
        publication: None,
        abstract_text: None,
        tags: vec!["x".into(), "y".into()],
        existing_paths: vec![
            vec!["Computer Vision".into(), "Diffusion Models".into()],
            vec!["NLP".into()],
        ],
        existing_tags: vec![],
    };
    let p = classify_prompt(&req);
    assert!(p.contains("Existing collections (full nested paths):\n- Computer Vision / Diffusion Models\n- NLP\n\nCollection rules:"));
    assert!(p.contains("Existing tags in the library:\n(no tags exist yet)\n\nPaper:\nTitle: P\n"));
    assert!(p.ends_with("Abstract: (not available)\nTags: x, y\n"));
    assert!(p.contains("4. Do not use \"Unclassified\" as a target."));
}

#[test]
fn audit_prompt_states_current_filing() {
    let req = AuditRequest {
        title: "P".into(),
        creators: vec![],
        year: None,
        publication: None,
        abstract_text: None,
        tags: vec![],
        current_paths: vec![vec!["Hardware".into()]],
        existing_paths: vec![],
    };
    let p = audit_prompt(&req);
    assert!(p.contains("(no collections exist yet)\n\nThe paper is currently filed in:\n- Hardware\n\nRules:"));
    assert!(p.contains("currently filed in"));
    assert!(p.ends_with("Paper:\nTitle: P\nAbstract: (not available)\n"));
}

fn message_of(e: &Error) -> String {
    e.to_string()
}

#[test]
fn gemini_error_mapping() {
    let e = gemini::http_error(400, r#"{"error":{"details":[{"reason":"API_KEY_INVALID"}]}}"#);
    assert!(message_of(&e).contains("Invalid Gemini API key"));
    let e = gemini::http_error(403, "");
    assert_eq!(message_of(&e), "LLM provider error (gemini): Invalid Gemini API key");
    let e = gemini::http_error(500, "  boom\nagain ");
    assert_eq!(message_of(&e), "LLM provider error (gemini): HTTP 500 Internal Server Error: boom again");
    let e = gemini::extract_text(Some("SAFETY"), None).unwrap_err();
    assert!(message_of(&e).contains("blocked by Gemini (reason: SAFETY)"));
    let parts = vec![Some("A clear ".to_string()), None, Some("summary.".to_string())];
    assert_eq!(gemini::extract_text(None, Some(&parts)).unwrap(), "A clear summary.");
    assert!(gemini::extract_text(None, None).is_err());
    assert!(gemini::extract_text(None, Some(&vec![Some(" ".to_string())])).is_err());
}

#[test]
fn gemini_urls_and_stream_chunks() {
    assert_eq!(
        gemini::generate_url("http://h/", "gemini-2.5-pro", "k-123"),
        "http://h/v1beta/models/gemini-2.5-pro:generateContent?key=k-123"
    );
    assert_eq!(
        gemini::stream_url("http://h", "m", "k"),
        "http://h/v1beta/models/m:streamGenerateContent?alt=sse&key=k"
    );
    let mut full = String::new();
    let shown = gemini::stream_chunk(&mut full, None, Some(&vec![Some("Hel".to_string())])).unwrap();
    assert_eq!(shown, vec!["Hel"]);
    let shown = gemini::stream_chunk(&mut full, None, Some(&vec![Some("lo".to_string())])).unwrap();
    assert_eq!(shown, vec!["lo"]);
    assert_eq!(full, "Hello");
    assert!(gemini::stream_chunk(&mut full, Some("SAFETY"), None).is_err());
}

#[test]
fn anthropic_error_mapping_and_text() {
    let e = anthropic::http_error("opus-4-8", 401, Some("invalid x-api-key".into()), "");
    assert!(message_of(&e).contains("Invalid Anthropic API key"));
    let e = anthropic::http_error("nope", 404, Some("not found".into()), "");
    assert_eq!(message_of(&e), "LLM provider error (anthropic): Unknown model 'nope': not found");
    let blocks = vec![
        anthropic::ContentBlock { kind: Some("text".into()), text: Some("A clear ".into()) },
        anthropic::ContentBlock { kind: Some("thinking".into()), text: Some("hidden".into()) },
        anthropic::ContentBlock { kind: Some("text".into()), text: Some("summary.".into()) },
    ];
    assert_eq!(anthropic::extract_text(Some("end_turn"), Some(&blocks), false).unwrap(), "A clear summary.");
    let refusal = anthropic::extract_text(Some("refusal"), Some(&blocks), false).unwrap_err();
    assert!(message_of(&refusal).contains("declined"));
    let truncated = anthropic::extract_text(Some("max_tokens"), Some(&blocks), true).unwrap_err();
    assert!(message_of(&truncated).contains("truncated"));
    assert!(anthropic::extract_text(Some("max_tokens"), Some(&blocks), false).is_ok());
    assert!(anthropic::extract_text(None, None, false).is_err());
}

#[test]
fn anthropic_stream_events() {
    let ev = |kind: &str, dt: Option<&str>, text: Option<&str>, stop: Option<&str>| anthropic::StreamEvent {
        kind: Some(kind.into()),
        delta_type: dt.map(String::from),
        delta_text: text.map(String::from),
        stop_reason: stop.map(String::from),
        error_message: None,
    };
    let mut full = String::new();
    assert_eq!(anthropic::stream_event(&mut full, &ev("message_start", None, None, None)).unwrap(), None);
    let d = anthropic::stream_event(&mut full, &ev("content_block_delta", Some("text_delta"), Some("The answer."), None)).unwrap();
    assert_eq!(d.as_deref(), Some("The answer."));
    assert_eq!(anthropic::stream_event(&mut full, &ev("message_delta", None, None, Some("end_turn"))).unwrap(), None);
    assert_eq!(full, "The answer.");
    let e = anthropic::stream_event(&mut full, &ev("message_delta", None, None, Some("refusal"))).unwrap_err();
    assert!(message_of(&e).contains("safety"));
    let e = anthropic::stream_event(&mut full, &ev("error", None, None, None)).unwrap_err();
    assert!(message_of(&e).contains("stream error"));
}

#[test]
fn local_error_mapping_and_retry() {
    let e = openai_compat::http_error("nope", 404, Some("model 'nope' not found".into()), "");
    assert!(message_of(&e).contains("ollama pull nope"));
    let e = openai_compat::http_error("m", 400, Some("unknown field: response_format".into()), "");
    assert!(openai_compat::retry_without_format(&e));
    let e = openai_compat::http_error("m", 500, None, "oops");
    assert!(!openai_compat::retry_without_format(&e));
    assert_eq!(openai_compat::authorization(Some("secret")).as_deref(), Some("Bearer secret"));
    assert_eq!(openai_compat::authorization(Some("")), None);
    assert_eq!(openai_compat::completions_url("http://h/v1/"), "http://h/v1/chat/completions");
    assert!(openai_compat::extract_content(Some("  ".into())).is_err());
    assert_eq!(openai_compat::extract_content(Some("NLP".into())).unwrap(), "NLP");
    let p = openai_compat::structured_prompt("PROMPT", "{}");
    assert!(p.starts_with("PROMPT\n\nRespond with ONLY a single JSON object") && p.contains("JSON Schema:\n{}\n"));
    let e = openai_compat::send_error("http://127.0.0.1:1/v1", true, false, "x");
    assert!(message_of(&e).contains("could not reach the local LLM server at http://127.0.0.1:1/v1"));
}

#[test]
fn local_stream_deltas() {
    let mut full = String::new();
    assert_eq!(openai_compat::stream_delta(&mut full, Some("Loc".into())).as_deref(), Some("Loc"));
    assert_eq!(openai_compat::stream_delta(&mut full, Some("".into())), None);
    assert_eq!(openai_compat::stream_delta(&mut full, Some("al!".into())).as_deref(), Some("al!"));
    assert_eq!(full, "Local!");
    assert!(shared::finish_stream("local", "  ".into(), "empty").is_err());
    assert_eq!(shared::finish_stream("local", full, "empty").unwrap(), "Local!");
}

#[test]
fn sse_lines_and_payloads() {
    let body = "event: message_start\ndata: {\"a\":1}\r\n\ndata: [DONE]\n\ndata:   tail";
    let mut buf = SseBuffer::new();
    let mut payloads = Vec::new();
    for chunk in body.as_bytes().chunks(5) {
        for line in buf.push(chunk) {
            if let Some(d) = line_payload(&line) {
                payloads.push(d);
            }
        }
    }
    if let Some(rest) = buf.finish() {
        if let Some(d) = line_payload(&rest) {
            payloads.push(d);
        }
    }
    assert_eq!(payloads, vec!["{\"a\":1}", "tail"]);
}

#[test]
fn sse_chunking_does_not_change_lines() {
    let body = b"data: one\ndata: two\n\nxx";
    let mut whole = SseBuffer::new();
    let all = whole.push(body);
    for split in 0..body.len() {
        let mut b = SseBuffer::new();
        let mut lines = b.push(&body[..split]);
        lines.extend(b.push(&body[split..]));
        assert_eq!(lines, all);
    }
    assert_eq!(all.len(), 3);
    assert_eq!(whole.finish(), Some(b"xx".to_vec()));
}

#[test]
fn snippet_and_usage() {
    let long = "é".repeat(150);
    let s = shared::snippet(&long);
    assert!(s.len() <= 203 && s.ends_with('\u{2026}'));
    assert_eq!(shared::snippet(" a\nb "), "a b");
    let u = shared::usage_from(Some(12), None);
    assert_eq!((u.input_tokens, u.output_tokens), (12, 0));
    assert_eq!(shared::status_text(404), "404 Not Found");
    assert_eq!(shared::status_text(599), "599 <unknown status code>");
}
