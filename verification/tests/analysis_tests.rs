use zotero_cli::analysis::{
    analysis_input, build_prompt_context, chat_request_payload, creator_line, extract_text, item_context,
    link_payload, read_chat_reply, require_api_key, ItemWithResolvedPath,
};
use zotero_cli::audit::{audit_record, is_audited, iso8601_from_secs};
use zotero_cli::db::{Creator, Item};
use zotero_cli::json::{obj_insert, to_json_string, Json};
use zotero_cli::number::{number_text_i64, number_text_u64};

fn s(x: &str) -> Json {
    Json::Str(x.to_string())
}

fn obj(pairs: Vec<(&str, Json)>) -> Json {
    let mut m = Vec::new();
    for (k, v) in pairs {
        obj_insert(&mut m, k.to_string(), v);
    }
    Json::Object(m)
}

fn item(key: &str, title: &str, fields: Vec<(&str, &str)>) -> Item {
    Item {
        item_id: 7,
        key: key.to_string(),
        library_id: 1,
        item_type_id: 2,
        type_label: "journalArticle".to_string(),
        date_added: String::new(),
        date_modified: String::new(),
        version: 0,
        title: title.to_string(),
        doi: String::new(),
        date: None,
        has_pdf: false,
        note_parent_item_id: None,
        note_content: None,
        attachment_parent_item_id: None,
        annotation_parent_item_id: None,
        annotation_text: None,
        annotation_comment: None,
        link_mode: None,
        content_type: None,
        attachment_path: None,
        fields: fields.into_iter().map(|(k, v)| (k.to_string(), v.to_string())).collect(),
        creators: Vec::new(),
        tags: Vec::new(),
        is_attachment: false,
        is_note: false,
        is_annotation: false,
        parent_item_id: None,
        note_text: String::new(),
        note_preview: String::new(),
    }
}

fn creator(id: i64, first: Option<&str>, last: Option<&str>) -> Creator {
    Creator {
        creator_id: id,
        first_name: first.map(str::to_string),
        last_name: last.map(str::to_string),
        field_mode: 0,
        creator_type_id: 1,
        order_index: 0,
    }
}

#[test]
fn creator_line_joins_names_and_falls_back_to_ids() {
    let cs = vec![creator(1, Some("Ada"), Some("Lovelace")), creator(2, None, Some("Turing")), creator(3, Some(""), None)];
    assert_eq!(creator_line(&cs), "Ada Lovelace, Turing, 3");
    assert_eq!(creator_line(&Vec::new()), "");
}

#[test]
fn link_payload_prefers_the_upper_case_doi() {
    let it = item("K", "T", vec![("url", "https://x.org"), ("DOI", "10.1/a"), ("doi", "10.2/b")]);
    let links = Json::Object(link_payload(&it));
    assert_eq!(to_json_string(&links), r#"{"doi":"10.1/a","doi_url":"https://doi.org/10.1/a","url":"https://x.org"}"#);
    let empty_doi = item("K", "T", vec![("DOI", ""), ("doi", "10.2/b")]);
    assert!(link_payload(&empty_doi).is_empty());
}

#[test]
fn prompt_context_lists_sections_in_order() {
    let mut it = item("ABCD1234", "A Paper", vec![("title", "A Paper"), ("date", "2020"), ("abstractNote", ""), ("DOI", "10.1/a")]);
    it.creators = vec![creator(1, Some("Ada"), Some("Lovelace"))];
    let links = link_payload(&it);
    let mut att = item("ATT00001", "", vec![]);
    att.attachment_path = Some("storage:a.pdf".to_string());
    let atts = vec![ItemWithResolvedPath { item: att, resolved_path: None }];
    let mut note = item("NOTE0001", "My note", vec![]);
    note.note_preview = "preview".to_string();
    let exports = vec![("bibtex".to_string(), s("@article{x}"))];
    let ctx = build_prompt_context(&it, &links, &atts, &vec![note], &exports);
    assert_eq!(
        ctx,
        "Title: A Paper\nItem Key: ABCD1234\nItem Type: journalArticle\nCreators: Ada Lovelace\nDOI: 10.1/a\ndate: 2020\nLinks:\n- doi: 10.1/a\n- doi_url: https://doi.org/10.1/a\nAttachments:\n- ATT00001: storage:a.pdf\nNotes:\n- My note: preview\nExports:\n[bibtex]\n@article{x}"
    );
    let payload = item_context(it, Vec::new(), Vec::new(), Vec::new(), false);
    assert!(payload.links.is_empty());
    assert!(payload.prompt_context.ends_with("date: 2020"));
}

#[test]
fn extract_text_reads_the_three_reply_shapes() {
    let chat = obj(vec![("choices", Json::Array(vec![obj(vec![("message", obj(vec![("content", s("  hi  "))]))])]))]);
    assert_eq!(extract_text(&chat).as_deref(), Some("hi"));
    let resp = obj(vec![("output_text", s(" out "))]);
    assert_eq!(extract_text(&resp).as_deref(), Some("out"));
    let parts = obj(vec![(
        "output",
        Json::Array(vec![obj(vec![("content", Json::Array(vec![obj(vec![("text", s("a"))]), obj(vec![("text", s(" b "))])]))])]),
    )]);
    assert_eq!(extract_text(&parts).as_deref(), Some("a\n\nb"));
    assert_eq!(extract_text(&obj(vec![("output_text", s("  "))])), None);
}

#[test]
fn chat_reply_errors_and_answers() {
    let e = read_chat_reply(500, "boom", Ok(Json::Null)).unwrap_err();
    assert_eq!(e.0, "OpenAI API returned HTTP 500: boom");
    let e = read_chat_reply(200, "x", Err("bad json".to_string())).unwrap_err();
    assert_eq!(e.0, "OpenAI API request failed: bad json");
    let e = read_chat_reply(200, "{}", Ok(obj(vec![]))).unwrap_err();
    assert_eq!(e.0, "OpenAI API returned no text output");
    let ok = read_chat_reply(200, "", Ok(obj(vec![("id", s("r1")), ("output_text", s("yes"))]))).unwrap();
    assert_eq!(ok.answer, "yes");
    assert_eq!(ok.response_id.as_deref(), Some("r1"));
    let req = chat_request_payload("m", "sys", "in");
    assert_eq!(
        to_json_string(&req),
        r#"{"messages":[{"content":"sys","role":"system"},{"content":"in","role":"user"}],"model":"m"}"#
    );
}

#[test]
fn api_key_and_input() {
    assert!(require_api_key(None).is_err());
    assert!(require_api_key(Some("  ".to_string())).is_err());
    assert_eq!(require_api_key(Some(" k ".to_string())).unwrap(), "k");
    assert_eq!(
        analysis_input("  why? ", "ctx"),
        "Use the Zotero item context below to answer the user's question.\n\nQuestion:\nwhy?\n\nContext:\nctx"
    );
}

#[test]
fn iso_timestamps() {
    assert_eq!(iso8601_from_secs(0), "1970-01-01T00:00:00Z");
    assert_eq!(iso8601_from_secs(951_782_400), "2000-02-29T00:00:00Z");
    assert_eq!(iso8601_from_secs(1_700_000_000), "2023-11-14T22:13:20Z");
}

#[test]
fn audit_records_keep_selected_fields() {
    let payload = obj(vec![
        ("action", s("add_doi")),
        ("ok", Json::Bool(true)),
        ("output", s("/tmp/x")),
        ("keep", obj(vec![("key", s("K1"))])),
        ("items", Json::Array(vec![])),
        ("error", Json::Null),
    ]);
    let rec = audit_record("T", &payload).unwrap();
    assert_eq!(to_json_string(&rec), r#"{"action":"add_doi","keep":"K1","ok":true,"path":"/tmp/x","ts":"T"}"#);
    assert!(is_audited(&payload));
    let doctor = obj(vec![("action", s("app_doctor"))]);
    assert!(audit_record("T", &doctor).is_none());
    assert!(!is_audited(&doctor));
    let dry = obj(vec![("action", s("app_doctor")), ("status", s("dry_run"))]);
    assert!(audit_record("T", &dry).is_some());
}

#[test]
fn audit_records_summarize_large_values() {
    let big = Json::Array((0..1000).map(|i| Json::Number(i.to_string())).collect());
    let payload = obj(vec![("action", s("import_file")), ("collection", big)]);
    let rec = audit_record("T", &payload).unwrap();
    let c = rec.get("collection").unwrap();
    assert_eq!(c.get("type").unwrap().as_str(), Some("list"));
    assert_eq!(c.get("_truncated").unwrap().as_bool(), Some(true));
    assert_eq!(c.get("size").map(to_json_string), Some("3891".to_string()));
}

#[test]
fn number_texts_truncate_and_saturate() {
    assert_eq!(number_text_i64("42"), Some(42));
    assert_eq!(number_text_i64("-2.9"), Some(-2));
    assert_eq!(number_text_i64("1.5e2"), Some(150));
    assert_eq!(number_text_i64("1e-5"), Some(0));
    assert_eq!(number_text_i64("1e300"), Some(i64::MAX));
    assert_eq!(number_text_i64("-1e300"), Some(i64::MIN));
    assert_eq!(number_text_i64("abc"), None);
    assert_eq!(number_text_u64("-0.0"), Some(0));
    assert_eq!(number_text_u64("-1"), None);
    assert_eq!(number_text_u64("3.7"), Some(3));
}
