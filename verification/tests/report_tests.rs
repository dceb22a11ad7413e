use zotero_cli::attachment_plans::{
    extract_inline_attachment_plans, normalize_attachment_descriptor, normalize_attachment_int, read_attachment_manifest,
};
use zotero_cli::attachment_upload::{
    attachment_summary, perform_attachment_upload, AttachmentConnector, LocalPdfSource, RemotePdfFetcher,
};
use zotero_cli::docx_citations::{citation_report, property_chunks, PropertyChunk};
use zotero_cli::docx_report::placeholder_report;
use zotero_cli::docx_validate::{item_summary, validation_keys, validation_report};
use zotero_cli::db::Item;
use zotero_cli::import_core::{content_type_for_path, import_file_with_clients, import_json_with_clients, ImportOptions};
use zotero_cli::error::DomainError;
use zotero_cli::import_target::{ConnectorImportClient, ImportRuntime, LoggedConnector, TargetLookups};
use zotero_cli::json::{obj_insert, to_json_string, Json};
use zotero_cli::xml::XmlElement;

fn s(x: &str) -> Json {
    Json::Str(x.to_string())
}

fn n(x: i64) -> Json {
    Json::Number(x.to_string())
}

fn obj(pairs: Vec<(&str, Json)>) -> Json {
    let mut m = Vec::new();
    for (k, v) in pairs {
        obj_insert(&mut m, k.to_string(), v);
    }
    Json::Object(m)
}

fn strs(v: &Json) -> Vec<String> {
    v.as_array().unwrap().iter().map(|x| x.as_str().unwrap().to_string()).collect()
}

#[test]
fn placeholder_report_counts_keys_and_flags_malformed() {
    let text = "See {{zotero:ABCD1234, EFGH5678}} and {{ZOTERO: abcd1234}} then {{zotero: bad}}.";
    let r = placeholder_report("doc.docx", text, 10);
    assert_eq!(to_json_string(r.get("placeholder_count").unwrap()), "3");
    assert_eq!(to_json_string(r.get("citation_count").unwrap()), "3");
    assert_eq!(strs(r.get("unique_keys").unwrap()), vec!["ABCD1234", "EFGH5678"]);
    assert_eq!(strs(r.get("duplicate_keys").unwrap()), vec!["ABCD1234"]);
    let invalid = r.get("invalid_placeholders").unwrap().as_array().unwrap();
    assert_eq!(invalid.len(), 1);
    assert_eq!(strs(invalid[0].get("invalid_parts").unwrap()), vec!["bad"]);
    let first = &r.get("placeholders").unwrap().as_array().unwrap()[0];
    assert_eq!(first.get("raw").unwrap().as_str(), Some("{{zotero:ABCD1234, EFGH5678}}"));
    assert_eq!(first.get("context").unwrap().as_str(), Some(text));
    let limited = placeholder_report("doc.docx", text, 1);
    assert_eq!(limited.get("placeholders").unwrap().as_array().unwrap().len(), 1);
}

#[test]
fn placeholder_context_is_cut_with_ellipses() {
    let text = format!("{}{{{{zotero:ABCD1234}}}}{}", "a".repeat(100), "b".repeat(100));
    let r = placeholder_report("d", &text, 5);
    let ctx = r.get("placeholders").unwrap().as_array().unwrap()[0].get("context").unwrap().as_str().unwrap().to_string();
    assert_eq!(ctx, format!("...{}{{{{zotero:ABCD1234}}}}{}...", "a".repeat(80), "b".repeat(80)));
}

fn item(key: &str) -> Item {
    Item {
        item_id: 3,
        key: key.to_string(),
        library_id: 1,
        item_type_id: 2,
        type_label: "book".to_string(),
        date_added: String::new(),
        date_modified: String::new(),
        version: 0,
        title: String::new(),
        doi: "10.9/z".to_string(),
        date: Some("May 2019".to_string()),
        has_pdf: false,
        note_parent_item_id: None,
        note_content: None,
        attachment_parent_item_id: None,
        annotation_parent_item_id: None,
        annotation_text: None,
        annotation_comment: None,
        link_mode: None,
        content_type: None,
        attachment_path: None,
        fields: vec![("title".to_string(), "Field Title".to_string()), ("PMID".to_string(), "123".to_string())],
        creators: Vec::new(),
        tags: Vec::new(),
        is_attachment: false,
        is_note: false,
        is_annotation: false,
        parent_item_id: None,
        note_text: String::new(),
        note_preview: String::new(),
    }
}

#[test]
fn item_summary_falls_back_to_fields() {
    let sm = item_summary(&item("ABCD1234"));
    assert_eq!(
        to_json_string(&sm),
        r#"{"doi":"10.9/z","itemID":3,"key":"ABCD1234","libraryID":1,"pmid":"123","title":"Field Title","typeName":"book","year":"2019"}"#
    );
}

#[test]
fn validation_report_marks_missing_keys() {
    let report = placeholder_report("d", "{{zotero:ABCD1234}} {{zotero:EFGH5678}}", 10);
    let keys = validation_keys(&report);
    assert_eq!(keys, vec!["ABCD1234", "EFGH5678"]);
    let v = validation_report(report, vec![Ok(item("ABCD1234")), Err("Item not found: EFGH5678".to_string())]);
    assert_eq!(v.get("ok").unwrap().as_bool(), Some(false));
    assert_eq!(strs(v.get("missing_keys").unwrap()), vec!["EFGH5678"]);
    assert_eq!(to_json_string(v.get("errors").unwrap()), r#"{"EFGH5678":"Item not found: EFGH5678"}"#);
    let notes = strs(v.get("notes").unwrap());
    assert_eq!(notes.last().unwrap(), "Some Zotero placeholder keys do not resolve to local Zotero items.");
    let all = validation_report(placeholder_report("d", "{{zotero:ABCD1234}}", 10), vec![Ok(item("ABCD1234"))]);
    assert_eq!(all.get("ok").unwrap().as_bool(), Some(true));
    assert_eq!(strs(all.get("notes").unwrap()).last().unwrap(), "All Zotero placeholders resolve to real local Zotero items.");
}

#[test]
fn citation_report_counts_systems_and_bookmark_codes() {
    let mut root = XmlElement::new("w:document");
    let mut p = XmlElement::new("w:p");
    let mut instr = XmlElement::new("w:instrText");
    instr.add_text(" ADDIN EN.CITE <EndNote/> ");
    p.add_element(instr);
    let mut bm = XmlElement::new("w:bookmarkStart");
    bm.set_attr("w:name", "ZOTERO_BREF_abc");
    p.add_element(bm);
    let mut r = XmlElement::new("w:r");
    let mut t = XmlElement::new("w:t");
    t.add_text("As shown (Smith, 2020).");
    r.add_element(t);
    p.add_element(r);
    root.add_element(p);

    let mut props = XmlElement::new("Properties");
    for (name, text) in [("ZOTERO_BREF_abc_2", "world"), ("ZOTERO_BREF_abc_1", "hello "), ("Other", "x")] {
        let mut prop = XmlElement::new("property");
        prop.set_attr("name", name);
        prop.add_text(text);
        props.add_element(prop);
    }
    let chunks: Vec<PropertyChunk> = property_chunks(&props);
    assert_eq!(chunks.len(), 2);
    let rep = citation_report("doc.docx", &root, &chunks, 10);
    assert_eq!(to_json_string(rep.get("field_counts").unwrap()), r#"{"endnote":1,"zotero":1}"#);
    assert_eq!(strs(rep.get("systems").unwrap()), vec!["endnote", "zotero", "static-text"]);
    let fields = rep.get("fields").unwrap().as_array().unwrap();
    assert_eq!(fields[1].get("instruction").unwrap().as_str(), Some("hello world"));
    assert_eq!(strs(rep.get("static_citation_samples").unwrap()), vec!["(Smith, 2020)"]);
    assert_eq!(strs(rep.get("notes").unwrap()).len(), 3);
}

#[test]
fn attachment_settings_are_checked() {
    assert_eq!(normalize_attachment_int(None, "timeout", 30, 1).unwrap(), 30);
    assert_eq!(normalize_attachment_int(Some(&s(" 5 ")), "timeout", 30, 1).unwrap(), 5);
    assert_eq!(normalize_attachment_int(Some(&n(0)), "timeout", 30, 1).unwrap_err().0, "Attachment `timeout` must be at least 1");
    assert_eq!(normalize_attachment_int(Some(&n(-1)), "delay_ms", 0, 0).unwrap_err().0, "Attachment `delay_ms` must be greater than or equal to");
    assert_eq!(normalize_attachment_int(Some(&Json::Null), "delay_ms", 0, 0).unwrap_err().0, "Attachment `delay_ms` must be an integer");
    let d = normalize_attachment_descriptor(&obj(vec![("url", s(" https://x/y.pdf ")), ("title", s(""))]), "L", 0, 30).unwrap();
    assert_eq!((d.source_type.as_str(), d.source.as_str(), d.title.as_str()), ("url", "https://x/y.pdf", "PDF"));
    let both = normalize_attachment_descriptor(&obj(vec![("url", s("u")), ("path", s("p"))]), "L", 0, 30).unwrap_err();
    assert_eq!(both.0, "L must include exactly one of `path` or `url`");
}

#[test]
fn inline_plans_are_taken_out_of_items() {
    let items = vec![
        obj(vec![("title", s("A")), ("attachments", Json::Array(vec![obj(vec![("path", s("/a.pdf"))])]))]),
        obj(vec![("title", s("B")), ("attachments", Json::Array(vec![]))]),
    ];
    let (stripped, plans) = extract_inline_attachment_plans(&items, 0, 30).unwrap();
    assert_eq!(to_json_string(&stripped[0]), r#"{"title":"A"}"#);
    assert_eq!(plans.len(), 1);
    assert_eq!(
        to_json_string(&plans[0]),
        r#"{"attachments":[{"delay_ms":0,"source":"/a.pdf","source_type":"file","timeout":30,"title":"PDF"}],"index":0}"#
    );
    let bad = vec![obj(vec![("attachments", s("x"))])];
    assert_eq!(extract_inline_attachment_plans(&bad, 0, 30).unwrap_err().0, "JSON import item 1 attachments must be an array");
}

#[test]
fn manifests_reject_reused_indexes() {
    let entry = |i: i64| obj(vec![("index", n(i)), ("attachments", Json::Array(vec![obj(vec![("url", s("https://x"))])]))]);
    let ok = read_attachment_manifest(&Json::Array(vec![entry(0), entry(1)]), 0, 30).unwrap();
    assert_eq!(ok.len(), 2);
    let dup = read_attachment_manifest(&Json::Array(vec![entry(0), entry(0)]), 0, 30).unwrap_err();
    assert_eq!(dup.0, "manifest entry 2 reuses import index 0");
    let not_array = read_attachment_manifest(&obj(vec![]), 0, 30).unwrap_err();
    assert_eq!(not_array.0, "Attachment manifest expects an array of {index, attachments} objects");
}

struct FakeAttach {
    saved: Vec<String>,
}

impl AttachmentConnector for FakeAttach {
    fn save_attachment(&mut self, _p: u16, _s: &str, parent: &str, _t: &str, url: &str, _c: &[u8], _to: u64) -> Result<Json, String> {
        self.saved.push(format!("{parent} {url}"));
        Ok(Json::Null)
    }
}

struct FakePdf;

impl RemotePdfFetcher for FakePdf {
    fn fetch_remote_pdf(&mut self, url: &str, _d: i64, _t: i64) -> Result<Vec<u8>, String> {
        if url.contains("fail") {
            Err(format!("Attachment download failed for {url}"))
        } else {
            Ok(b"%PDF-1.4 same".to_vec())
        }
    }
}

struct FakeLocal;

impl LocalPdfSource for FakeLocal {
    fn path_key(&mut self, path: &str) -> String {
        path.to_string()
    }
    fn read_local_pdf(&mut self, path: &str) -> Result<(Vec<u8>, String, String), String> {
        Err(format!("Attachment file not found: {path}"))
    }
}

fn plan(index: i64, urls: Vec<&str>, expected: Option<&str>) -> Json {
    let atts = urls
        .into_iter()
        .map(|u| obj(vec![("source_type", s("url")), ("source", s(u)), ("title", s("PDF"))]))
        .collect();
    let mut pairs = vec![("index", n(index)), ("attachments", Json::Array(atts))];
    if let Some(e) = expected {
        pairs.push(("expected_title", s(e)));
    }
    obj(pairs)
}

#[test]
fn uploads_skip_duplicates_and_report_failures() {
    let items = vec![obj(vec![("id", s("c1")), ("title", s("T"))])];
    let plans = vec![
        plan(0, vec!["https://x/a.pdf", "https://X/a.pdf#frag", "https://x/b.pdf", "https://x/fail.pdf"], None),
        plan(3, vec!["https://x/c.pdf"], None),
        plan(0, vec!["https://x/d.pdf"], Some("Other")),
    ];
    let mut conn = FakeAttach { saved: Vec::new() };
    let (summary, results) = perform_attachment_upload(1, "sid", &items, &plans, &mut conn, &mut FakePdf, &mut FakeLocal);
    let statuses: Vec<&str> = results.iter().map(|r| r.get("status").unwrap().as_str().unwrap()).collect();
    assert_eq!(statuses, vec!["created", "skipped_duplicate", "skipped_duplicate", "failed", "failed", "failed"]);
    assert_eq!(conn.saved, vec!["c1 https://x/a.pdf"]);
    assert_eq!(to_json_string(&summary), r#"{"created_count":1,"failed_count":3,"planned_count":6,"skipped_count":2}"#);
    assert_eq!(results[4].get("error").unwrap().as_str(), Some("Import returned no item at index 3"));
    assert_eq!(
        results[5].get("error").unwrap().as_str(),
        Some("Imported item title mismatch at index 0: expected \"Other\", got \"T\"")
    );
    assert_eq!(attachment_summary(&vec![]).get("planned_count").map(to_json_string), Some("0".to_string()));
}

#[derive(Default)]
struct FakeConnector {
    calls: Vec<String>,
}

impl ConnectorImportClient for FakeConnector {
    fn import_text(&mut self, _port: u16, content: &str, _sid: &str, content_type: &str, _t: u64) -> Result<Vec<Json>, DomainError> {
        self.calls.push(format!("import {content_type}"));
        if content.contains("broken") {
            return Err(DomainError::new("connector refused"));
        }
        Ok(vec![obj(vec![("id", s("c1")), ("title", s("T"))])])
    }
    fn save_items(&mut self, _port: u16, items: &Vec<Json>, _sid: &str, _t: u64) -> Result<(), DomainError> {
        self.calls.push(format!("save {}", items.len()));
        Ok(())
    }
    fn update_session(&mut self, _port: u16, _sid: &str, target: &str, tags: &Vec<String>, _t: u64) -> Result<Json, DomainError> {
        self.calls.push(format!("update {target} {}", tags.join(",")));
        Ok(Json::Null)
    }
    fn get_selected_collection(&mut self, _port: u16, _t: u64) -> Result<Json, DomainError> {
        Ok(obj(vec![("libraryID", n(1))]))
    }
}

fn options(split: bool) -> ImportOptions {
    ImportOptions {
        collection_ref: Some("C5".to_string()),
        tags: vec![" a ".to_string(), "".to_string()],
        session_collection: None,
        attachment_delay_ms: 0,
        attachment_timeout: 30,
        connector_timeout_secs: 30,
        split_bib: split,
    }
}

fn runtime(available: bool) -> ImportRuntime {
    ImportRuntime { connector_available: available, connector_message: "down".to_string(), port: 23119, session_counter: 0 }
}

fn lookups() -> TargetLookups {
    TargetLookups { collection: Ok(None), default_library: Ok("L1".to_string()) }
}

#[test]
fn content_types_follow_the_extension() {
    assert_eq!(content_type_for_path("a/refs.BIB"), "text/x-bibtex");
    assert_eq!(content_type_for_path("x.ris"), "application/x-research-info-systems");
    assert_eq!(content_type_for_path("x"), "text/plain");
}

#[test]
fn file_import_reports_items_and_target() {
    let mut conn = LoggedConnector::new(FakeConnector::default());
    let r = import_file_with_clients(
        &mut runtime(true),
        "refs.ris",
        Ok("TY  - JOUR".to_string()),
        None,
        &options(false),
        &lookups(),
        &mut conn,
        &mut FakeAttach { saved: Vec::new() },
        &mut FakePdf,
        &mut FakeLocal,
    )
    .unwrap();
    assert_eq!(r.get("status").unwrap().as_str(), Some("success"));
    assert_eq!(to_json_string(r.get("imported_count").unwrap()), "1");
    assert_eq!(to_json_string(r.get("tags").unwrap()), r#"["a"]"#);
    assert_eq!(r.get("target").unwrap().get("treeViewID").unwrap().as_str(), Some("C5"));
    assert_eq!(conn.inner.calls, vec!["import application/x-research-info-systems", "update C5 a"]);
    let down = import_file_with_clients(
        &mut runtime(false),
        "refs.ris",
        Ok(String::new()),
        None,
        &options(false),
        &lookups(),
        &mut conn,
        &mut FakeAttach { saved: Vec::new() },
        &mut FakePdf,
        &mut FakeLocal,
    )
    .unwrap_err();
    assert_eq!(down.0, "Zotero connector is not available: down");
}

#[test]
fn split_bibtex_import_records_failed_entries() {
    let mut conn = LoggedConnector::new(FakeConnector::default());
    let content = "@article{a, title={A}}\n@article{b, title={broken}}\n";
    let r = import_file_with_clients(
        &mut runtime(true),
        "refs.bib",
        Ok(content.to_string()),
        None,
        &options(true),
        &lookups(),
        &mut conn,
        &mut FakeAttach { saved: Vec::new() },
        &mut FakePdf,
        &mut FakeLocal,
    )
    .unwrap();
    assert_eq!(r.get("status").unwrap().as_str(), Some("partial_success"));
    assert_eq!(r.get("split_bib").unwrap().as_bool(), Some(true));
    assert_eq!(to_json_string(r.get("entry_count").unwrap()), "2");
    let failures = r.get("failures").unwrap().as_array().unwrap();
    assert_eq!(failures.len(), 1);
    assert_eq!(failures[0].get("error").unwrap().as_str(), Some("connector refused"));
}

#[test]
fn json_import_projects_submitted_items() {
    let mut conn = LoggedConnector::new(FakeConnector::default());
    let raw = Json::Array(vec![obj(vec![("itemType", s("book")), ("title", s("B"))])]);
    let r = import_json_with_clients(
        &mut runtime(true),
        "items.json",
        Ok(raw),
        &options(false),
        &lookups(),
        &mut conn,
        &mut FakeAttach { saved: Vec::new() },
        &mut FakePdf,
        &mut FakeLocal,
    )
    .unwrap();
    assert_eq!(r.get("format").unwrap().as_str(), Some("connector"));
    assert_eq!(to_json_string(r.get("items").unwrap()), r#"[{"id":"cli-anything-zotero-1","itemType":"book","title":"B"}]"#);
    assert_eq!(conn.inner.calls[0], "save 1");
}

#[test]
fn split_bibtex_import_sends_each_entry_in_order() {
    let mut conn = LoggedConnector::new(FakeConnector::default());
    let content = "@article{a, title={A}}\n@article{b, title={broken}}\n@book{c, title={C}}\n";
    let r = import_file_with_clients(
        &mut runtime(true),
        "refs.bib",
        Ok(content.to_string()),
        None,
        &options(true),
        &lookups(),
        &mut conn,
        &mut FakeAttach { saved: Vec::new() },
        &mut FakePdf,
        &mut FakeLocal,
    )
    .unwrap();
    assert_eq!(
        conn.inner.calls,
        vec!["import text/x-bibtex", "update C5 a", "import text/x-bibtex", "import text/x-bibtex", "update C5 a"]
    );
    assert_eq!(to_json_string(r.get("imported_count").unwrap()), "2");
    let failures = r.get("failures").unwrap().as_array().unwrap();
    assert_eq!(to_json_string(failures[0].get("index").unwrap()), "1");
}
