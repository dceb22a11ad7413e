use zotero_cli::add_file::{
    add_file_step, add_pdf_file, add_url_with_clients, file_import_payload, normalize_arxiv_id, unsupported_payload,
    AddFileStep,
};
use zotero_cli::add_import::{
    application_import_payload, import_doi_with_clients, legacy_key, normalize_if_exists, normalize_tags,
    require_bibtex, result_payload, AddImportBridge, AddImportFetcher, AddImportOptions, LoggedBridge, LoggedFetcher,
};
use zotero_cli::bridge::BridgeResponse;
use zotero_cli::db::Collection;
use zotero_cli::error::DomainError;
use zotero_cli::import_target::{
    is_tree_view_ref, resolve_target, ConnectorImportClient, ImportRuntime, LoggedConnector, TargetLookups,
};
use zotero_cli::json::{obj_insert, Json};

fn s(x: &str) -> Json {
    Json::Str(x.to_string())
}

fn obj(pairs: Vec<(&str, Json)>) -> Json {
    let mut m = Vec::new();
    for (k, v) in pairs {
        obj_insert(&mut m, k.to_string(), v);
    }
    Json::Object(m)
}

fn get_str<'a>(v: &'a Json, key: &str) -> Option<&'a str> {
    v.get(key).and_then(|x| x.as_str())
}

#[derive(Default)]
struct FakeBridge {
    existing: Option<Json>,
    translator: Option<BridgeResponse>,
    standalone: Option<BridgeResponse>,
    calls: Vec<String>,
}

impl AddImportBridge for FakeBridge {
    fn find_items_by_doi(&mut self, _library_id: u32, doi: &str, _limit: i64) -> BridgeResponse {
        self.calls.push(format!("find {doi}"));
        match &self.existing {
            Some(v) => BridgeResponse::success(v.deep_clone()),
            None => BridgeResponse::success(Json::Array(Vec::new())),
        }
    }
    fn import_from_doi(&mut self, _library_id: u32, doi: &str, _c: Option<&str>, _t: Option<&Vec<String>>) -> BridgeResponse {
        self.calls.push(format!("translate {doi}"));
        match self.translator.take() {
            Some(r) => r,
            None => BridgeResponse::failure("no translator".to_string()),
        }
    }
    fn import_from_pmid(&mut self, _l: u32, _p: &str, _c: Option<&str>, _t: Option<&Vec<String>>) -> BridgeResponse {
        BridgeResponse::failure("unused".to_string())
    }
    fn add_to_collection(&mut self, _l: u32, key: &str, collection: &str) -> Result<(), DomainError> {
        self.calls.push(format!("file {key} {collection}"));
        Ok(())
    }
    fn manage_tags(&mut self, _l: u32, key: &str, tags: &Vec<String>) -> Result<(), DomainError> {
        self.calls.push(format!("tag {key} {}", tags.join(",")));
        Ok(())
    }
    fn attach_pdf(&mut self, _l: u32, key: &str, path: &str) -> BridgeResponse {
        self.calls.push(format!("attach {key} {path}"));
        BridgeResponse::success(obj(vec![("ok", Json::Bool(true))]))
    }
    fn standalone_pdf_import(&mut self, _l: u32, file_path: &str, title: &str, _c: Option<&str>, _t: &Vec<String>) -> BridgeResponse {
        self.calls.push(format!("standalone {file_path} {title}"));
        match self.standalone.take() {
            Some(r) => r,
            None => BridgeResponse::failure("bridge down".to_string()),
        }
    }
}

struct FakeFetcher {
    bibtex: Result<String, String>,
}

impl AddImportFetcher for FakeFetcher {
    fn fetch_crossref_bibtex(&mut self, _doi: &str, _t: u64) -> Result<String, DomainError> {
        self.bibtex.clone().map_err(DomainError)
    }
    fn fetch_arxiv_bibtex(&mut self, _id: &str, _t: u64) -> Result<String, DomainError> {
        self.bibtex.clone().map_err(DomainError)
    }
    fn fetch_html_title_and_doi(&mut self, url: &str, _t: u64) -> Result<(Option<String>, Option<String>, String), DomainError> {
        Ok((Some("A page".to_string()), None, url.to_string()))
    }
}

#[derive(Default)]
struct FakeConnector {
    calls: Vec<String>,
}

impl ConnectorImportClient for FakeConnector {
    fn import_text(&mut self, _port: u16, _content: &str, session_id: &str, content_type: &str, _t: u64) -> Result<Vec<Json>, DomainError> {
        self.calls.push(format!("import {content_type} {}", session_id.starts_with("import-doi-crossref-")));
        Ok(vec![obj(vec![("key", s("NEWKEY12")), ("title", s("Imported"))])])
    }
    fn save_items(&mut self, _port: u16, items: &Vec<Json>, _sid: &str, _t: u64) -> Result<(), DomainError> {
        self.calls.push(format!("save {}", items.len()));
        Ok(())
    }
    fn update_session(&mut self, _port: u16, _sid: &str, target: &str, tags: &Vec<String>, _t: u64) -> Result<Json, DomainError> {
        self.calls.push(format!("update {target} {}", tags.join(",")));
        Ok(Json::Null)
    }
    fn get_selected_collection(&mut self, _port: u16, _t: u64) -> Result<Json, DomainError> {
        Ok(obj(vec![("id", Json::Number("7".to_string())), ("name", s("Inbox")), ("libraryID", Json::Number("1".to_string()))]))
    }
}

fn runtime(available: bool) -> ImportRuntime {
    ImportRuntime { connector_available: available, connector_message: "down".to_string(), port: 23119, session_counter: 0 }
}

fn lookups() -> TargetLookups {
    TargetLookups { collection: Ok(None), default_library: Ok("L1".to_string()) }
}

#[test]
fn result_payload_orders_members_by_key() {
    let p = result_payload("act", true, "success", Some("CODE"), None, vec![("zeta".to_string(), s("z")), ("ok".to_string(), Json::Bool(false))]);
    assert_eq!(get_str(&p, "action"), Some("act"));
    assert_eq!(p.get("ok").unwrap().as_bool(), Some(false));
    assert_eq!(get_str(&p, "code"), Some("CODE"));
    assert!(p.get("error").is_none());
    match &p {
        Json::Object(m) => {
            let keys: Vec<&str> = m.iter().map(|(k, _)| k.as_str()).collect();
            assert_eq!(keys, vec!["action", "code", "ok", "status", "zeta"]);
        }
        _ => panic!("not an object"),
    }
}

#[test]
fn if_exists_policies() {
    assert_eq!(normalize_if_exists("").unwrap(), "file");
    assert_eq!(normalize_if_exists(" SKIP ").unwrap(), "skip");
    assert_eq!(normalize_if_exists("duplicate").unwrap(), "duplicate");
    assert_eq!(
        normalize_if_exists("bogus").unwrap_err(),
        "Unsupported if-exists policy: \"bogus\" (use file|skip|duplicate)"
    );
}

#[test]
fn tags_are_trimmed_and_blank_ones_dropped() {
    let tags = vec![" a ".to_string(), "  ".to_string(), "b".to_string()];
    assert_eq!(normalize_tags(&tags), vec!["a".to_string(), "b".to_string()]);
}

#[test]
fn legacy_keys_are_read_from_bridge_text() {
    assert_eq!(legacy_key("OK: imported (key: ABCD1234)"), Some("ABCD1234".to_string()));
    assert_eq!(legacy_key("OK: imported (key: )"), None);
    assert_eq!(legacy_key("OK: imported"), None);
}

#[test]
fn bibtex_bodies_need_an_entry() {
    assert_eq!(require_bibtex("  @article{x}\n".to_string(), "bad").unwrap(), "@article{x}");
    assert_eq!(require_bibtex("   ".to_string(), "bad").unwrap_err().0, "bad");
    assert_eq!(require_bibtex("plain".to_string(), "bad").unwrap_err().0, "bad");
}

#[test]
fn import_answers_are_classified() {
    let failed = application_import_payload(&BridgeResponse::failure("boom".to_string()));
    assert_eq!(get_str(&failed, "code"), Some("BRIDGE_ERROR"));
    assert_eq!(get_str(&failed, "error"), Some("boom"));
    let empty = application_import_payload(&BridgeResponse::success(Json::Null));
    assert_eq!(get_str(&empty, "code"), Some("EMPTY_RESULT"));
    let with_ok = application_import_payload(&BridgeResponse::success(obj(vec![("ok", Json::Bool(true)), ("key", s("K"))])));
    assert_eq!(get_str(&with_ok, "key"), Some("K"));
    assert!(with_ok.get("action").is_none());
    let wrapped = application_import_payload(&BridgeResponse::success(obj(vec![("x", s("y"))])));
    assert_eq!(get_str(&wrapped, "status"), Some("success"));
    assert_eq!(get_str(wrapped.get("result").unwrap(), "x"), Some("y"));
    let legacy = application_import_payload(&BridgeResponse::success(s("  OK: done (key: AAAA1111) ")));
    assert_eq!(get_str(&legacy, "code"), Some("IMPORTED"));
    assert_eq!(get_str(&legacy, "key"), Some("AAAA1111"));
    assert_eq!(get_str(&legacy, "message"), Some("OK: done (key: AAAA1111)"));
    let timeout = application_import_payload(&BridgeResponse::success(s("TIMEOUT after 30s")));
    assert_eq!(get_str(&timeout, "code"), Some("LEGACY_ERROR"));
    let odd = application_import_payload(&BridgeResponse::success(s("hmm")));
    assert_eq!(get_str(&odd, "code"), Some("UNEXPECTED_RESULT"));
    let number = application_import_payload(&BridgeResponse::success(Json::Number("3".to_string())));
    assert_eq!(get_str(&number, "error"), Some("Unexpected bridge data type: int"));
}

#[test]
fn doi_import_refuses_a_bad_doi() {
    let mut bridge = LoggedBridge::new(FakeBridge::default());
    let mut connector = LoggedConnector::new(FakeConnector::default());
    let mut fetcher = LoggedFetcher::new(FakeFetcher { bibtex: Err("x".to_string()) });
    let options = AddImportOptions::default();
    let r = import_doi_with_clients(&mut runtime(true), &mut bridge, &mut connector, &mut fetcher, "not a doi", &options, &lookups());
    assert_eq!(get_str(&r, "code"), Some("INVALID_DOI"));
    assert_eq!(get_str(&r, "error"), Some("Invalid DOI: \"not a doi\""));
    assert!(bridge.inner.calls.is_empty());
}

#[test]
fn doi_import_answers_with_an_existing_item_and_files_it() {
    let mut bridge = LoggedBridge::new(FakeBridge { existing: Some(Json::Array(vec![obj(vec![("key", s("OLDKEY12")), ("title", s("Old"))])])), ..Default::default() });
    let mut connector = LoggedConnector::new(FakeConnector::default());
    let mut fetcher = LoggedFetcher::new(FakeFetcher { bibtex: Err("x".to_string()) });
    let mut options = AddImportOptions::default();
    options.collection_key = Some("COLL".to_string());
    options.tags = vec!["t1".to_string()];
    let r = import_doi_with_clients(&mut runtime(true), &mut bridge, &mut connector, &mut fetcher, "https://doi.org/10.1234/ABC.", &options, &lookups());
    assert_eq!(get_str(&r, "status"), Some("already_exists"));
    assert_eq!(get_str(&r, "DOI"), Some("10.1234/ABC"));
    assert_eq!(get_str(&r, "key"), Some("OLDKEY12"));
    assert_eq!(r.get("modified").unwrap().as_bool(), Some(true));
    assert_eq!(bridge.inner.calls, vec!["find 10.1234/ABC", "file OLDKEY12 COLL", "tag OLDKEY12 t1"]);
}

#[test]
fn doi_import_prefers_the_translator() {
    let answer = BridgeResponse::success(obj(vec![("ok", Json::Bool(true)), ("key", s("TRKEY123")), ("code", s("IMPORTED_TRANSLATOR"))]));
    let mut bridge = LoggedBridge::new(FakeBridge { translator: Some(answer), ..Default::default() });
    let mut connector = LoggedConnector::new(FakeConnector::default());
    let mut fetcher = LoggedFetcher::new(FakeFetcher { bibtex: Err("x".to_string()) });
    let options = AddImportOptions::default();
    let r = import_doi_with_clients(&mut runtime(true), &mut bridge, &mut connector, &mut fetcher, "10.1234/abc", &options, &lookups());
    assert_eq!(get_str(&r, "key"), Some("TRKEY123"));
    assert_eq!(get_str(&r, "code"), Some("IMPORTED_TRANSLATOR"));
    assert_eq!(get_str(&r, "source"), Some("zotero-translator"));
    assert_eq!(r.get("attempts").unwrap().as_array().unwrap().len(), 1);
}

#[test]
fn doi_import_falls_back_to_crossref() {
    let mut bridge = LoggedBridge::new(FakeBridge::default());
    let mut connector = LoggedConnector::new(FakeConnector::default());
    let mut fetcher = LoggedFetcher::new(FakeFetcher { bibtex: Ok("@article{x}".to_string()) });
    let mut options = AddImportOptions::default();
    options.tags = vec!["a".to_string()];
    let r = import_doi_with_clients(&mut runtime(true), &mut bridge, &mut connector, &mut fetcher, "10.1234/abc", &options, &lookups());
    assert_eq!(get_str(&r, "source"), Some("crossref-bibtex"));
    assert_eq!(get_str(&r, "key"), Some("NEWKEY12"));
    assert_eq!(get_str(&r, "translator_error"), Some("no translator"));
    assert_eq!(get_str(r.get("target").unwrap(), "treeViewID"), Some("C7"));
    assert_eq!(r.get("attempts").unwrap().as_array().unwrap().len(), 2);
    assert_eq!(connector.inner.calls, vec!["import text/x-bibtex true", "update C7 a"]);
}

#[test]
fn doi_import_reports_when_every_path_fails() {
    let mut bridge = LoggedBridge::new(FakeBridge::default());
    let mut connector = LoggedConnector::new(FakeConnector::default());
    let mut fetcher = LoggedFetcher::new(FakeFetcher { bibtex: Ok("@article{x}".to_string()) });
    let options = AddImportOptions::default();
    let r = import_doi_with_clients(&mut runtime(false), &mut bridge, &mut connector, &mut fetcher, "10.1234/abc", &options, &lookups());
    assert_eq!(get_str(&r, "code"), Some("IMPORT_FAILED"));
    assert_eq!(get_str(&r, "error"), Some("Zotero connector is not available: down"));
    let attempts = r.get("attempts").unwrap().as_array().unwrap();
    assert_eq!(get_str(&attempts[1], "step"), Some("crossref-bibtex"));
}

#[test]
fn targets_resolve_in_order() {
    let mut connector = LoggedConnector::new(FakeConnector::default());
    let rt = runtime(false);
    let t = resolve_target(&rt, Some("C12"), None, &lookups(), &mut connector).unwrap();
    assert_eq!(get_str(&t, "kind"), Some("collection"));
    assert_eq!(get_str(&t, "source"), Some("explicit"));
    let missing = resolve_target(&rt, Some("ABCD"), None, &lookups(), &mut connector).unwrap_err();
    assert_eq!(missing.0, "Collection not found: ABCD");
    let found = TargetLookups {
        collection: Ok(Some(Collection {
            collection_id: 4,
            key: "ABCD".to_string(),
            collection_name: "Reading".to_string(),
            parent_collection_id: None,
            library_id: 1,
            version: 0,
            item_count: 0,
        })),
        default_library: Ok("L1".to_string()),
    };
    let c = resolve_target(&rt, None, Some("ABCD"), &found, &mut connector).unwrap();
    assert_eq!(get_str(&c, "treeViewID"), Some("C4"));
    assert_eq!(get_str(&c, "source"), Some("session"));
    let user = resolve_target(&rt, None, None, &lookups(), &mut connector).unwrap();
    assert_eq!(get_str(&user, "treeViewID"), Some("L1"));
    assert_eq!(get_str(&user, "source"), Some("user_library"));
    assert!(is_tree_view_ref("L1"));
    assert!(!is_tree_view_ref("L"));
    assert!(!is_tree_view_ref("X12"));
}

#[test]
fn arxiv_ids_are_normalised() {
    assert_eq!(normalize_arxiv_id("https://arxiv.org/abs/2101.00001v2").unwrap(), "2101.00001");
    assert_eq!(normalize_arxiv_id("arXiv:2101.00001").unwrap(), "2101.00001");
    assert_eq!(normalize_arxiv_id("https://arxiv.org/pdf/2101.00001.pdf").unwrap(), "2101.00001");
    assert_eq!(normalize_arxiv_id("see 1234.56789 here").unwrap(), "1234.56789");
    assert_eq!(normalize_arxiv_id("nothing").unwrap_err().0, "Invalid arXiv id: \"nothing\"");
}

#[test]
fn file_suffixes_choose_the_import() {
    assert!(matches!(add_file_step("/tmp/refs.BIB"), (AddFileStep::ImportFile, ref s) if s == "bib"));
    assert!(matches!(add_file_step("/tmp/items.json"), (AddFileStep::ImportJson, _)));
    assert!(matches!(add_file_step("/tmp/paper.pdf"), (AddFileStep::AddPdf, _)));
    assert!(matches!(add_file_step("/tmp/notes.txt"), (AddFileStep::Unsupported, ref s) if s == "txt"));
    let u = unsupported_payload("/tmp/notes.txt", "txt");
    assert_eq!(get_str(&u, "error"), Some("Unsupported file type: .txt"));
    let imported = obj(vec![("status", s("partial_success")), ("imported_count", Json::Number("2".to_string()))]);
    let p = file_import_payload("/tmp/refs.bib", "bib", false, Ok(imported));
    assert_eq!(p.get("ok").unwrap().as_bool(), Some(true));
    assert_eq!(get_str(&p, "status"), Some("partial_success"));
    assert_eq!(p.get("imported_count").unwrap().as_i64(), Some(2));
    let j = file_import_payload("/tmp/x.json", "json", true, Ok(obj(vec![("status", s("error"))])));
    assert_eq!(j.get("ok").unwrap().as_bool(), Some(false));
    let e = file_import_payload("/tmp/x.json", "json", true, Err(DomainError("broken".to_string())));
    assert_eq!(get_str(&e, "code"), Some("IMPORT_FAILED"));
}

#[test]
fn a_pdf_without_a_doi_is_imported_standalone() {
    let answer = BridgeResponse::success(obj(vec![("ok", Json::Bool(true)), ("key", s("PDFKEY12"))]));
    let mut bridge = LoggedBridge::new(FakeBridge { standalone: Some(answer), ..Default::default() });
    let mut connector = LoggedConnector::new(FakeConnector::default());
    let mut fetcher = LoggedFetcher::new(FakeFetcher { bibtex: Err("x".to_string()) });
    let options = AddImportOptions::default();
    let r = add_pdf_file(&mut runtime(true), &mut bridge, &mut connector, &mut fetcher, "/tmp/my paper.pdf", "/abs/my paper.pdf", &options, &lookups());
    assert_eq!(get_str(&r, "code"), Some("ATTACHED_STANDALONE"));
    assert_eq!(get_str(&r, "title"), Some("my paper"));
    assert_eq!(bridge.inner.calls, vec!["standalone /abs/my paper.pdf my paper"]);
}

#[test]
fn a_pdf_named_by_its_doi_is_imported_and_attached() {
    let answer = BridgeResponse::success(obj(vec![("ok", Json::Bool(true)), ("key", s("TRKEY123"))]));
    let mut bridge = LoggedBridge::new(FakeBridge { translator: Some(answer), ..Default::default() });
    let mut connector = LoggedConnector::new(FakeConnector::default());
    let mut fetcher = LoggedFetcher::new(FakeFetcher { bibtex: Err("x".to_string()) });
    let options = AddImportOptions::default();
    let r = add_pdf_file(&mut runtime(true), &mut bridge, &mut connector, &mut fetcher, "/tmp/10.1234_abc.pdf", "/abs/x.pdf", &options, &lookups());
    assert_eq!(get_str(&r, "code"), Some("IMPORTED_WITH_PDF"));
    assert_eq!(get_str(&r, "DOI"), Some("10.1234/abc"));
    assert!(bridge.inner.calls.iter().any(|c| c == "attach TRKEY123 /tmp/10.1234_abc.pdf"));
}

#[test]
fn urls_are_routed_by_kind() {
    let mut bridge = LoggedBridge::new(FakeBridge::default());
    let mut connector = LoggedConnector::new(FakeConnector::default());
    let mut fetcher = LoggedFetcher::new(FakeFetcher { bibtex: Err("x".to_string()) });
    let options = AddImportOptions::default();
    let empty = add_url_with_clients(&mut runtime(true), &mut bridge, &mut connector, &mut fetcher, "   ", &options, &lookups());
    assert_eq!(get_str(&empty, "code"), Some("INVALID_URL"));
    let page = add_url_with_clients(&mut runtime(true), &mut bridge, &mut connector, &mut fetcher, "https://example.org/post", &options, &lookups());
    assert_eq!(get_str(&page, "url_kind"), Some("webpage"));
    assert_eq!(get_str(&page, "title"), Some("A page"));
    let doi = add_url_with_clients(&mut runtime(true), &mut bridge, &mut connector, &mut fetcher, "https://doi.org/10.1234/xyz", &options, &lookups());
    assert_eq!(get_str(&doi, "url_kind"), Some("doi"));
    assert_eq!(get_str(&doi, "action"), Some("add_url"));
}

#[test]
fn request_builders_name_what_the_bridge_is_asked() {
    assert_eq!(zotero_cli::add_import::bridge_library_id(-3), 0);
    assert_eq!(zotero_cli::add_import::bridge_library_id(7), 7);
    assert_eq!(zotero_cli::add_file::arxiv_doi("2101.00001"), "10.48550/arXiv.2101.00001");
    let none: Vec<String> = vec![];
    assert!(zotero_cli::add_import::tag_argument(&none).is_none());
    let some = vec!["t".to_string()];
    assert_eq!(zotero_cli::add_import::tag_argument(&some), Some(&some));
}

#[test]
fn split_gives_one_entry_per_counted_entry_start() {
    let two = "@article{a,\n title={A}}\n\n  @book{b, title={B}}\n";
    assert_eq!(zotero_cli::import_normalization::count_bibtex_entries(two), 2);
    assert_eq!(zotero_cli::import_normalization::split_bibtex_entries(two).len(), 2);
    assert_eq!(zotero_cli::import_normalization::count_bibtex_entries("no entries"), 0);
    assert_eq!(zotero_cli::import_normalization::split_bibtex_entries("no entries").len(), 1);
    assert_eq!(zotero_cli::import_normalization::split_bibtex_entries("   ").len(), 0);
}

#[test]
fn str_replace_replaces_every_occurrence_left_to_right() {
    assert_eq!(zotero_cli::add_file::str_replace("a.pdf.pdfx", ".pdf", ""), "ax");
    assert_eq!(zotero_cli::add_file::str_replace("aaa", "aa", "b"), "ba");
    assert_eq!(zotero_cli::add_file::str_replace("abc", "", "-"), "-a-b-c-");
}

#[test]
fn a_web_page_is_saved_then_filed() {
    let mut bridge = LoggedBridge::new(FakeBridge::default());
    let mut connector = LoggedConnector::new(FakeConnector::default());
    let mut fetcher = LoggedFetcher::new(FakeFetcher { bibtex: Err("x".to_string()) });
    let options = AddImportOptions::default();
    let page = add_url_with_clients(&mut runtime(true), &mut bridge, &mut connector, &mut fetcher, "  https://example.org/post ", &options, &lookups());
    assert_eq!(get_str(&page, "url"), Some("https://example.org/post"));
    assert_eq!(connector.inner.calls.len(), 2);
    assert_eq!(connector.inner.calls[0], "save 1");
    assert!(connector.inner.calls[1].starts_with("update "));
    let down = add_url_with_clients(&mut runtime(false), &mut bridge, &mut connector, &mut fetcher, "https://example.org/post", &options, &lookups());
    assert_eq!(get_str(&down, "code"), Some("IMPORT_FAILED"));
    assert_eq!(connector.inner.calls.len(), 2);
}
