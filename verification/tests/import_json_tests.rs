use zotero_cli::import_json::{crossref_work_to_item, normalize_import_json_payload};
use zotero_cli::json::{obj_insert, Json};

fn s(x: &str) -> Json {
    Json::Str(x.to_string())
}

fn members(pairs: Vec<(&str, Json)>) -> Vec<(String, Json)> {
    let mut m = Vec::new();
    for (k, v) in pairs {
        obj_insert(&mut m, k.to_string(), v);
    }
    m
}

fn obj(pairs: Vec<(&str, Json)>) -> Json {
    Json::Object(members(pairs))
}

#[test]
fn a_crossref_work_becomes_one_connector_item() {
    let msg = obj(vec![
        ("DOI", s("10.1/xyz")),
        ("title", Json::Array(vec![s("A study")])),
        ("container-title", Json::Array(vec![s("Journal")])),
        ("author", Json::Array(vec![obj(vec![("family", s("Doe")), ("given", s("Jane"))]), s("not an author")])),
    ]);
    let payload = obj(vec![("message", msg)]);
    let (items, format) = normalize_import_json_payload(&payload).unwrap();
    assert_eq!(format, "crossref");
    assert_eq!(items.len(), 1);
    assert_eq!(items[0].get("title").unwrap().as_str(), Some("A study"));
    assert_eq!(items[0].get("itemType").unwrap().as_str(), Some("journalArticle"));
}

#[test]
fn crossref_authors_keep_only_objects() {
    let msg = members(vec![
        ("DOI", s("10.1/xyz")),
        ("author", Json::Array(vec![obj(vec![("family", s("Doe"))]), Json::Null])),
    ]);
    let item = Json::Object(crossref_work_to_item(&msg));
    let creators = item.get("creators").unwrap().as_array().unwrap();
    assert_eq!(creators.len(), 1);
}

#[test]
fn connector_items_get_generated_ids() {
    let payload = Json::Array(vec![obj(vec![("itemType", s("book")), ("title", s("B"))]), obj(vec![("itemType", s("book")), ("id", s("mine"))])]);
    let (items, format) = normalize_import_json_payload(&payload).unwrap();
    assert_eq!(format, "connector");
    assert_eq!(items[0].get("id").unwrap().as_str(), Some("cli-anything-zotero-1"));
    assert_eq!(items[1].get("id").unwrap().as_str(), Some("mine"));
}

#[test]
fn csl_items_are_converted() {
    let payload = obj(vec![("items", Json::Array(vec![obj(vec![("type", s("book")), ("title", s("CSL"))])]))]);
    let (items, format) = normalize_import_json_payload(&payload).unwrap();
    assert_eq!(format, "csl-json");
    assert_eq!(items[0].get("itemType").unwrap().as_str(), Some("book"));
    assert_eq!(items[0].get("title").unwrap().as_str(), Some("CSL"));
}

#[test]
fn plain_objects_fall_back_to_journal_articles() {
    let payload = Json::Array(vec![obj(vec![("name", s("x"))])]);
    let (items, format) = normalize_import_json_payload(&payload).unwrap();
    assert_eq!(format, "connector-fallback");
    assert_eq!(items[0].get("itemType").unwrap().as_str(), Some("journalArticle"));
    assert_eq!(items[0].get("id").unwrap().as_str(), Some("cli-anything-zotero-1"));
}

#[test]
fn json_imports_refuse_what_they_cannot_read() {
    assert_eq!(normalize_import_json_payload(&s("x")).unwrap_err().0, "JSON import expects an array of objects");
    assert_eq!(
        normalize_import_json_payload(&obj(vec![("foo", s("bar"))])).unwrap_err().0,
        "JSON import expects an array, {items:[...]}, CSL object, or Crossref work"
    );
    let mixed = Json::Array(vec![obj(vec![("itemType", s("book"))]), s("oops")]);
    assert_eq!(normalize_import_json_payload(&mixed).unwrap_err().0, "JSON import item 2 is not an object");
    let (empty, format) = normalize_import_json_payload(&Json::Array(Vec::new())).unwrap();
    assert!(empty.is_empty());
    assert_eq!(format, "empty");
}

#[test]
fn a_single_item_object_is_imported_alone() {
    let payload = obj(vec![("itemType", s("book")), ("title", s("Solo"))]);
    let (items, format) = normalize_import_json_payload(&payload).unwrap();
    assert_eq!(format, "connector");
    assert_eq!(items.len(), 1);
}
