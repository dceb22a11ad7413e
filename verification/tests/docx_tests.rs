use zotero_cli::clock::TokenCounter;
use zotero_cli::docx_convert::{
    build_working_docx, check_bibliography_mode, extract_field_text, items_by_key, ready_items,
    render_static_citations, static_citations_report, static_ready,
};
use zotero_cli::docx_working::replace_placeholders_with_note_links;
use zotero_cli::json::{obj_insert, Json};
use zotero_cli::static_render::RenderedItem;
use zotero_cli::xml::{XmlElement, XmlNode};

fn s(x: &str) -> Json {
    Json::Str(x.to_string())
}

fn n(x: i64) -> Json {
    Json::Number(x.to_string())
}

fn obj(pairs: Vec<(&str, Json)>) -> Json {
    let mut m = Vec::new();
    for (k, v) in pairs {
        obj_insert(&mut m, k.to_string(), v);
    }
    Json::Object(m)
}

fn elem(name: &str, children: Vec<XmlNode>) -> XmlElement {
    XmlElement { name: name.to_string(), attributes: Vec::new(), children }
}

fn run(text: &str) -> XmlNode {
    XmlNode::Element(elem("w:r", vec![XmlNode::Element(elem("w:t", vec![XmlNode::Text(text.to_string())]))]))
}

fn document(paragraphs: Vec<Vec<XmlNode>>) -> XmlElement {
    let body = paragraphs.into_iter().map(|runs| XmlNode::Element(elem("w:p", runs))).collect();
    elem("w:document", vec![XmlNode::Element(elem("w:body", body))])
}

fn body_children(root: &XmlElement) -> &Vec<XmlNode> {
    match &root.children[0] {
        XmlNode::Element(b) => &b.children,
        _ => panic!("no body"),
    }
}

fn as_elem(n: &XmlNode) -> &XmlElement {
    match n {
        XmlNode::Element(e) => e,
        _ => panic!("not an element"),
    }
}

fn item(key: &str, id: i64, title: &str) -> Json {
    obj(vec![("key", s(key)), ("itemID", n(id)), ("libraryID", n(1)), ("title", s(title))])
}

#[test]
fn working_links_replace_a_placeholder_inside_a_run() {
    let mut root = document(vec![vec![run("See {{zotero:ABCD1234}} here")]]);
    let items = items_by_key(&vec![item("ABCD1234", 5, "A title")]);
    let mut counter = TokenCounter { next: 7 };
    let records = replace_placeholders_with_note_links(&mut root, &items, &mut counter).unwrap();
    assert_eq!(records.len(), 1);
    assert_eq!(counter.next, 8);
    let p = as_elem(&body_children(&root)[0]);
    assert_eq!(p.children.len(), 3);
    assert_eq!(as_elem(&p.children[0]).iter_text(), "See ");
    let link = as_elem(&p.children[1]);
    assert_eq!(link.name, "w:hyperlink");
    assert_eq!(as_elem(&p.children[2]).iter_text(), " here");
    let pid = records[0].get("placeholder_id").unwrap().as_str().unwrap().to_string();
    assert!(pid.starts_with("ZOTERO_CLI_PLACEHOLDER_"));
    let token = &pid["ZOTERO_CLI_PLACEHOLDER_".len()..];
    assert_eq!(token.len(), 32);
    assert!(token.ends_with("0000000000000007"));
    assert_eq!(link.iter_text(), pid);
    let rid = records[0].get("relationship_id").unwrap().as_str().unwrap();
    assert_eq!(rid, format!("rIdZoteroCli{}", &token[..16]));
    assert_eq!(link.get_attr("r:id"), Some(rid));
    let record_items = records[0].get("items").unwrap().as_array().unwrap();
    assert_eq!(record_items[0].get("itemID").unwrap().as_i64(), Some(5));
    assert_eq!(record_items[0].get("title").unwrap().as_str(), Some("A title"));
    let citation = records[0].get("citation").unwrap();
    assert_eq!(
        citation.get("citationItems").unwrap().as_array().unwrap()[0].get("id").unwrap().as_i64(),
        Some(5)
    );
}

#[test]
fn working_links_refuse_an_unresolved_key() {
    let mut root = document(vec![vec![run("{{zotero:ZZZZ9999}}")]]);
    let items = items_by_key(&vec![item("ABCD1234", 5, "A title")]);
    let mut counter = TokenCounter { next: 1 };
    let err = replace_placeholders_with_note_links(&mut root, &items, &mut counter).unwrap_err();
    assert_eq!(err.0, "Zotero item key was not resolved: ZZZZ9999");
}

#[test]
fn working_links_refuse_an_invalid_placeholder() {
    let mut root = document(vec![vec![run("x {{zotero: }} y")]]);
    let items = items_by_key(&Vec::new());
    let mut counter = TokenCounter { next: 1 };
    let err = replace_placeholders_with_note_links(&mut root, &items, &mut counter).unwrap_err();
    assert_eq!(err.0, "Invalid Zotero placeholder: {{zotero: }}");
}

#[test]
fn working_links_give_each_placeholder_its_own_token() {
    let mut root = document(vec![vec![run("{{zotero:AAAA1111}} and {{zotero:AAAA1111,BBBB2222}}")]]);
    let items = items_by_key(&vec![item("AAAA1111", 1, "One"), item("BBBB2222", 2, "Two")]);
    let mut counter = TokenCounter { next: 1 };
    let records = replace_placeholders_with_note_links(&mut root, &items, &mut counter).unwrap();
    assert_eq!(records.len(), 2);
    assert_ne!(records[0].get("placeholder_id"), records[1].get("placeholder_id"));
    assert_eq!(records[1].get("keys").unwrap().as_array().unwrap().len(), 2);
    assert_eq!(counter.next, 3);
}

#[test]
fn build_working_docx_adds_relationships_and_a_bibliography_placeholder() {
    let mut root = document(vec![vec![run("See {{zotero:ABCD1234}}.")]]);
    let mut counter = TokenCounter { next: 1 };
    let (rels, report) = build_working_docx(
        vec![item("ABCD1234", 5, "A title")],
        &mut root,
        None,
        "in.docx",
        "out.docx",
        "auto",
        &mut counter,
    )
    .unwrap();
    assert_eq!(rels.name, "Relationships");
    assert_eq!(rels.children.len(), 2);
    let rel = as_elem(&rels.children[0]);
    assert_eq!(rel.get_attr("TargetMode"), Some("External"));
    assert!(rel.get_attr("Target").unwrap().starts_with("https://www.zotero.org/?ZOTERO_CLI_PLACEHOLDER_"));
    assert!(as_elem(&rels.children[1]).get_attr("Id").unwrap().starts_with("rIdZoteroCliBib"));
    assert_eq!(report.get("placeholder_count").unwrap().as_i64(), Some(1));
    assert_eq!(report.get("citation_count").unwrap().as_i64(), Some(1));
    assert_eq!(report.get("ok").unwrap().as_bool(), Some(true));
    let bib = report.get("bibliography_placeholder").unwrap();
    assert_eq!(bib.get("placement").unwrap().as_str(), Some("appended-heading"));
    assert_eq!(body_children(&root).len(), 3);
    assert_eq!(as_elem(&body_children(&root)[1]).iter_text(), "References");
    assert_eq!(counter.next, 3);
}

#[test]
fn build_working_docx_without_bibliography_leaves_the_body_alone() {
    let mut root = document(vec![vec![run("{{zotero:ABCD1234}}")]]);
    let mut counter = TokenCounter { next: 1 };
    let (rels, report) =
        build_working_docx(vec![item("ABCD1234", 5, "T")], &mut root, None, "a", "b", "none", &mut counter).unwrap();
    assert_eq!(rels.children.len(), 1);
    assert!(report.get("bibliography_placeholder").unwrap().is_null());
    assert_eq!(body_children(&root).len(), 1);
}

#[test]
fn bibliography_mode_must_be_auto_or_none() {
    assert!(check_bibliography_mode("auto").is_ok());
    assert!(check_bibliography_mode("none").is_ok());
    assert_eq!(
        check_bibliography_mode("full").unwrap_err().0,
        "Bibliography mode must be one of: auto, none."
    );
}

#[test]
fn ready_items_require_ok_and_placeholders() {
    let not_ok = obj(vec![("ok", Json::Bool(false))]);
    assert_eq!(
        ready_items(&not_ok, "zoterify conversion").unwrap_err().0,
        "DOCX placeholders are not ready for zoterify conversion."
    );
    let none = obj(vec![("ok", Json::Bool(true)), ("placeholder_count", n(0))]);
    assert_eq!(
        ready_items(&none, "zoterify conversion").unwrap_err().0,
        "No Zotero placeholders were found. Use {{zotero:ITEMKEY}} or {{zotero:KEY1,KEY2}}."
    );
    let ready = obj(vec![
        ("ok", Json::Bool(true)),
        ("placeholder_count", n(2)),
        ("items", Json::Array(vec![item("K", 1, "T")])),
    ]);
    assert_eq!(ready_items(&ready, "zoterify conversion").unwrap().len(), 1);
    assert_eq!(
        static_ready(&ready, false).unwrap_err().0,
        "Zotero Local API is not available after launching Zotero. Open Zotero, enable the Local API, then rerun this command."
    );
    assert_eq!(static_ready(&ready, true).unwrap().len(), 1);
}

#[test]
fn items_by_key_keeps_the_last_item_of_a_key() {
    let keyed = items_by_key(&vec![item("K", 1, "first"), item("K", 2, "second"), s("no key")]);
    assert_eq!(keyed.len(), 1);
    assert_eq!(keyed[0].1.get("title").unwrap().as_str(), Some("second"));
}

#[test]
fn field_text_reads_an_object_or_the_first_element() {
    let object = obj(vec![("citation", s("(Doe, 2020)"))]);
    assert_eq!(extract_field_text(&object, "citation"), "(Doe, 2020)");
    let array = Json::Array(vec![obj(vec![("bib", s("Doe. 2020."))])]);
    assert_eq!(extract_field_text(&array, "bib"), "Doe. 2020.");
    assert_eq!(extract_field_text(&Json::Array(Vec::new()), "bib"), "");
}

#[test]
fn static_rendering_writes_citations_and_a_bibliography() {
    let mut root = document(vec![vec![run("As shown {{zotero:ABCD1234}}.")]]);
    let rendered = vec![(
        "ABCD1234".to_string(),
        RenderedItem { citation: "(Doe, 2020)".to_string(), bibliography: "Doe, J. (2020). A title.".to_string() },
    )];
    let (placeholders, entries) = render_static_citations(&mut root, &rendered, "auto").unwrap();
    assert_eq!(placeholders.len(), 1);
    assert_eq!(placeholders[0].citation, "(Doe, 2020)");
    assert_eq!(entries.len(), 1);
    let texts: Vec<String> = body_children(&root).iter().map(|n| as_elem(n).iter_text()).collect();
    assert_eq!(texts, vec!["As shown (Doe, 2020).", "References", "Doe, J. (2020). A title."]);
    let report = static_citations_report(
        "in.docx", "out.docx", "apa", "en-US", "auto", &placeholders, entries.len(), Vec::new(), &Json::Null,
    );
    assert_eq!(report.get("citation_count").unwrap().as_i64(), Some(1));
    assert_eq!(report.get("bibliography_count").unwrap().as_i64(), Some(1));
    assert_eq!(report.get("mode").unwrap().as_str(), Some("static"));
    assert!(report.get("inspection").unwrap().get("systems").unwrap().is_null());
}
