use zotero_cli::add_import::result_payload;
use zotero_cli::clock::TokenCounter;
use zotero_cli::commands::{difference_replace, union_replace};
use zotero_cli::docx_render::replace_placeholders_in_element;
use zotero_cli::docx_working::replace_placeholders_with_note_links;
use zotero_cli::text::{i64_to_string, parse_i64};
use zotero_cli::xml::{XmlElement, XmlNode};

fn strings(v: &[&str]) -> Vec<String> {
    v.iter().map(|s| s.to_string()).collect()
}

fn plain_document() -> XmlElement {
    let t = XmlElement { name: "w:t".to_string(), attributes: Vec::new(), children: vec![XmlNode::Text("No citations here.".to_string())] };
    let r = XmlElement { name: "w:r".to_string(), attributes: Vec::new(), children: vec![XmlNode::Element(t)] };
    let p = XmlElement { name: "w:p".to_string(), attributes: Vec::new(), children: vec![XmlNode::Element(r)] };
    let body = XmlElement { name: "w:body".to_string(), attributes: Vec::new(), children: vec![XmlNode::Element(p)] };
    XmlElement { name: "w:document".to_string(), attributes: Vec::new(), children: vec![XmlNode::Element(body)] }
}

#[test]
fn adding_tags_twice_is_adding_them_once() {
    let list = strings(&["a", "b"]);
    let add = strings(&["b", "c", "c"]);
    let once = union_replace(&list, &add);
    assert_eq!(once, strings(&["a", "b", "c"]));
    assert_eq!(union_replace(&once, &add), once);
}

#[test]
fn removing_tags_keeps_only_the_others() {
    let list = strings(&["a", "b", "c", "b"]);
    assert_eq!(difference_replace(&list, &strings(&["b"])), strings(&["a", "c"]));
}

#[test]
fn decimal_text_reads_back() {
    for n in [0i64, 7, -7, 1234567890, i64::MAX, i64::MIN] {
        assert_eq!(parse_i64(&i64_to_string(n)), Some(n));
    }
}

#[test]
fn payloads_carry_action_ok_and_status() {
    let p = result_payload("add_url", false, "error", Some("X"), Some("why"), Vec::new());
    assert_eq!(p.get("action").unwrap().as_str(), Some("add_url"));
    assert_eq!(p.get("ok").unwrap().as_bool(), Some(false));
    assert_eq!(p.get("status").unwrap().as_str(), Some("error"));
    assert_eq!(p.get("error").unwrap().as_str(), Some("why"));
}

#[test]
fn documents_without_placeholders_are_left_alone() {
    let mut doc = plain_document();
    let mut rendered = Vec::new();
    replace_placeholders_in_element(&mut doc, &Vec::new(), &mut rendered).unwrap();
    assert!(rendered.is_empty());
    assert_eq!(doc.iter_text(), "No citations here.");
    let mut doc2 = plain_document();
    let mut counter = TokenCounter { next: 5 };
    let records = replace_placeholders_with_note_links(&mut doc2, &Vec::new(), &mut counter).unwrap();
    assert!(records.is_empty());
    assert_eq!(counter.next, 5);
    assert_eq!(doc2.iter_text(), "No citations here.");
}
