use zotero_cli::styles::style_from;
use zotero_cli::xml::{XmlElement, XmlNode};
use zotero_cli::xml_events::{build_tree, element_events, XmlEvent};

fn attr(k: &str, v: &str) -> (String, String) {
    (k.to_string(), v.to_string())
}

fn sample_events() -> Vec<XmlEvent> {
    vec![
        XmlEvent::Start("w:document".to_string(), vec![attr("xmlns:w", "urn:w")]),
        XmlEvent::Start("w:body".to_string(), vec![]),
        XmlEvent::Start("w:p".to_string(), vec![]),
        XmlEvent::Start("w:r".to_string(), vec![]),
        XmlEvent::Start("w:t".to_string(), vec![attr("xml:space", "preserve")]),
        XmlEvent::Text("Fish &amp; chips".to_string()),
        XmlEvent::End("w:t".to_string()),
        XmlEvent::End("w:r".to_string()),
        XmlEvent::Empty("w:bookmarkStart".to_string(), vec![attr("w:id", "0")]),
        XmlEvent::Comment(" note ".to_string()),
        XmlEvent::CData("raw".to_string()),
        XmlEvent::End("w:p".to_string()),
        XmlEvent::End("w:body".to_string()),
        XmlEvent::End("w:document".to_string()),
    ]
}

#[test]
fn build_tree_nests_elements_and_decodes_text() {
    let root = build_tree(&sample_events()).unwrap();
    assert_eq!(root.name, "w:document");
    assert_eq!(root.attributes, vec![attr("xmlns:w", "urn:w")]);
    assert_eq!(root.iter_text(), "Fish & chipsraw");
    let p = root.find_first("w:p").unwrap();
    assert_eq!(p.children.len(), 4);
    assert!(matches!(&p.children[2], XmlNode::Comment(c) if c == " note "));
    assert!(matches!(&p.children[3], XmlNode::CData(c) if c == "raw"));
    let t = root.find_first("w:t").unwrap();
    assert_eq!(t.get_attr("xml:space"), Some("preserve"));
}

#[test]
fn build_tree_without_root_is_an_error() {
    let err = build_tree(&vec![XmlEvent::Text("loose".to_string())]).unwrap_err();
    assert_eq!(err.0, "Empty or invalid XML document");
    assert!(build_tree(&vec![]).is_err());
}

#[test]
fn build_tree_takes_a_lone_empty_element_as_root() {
    let root = build_tree(&vec![XmlEvent::Empty("a".to_string(), vec![attr("k", "v")])]).unwrap();
    assert_eq!(root.name, "a");
    assert!(root.children.is_empty());
}

#[test]
fn element_events_write_empty_elements_as_empty_tags() {
    let mut root = XmlElement::new("w:p");
    root.add_element(XmlElement::new("w:r"));
    root.add_text("x");
    let evs = element_events(&root);
    assert_eq!(evs.len(), 4);
    assert!(matches!(&evs[0], XmlEvent::Start(n, a) if n == "w:p" && a.is_empty()));
    assert!(matches!(&evs[1], XmlEvent::Empty(n, _) if n == "w:r"));
    assert!(matches!(&evs[2], XmlEvent::Text(t) if t == "x"));
    assert!(matches!(&evs[3], XmlEvent::End(n) if n == "w:p"));
}

#[test]
fn events_roundtrip_gives_the_tree_back() {
    let mut root = XmlElement::new("w:body");
    let mut p = XmlElement::new("w:p");
    p.set_attr("w:rsidR", "00A1");
    p.add_text("plain words");
    root.add_element(p);
    root.add_element(XmlElement::new("w:sectPr"));
    let back = build_tree(&element_events(&root)).unwrap();
    assert_eq!(back.name, "w:body");
    assert_eq!(back.children.len(), 2);
    let p2 = back.find_first("w:p").unwrap();
    assert_eq!(p2.get_attr("w:rsidR"), Some("00A1"));
    assert_eq!(p2.iter_text(), "plain words");
    assert!(back.find_first("w:sectPr").unwrap().children.is_empty());
}

#[test]
fn style_from_takes_the_first_id_and_title() {
    let evs = vec![
        XmlEvent::Start("style".to_string(), vec![]),
        XmlEvent::Start("info".to_string(), vec![]),
        XmlEvent::Text("\n  ".to_string()),
        XmlEvent::Start("cs:title".to_string(), vec![]),
        XmlEvent::Text(" Fish &amp; Chips ".to_string()),
        XmlEvent::End("cs:title".to_string()),
        XmlEvent::Start("id".to_string(), vec![]),
        XmlEvent::Text("http://example.org/style".to_string()),
        XmlEvent::End("id".to_string()),
        XmlEvent::Start("title".to_string(), vec![]),
        XmlEvent::Text("Second".to_string()),
        XmlEvent::End("title".to_string()),
        XmlEvent::End("info".to_string()),
        XmlEvent::End("style".to_string()),
    ];
    let st = style_from("/s/apa.csl", "apa", Ok(evs));
    assert!(st.valid);
    assert_eq!(st.id.as_deref(), Some("http://example.org/style"));
    assert_eq!(st.title, "Fish & Chips");
    let bad = style_from("/s/x.csl", "x", Err("bad".to_string()));
    assert!(!bad.valid);
    assert_eq!(bad.title, "x");
    let untitled = style_from("/s/y.csl", "y", Ok(vec![XmlEvent::Empty("title".to_string(), vec![])]));
    assert_eq!(untitled.title, "y");
    assert!(untitled.id.is_none());
}
