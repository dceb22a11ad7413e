use zotero_cli::xml::XmlNode;
use zotero_cli::xml_read::{parse_xml, read_xml_events, serialize_xml, style_from_bytes};
use zotero_cli::xml_events::XmlEvent;

#[test]
fn parse_xml_builds_the_tree_from_bytes() {
    let root = parse_xml(b"<?xml version=\"1.0\"?><a x=\"1\">hi<b/><!--c--></a>").unwrap();
    assert_eq!(root.name, "a");
    assert_eq!(root.attributes, vec![("x".to_string(), "1".to_string())]);
    assert_eq!(root.children.len(), 3);
    assert!(matches!(&root.children[0], XmlNode::Text(t) if t == "hi"));
    assert!(matches!(&root.children[1], XmlNode::Element(e) if e.name == "b"));
    assert!(matches!(&root.children[2], XmlNode::Comment(t) if t == "c"));
}

#[test]
fn parse_xml_reports_a_document_without_elements() {
    assert!(parse_xml(b"").is_err());
    assert!(parse_xml(b"<a><b></a>").is_err());
}

#[test]
fn read_xml_events_keeps_entity_references_as_text() {
    let evs = read_xml_events(b"<a>x&amp;y</a>", false).unwrap();
    let texts: Vec<String> = evs
        .iter()
        .filter_map(|e| match e {
            XmlEvent::Text(t) => Some(t.clone()),
            _ => None,
        })
        .collect();
    assert_eq!(texts.concat(), "x&amp;y");
}

#[test]
fn serialize_xml_writes_back_what_was_read() {
    let text = b"<a x=\"1\">hi<b/><![CDATA[z]]></a>";
    let root = parse_xml(text).unwrap();
    let out = serialize_xml(&root, false).unwrap();
    assert_eq!(out, text.to_vec());
    let with_decl = serialize_xml(&root, true).unwrap();
    let decl = b"<?xml version=\"1.0\" encoding=\"UTF-8\" standalone=\"yes\"?>";
    assert!(with_decl.starts_with(decl));
    assert_eq!(&with_decl[decl.len()..], &text[..]);
}

#[test]
fn style_from_bytes_reads_id_and_title() {
    let csl = b"<style><info><title> APA </title><id>http://x/apa</id></info></style>";
    let st = style_from_bytes("/s/apa.csl", "apa", csl);
    assert!(st.valid);
    assert_eq!(st.title, "APA");
    assert_eq!(st.id.as_deref(), Some("http://x/apa"));
    let bad = style_from_bytes("/s/bad.csl", "bad", b"<style><info></style>");
    assert!(!bad.valid);
    assert_eq!(bad.title, "bad");
    assert_eq!(bad.id, None);
}

#[test]
fn find_first_mut_changes_the_first_match_in_place() {
    let mut root = parse_xml(b"<w:document><w:body><w:p/></w:body><w:body/></w:document>").unwrap();
    {
        let body = root.find_first_mut("w:body").unwrap();
        assert_eq!(body.children.len(), 1);
        body.children.clear();
    }
    assert!(matches!(&root.children[0], XmlNode::Element(e) if e.name == "w:body" && e.children.is_empty()));
    assert!(root.find_first_mut("w:missing").is_none());
}
