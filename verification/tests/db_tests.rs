use zotero_cli::db::{
    build_collection_tree, is_numeric_ref, note_preview, resolve_attachment_real_path, Collection,
    NOTE_PREVIEW_LENGTH,
};

#[test]
fn is_numeric_ref_trims_whitespace_like_python_int_str() {
    assert!(is_numeric_ref(" 5 "));
    assert!(is_numeric_ref("5\t"));
    assert!(is_numeric_ref("5"));
    assert!(!is_numeric_ref("abc"));
    assert!(!is_numeric_ref(""));
}

#[test]
fn is_numeric_ref_rejects_i64_overflow() {
    assert!(!is_numeric_ref("99999999999999999999"));
}

#[test]
fn note_preview_truncates_at_160_chars_with_ellipsis() {
    let long = "a".repeat(200);
    let preview = note_preview(&long);
    assert_eq!(preview.chars().count(), NOTE_PREVIEW_LENGTH);
    assert!(preview.ends_with('\u{2026}'));
}

#[test]
fn note_preview_short_text_unchanged() {
    assert_eq!(note_preview("short"), "short");
}

#[test]
fn resolve_attachment_real_path_none_when_no_path() {
    assert_eq!(resolve_attachment_real_path(None, "KEY", "/data"), None);
    assert_eq!(resolve_attachment_real_path(Some(""), "KEY", "/data"), None);
}

#[test]
fn resolve_attachment_real_path_storage_prefix() {
    let resolved =
        resolve_attachment_real_path(Some("storage:paper.pdf"), "ATTACHKEY", "/data").unwrap();
    assert!(resolved.ends_with(&format!(
        "storage{}ATTACHKEY{}paper.pdf",
        std::path::MAIN_SEPARATOR,
        std::path::MAIN_SEPARATOR
    )));
}

#[test]
fn resolve_attachment_real_path_file_uri_drive_letter() {
    let resolved = resolve_attachment_real_path(
        Some("file:///C:/Users/Public/linked.pdf"),
        "LINKATT1",
        "/data",
    )
    .unwrap();
    assert_eq!(resolved, r"C:\Users\Public\linked.pdf");
}

#[test]
fn resolve_attachment_real_path_file_uri_unc_host() {
    let resolved = resolve_attachment_real_path(
        Some("file://fileserver/share/paper.pdf"),
        "LINKATT2",
        "/data",
    )
    .unwrap();
    assert_eq!(resolved, r"\\fileserver\share\paper.pdf");
}

#[test]
fn resolve_attachment_real_path_file_uri_localhost_is_not_unc() {
    let resolved =
        resolve_attachment_real_path(Some("file://localhost/tmp/x.pdf"), "K", "/data").unwrap();
    assert_ne!(&resolved[..2], r"\\");
}

#[test]
fn resolve_attachment_real_path_file_uri_percent_decoded() {
    let resolved = resolve_attachment_real_path(
        Some("file:///tmp/my%20paper%20%28final%29.pdf"),
        "K",
        "/data",
    )
    .unwrap();
    assert!(resolved.contains("my paper (final).pdf"));
}

#[test]
fn resolve_attachment_real_path_absolute_bare_path_unchanged() {
    let abs = "/already/absolute.pdf";
    assert_eq!(
        resolve_attachment_real_path(Some(abs), "K", "/data").unwrap(),
        abs
    );
}

#[test]
fn resolve_attachment_real_path_relative_bare_path_joins_data_dir() {
    let resolved = resolve_attachment_real_path(Some("subdir/file.pdf"), "K", "/data").unwrap();
    assert!(resolved.ends_with(&format!("subdir{}file.pdf", std::path::MAIN_SEPARATOR)));
}

fn collection(id: i64, key: &str, name: &str, parent: Option<i64>) -> Collection {
    Collection {
        collection_id: id,
        key: key.into(),
        collection_name: name.into(),
        parent_collection_id: parent,
        library_id: 1,
        version: 1,
        item_count: 0,
    }
}

#[test]
fn build_collection_tree_orphan_parent_becomes_a_root() {
    let collections = vec![
        collection(1, "AAAAAAAA", "Root", None),
        collection(2, "BBBBBBBB", "Orphan", Some(999)),
    ];
    let tree = build_collection_tree(&collections);
    assert_eq!(tree.len(), 2, "orphan must become a second root, not vanish");
    assert!(tree
        .iter()
        .any(|n| n.collection_id == 2 && n.children.is_empty()));
}

#[test]
fn build_collection_tree_nests_a_real_child_under_its_parent() {
    let collections = vec![
        collection(1, "AAAAAAAA", "Root", None),
        collection(2, "BBBBBBBB", "Child", Some(1)),
    ];
    let tree = build_collection_tree(&collections);
    assert_eq!(tree.len(), 1);
    assert_eq!(tree[0].children.len(), 1);
    assert_eq!(tree[0].children[0].collection_id, 2);
}

#[test]
fn note_html_to_text_empty_and_none_are_empty_string() {
    assert_eq!(zotero_cli::db::note_html_to_text(None), "");
    assert_eq!(zotero_cli::db::note_html_to_text(Some("")), "");
}

#[test]
fn note_html_to_text_converts_br_p_div_and_strips_tags() {
    let html = "<p>Hello<br>world</p><div>Next</div>";
    assert_eq!(zotero_cli::db::note_html_to_text(Some(html)), "Hello\nworld\n\nNext");
}

#[test]
fn note_html_to_text_decodes_entities_and_squeezes_blank_lines() {
    assert_eq!(zotero_cli::db::note_html_to_text(Some("a &amp; b<br/><br/><br/><br/>c\r\nd")), "a & b\n\nc\nd");
}

#[test]
fn normalize_item_derives_kind_parent_and_note_text() {
    let row = zotero_cli::db::ItemRow {
        item_id: 9,
        key: "NOTE0001".to_string(),
        library_id: 1,
        item_type_id: 28,
        type_label: "note".to_string(),
        date_added: "d".to_string(),
        date_modified: "m".to_string(),
        version: 2,
        title: "".to_string(),
        doi: None,
        date: None,
        has_pdf: 0,
        note_parent_item_id: Some(4),
        note_content: Some("<p>Hi</p>".to_string()),
        attachment_parent_item_id: None,
        annotation_parent_item_id: Some(5),
        annotation_text: None,
        annotation_comment: None,
        link_mode: None,
        content_type: None,
        attachment_path: None,
    };
    let it = zotero_cli::db::normalize_item(row, Vec::new(), Vec::new(), Vec::new());
    assert!(it.is_note && !it.is_attachment && !it.is_annotation);
    assert_eq!(it.parent_item_id, Some(4));
    assert_eq!(it.doi, "");
    assert_eq!(it.note_text, "Hi");
    assert_eq!(it.note_preview, "Hi");
    assert!(!it.has_pdf);
}

#[test]
fn norm_doi_strips_trailing_whitespace_and_punctuation() {
    assert_eq!(zotero_cli::hygiene::norm_doi("https://doi.org/10.1000/X\t."), "10.1000/x");
    assert_eq!(zotero_cli::hygiene::norm_doi("doi: 10.1/AB);, "), "10.1/ab");
}

#[test]
fn percent_decoding_reads_hex_pairs_as_from_str_radix_does() {
    assert_eq!(zotero_cli::db::percent_decode("a%41b"), "aAb");
    assert_eq!(zotero_cli::db::percent_decode("a%+5b"), "a\u{5}b");
    assert_eq!(zotero_cli::db::percent_decode("a%zzb"), "a%zzb");
    assert_eq!(zotero_cli::db::percent_decode("100%"), "100%");
}
