use zotero_cli::catalog::{
    default_library, get_collection, get_search, item_file, list_collections, local_api_scope,
    python_slice_to_limit, resolve_collection, resolve_library_id,
};
use zotero_cli::db::{Collection, Item, Library, SavedSearch};

#[test]
fn python_slice_to_limit_matches_python_list_slicing() {
    let cases: &[(Vec<i32>, i64, Vec<i32>)] = &[
        (vec![1, 2, 3, 4, 5], 3, vec![1, 2, 3]),
        (vec![1, 2, 3, 4, 5], 10, vec![1, 2, 3, 4, 5]),
        (vec![1, 2, 3, 4, 5], 0, vec![]),
        (vec![1, 2, 3, 4, 5], -2, vec![1, 2, 3]),
        (vec![1, 2, 3, 4, 5], -10, vec![]),
        (vec![], 5, vec![]),
    ];
    for (input, limit, expected) in cases {
        let mut items = input.clone();
        python_slice_to_limit(&mut items, *limit);
        assert_eq!(&items, expected, "limit={limit} input={input:?}");
    }
}

fn library(id: i64, kind: &str) -> Library {
    Library {
        library_id: id,
        kind: kind.to_string(),
        editable: 1,
        files_editable: 1,
        version: 0,
        storage_version: 0,
        last_sync: None,
        archived: 0,
    }
}

fn collection(id: i64, key: &str, name: &str, library_id: i64) -> Collection {
    Collection {
        collection_id: id,
        key: key.to_string(),
        collection_name: name.to_string(),
        parent_collection_id: None,
        library_id,
        version: 0,
        item_count: 0,
    }
}

fn search(id: i64, key: &str, library_id: i64) -> SavedSearch {
    SavedSearch {
        saved_search_id: id,
        saved_search_name: format!("Search {id}"),
        client_date_modified: String::new(),
        library_id,
        key: key.to_string(),
        version: 0,
        conditions: Vec::new(),
    }
}

#[test]
fn resolve_library_id_accepts_l_prefix_and_reports_missing_libraries() {
    let libs = vec![library(1, "user"), library(2, "group")];
    assert_eq!(resolve_library_id(&libs, None).unwrap(), None);
    assert_eq!(resolve_library_id(&libs, Some("L2")).unwrap(), Some(2));
    assert_eq!(resolve_library_id(&libs, Some(" 1 ")).unwrap(), Some(1));
    let err = resolve_library_id(&libs, Some("9")).unwrap_err();
    assert_eq!(err.0, "Library not found: 9");
    let err = resolve_library_id(&libs, Some("xyz")).unwrap_err();
    assert_eq!(err.0, "Unsupported library reference: xyz");
}

#[test]
fn default_library_prefers_the_session_then_the_user_library() {
    let libs = vec![library(3, "group"), library(1, "user")];
    assert_eq!(default_library(&libs, None).unwrap(), 1);
    assert_eq!(default_library(&libs, Some("3")).unwrap(), 3);
    let none: Vec<Library> = Vec::new();
    assert_eq!(
        default_library(&none, None).unwrap_err().0,
        "No Zotero libraries found in the local database"
    );
}

#[test]
fn local_api_scope_by_library_kind() {
    let libs = vec![library(1, "user"), library(5, "group"), library(7, "feed")];
    assert_eq!(local_api_scope(&libs, 1).unwrap(), "/api/users/0");
    assert_eq!(local_api_scope(&libs, 5).unwrap(), "/api/groups/5");
    assert_eq!(
        local_api_scope(&libs, 7).unwrap_err().0,
        "Unsupported library type for Zotero Local API: feed"
    );
    assert_eq!(local_api_scope(&libs, 8).unwrap_err().0, "Library not found: 8");
}

#[test]
fn list_collections_keeps_only_the_current_library_in_order() {
    let libs = vec![library(1, "user"), library(2, "group")];
    let cs = vec![
        collection(10, "AAAAAAAA", "Alpha", 1),
        collection(11, "BBBBBBBB", "Beta", 2),
        collection(12, "CCCCCCCC", "Gamma", 1),
    ];
    let listed = list_collections(cs, &libs, None).unwrap();
    let ids: Vec<i64> = listed.iter().map(|c| c.collection_id).collect();
    assert_eq!(ids, vec![10, 12]);
}

#[test]
fn resolve_collection_by_id_key_and_ambiguity() {
    let cs = || {
        vec![
            collection(10, "SAMEKEY1", "A", 1),
            collection(20, "SAMEKEY1", "B", 2),
            collection(30, "OTHERKEY", "C", 2),
        ]
    };
    assert_eq!(resolve_collection(cs(), "20", None).unwrap().unwrap().collection_id, 20);
    assert_eq!(resolve_collection(cs(), "OTHERKEY", None).unwrap().unwrap().collection_id, 30);
    assert_eq!(resolve_collection(cs(), "SAMEKEY1", Some(2)).unwrap().unwrap().collection_id, 20);
    assert!(resolve_collection(cs(), "MISSING1", None).unwrap().is_none());
    let err = resolve_collection(cs(), "SAMEKEY1", None).unwrap_err();
    assert_eq!(
        err.0,
        "Ambiguous collection reference: SAMEKEY1. Matches found in L1, L2. Set the library with `session use-library <id>` and retry."
    );
}

#[test]
fn get_collection_falls_back_to_the_session_collection() {
    let libs = vec![library(1, "user")];
    let cs = || vec![collection(10, "AAAAAAAA", "Alpha", 1)];
    let c = get_collection(cs(), &libs, None, Some("AAAAAAAA"), None).unwrap();
    assert_eq!(c.collection_id, 10);
    let err = get_collection(cs(), &libs, None, None, None).unwrap_err();
    assert_eq!(err.0, "Collection reference required or set it in session first");
    let err = get_collection(cs(), &libs, Some("ZZZZZZZZ"), None, None).unwrap_err();
    assert_eq!(err.0, "Collection not found: ZZZZZZZZ");
}

#[test]
fn get_search_resolves_within_the_session_library() {
    let libs = vec![library(1, "user"), library(2, "group")];
    let ss = || vec![search(1, "SRCHKEY1", 1), search(2, "SRCHKEY1", 2)];
    assert_eq!(get_search(ss(), &libs, Some("SRCHKEY1"), Some("2")).unwrap().saved_search_id, 2);
    assert_eq!(get_search(ss(), &libs, None, None).unwrap_err().0, "Search reference required");
    assert_eq!(
        get_search(ss(), &libs, Some("NOPE0000"), None).unwrap_err().0,
        "Saved search not found: NOPE0000"
    );
    assert!(get_search(ss(), &libs, Some("SRCHKEY1"), None)
        .unwrap_err()
        .0
        .starts_with("Ambiguous saved search reference: SRCHKEY1."));
}

fn item(id: i64, key: &str, type_label: &str, path: Option<&str>) -> Item {
    Item {
        item_id: id,
        key: key.to_string(),
        library_id: 1,
        item_type_id: 1,
        type_label: type_label.to_string(),
        date_added: String::new(),
        date_modified: String::new(),
        version: 0,
        title: format!("Title {id}"),
        doi: String::new(),
        date: None,
        has_pdf: false,
        note_parent_item_id: None,
        note_content: None,
        attachment_parent_item_id: None,
        annotation_parent_item_id: None,
        annotation_text: None,
        annotation_comment: None,
        link_mode: None,
        content_type: Some("application/pdf".to_string()),
        attachment_path: path.map(str::to_string),
        fields: Vec::new(),
        creators: Vec::new(),
        tags: Vec::new(),
        is_attachment: type_label == "attachment",
        is_note: false,
        is_annotation: false,
        parent_item_id: None,
        note_text: String::new(),
        note_preview: String::new(),
    }
}

#[test]
fn item_file_uses_the_first_attachment_of_a_regular_item() {
    let parent = item(1, "PARENT01", "journalArticle", None);
    let att = item(2, "ATTACH01", "attachment", Some("storage:paper.pdf"));
    let f = item_file(parent, vec![att], "/data").unwrap();
    assert_eq!(f.item_id, 2);
    assert_eq!(f.key, "ATTACH01");
    assert_eq!(f.path.as_deref(), Some("storage:paper.pdf"));
    assert_eq!(f.resolved_path.as_deref(), Some("/data/storage/ATTACH01/paper.pdf"));
    assert!(!f.exists);
    let lonely = item(3, "LONELY01", "book", None);
    assert_eq!(
        item_file(lonely, Vec::new(), "/data").unwrap_err().0,
        "No attachment file found for item: LONELY01"
    );
}

#[test]
fn required_collection_ref_needs_a_reference_or_a_session_collection() {
    let e = zotero_cli::catalog::required_collection_ref(None, None).unwrap_err();
    assert_eq!(e.0, "Collection reference required or set it in session first");
    assert_eq!(zotero_cli::catalog::required_collection_ref(None, Some("S")).unwrap(), "S");
    assert_eq!(zotero_cli::catalog::required_collection_ref(Some("R"), Some("S")).unwrap(), "R");
}
