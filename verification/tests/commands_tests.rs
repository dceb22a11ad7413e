use zotero_cli::commands::{
    compute_move_to_collection_set, difference_replace, library_id_u32, resolve_bool_flag,
    split_export_refs, union_replace,
};

#[test]
fn compute_move_to_collection_set_all_other_collections_leaves_only_the_target() {
    let current = vec!["EXISTC1".to_string(), "EXISTC2".to_string()];
    let result = compute_move_to_collection_set(&current, "TARGET1", &vec![], true);
    assert_eq!(result, vec!["TARGET1".to_string()]);
}

#[test]
fn compute_move_to_collection_set_from_removes_only_named_sources() {
    let current = vec!["EXISTC1".to_string(), "EXISTC2".to_string()];
    let result =
        compute_move_to_collection_set(&current, "TARGET1", &vec!["EXISTC1".to_string()], false);
    assert_eq!(result, vec!["EXISTC2".to_string(), "TARGET1".to_string()]);
}

#[test]
fn compute_move_to_collection_set_with_no_from_is_purely_additive() {
    let current = vec!["EXISTC1".to_string()];
    let result = compute_move_to_collection_set(&current, "TARGET1", &vec![], false);
    assert_eq!(result, vec!["EXISTC1".to_string(), "TARGET1".to_string()]);
}

#[test]
fn resolve_bool_flag_prefers_the_explicit_positive_flag() {
    assert!(resolve_bool_flag(true, false, false));
}

#[test]
fn resolve_bool_flag_prefers_the_explicit_negative_flag() {
    assert!(!resolve_bool_flag(false, true, true));
}

#[test]
fn resolve_bool_flag_falls_back_to_the_default_when_neither_flag_is_set() {
    assert!(resolve_bool_flag(false, false, true));
    assert!(!resolve_bool_flag(false, false, false));
}

#[test]
fn union_and_difference_replace_keep_order() {
    let list = vec!["A".to_string(), "B".to_string()];
    assert_eq!(
        union_replace(&list, &vec!["B".to_string(), "C".to_string(), "C".to_string()]),
        vec!["A".to_string(), "B".to_string(), "C".to_string()]
    );
    assert_eq!(difference_replace(&list, &vec!["A".to_string()]), vec!["B".to_string()]);
}

#[test]
fn split_export_refs_trims_and_requires_one_reference() {
    assert_eq!(
        split_export_refs(" AAAA1111 , ,12").unwrap(),
        vec!["AAAA1111".to_string(), "12".to_string()]
    );
    assert_eq!(
        split_export_refs(" , ").unwrap_err().0,
        "--items must contain at least one item key or ID."
    );
}

#[test]
fn library_id_u32_rejects_out_of_range_ids() {
    assert_eq!(library_id_u32(7).unwrap(), 7);
    assert_eq!(
        library_id_u32(-1).unwrap_err().0,
        "library id -1 is out of range for the JS Bridge"
    );
    assert!(library_id_u32(4_294_967_296).is_err());
}
