use zotero_cli::bridge::{
    classify_bridge_payload_with_options, format_bridge_error, render, BridgeResponse,
};
use zotero_cli::csl::{csl_item_to_connector, is_truthy, issued_to_date, looks_like_csl_item};
use zotero_cli::json::{json_equal, obj_insert, to_json_string, Json};
use zotero_cli::results::{
    compute_tag_array, diff_requested_fields, exit_code_for, extract_string_array,
    is_live_object_absent, parse_live_object, render_write_result, unwrap_transport_envelope,
    CanonicalWriteView,
};

fn s(x: &str) -> Json {
    Json::Str(x.to_string())
}

fn n(x: i64) -> Json {
    Json::Number(x.to_string())
}

fn members(pairs: Vec<(&str, Json)>) -> Vec<(String, Json)> {
    let mut m = Vec::new();
    for (k, v) in pairs {
        obj_insert(&mut m, k.to_string(), v);
    }
    m
}

fn obj(pairs: Vec<(&str, Json)>) -> Json {
    Json::Object(members(pairs))
}

#[test]
fn exit_code_for_maps_ok_false_to_one() {
    let payload = obj(vec![("ok", Json::Bool(false)), ("status", s("error"))]);
    assert_eq!(exit_code_for(&payload), 1);
}

#[test]
fn exit_code_for_maps_partial_success_to_one_even_when_ok_true() {
    let payload = obj(vec![("ok", Json::Bool(true)), ("status", s("partial_success"))]);
    assert_eq!(exit_code_for(&payload), 1);
}

#[test]
fn exit_code_for_maps_success_to_zero() {
    let payload = obj(vec![("ok", Json::Bool(true)), ("status", s("success"))]);
    assert_eq!(exit_code_for(&payload), 0);
}

#[test]
fn exit_code_for_treats_a_missing_ok_key_as_not_false() {
    let payload = obj(vec![("status", s("success"))]);
    assert_eq!(exit_code_for(&payload), 0);
}

#[test]
fn exit_code_for_treats_a_missing_status_as_success() {
    let payload = obj(vec![("ok", Json::Bool(true))]);
    assert_eq!(exit_code_for(&payload), 0);
}

#[test]
fn unwrap_transport_envelope_passes_through_a_transport_failure() {
    let result = obj(vec![("ok", Json::Bool(false)), ("data", Json::Null), ("error", s("boom"))]);
    let (payload, code) = unwrap_transport_envelope(result.deep_clone(), true);
    assert_eq!(payload, result);
    assert_eq!(code, 1);
}

#[test]
fn unwrap_transport_envelope_unwraps_data_on_success() {
    let result = obj(vec![
        ("ok", Json::Bool(true)),
        ("data", obj(vec![("checked", n(3))])),
        ("error", Json::Null),
    ]);
    let (payload, code) = unwrap_transport_envelope(result, true);
    assert_eq!(payload, obj(vec![("checked", n(3))]));
    assert_eq!(code, 0);
}

#[test]
fn unwrap_transport_envelope_treats_a_nested_ok_false_data_object_as_failure() {
    let result = obj(vec![
        ("ok", Json::Bool(true)),
        ("data", obj(vec![("ok", Json::Bool(false)), ("error", s("nested"))])),
    ]);
    let (payload, code) = unwrap_transport_envelope(result, false);
    assert_eq!(payload, obj(vec![("ok", Json::Bool(false)), ("error", s("nested"))]));
    assert_eq!(code, 1);
}

#[test]
fn unwrap_transport_envelope_require_data_rejects_a_null_data_success() {
    let result = obj(vec![("ok", Json::Bool(true)), ("data", Json::Null)]);
    let (payload, code) = unwrap_transport_envelope(result, true);
    assert_eq!(payload.get("code"), Some(&s("EMPTY_RESULT")));
    assert_eq!(code, 1);
}

#[test]
fn is_live_object_absent_recognizes_the_not_found_envelope() {
    assert!(is_live_object_absent(&obj(vec![("found", Json::Bool(false))])));
    assert!(!is_live_object_absent(&obj(vec![("found", Json::Bool(true)), ("key", s("X"))])));
}

#[test]
fn parse_live_object_extracts_the_canonical_view() {
    let raw = obj(vec![
        ("found", Json::Bool(true)),
        ("key", s("ITEM0001")),
        ("libraryID", n(1)),
        ("data", obj(vec![("itemType", s("document")), ("title", s("X"))])),
    ]);
    let view = parse_live_object(&raw, "item").unwrap();
    assert_eq!(view.key, "ITEM0001");
    assert_eq!(view.library_id, 1);
    assert_eq!(view.item_type, "document");
}

#[test]
fn parse_live_object_errors_when_absent() {
    let raw = obj(vec![("found", Json::Bool(false))]);
    let err = parse_live_object(&raw, "item").unwrap_err();
    assert_eq!(err.0, "item was not found via the live Zotero-runtime readback");
}

#[test]
fn render_write_result_never_includes_a_version_key() {
    let view = CanonicalWriteView {
        key: "ITEM0001".to_string(),
        library_id: 1,
        item_type: "document".to_string(),
        data: Vec::new(),
    };
    let rendered = render_write_result(&view, &Vec::new());
    assert!(rendered.get("version").is_none());
    assert_eq!(rendered.get("outcome"), Some(&s("applied")));
    assert_eq!(
        to_json_string(&rendered),
        r#"{"data":{},"item_type":"document","key":"ITEM0001","library_id":1,"outcome":"applied"}"#
    );
}

#[test]
fn diff_requested_fields_reports_only_mismatching_fields() {
    let requested = members(vec![("title", s("New Title")), ("date", s("2026"))]);
    let observed = members(vec![("title", s("New Title")), ("date", s("2020"))]);
    let mismatches = diff_requested_fields(&requested, &observed);
    assert_eq!(mismatches.len(), 1);
    assert_eq!(mismatches[0].field, "date");
    assert_eq!(mismatches[0].requested, s("2026"));
    assert_eq!(mismatches[0].observed, Some(s("2020")));
}

#[test]
fn diff_requested_fields_reports_a_missing_field_as_none_observed() {
    let requested = members(vec![("title", s("X"))]);
    let observed = members(vec![]);
    let mismatches = diff_requested_fields(&requested, &observed);
    assert_eq!(mismatches.len(), 1);
    assert_eq!(mismatches[0].observed, None);
}

#[test]
fn compute_tag_array_add_preserves_unrelated_existing_tags() {
    let current = Json::Array(vec![
        obj(vec![("tag", s("existing"))]),
        obj(vec![("tag", s("automatic")), ("type", n(1))]),
    ]);
    let result = compute_tag_array(&current, &vec!["new-tag".to_string()], &vec![]);
    assert_eq!(
        result,
        vec![
            obj(vec![("tag", s("existing"))]),
            obj(vec![("tag", s("automatic")), ("type", n(1))]),
            obj(vec![("tag", s("new-tag"))]),
        ]
    );
}

#[test]
fn compute_tag_array_remove_only_removes_the_named_tags() {
    let current = Json::Array(vec![
        obj(vec![("tag", s("keep-me"))]),
        obj(vec![("tag", s("remove-me"))]),
        obj(vec![("tag", s("also-keep")), ("type", n(1))]),
    ]);
    let result = compute_tag_array(&current, &vec![], &vec!["remove-me".to_string()]);
    assert_eq!(
        result,
        vec![
            obj(vec![("tag", s("keep-me"))]),
            obj(vec![("tag", s("also-keep")), ("type", n(1))]),
        ]
    );
}

#[test]
fn compute_tag_array_add_does_not_duplicate_an_existing_tag() {
    let current = Json::Array(vec![obj(vec![("tag", s("dup"))])]);
    let result = compute_tag_array(&current, &vec!["dup".to_string()], &vec![]);
    assert_eq!(result, vec![obj(vec![("tag", s("dup"))])]);
}

#[test]
fn extract_string_array_reads_a_plain_string_array_field() {
    let data = members(vec![("collections", Json::Array(vec![s("AAA"), s("BBB")]))]);
    assert_eq!(
        extract_string_array(&data, "collections"),
        vec!["AAA".to_string(), "BBB".to_string()]
    );
}

#[test]
fn extract_string_array_defaults_to_empty_when_field_missing() {
    let data = members(vec![]);
    assert_eq!(extract_string_array(&data, "collections"), Vec::<String>::new());
}

#[test]
fn object_insert_keeps_keys_sorted_and_replaces() {
    let mut m = Vec::new();
    obj_insert(&mut m, "b".to_string(), n(1));
    obj_insert(&mut m, "a".to_string(), n(2));
    obj_insert(&mut m, "b".to_string(), n(3));
    let keys: Vec<&str> = m.iter().map(|(k, _)| k.as_str()).collect();
    assert_eq!(keys, vec!["a", "b"]);
    let o = Json::Object(m);
    assert_eq!(o.get("b"), Some(&n(3)));
    assert!(json_equal(&o, &obj(vec![("a", n(2)), ("b", n(3))])));
}

#[test]
fn json_text_escapes_quotes_backslashes_and_controls() {
    let v = obj(vec![("k", s("a\"b\\c\n\u{1}é"))]);
    assert_eq!(to_json_string(&v), "{\"k\":\"a\\\"b\\\\c\\n\\u0001é\"}");
    assert_eq!(to_json_string(&Json::Array(vec![Json::Null, Json::Bool(true), n(-4)])), "[null,true,-4]");
}

#[test]
fn render_binds_parameters_through_json_parse() {
    let params = obj(vec![("key", s("AB\"C")), ("libraryID", n(1))]);
    assert_eq!(
        render("return P.key;", &params),
        "const P = JSON.parse(\"{\\\"key\\\":\\\"AB\\\\\\\"C\\\",\\\"libraryID\\\":1}\");\nreturn P.key;"
    );
}

#[test]
fn format_bridge_error_prefers_the_named_fields() {
    assert_eq!(format_bridge_error(&Json::Null), "unknown bridge error");
    assert_eq!(format_bridge_error(&s("  boom ")), "boom");
    assert_eq!(format_bridge_error(&s("   ")), "unknown bridge error");
    assert_eq!(
        format_bridge_error(&obj(vec![("message", s(" bad ")), ("name", s("TypeError"))])),
        "bad"
    );
    assert_eq!(format_bridge_error(&obj(vec![("error", n(5))])), "5");
    assert_eq!(format_bridge_error(&obj(vec![])), "unknown bridge error");
    assert_eq!(format_bridge_error(&obj(vec![("other", n(1))])), "{\"other\":1}");
}

#[test]
fn classify_reports_transport_failures_with_their_details() {
    let mut failed = BridgeResponse::failure("boom".to_string());
    failed.error_name = Some("Error".to_string());
    let (payload, ok) = classify_bridge_payload_with_options(&failed, false);
    assert!(!ok);
    assert_eq!(
        to_json_string(&payload),
        "{\"data\":null,\"error\":\"boom\",\"error_name\":\"Error\",\"ok\":false}"
    );
    let empty = BridgeResponse::success(Json::Null);
    let (payload, ok) = classify_bridge_payload_with_options(&empty, true);
    assert!(!ok);
    assert_eq!(payload.get("code"), Some(&s("EMPTY_RESULT")));
    let nested = BridgeResponse::success(obj(vec![("ok", Json::Bool(false))]));
    let (_, ok) = classify_bridge_payload_with_options(&nested, false);
    assert!(!ok);
}

#[test]
fn require_data_surfaces_a_nested_error() {
    let r = BridgeResponse::success(obj(vec![("ok", Json::Bool(false)), ("error", s("nope"))]));
    assert_eq!(r.require_data().unwrap_err().0, "nope");
    let r = BridgeResponse::failure("down".to_string());
    assert_eq!(r.require_data().unwrap_err().0, "down");
    let r = BridgeResponse::success(s("OK: done"));
    assert_eq!(r.require_data().unwrap(), &s("OK: done"));
}

#[test]
fn csl_item_becomes_a_connector_item() {
    let item = members(vec![
        ("type", s("Article-Journal")),
        ("title", s("A study")),
        ("DOI", s("10.1/x")),
        ("page", n(12)),
        ("ISSN", Json::Array(vec![s("1234-5678"), s("8765-4321")])),
        ("issued", obj(vec![("date-parts", Json::Array(vec![Json::Array(vec![n(2020), n(5), Json::Null])]))])),
        (
            "author",
            Json::Array(vec![
                obj(vec![("given", s("Ada")), ("family", s("Lovelace"))]),
                obj(vec![("literal", s("ACME Lab"))]),
            ]),
        ),
        ("keyword", Json::Array(vec![s("math"), n(3)])),
    ]);
    let out = Json::Object(csl_item_to_connector(&item, 2));
    assert_eq!(
        to_json_string(&out),
        "{\"DOI\":\"10.1/x\",\"ISSN\":\"1234-5678,8765-4321\",\"creators\":[{\"creatorType\":\"author\",\"firstName\":\"Ada\",\"lastName\":\"Lovelace\"},{\"creatorType\":\"author\",\"name\":\"ACME Lab\"}],\"date\":\"2020-5\",\"id\":\"cli-anything-csl-2\",\"itemType\":\"journalArticle\",\"pages\":\"12\",\"tags\":[{\"tag\":\"math\"}],\"title\":\"A study\"}"
    );
}

#[test]
fn csl_helpers_follow_python_truthiness() {
    assert!(!is_truthy(None));
    assert!(!is_truthy(Some(&n(0))));
    assert!(!is_truthy(Some(&Json::Number("0.0".to_string()))));
    assert!(is_truthy(Some(&n(7))));
    assert!(!is_truthy(Some(&s(""))));
    assert_eq!(issued_to_date(Some(&obj(vec![("raw", s("spring 1999"))]))), "spring 1999");
    assert_eq!(issued_to_date(None), "");
    assert!(looks_like_csl_item(&obj(vec![("title", s("T")), ("author", Json::Array(vec![]))])));
    assert!(!looks_like_csl_item(&obj(vec![("itemType", s("book")), ("title", s("T"))])));
}
