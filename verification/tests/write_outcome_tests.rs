use zotero_cli::bridge::BridgeResponse;
use zotero_cli::json::Json;
use zotero_cli::write_outcome::{map_object_outcome, map_text_outcome, WriteOutcome};

fn detail(o: WriteOutcome) -> String {
    match o {
        WriteOutcome::TransportError { detail } => detail,
        WriteOutcome::Applied { affected_key } => panic!("applied {affected_key}"),
    }
}

#[test]
fn map_text_outcome_applies_on_the_success_prefix() {
    let resp = BridgeResponse::success(Json::Str("UPDATED: ABC".to_string()));
    match map_text_outcome(&resp, "UPDATED", "ABC") {
        WriteOutcome::Applied { affected_key } => assert_eq!(affected_key, "ABC"),
        _ => panic!("expected applied"),
    }
}

#[test]
fn map_text_outcome_reports_errors_and_unrecognized_answers() {
    let err = BridgeResponse::success(Json::Str("ERROR: gone".to_string()));
    assert_eq!(detail(map_text_outcome(&err, "UPDATED", "ABC")), "ERROR: gone");
    let odd = BridgeResponse::success(Json::Str("huh".to_string()));
    assert_eq!(
        detail(map_text_outcome(&odd, "UPDATED", "ABC")),
        "bridge returned an unrecognized response (expected a \"UPDATED\" or \"ERROR:\" prefix): \"huh\""
    );
    let failed = BridgeResponse::failure("offline".to_string());
    assert_eq!(detail(map_text_outcome(&failed, "UPDATED", "ABC")), "offline");
}

fn object(members: Vec<(&str, Json)>) -> Json {
    Json::Object(members.into_iter().map(|(k, v)| (k.to_string(), v)).collect())
}

#[test]
fn map_object_outcome_applies_a_lone_nonempty_key() {
    let resp = BridgeResponse::success(object(vec![("key", Json::Str("ABC123".to_string()))]));
    match map_object_outcome(&resp) {
        WriteOutcome::Applied { affected_key } => assert_eq!(affected_key, "ABC123"),
        _ => panic!("expected applied"),
    }
    let err = BridgeResponse::success(object(vec![("error", Json::Str("no library".to_string()))]));
    assert_eq!(detail(map_object_outcome(&err)), "no library");
    let failed = BridgeResponse::failure("offline".to_string());
    assert_eq!(detail(map_object_outcome(&failed)), "offline");
}

#[test]
fn map_object_outcome_refuses_ambiguous_or_unrecognized_objects() {
    let both = BridgeResponse::success(object(vec![
        ("key", Json::Str("ABC123".to_string())),
        ("error", Json::Str("failed".to_string())),
    ]));
    assert_eq!(
        detail(map_object_outcome(&both)),
        "bridge returned both \"key\" and \"error\" (ambiguous/malformed): Object {\"error\": String(\"failed\"), \"key\": String(\"ABC123\")}"
    );
    let empty_key = BridgeResponse::success(object(vec![("key", Json::Str(String::new()))]));
    assert_eq!(
        detail(map_object_outcome(&empty_key)),
        "bridge returned an unrecognized response (expected a non-empty \"key\" or \"error\"): Object {\"key\": String(\"\")}"
    );
}
