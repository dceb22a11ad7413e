use zotero_cli::audit_tail::{tail_lines, tail_record};
use zotero_cli::json::Json;

#[test]
fn tail_lines_keeps_the_last_nonblank_lines_trimmed() {
    assert_eq!(tail_lines("a\n\n b \r\nc\n", 3), vec!["b".to_string(), "c".to_string()]);
    assert_eq!(tail_lines("a\nb\n", 0), vec!["b".to_string()]);
    assert!(tail_lines("", 5).is_empty());
}

#[test]
fn tail_record_marks_a_line_that_is_not_json() {
    let r = tail_record("oops", Err("expected value".to_string()));
    assert_eq!(r.get("raw").and_then(|v| v.as_str()), Some("oops"));
    assert_eq!(r.get("ok").and_then(|v| v.as_bool()), Some(false));
    assert_eq!(r.get("error").and_then(|v| v.as_str()), Some("invalid json line"));
    let ok = tail_record("{}", Ok(Json::Object(vec![])));
    assert!(matches!(ok, Json::Object(ref m) if m.is_empty()));
}

#[test]
fn audit_dir_setting_is_trimmed_or_defaulted() {
    assert_eq!(zotero_cli::audit::audit_dir_setting(Some("  /tmp/audit ")), "/tmp/audit");
    assert_eq!(zotero_cli::audit::audit_dir_setting(Some("   ")), "~/.local/share/cli-anything-zotero");
    assert_eq!(zotero_cli::audit::audit_dir_setting(None), "~/.local/share/cli-anything-zotero");
}
