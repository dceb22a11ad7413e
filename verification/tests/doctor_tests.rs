use zotero_cli::bridge::{BridgeProbe, BridgeResponse};
use zotero_cli::doctor::{doctor_needs_eval, plugin_version_warning, run_doctor, DoctorFacts};
use zotero_cli::json::{obj_insert, Json};

fn facts() -> DoctorFacts {
    DoctorFacts {
        package_version: "0.1.0".to_string(),
        zotero_version: "7.0.11".to_string(),
        executable: Some("/usr/bin/zotero".to_string()),
        data_dir: "/home/u/Zotero".to_string(),
        profile_dir: Some("/home/u/.zotero".to_string()),
        connector_available: true,
        connector_message: "ok".to_string(),
        local_api_available: true,
        local_api_message: "ok".to_string(),
        local_api_configured: true,
        local_api_writes_available: false,
        zotero_http_responding: true,
        port: 23119,
        xpi_path: Some("/home/u/.zotero/extensions/x.xpi".to_string()),
        staged_xpi: None,
        installed: true,
        installed_version: Some("1.0".to_string()),
        bundled_version: Some("1.0".to_string()),
        sqlite_path_empty: false,
        probe: BridgeProbe::Owned,
    }
}

fn eval_answer() -> BridgeResponse {
    let mut m = Vec::new();
    obj_insert(&mut m, "ok".to_string(), Json::Bool(true));
    obj_insert(&mut m, "value".to_string(), Json::Str("cli-bridge-ok".to_string()));
    obj_insert(&mut m, "version".to_string(), Json::Str("7.0.11".to_string()));
    BridgeResponse::success(Json::Object(m))
}

fn steps(report: &Json) -> Vec<String> {
    report
        .get("next_steps")
        .unwrap()
        .as_array()
        .unwrap()
        .iter()
        .map(|s| s.as_str().unwrap().to_string())
        .collect()
}

#[test]
fn a_healthy_install_is_ready() {
    let f = facts();
    assert!(doctor_needs_eval(&f.probe));
    let r = run_doctor(&f, &Some(eval_answer()));
    assert_eq!(r.get("ready").unwrap().as_bool(), Some(true));
    assert_eq!(r.get("status").unwrap().as_str(), Some("ready"));
    assert_eq!(r.get("write_ready").unwrap().as_bool(), Some(true));
    let bridge = r.get("checks").unwrap().get("bridge").unwrap();
    assert_eq!(bridge.get("state").unwrap().as_str(), Some("healthy"));
    assert_eq!(bridge.get("zotero_js_version").unwrap().as_str(), Some("7.0.11"));
    assert_eq!(bridge.get("port").unwrap().as_i64(), Some(23119));
    assert_eq!(steps(&r), vec!["CLI Bridge and local surfaces look healthy.".to_string()]);
}

#[test]
fn a_closed_zotero_is_told_apart_from_a_missing_plugin() {
    let mut f = facts();
    f.zotero_http_responding = false;
    f.local_api_available = false;
    f.connector_available = false;
    f.probe = BridgeProbe::Unreachable;
    assert!(!doctor_needs_eval(&f.probe));
    let r = run_doctor(&f, &None);
    assert_eq!(r.get("ok").unwrap().as_bool(), Some(false));
    assert_eq!(r.get("code").unwrap().as_str(), Some("DEGRADED"));
    let bridge = r.get("checks").unwrap().get("bridge").unwrap();
    assert_eq!(bridge.get("state").unwrap().as_str(), Some("installed_zotero_closed"));
    let s = steps(&r);
    assert_eq!(s.len(), 3);
    assert!(s[0].starts_with("Zotero is not running."));
    assert!(s[1].starts_with("The Local API is already enabled"));
    assert!(s[2].starts_with("CLI Bridge is installed but Zotero is not running."));
}

#[test]
fn a_staged_plugin_names_its_file() {
    let mut f = facts();
    f.installed = false;
    f.staged_xpi = Some("/tmp/stage/bridge.xpi".to_string());
    let r = run_doctor(&f, &Some(eval_answer()));
    let bridge = r.get("checks").unwrap().get("bridge").unwrap();
    assert_eq!(bridge.get("state").unwrap().as_str(), Some("staged_not_installed"));
    let s = steps(&r);
    assert!(s.last().unwrap().contains("select /tmp/stage/bridge.xpi"));
    assert_eq!(r.get("checks").unwrap().get("plugin").unwrap().get("ok").unwrap().as_bool(), Some(false));
}

#[test]
fn an_outdated_plugin_is_upgraded() {
    let mut f = facts();
    f.installed_version = Some("0.9".to_string());
    let r = run_doctor(&f, &Some(eval_answer()));
    assert_eq!(r.get("checks").unwrap().get("plugin").unwrap().get("update_available").unwrap().as_bool(), Some(true));
    assert_eq!(
        steps(&r),
        vec!["Upgrade CLI Bridge 0.9 \u{2192} 1.0: zotero-cli app install-plugin, then restart Zotero.".to_string()]
    );
    let w = plugin_version_warning(Some("0.9"), Some("1.0"), true).unwrap();
    assert_eq!(w.get("warning").unwrap().as_str(), Some("plugin_version_mismatch"));
    assert!(plugin_version_warning(Some("1.0"), Some("1.0"), true).is_none());
    let missing = plugin_version_warning(None, Some("1.0"), false).unwrap();
    assert_eq!(missing.get("warning").unwrap().as_str(), Some("plugin_missing"));
}

#[test]
fn a_foreign_endpoint_is_reported() {
    let mut f = facts();
    f.probe = BridgeProbe::Foreign;
    f.local_api_configured = false;
    f.local_api_available = false;
    f.local_api_writes_available = true;
    let r = run_doctor(&f, &None);
    let bridge = r.get("checks").unwrap().get("bridge").unwrap();
    assert_eq!(bridge.get("state").unwrap().as_str(), Some("ownership_invalid"));
    assert_eq!(r.get("write_ready").unwrap().as_bool(), Some(true));
    let s = steps(&r);
    assert!(s[0].starts_with("Enable the Local API in Zotero"));
    assert!(s[1].starts_with("Something is serving /cli-bridge/eval"));
}
