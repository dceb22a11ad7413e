use zotero_cli::bridge::BridgeProbe;
use zotero_cli::lifecycle::{
    after_launch, ensure_backend, ensure_bridge, env_flag_enabled, launch_timeout, remediation,
    Backend, EnsureStep,
};

#[test]
fn every_backend_has_a_distinct_label_and_remediation() {
    let backends = [
        Backend::Connector,
        Backend::LocalApi,
        Backend::LocalApiWrite,
        Backend::Bridge,
        Backend::Write,
    ];
    let labels: Vec<&str> = backends.iter().map(|b| b.label()).collect();
    let remediations: Vec<&str> = backends.iter().map(|b| remediation(*b)).collect();
    for list in [&labels, &remediations] {
        let mut sorted = list.clone();
        sorted.sort_unstable();
        sorted.dedup();
        assert_eq!(sorted.len(), list.len(), "capability messages must be distinct");
    }
}

#[test]
fn env_flag_treats_unset_empty_zero_and_false_as_disabled() {
    for (value, expected) in [
        ("", false),
        ("0", false),
        ("false", false),
        ("FALSE", false),
        ("1", true),
        ("true", true),
        ("yes", true),
    ] {
        assert_eq!(env_flag_enabled(Some(value)), expected, "value={value:?}");
    }
    assert!(!env_flag_enabled(None));
    assert!(!env_flag_enabled(Some("  False ")));
}

#[test]
fn launch_timeout_defaults_to_sixty_seconds() {
    assert_eq!(launch_timeout(None), 60);
    assert_eq!(launch_timeout(Some(" 5 ")), 5);
    assert_eq!(launch_timeout(Some("abc")), 60);
    assert_eq!(launch_timeout(Some("-1")), 60);
}

#[test]
fn ensure_backend_never_launches_a_second_zotero() {
    assert_eq!(ensure_backend(Backend::Bridge, true, false, true).unwrap(), EnsureStep::UseRunning);
    assert_eq!(ensure_backend(Backend::Bridge, false, true, false).unwrap(), EnsureStep::UseRunning);
    assert_eq!(ensure_backend(Backend::Bridge, false, false, false).unwrap(), EnsureStep::Launch);
    let err = ensure_backend(Backend::Connector, false, false, true).unwrap_err();
    assert_eq!(
        err.0,
        "Zotero connector is unavailable and Zotero does not appear to be running. Automatic launch is disabled (ZOTERO_CLI_NO_AUTOLAUNCH is set); start Zotero yourself, or run: zotero-cli app launch"
    );
}

#[test]
fn after_launch_reports_the_capability_and_its_remedy() {
    assert!(after_launch(Backend::LocalApi, true, 60).is_ok());
    let err = after_launch(Backend::Connector, false, 60).unwrap_err();
    assert_eq!(
        err.0,
        "Zotero was launched but Zotero connector did not become ready within 60s. Check that Zotero finished starting, then retry."
    );
}

#[test]
fn ensure_bridge_launches_only_when_nothing_answers() {
    assert!(!ensure_bridge(BridgeProbe::Owned));
    assert!(!ensure_bridge(BridgeProbe::Foreign));
    assert!(ensure_bridge(BridgeProbe::Unreachable));
}
