use zotero_cli::credentials::{
    check_schema, invalidate_stored, resolve_credential, store_credential, CredentialFile,
    CredentialFileState, CredentialSource, LocalApiCredential,
};

fn sample_credential(app_name: &str) -> LocalApiCredential {
    LocalApiCredential {
        app_name: app_name.to_string(),
        key: "test-secret-key-value".to_string(),
        remember: true,
        issued_at: "2026-08-29T00:00:00Z".to_string(),
    }
}

#[test]
fn debug_impl_never_exposes_the_raw_key() {
    let credential = sample_credential("app-a");
    let debug_output = credential.redacted_debug();
    assert!(
        !debug_output.contains("test-secret-key-value"),
        "Debug output must never contain the raw key: {debug_output}"
    );
    assert!(debug_output.contains("redacted"));
    assert_eq!(
        debug_output,
        "LocalApiCredential { app_name: \"app-a\", key: \"<redacted, 21 bytes>\", remember: true, issued_at: \"2026-08-29T00:00:00Z\" }"
    );
}

#[test]
fn store_then_invalidate_leaves_other_servers_alone() {
    let file = store_credential(CredentialFileState::Missing, "server-a", sample_credential("app-a"));
    assert_eq!(file.version, 1);
    let file = store_credential(CredentialFileState::Loaded(file), "server-b", sample_credential("app-b"));
    let file = store_credential(CredentialFileState::Loaded(file), "server-a", sample_credential("app-a2"));
    assert_eq!(file.credentials.len(), 2);
    let file = invalidate_stored(CredentialFileState::Loaded(file), "server-a").unwrap();
    assert_eq!(file.credentials.len(), 1);
    assert_eq!(file.credentials[0].0, "server-b");
    assert_eq!(file.credentials[0].1.app_name, "app-b");
    assert!(invalidate_stored(CredentialFileState::Loaded(file), "server-a").is_none());
    assert!(invalidate_stored(CredentialFileState::Missing, "server-a").is_none());
}

#[test]
fn env_credential_takes_priority_over_a_stored_one() {
    let file = store_credential(CredentialFileState::Missing, "server-a", sample_credential("app-a"));
    let (cred, source) =
        resolve_credential(Some("  env-key  "), Some(CredentialFileState::Loaded(file)), "server-a");
    assert_eq!(source, CredentialSource::Environment);
    let cred = cred.unwrap();
    assert_eq!(cred.key, "env-key");
    assert_eq!(cred.app_name, "zotero-rust-cli");

    let file = store_credential(CredentialFileState::Missing, "server-a", sample_credential("app-a"));
    let (cred, source) = resolve_credential(Some("   "), Some(CredentialFileState::Loaded(file)), "server-a");
    assert_eq!(source, CredentialSource::Store);
    assert_eq!(cred.unwrap().app_name, "app-a");

    let (cred, source) = resolve_credential(None, None, "server-a");
    assert_eq!(source, CredentialSource::NotFound);
    assert!(cred.is_none());
}

#[test]
fn schema_version_other_than_one_is_refused() {
    let file = CredentialFile { version: 2, credentials: Vec::new() };
    match check_schema(file, "/tmp/creds.json") {
        Err(m) => assert_eq!(
            m,
            "credential store at /tmp/creds.json has unsupported schema version 2 (this build understands version 1) and will not be overwritten"
        ),
        Ok(_) => panic!("version 2 must be refused"),
    }
}

#[test]
fn credential_file_state_fails_closed_on_a_malformed_store() {
    let p = "/s/credentials.json";
    let missing = zotero_cli::credentials::credential_file_state(p, None, Err("unused".to_string()));
    assert!(matches!(missing, Ok(CredentialFileState::Missing)));
    let blank = zotero_cli::credentials::credential_file_state(p, Some("  \n"), Err("unused".to_string()));
    assert!(matches!(blank, Ok(CredentialFileState::Missing)));
    let bad = zotero_cli::credentials::credential_file_state(p, Some("{"), Err("EOF".to_string()));
    match bad {
        Err(m) => assert_eq!(m, "credential store at /s/credentials.json is malformed and will not be overwritten: EOF"),
        Ok(_) => panic!("expected an error"),
    }
    let old = CredentialFile { version: 7, credentials: vec![] };
    match zotero_cli::credentials::credential_file_state(p, Some("{}"), Ok(old)) {
        Err(m) => assert!(m.contains("unsupported schema version 7")),
        Ok(_) => panic!("expected an error"),
    }
    let good = CredentialFile { version: 1, credentials: vec![] };
    assert!(matches!(
        zotero_cli::credentials::credential_file_state(p, Some("{}"), Ok(good)),
        Ok(CredentialFileState::Loaded(_))
    ));
}
