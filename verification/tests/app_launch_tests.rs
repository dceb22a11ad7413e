use zotero_cli::app_launch::{build_launch_command, macos_app_bundle};

#[test]
fn macos_with_resolvable_app_bundle_uses_open() {
    let executable = "/tmp/zotero-cli-app-launch-bundle-test/Zotero.app/Contents/MacOS/zotero";
    let bundle = "/tmp/zotero-cli-app-launch-bundle-test/Zotero.app";
    assert_eq!(macos_app_bundle(executable).as_deref(), Some(bundle));
    let command = build_launch_command(executable, true, true);
    assert_eq!(command.program, "open");
    assert_eq!(command.args, vec![bundle.to_string()]);
}

#[test]
fn macos_without_a_resolvable_bundle_falls_back_to_raw_executable() {
    let executable = "/tmp/zotero-cli-nonexistent-bundle-test/zotero";
    assert_eq!(macos_app_bundle(executable), None);
    let command = build_launch_command(executable, true, true);
    assert_eq!(command.program, executable);
    assert!(command.args.is_empty());
    let missing = build_launch_command("/tmp/x/Zotero.app/zotero", true, false);
    assert_eq!(missing.program, "/tmp/x/Zotero.app/zotero");
    assert!(missing.args.is_empty());
}

#[test]
fn non_macos_always_spawns_the_executable_directly() {
    let executable = "/tmp/zotero-cli-app-launch-nonmacos-test/Zotero.app/zotero";
    let command = build_launch_command(executable, false, true);
    assert_eq!(command.program, executable);
    assert!(command.args.is_empty());
}
