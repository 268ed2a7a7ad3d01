use dsh_desktop::core_compat::{
    CompatibilityRecord, CoreCompatibility, WebLaunchProtocol, TOKEN_COOKIE_OVERLAY,
};
use dsh_desktop::dsh_adapter::{DshAdapter, AUTHENTICATED_WEB_OVERLAY};

fn record(
    version: &str,
    protocol: WebLaunchProtocol,
    client_abi: &str,
    navigation: &str,
    archive: &str,
) -> CompatibilityRecord {
    CompatibilityRecord {
        core_version: version.to_string(),
        web_launch_protocol: protocol,
        client_abi: client_abi.to_string(),
        slot_protocol: "slots-v1".to_string(),
        workspace_navigation_protocol: navigation.to_string(),
        workspace_archive_protocol: archive.to_string(),
        session_format: "sessions-v1".to_string(),
        plugin_artifact_set: format!("dsh-v{version}"),
        supports_no_open: true,
        provides_win_terminal_inspector: false,
    }
}

fn records() -> Vec<CompatibilityRecord> {
    vec![
        record(
            "0.1.1-rc.2",
            WebLaunchProtocol::DirectLoopbackV1,
            "legacy-client",
            "legacy-navigation",
            "legacy-archive",
        ),
        record(
            "0.1.2-alpha.1",
            WebLaunchProtocol::TokenCookieV1,
            "split-client-v1",
            "ui-workspace-v1",
            "core-native-v1",
        ),
    ]
}

#[test]
fn resolves_only_exact_supported_versions() {
    let records = records();
    let rc2 = CoreCompatibility::resolve("0.1.1-rc.2", &records).unwrap();
    assert_eq!(rc2.plugin_artifact_set(), "dsh-v0.1.1-rc.2");
    assert!(!rc2.requires_authenticated_url());

    let alpha = CoreCompatibility::resolve("0.1.2-alpha.1", &records).unwrap();
    assert_eq!(alpha.plugin_artifact_set(), "dsh-v0.1.2-alpha.1");
    assert!(alpha.requires_authenticated_url());
    assert_eq!(alpha.capability_summary().client_abi, "split-client-v1");
    assert_eq!(
        alpha.capability_summary().workspace_navigation_protocol,
        "ui-workspace-v1"
    );
    assert_eq!(
        alpha.capability_summary().workspace_archive_protocol,
        "core-native-v1"
    );
    assert_eq!(alpha.capability_summary().web_launch_protocol, "token-cookie-v1");
    assert_eq!(alpha.capability_summary().core_version, "0.1.2-alpha.1");
    assert_eq!(alpha.version(), "0.1.2-alpha.1");
}

#[test]
fn rejects_unverified_neighbors_and_invalid_specs() {
    let records = records();
    for version in ["0.1.0-rc.8", "0.1.1-rc.1", "0.1.2-alpha.2", "0.1.3"] {
        let error = CoreCompatibility::resolve(version, &records).unwrap_err();
        assert!(error.contains("CORE_COMPATIBILITY_UNSUPPORTED_VERSION"));
    }
    assert!(CoreCompatibility::resolve("file:///dsh.tgz", &records).is_err());
}

#[test]
fn compatibility_errors_name_the_version_and_supported_list() {
    let records = records();
    assert_eq!(
        CoreCompatibility::resolve("0.1.3", &records).unwrap_err(),
        "CORE_COMPATIBILITY_UNSUPPORTED_VERSION: 0.1.3 has no tested compatibility record; supported: 0.1.1-rc.2, 0.1.2-alpha.1"
    );
    assert!(CoreCompatibility::resolve("file:///dsh.tgz", &records)
        .unwrap_err()
        .starts_with("CORE_COMPATIBILITY_INVALID_VERSION: cannot parse \"file:///dsh.tgz\": "));
}

#[test]
fn core_compatibility_launch_args_are_complete_and_version_owned() {
    let compatibility = CoreCompatibility::resolve("0.1.2-alpha.1", &records()).unwrap();
    let args = compatibility.launch_args(
        "C:/dsh/lib/bin.js",
        "product",
        3081,
        Some("C:/compat/token-cookie.cordis.yml"),
    );
    assert_eq!(
        args,
        vec![
            "C:/dsh/lib/bin.js",
            "--profile",
            "product",
            "--patch",
            "C:/compat/token-cookie.cordis.yml",
            "--host",
            "127.0.0.1",
            "--port",
            "3081",
            "--no-open",
        ]
    );
}

#[test]
fn webview_url_follows_the_launch_protocol() {
    let records = records();
    let rc2 = CoreCompatibility::resolve("0.1.1-rc.2", &records).unwrap();
    assert_eq!(
        rc2.webview_url("http://127.0.0.1:3080", None).as_deref(),
        Some("http://127.0.0.1:3080")
    );
    assert!(rc2.overlay().is_none());
    let alpha = CoreCompatibility::resolve("0.1.2-alpha.1", &records).unwrap();
    assert_eq!(alpha.webview_url("http://127.0.0.1:3080", None), None);
    assert_eq!(
        alpha.overlay(),
        Some(("web-launch-token-cookie-v1.cordis.yml", TOKEN_COOKIE_OVERLAY))
    );
}

#[test]
fn token_cookie_overlay_extends_the_authoritative_runtime_trust_list() {
    assert!(TOKEN_COOKIE_OVERLAY.contains("- id: web-runtime"));
    assert!(TOKEN_COOKIE_OVERLAY.contains("...ctx.webStartup.trustedHosts"));
    assert!(!TOKEN_COOKIE_OVERLAY.contains("- id: connection"));
}

#[test]
fn selects_explicit_protocol_families() {
    let legacy = DshAdapter::resolve("0.1.0-rc.7").unwrap();
    assert_eq!(legacy.id(), "legacy-web");
    assert!(!legacy.no_open());

    let no_open = DshAdapter::resolve("0.1.0-rc.8").unwrap();
    assert_eq!(no_open.id(), "legacy-web");
    assert!(no_open.no_open());

    let authenticated = DshAdapter::resolve("0.1.2-alpha.1").unwrap();
    assert_eq!(authenticated.id(), "authenticated-web-v1");
    assert!(authenticated.no_open());
    assert!(authenticated.requires_authenticated_url());
}

#[test]
fn rejects_unknown_future_protocols() {
    let error = DshAdapter::resolve("0.1.3").unwrap_err();
    assert!(error.contains("DSH_ADAPTER_UNSUPPORTED_VERSION"));
    assert!(DshAdapter::resolve("file:///dsh.tgz").is_err());
}

#[test]
fn dsh_adapter_launch_args_are_complete_and_version_owned() {
    let adapter = DshAdapter::resolve("0.1.2-alpha.1").unwrap();
    let args = adapter.launch_args(
        "C:/dsh/lib/bin.js",
        "product",
        3081,
        Some("C:/adapter/auth.cordis.yml"),
    );
    assert_eq!(
        args,
        vec![
            "C:/dsh/lib/bin.js",
            "--profile",
            "product",
            "--patch",
            "C:/adapter/auth.cordis.yml",
            "--host",
            "127.0.0.1",
            "--port",
            "3081",
            "--no-open",
        ]
    );
}

#[test]
fn legacy_launch_args_omit_patch_and_no_open() {
    let adapter = DshAdapter::resolve("0.1.0-rc.7").unwrap();
    assert_eq!(
        adapter.launch_args("bin.js", "web", 0, None),
        vec!["bin.js", "--profile", "web", "--host", "127.0.0.1", "--port", "0"]
    );
    assert_eq!(adapter.webview_url("http://127.0.0.1:0", None).as_deref(), Some("http://127.0.0.1:0"));
    assert!(adapter.overlay().is_none());
    assert_eq!(
        DshAdapter::resolve("0.1.2").unwrap().overlay(),
        Some(("authenticated-web-v1.cordis.yml", AUTHENTICATED_WEB_OVERLAY))
    );
}

#[test]
fn authenticated_overlay_extends_the_authoritative_runtime_trust_list() {
    assert!(AUTHENTICATED_WEB_OVERLAY.contains("- id: web-runtime"));
    assert!(AUTHENTICATED_WEB_OVERLAY.contains("...ctx.webStartup.trustedHosts"));
    assert!(!AUTHENTICATED_WEB_OVERLAY.contains("- id: connection"));
}
