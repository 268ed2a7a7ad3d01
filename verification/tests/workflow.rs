use dsh_desktop::workflow::{
    authenticated_service_url, authenticated_webview_url, capture_authenticated_service_url,
    health_probe_plugin_urls, looks_like_plugin_bundle, restore_authenticated_service_url,
};

#[test]
fn captures_browser_auth_url_without_persisting_token_in_log_line() {
    let (safe, captured) =
        capture_authenticated_service_url("dsh web: http://127.0.0.1:4567/?token=secret-value");
    assert_eq!(
        safe,
        "dsh web: http://127.0.0.1:4567/ (authenticated URL captured by Desktop)"
    );
    assert_eq!(
        authenticated_service_url(&captured, 4567).as_deref(),
        Some("http://127.0.0.1:4567/?token=secret-value")
    );
    assert_eq!(authenticated_service_url(&captured, 4568), None);
    assert_eq!(
        authenticated_webview_url(&captured, 4567).as_deref(),
        Some("http://dsh.tauri.localhost:4567/?token=secret-value")
    );
    assert_eq!(authenticated_service_url(&None, 4567), None);
}

#[test]
fn non_loopback_or_tokenless_announcements_are_not_captured() {
    let line = "dsh web: http://example.com:4567/?token=x";
    assert_eq!(capture_authenticated_service_url(line), (line.to_string(), None));
    let line = "dsh web: http://127.0.0.1:4567/";
    assert_eq!(capture_authenticated_service_url(line), (line.to_string(), None));
    let line = "dsh web: http://localhost:4567/?token=";
    assert_eq!(capture_authenticated_service_url(line), (line.to_string(), None));
    let line = "server started";
    assert_eq!(capture_authenticated_service_url(line), (line.to_string(), None));
    let (safe, captured) =
        capture_authenticated_service_url("dsh web:   http://localhost:80/?a=1&token=t extra");
    assert_eq!(captured.as_deref(), Some("http://localhost:80/?a=1&token=t"));
    assert_eq!(safe, "dsh web: http://localhost/ (authenticated URL captured by Desktop)");
}

#[test]
fn recovery_url_requires_token_and_exact_loopback_port() {
    let stored = restore_authenticated_service_url("http://127.0.0.1:4567/?token=reissued", 4567)
        .expect("accept recovery URL");
    let slot = Some(stored);
    assert_eq!(
        authenticated_service_url(&slot, 4567).as_deref(),
        Some("http://127.0.0.1:4567/?token=reissued")
    );
    assert!(restore_authenticated_service_url("http://example.com:4567/?token=x", 4567).is_err());
    assert!(restore_authenticated_service_url("http://127.0.0.1:4568/?token=x", 4567).is_err());
    assert!(restore_authenticated_service_url("http://127.0.0.1:4567/", 4567).is_err());
}

#[test]
fn recovery_url_errors_carry_their_codes() {
    let parse = restore_authenticated_service_url("not a url", 1).unwrap_err();
    assert!(parse.starts_with("HARNESS_RECOVERY_URL_PARSE: "));
    assert_eq!(
        restore_authenticated_service_url("http://127.1.2.3:9/?token=x", 10).unwrap_err(),
        "HARNESS_RECOVERY_URL_INVALID: URL must contain a token for the owned loopback port"
    );
    assert!(restore_authenticated_service_url("http://127.1.2.3:9/?token=x", 9).is_ok());
}

#[test]
fn health_probe_plugin_urls_use_revisions_declared_by_boot_html() {
    let html = r#"<link href="/plugins/??one/client.js,@deepseek-ai/dsh-client-ui-layout/client.js&amp;rev=combined"><script src="/plugins/??@deepseek-ai/dsh-client-modules/client.js&amp;rev=modules"></script><script>globalThis.__DSH_BOOT__={"entries":[{"url":"/plugins/??@deepseek-ai/dsh-client-ui-layout/client.js&rev=layout"}]}</script>"#;
    let urls = health_probe_plugin_urls(3080, html);
    assert_eq!(
        urls,
        vec![
            "http://127.0.0.1:3080/plugins/??@deepseek-ai/dsh-client-modules/client.js&rev=modules",
            "http://127.0.0.1:3080/plugins/??@deepseek-ai/dsh-client-ui-layout/client.js&rev=layout",
        ]
    );
    assert!(urls.iter().all(|u| u.contains("/plugins/")));
    assert!(urls.iter().all(|u| u.contains("&rev=")));
}

#[test]
fn health_probe_plugin_urls_reject_boot_html_without_probe_bundles() {
    assert!(health_probe_plugin_urls(3080, "<!doctype html><html></html>").is_empty());
}

#[test]
fn health_probe_plugin_urls_accept_legacy_single_package_routes() {
    let html = r#"<script src="/plugins/@deepseek-ai/dsh-client-modules/client.js?rev=modules"></script><script>globalThis.__DSH_BOOT__={"entries":[{"url":"/plugins/@deepseek-ai/dsh-client-ui-layout/client.js?rev=layout"}]}</script>"#;
    assert_eq!(
        health_probe_plugin_urls(3080, html),
        vec![
            "http://127.0.0.1:3080/plugins/@deepseek-ai/dsh-client-modules/client.js?rev=modules",
            "http://127.0.0.1:3080/plugins/@deepseek-ai/dsh-client-ui-layout/client.js?rev=layout",
        ]
    );
}

#[test]
fn health_probe_url_without_closing_quote_is_skipped() {
    let html = "<script src=\"/plugins/@deepseek-ai/dsh-client-modules/client.js?rev=1";
    assert!(health_probe_plugin_urls(1, html).is_empty());
}

#[test]
fn spa_html_fallback_is_not_a_plugin_bundle() {
    assert!(!looks_like_plugin_bundle(
        true,
        "<!doctype html><html lang=\"en\"><body>HARNESS Loading plugins...</body></html>"
    ));
    assert!(!looks_like_plugin_bundle(true, "<html><head></head></html>"));
    assert!(!looks_like_plugin_bundle(true, "   "));
    assert!(!looks_like_plugin_bundle(false, "window.__ModuleLoader__={}"));
    assert!(looks_like_plugin_bundle(
        true,
        "window.__ModuleLoader__.load({id:\"@deepseek-ai/dsh-client-ui-layout\"})"
    ));
}

#[test]
fn bundle_check_ignores_case_and_leading_unicode_space() {
    assert!(!looks_like_plugin_bundle(true, "\u{3000}\n <!DOCTYPE html>"));
    assert!(!looks_like_plugin_bundle(true, "<HTML>"));
    assert!(looks_like_plugin_bundle(true, "<htm"));
}
