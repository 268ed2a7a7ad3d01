use dsh_desktop::core_compat::CoreCapabilitySummary;
use dsh_desktop::diagnostics::{
    active_core, active_core_tag, check_frame_state, check_profile_name, redacted_origin, snapshot_from_roots,
    surface_observation, valid_tag, webview_route_observation, ActiveCore, CoreIdentity,
    SurfaceCheck,
};
use dsh_desktop::plugin_compat::empty_report;

fn summary() -> CoreCapabilitySummary {
    CoreCapabilitySummary {
        core_version: "0.1.2-alpha.1".to_string(),
        web_launch_protocol: "token-cookie-v1".to_string(),
        client_abi: "abi".to_string(),
        slot_protocol: "slot".to_string(),
        workspace_navigation_protocol: "nav".to_string(),
        workspace_archive_protocol: "archive".to_string(),
        session_format: "session".to_string(),
        plugin_artifact_set: "set".to_string(),
    }
}

fn identity() -> CoreIdentity {
    CoreIdentity {
        version: None,
        entry_exists: false,
        shipped_dsh_package_count: 0,
    }
}

#[test]
fn invalid_or_missing_pointer_falls_back_to_legacy_core() {
    let tag = active_core_tag(Some("../bad\n"));
    assert_eq!(tag, None);
    assert_eq!(active_core(tag, true), ActiveCore::Legacy);
    assert_eq!(active_core_tag(None), None);
}

#[test]
fn valid_pointer_selects_its_slot_only_when_it_holds_an_entry() {
    let tag = active_core_tag(Some(" app-0.1.2_alpha.1 \n"));
    assert_eq!(tag.as_deref(), Some("app-0.1.2_alpha.1"));
    assert_eq!(
        active_core(tag.clone(), true),
        ActiveCore::Slot("app-0.1.2_alpha.1".to_string())
    );
    assert_eq!(active_core(tag, false), ActiveCore::Legacy);
}

#[test]
fn tags_cannot_leave_their_directory() {
    assert!(valid_tag("v1.2.3-rc_1"));
    assert!(!valid_tag(""));
    assert!(!valid_tag("."));
    assert!(!valid_tag(".."));
    assert!(!valid_tag("a/b"));
    assert!(!valid_tag("a\\b"));
    assert!(!valid_tag("版本"));
    assert_eq!(check_profile_name("product-zlzhg"), Ok(()));
    assert_eq!(
        check_profile_name("../x"),
        Err("DIAGNOSTICS_INVALID_PROFILE: ../x".to_string())
    );
}

#[test]
fn origins_drop_paths_queries_and_credentials() {
    assert_eq!(
        redacted_origin("http://dsh.tauri.localhost:3080/?token=abc").as_deref(),
        Some("http://dsh.tauri.localhost:3080")
    );
    assert_eq!(
        redacted_origin("https://user:pw@example.com/x").as_deref(),
        Some("https://example.com:443")
    );
    assert_eq!(redacted_origin("not a url"), None);
}

#[test]
fn false_ready_frames_are_refused() {
    let expected = Some("http://dsh.tauri.localhost:3080/?token=t".to_string());
    assert_eq!(
        webview_route_observation("ready", "http://127.0.0.1:3080/", true, "t", expected.clone(), summary(), 1)
            .unwrap_err(),
        "WEBVIEW_DIAGNOSTIC_FALSE_READY"
    );
    assert_eq!(
        webview_route_observation("ready", "http://dsh.tauri.localhost:3080/x", false, "t", expected.clone(), summary(), 1)
            .unwrap_err(),
        "WEBVIEW_DIAGNOSTIC_FALSE_READY"
    );
    let ok = webview_route_observation(
        "ready",
        "http://dsh.tauri.localhost:3080/x?token=t",
        true,
        &"T".repeat(200),
        expected.clone(),
        summary(),
        42,
    )
    .unwrap();
    assert_eq!(ok.target_origin, "http://dsh.tauri.localhost:3080");
    assert_eq!(ok.reported_origin.as_deref(), Some("http://dsh.tauri.localhost:3080"));
    assert_eq!(ok.title.len(), 160);
    assert_eq!(ok.observed_at_ms, 42);
    assert_eq!(
        webview_route_observation("loading", "", true, "", expected.clone(), summary(), 1).unwrap_err(),
        "WEBVIEW_DIAGNOSTIC_INVALID_STATE: loading"
    );
    assert_eq!(
        webview_route_observation("timeout", "", true, "", None, summary(), 1).unwrap_err(),
        "WEBVIEW_DIAGNOSTIC_TARGET_UNAVAILABLE"
    );
    assert!(webview_route_observation("timeout", "", false, "", expected, summary(), 1).is_ok());
}

#[test]
fn surface_reports_degrade_on_any_failure() {
    let expected = Some("http://dsh.tauri.localhost:3080/".to_string());
    let checks = vec![SurfaceCheck {
        id: "terminal".to_string(),
        ok: true,
        detail: "ok".to_string(),
    }];
    let ready = surface_observation(
        "http://dsh.tauri.localhost:3080",
        true,
        true,
        &checks,
        &Vec::new(),
        expected.clone(),
        summary(),
        5,
    )
    .unwrap();
    assert_eq!(ready.state, "ready");
    let degraded = surface_observation(
        "http://dsh.tauri.localhost:3080",
        true,
        true,
        &checks,
        &vec!["visible failure: x".to_string()],
        expected.clone(),
        summary(),
        5,
    )
    .unwrap();
    assert_eq!(degraded.state, "degraded");
    assert_eq!(
        surface_observation("http://127.0.0.1:3080", true, true, &checks, &Vec::new(), None, summary(), 5)
            .unwrap_err(),
        "SURFACE_DIAGNOSTIC_TARGET_UNAVAILABLE"
    );
}

#[test]
fn snapshots_check_the_profile_name() {
    let snapshot = snapshot_from_roots(
        "product-zlzhg",
        Some("tag".to_string()),
        None,
        None,
        "/core",
        "/profile",
        identity(),
        empty_report("/core", "/profile"),
        None,
        None,
        &Vec::new(),
    )
    .unwrap();
    assert_eq!(snapshot.active_core_tag.as_deref(), Some("tag"));
    assert_eq!(snapshot.core_path, "/core");
    assert!(snapshot.plugin_compatibility.compatible);
    assert_eq!(
        snapshot_from_roots(
            "../escape",
            None,
            None,
            None,
            "/core",
            "/profile",
            identity(),
            empty_report("/core", "/profile"),
            None,
            None,
            &Vec::new(),
        )
        .unwrap_err(),
        "DIAGNOSTICS_INVALID_PROFILE: ../escape"
    );
}

#[test]
fn frame_states_are_checked_before_anything_else() {
    assert_eq!(check_frame_state("ready"), Ok(()));
    assert_eq!(check_frame_state("timeout"), Ok(()));
    assert_eq!(check_frame_state("error"), Ok(()));
    assert_eq!(
        check_frame_state("Ready"),
        Err("WEBVIEW_DIAGNOSTIC_INVALID_STATE: Ready".to_string())
    );
}
