use dsh_desktop::probes::{
    FRAME_READINESS_JS, HOST_OWNERSHIP_JS, SHELL_PROBE_JS, SURFACE_PROBE_JS,
};

#[test]
fn ownership_is_limited_to_the_authenticated_desktop_authority() {
    assert!(HOST_OWNERSHIP_JS.contains("location.hostname !== 'dsh.tauri.localhost'"));
    assert!(HOST_OWNERSHIP_JS.contains("ownsHost: true"));
}

#[test]
fn readiness_probe_requires_loader_and_child_frame() {
    assert!(FRAME_READINESS_JS.contains("window.top === window"));
    assert!(FRAME_READINESS_JS.contains("window.__ModuleLoader__"));
    assert!(FRAME_READINESS_JS.contains("dsh://frame-readiness"));
}

#[test]
fn shell_probe_does_not_depend_on_react_entry() {
    assert!(SHELL_PROBE_JS.contains("window.__TAURI_INTERNALS__"));
    assert!(SHELL_PROBE_JS.contains("resource-error"));
    assert!(SHELL_PROBE_JS.contains("react-missing"));
    assert!(SHELL_PROBE_JS.contains("window.top !== window"));
}

#[test]
fn surface_probe_reports_host_ownership_to_the_parent() {
    assert!(SURFACE_PROBE_JS.contains("transportOwnsHost"));
    assert!(SURFACE_PROBE_JS.contains("dsh://surface-diagnostics"));
}
