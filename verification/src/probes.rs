//! Scripts that the shell injects into its WebViews to report how far the
//! embedded DSH pages got.

use vstd::prelude::*;

verus! {

/// Declares, for the authenticated desktop host only, that Desktop owns the
/// loopback DSH host, so the client can open the host settings it offers to
/// `127/8` pages.
pub const HOST_OWNERSHIP_JS: &'static str = r#"
(function () {
  if (location.hostname !== 'dsh.tauri.localhost') return;
  var current = globalThis.__DSH_TRANSPORT__ || {};
  globalThis.__DSH_TRANSPORT__ = Object.assign({}, current, { ownsHost: true });
})();
"#;

/// Runs in every child frame and reports readiness only once the DSH module
/// loader and a rendered document are both present, so that a browser error
/// page never counts as a usable embedded page.
pub const FRAME_READINESS_JS: &'static str = r#"
(function () {
  if (window.top === window || window.__dsh_frame_readiness_probe__) return;
  window.__dsh_frame_readiness_probe__ = true;
  var attempts = 0;
  function report(state) {
    window.parent.postMessage({
      source: 'dsh-frame-readiness',
      type: 'dsh://frame-readiness',
      state: state,
      href: String(window.location.href),
      title: String(document.title || ''),
      loaderPresent: typeof window.__ModuleLoader__ === 'object' && window.__ModuleLoader__ !== null
    }, '*');
  }
  function inspect() {
    attempts += 1;
    var rendered = !!(document.body && document.body.childElementCount > 0);
    var loader = typeof window.__ModuleLoader__ === 'object' && window.__ModuleLoader__ !== null;
    if (rendered && loader) {
      report('ready');
      return;
    }
    if (attempts >= 120) {
      report('timeout');
      return;
    }
    setTimeout(inspect, 250);
  }
  if (document.readyState === 'loading') {
    document.addEventListener('DOMContentLoaded', inspect, { once: true });
  } else {
    inspect();
  }
})();
"#;

/// Injected when the top document is created, before any bundle runs: reports
/// resource errors and whether React mounted through the shell's IPC, even when
/// the module scripts never execute.
pub const SHELL_PROBE_JS: &'static str = r#"
(function () {
  if (window.top !== window || window.__dsh_desktop_shell_probe__) return;
  window.__dsh_desktop_shell_probe__ = true;
  function report(stage, detail, attempt) {
    var internals = window.__TAURI_INTERNALS__;
    if (!internals || typeof internals.invoke !== 'function') {
      if ((attempt || 0) < 40) setTimeout(function () { report(stage, detail, (attempt || 0) + 1); }, 50);
      return;
    }
    var root = document.getElementById('root');
    internals.invoke('report_shell_diagnostics', {
      payload: {
        stage: stage,
        href: String(location.href),
        resource: detail && detail.resource ? String(detail.resource) : '',
        message: detail && detail.message ? String(detail.message) : '',
        rootChildCount: root ? root.childElementCount : 0
      }
    }).catch(function () {});
  }
  function resourcePath(target) {
    var candidate = target && (target.src || target.href);
    if (!candidate) return '';
    try { return new URL(candidate, location.href).pathname; } catch (_) { return String(candidate); }
  }
  addEventListener('error', function (event) {
    var resource = resourcePath(event.target);
    report(resource ? 'resource-error' : 'script-error', {
      resource: resource,
      message: event.message || 'window error'
    });
  }, true);
  addEventListener('unhandledrejection', function (event) {
    var reason = event.reason;
    report('unhandled-rejection', {
      message: reason && reason.message ? reason.message : String(reason || 'unhandled rejection')
    });
  });
  report('document-created', {});
  addEventListener('DOMContentLoaded', function () { report('dom-content-loaded', {}); }, { once: true });
  [250, 1000, 5000].forEach(function (delay) {
    setTimeout(function () {
      var root = document.getElementById('root');
      report(root && root.childElementCount > 0 ? 'react-mounted' : 'react-missing', {});
    }, delay);
  });
})();
"#;

/// Runs in the live DSH page: probes the plugins' lazy resources, records
/// visible failures and whether Desktop owns the host, and posts the result to
/// the parent window.
pub const SURFACE_PROBE_JS: &'static str = r#"
(function () {
  if (window.top === window || window.__dsh_surface_probe__) return;
  window.__dsh_surface_probe__ = true;
  var failures = [];
  var checks = [];
  var contracts = globalThis.__DSH_DESKTOP_SURFACE_CONTRACTS__ || { resources: [], visibleFailurePatterns: [] };
  var knownFailures = contracts.visibleFailurePatterns;
  function remember(value) {
    var text = String(value || '').trim();
    if (!text || failures.indexOf(text) >= 0) return;
    failures.push(text.slice(0, 240));
  }
  addEventListener('error', function (event) {
    var target = event.target;
    if (target && target !== window && target.src) remember('resource failed: ' + new URL(target.src, location.href).pathname);
    else remember(event.message || 'window error');
  }, true);
  addEventListener('unhandledrejection', function (event) {
    remember(event.reason && event.reason.message ? event.reason.message : event.reason);
  });
  async function probe(id, path) {
    try {
      var response = await fetch(path, { credentials: 'same-origin', cache: 'no-store' });
      checks.push({ id: id, ok: response.ok, detail: path + ' -> ' + response.status });
    } catch (error) {
      checks.push({ id: id, ok: false, detail: path + ' -> ' + String(error) });
    }
  }
  async function run() {
    var loader = window.__ModuleLoader__;
    if (!loader || loader.mode !== 'live') {
      setTimeout(run, 250);
      return;
    }
    var body = String(document.body && document.body.innerText || '').toLowerCase();
    knownFailures.forEach(function (needle) {
      if (body.indexOf(needle) >= 0) remember('visible failure: ' + needle);
    });
    await Promise.all(contracts.resources.map(function (entry) { return probe(entry.id, entry.path); }));
    var transport = globalThis.__DSH_TRANSPORT__;
    window.parent.postMessage({
      source: 'dsh-surface-diagnostics',
      type: 'dsh://surface-diagnostics',
      origin: location.origin,
      loaderPresent: true,
      transportOwnsHost: transport && transport.ownsHost === true,
      checks: checks,
      failures: failures
    }, '*');
  }
  setTimeout(run, 0);
})();
"#;

} // verus!
