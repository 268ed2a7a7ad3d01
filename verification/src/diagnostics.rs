//! Machine-readable diagnostics shared by the shell's IPC and the command-line
//! probe: frame observations, surface reports and offline snapshots.
//!
//! Reading and writing the diagnostic files, and the clock, are the caller's
//! part; the validation and assembly of every record is here.

use vstd::prelude::*;
use vstd::string::StringSliceAdditionalSpecFns;
use crate::core_compat::{
    record_index, CompatibilityRecord, CoreCapabilitySummary, CoreCompatibility,
};
use crate::order::str_equal;
use crate::plugin_compat::CompatibilityReport;
use crate::text::{decimal, decimal_string, take_chars, take_chars_str, trim, trim_str};
use crate::url::{option_view, parse_url, parsed_url};
use crate::versions::semver_parsed;

verus! {

/// What the snapshot reports about the installed core.
#[derive(Debug, Clone)]
pub struct CoreIdentity {
    pub version: Option<String>,
    pub entry_exists: bool,
    pub shipped_dsh_package_count: usize,
}

/// A redacted end-to-end observation of the embedded DSH frame.
#[derive(Debug, Clone)]
pub struct WebviewRouteDiagnostic {
    pub state: String,
    pub core_compatibility: CoreCapabilitySummary,
    pub target_origin: String,
    pub reported_origin: Option<String>,
    pub loader_present: bool,
    pub title: String,
    pub observed_at_ms: u128,
}

/// One functional-surface assertion executed inside the real frame.
#[derive(Debug, Clone)]
pub struct SurfaceCheck {
    pub id: String,
    pub ok: bool,
    pub detail: String,
}

/// The functional-surface report of the real frame.
#[derive(Debug, Clone)]
pub struct SurfaceDiagnostic {
    pub state: String,
    pub core_compatibility: CoreCapabilitySummary,
    pub origin: String,
    pub loader_present: bool,
    pub transport_owns_host: bool,
    pub checks: Vec<SurfaceCheck>,
    pub failures: Vec<String>,
    pub observed_at_ms: u128,
}

/// The offline diagnostics snapshot of a core and a profile.
#[derive(Debug, Clone)]
pub struct DiagnosticsSnapshot {
    pub active_core_tag: Option<String>,
    pub recorded_release_tag: Option<String>,
    pub recorded_source_commit: Option<String>,
    pub core_path: String,
    pub profile_path: String,
    pub core: CoreIdentity,
    pub core_compatibility: Option<CoreCapabilitySummary>,
    pub plugin_compatibility: CompatibilityReport,
    pub webview_route: Option<WebviewRouteDiagnostic>,
    pub surface: Option<SurfaceDiagnostic>,
}

/// The frame-readiness message posted by the embedded DSH frame.
#[derive(Debug, Clone)]
pub struct FrameReadinessPayload {
    pub state: String,
    pub href: String,
    pub title: String,
    pub loader_present: bool,
}

/// The functional-surface message posted by the embedded DSH frame.
#[derive(Debug, Clone)]
pub struct SurfaceDiagnosticPayload {
    pub origin: String,
    pub loader_present: bool,
    pub transport_owns_host: bool,
    pub checks: Vec<SurfaceCheck>,
    pub failures: Vec<String>,
}

/// Whether a byte may appear in a core slot tag or profile name.
pub open spec fn tag_byte(b: u8) -> bool {
    (48 <= b <= 57) || (65 <= b <= 90) || (97 <= b <= 122) || b == 46 || b == 95 || b == 45
}

/// A tag that names a directory without leaving its parent: not empty, not `.`
/// or `..`, and only ASCII letters, digits, `.`, `_` and `-`.
pub open spec fn is_valid_tag(tag: Seq<char>) -> bool {
    let b = vstd::utf8::encode_utf8(tag);
    tag.len() > 0 && tag != "."@ && tag != ".."@ && forall|i: int| 0 <= i < b.len() ==> tag_byte(#[trigger] b[i])
}

/// A valid tag stays inside its parent directory: it holds no path separator
/// and no drive or stream colon, and it is neither `.` nor `..`.
pub proof fn lemma_valid_tag_stays_inside(tag: Seq<char>)
    requires
        is_valid_tag(tag),
    ensures
        tag.len() > 0,
        tag != "."@,
        tag != ".."@,
        forall|i: int|
            0 <= i < vstd::utf8::encode_utf8(tag).len() ==> {
                let b = #[trigger] vstd::utf8::encode_utf8(tag)[i];
                b != 47u8 && b != 92u8 && b != 58u8 && b != 0u8
            },
{
    assert forall|i: int| 0 <= i < vstd::utf8::encode_utf8(tag).len() implies {
        let b = #[trigger] vstd::utf8::encode_utf8(tag)[i];
        b != 47u8 && b != 92u8 && b != 58u8 && b != 0u8
    } by {
        assert(tag_byte(vstd::utf8::encode_utf8(tag)[i]));
    }
}

/// The tag rule, spelled out: a non-empty text other than `.` and `..` whose
/// bytes are all ASCII letters of either case (`A`-`Z` = 65-90, `a`-`z` =
/// 97-122), digits (`0`-`9` = 48-57), `.` (46), `_` (95) or `-` (45).
pub open spec fn tag_rule(tag: Seq<char>) -> bool {
    &&& tag.len() > 0
    &&& tag != "."@
    &&& tag != ".."@
    &&& forall|i: int|
        0 <= i < vstd::utf8::encode_utf8(tag).len() ==> {
            let b = #[trigger] vstd::utf8::encode_utf8(tag)[i];
            (65u8 <= b && b <= 90u8) || (97u8 <= b && b <= 122u8) || (48u8 <= b && b <= 57u8)
                || b == 46u8 || b == 95u8 || b == 45u8
        }
}

/// A tag is valid exactly when it follows the spelled-out rule: in
/// particular every tag of upper- and lower-case ASCII letters, digits, `.`,
/// `_` and `-` (other than `.` and `..`) is valid, and nothing else is.
pub proof fn lemma_valid_tag_rule(tag: Seq<char>)
    ensures
        is_valid_tag(tag) <==> tag_rule(tag),
{
    let b = vstd::utf8::encode_utf8(tag);
    if tag_rule(tag) {
        assert forall|i: int| 0 <= i < b.len() implies tag_byte(#[trigger] b[i]) by {
            let x = b[i];
            assert((65u8 <= x && x <= 90u8) || (97u8 <= x && x <= 122u8) || (48u8 <= x && x <= 57u8)
                || x == 46u8 || x == 95u8 || x == 45u8);
        }
    }
    if is_valid_tag(tag) {
        assert forall|i: int| 0 <= i < b.len() implies {
            let x = #[trigger] b[i];
            (65u8 <= x && x <= 90u8) || (97u8 <= x && x <= 122u8) || (48u8 <= x && x <= 57u8)
                || x == 46u8 || x == 95u8 || x == 45u8
        } by {
            assert(tag_byte(b[i]));
        }
    }
}

/// Whether `tag` is a safe directory name (see `is_valid_tag`).
pub fn valid_tag(tag: &str) -> (res: bool)
    ensures
        res == is_valid_tag(tag@),
        res == tag_rule(tag@),
{
    proof {
        lemma_valid_tag_rule(tag@);
    }
    if tag.is_empty() || str_equal(tag, ".") || str_equal(tag, "..") {
        return false;
    }
    let b = tag.as_bytes();
    let mut i: usize = 0;
    while i < b.len()
        invariant
            i <= b.len(),
            b@ == vstd::utf8::encode_utf8(tag@),
            forall|j: int| 0 <= j < i ==> tag_byte(#[trigger] b@[j]),
        decreases b.len() - i,
    {
        let c = b[i];
        if !((48 <= c && c <= 57) || (65 <= c && c <= 90) || (97 <= c && c <= 122) || c == 46 || c
            == 95 || c == 45) {
            assert(!tag_byte(b@[i as int]));
            return false;
        }
        i = i + 1;
    }
    true
}

/// The slot tag an `active-core` pointer file selects: its trimmed content,
/// when that is a valid tag.
pub fn active_core_tag(pointer: Option<&str>) -> (res: Option<String>)
    ensures
        match pointer {
            Some(p) => if is_valid_tag(trim(p@)) {
                res matches Some(t) && t@ == trim(p@)
            } else {
                res is None
            },
            None => res is None,
        },
{
    match pointer {
        Some(p) => {
            let t = trim_str(p);
            if valid_tag(t) {
                Some(String::from_str(t))
            } else {
                None
            }
        },
        None => None,
    }
}

/// The core the shell runs from.
#[derive(Debug, Clone, PartialEq, Eq)]
pub enum ActiveCore {
    /// The immutable release slot `cores/<tag>`.
    Slot(String),
    /// The pre-slot location `dependencies/dsh`.
    Legacy,
}

/// The active core: the slot the pointer names, when it holds a DSH entry;
/// otherwise the legacy location.
pub fn active_core(tag: Option<String>, slot_has_entry: bool) -> (res: ActiveCore)
    ensures
        match tag {
            Some(t) => if slot_has_entry {
                res matches ActiveCore::Slot(s) && s@ == t@
            } else {
                res == ActiveCore::Legacy
            },
            None => res == ActiveCore::Legacy,
        },
{
    match tag {
        Some(t) => if slot_has_entry {
            ActiveCore::Slot(t)
        } else {
            ActiveCore::Legacy
        },
        None => ActiveCore::Legacy,
    }
}

/// The capability summary of a core whose version a record names.
pub open spec fn summary_for(version: Option<String>, records: Seq<CompatibilityRecord>) -> Option<
    (Seq<char>, CompatibilityRecord),
> {
    match version {
        Some(v) => match semver_parsed(v@) {
            Ok(shown) => match record_index(records, v@) {
                Some(i) => Some((shown, records[i])),
                None => None,
            },
            Err(_) => None,
        },
        None => None,
    }
}

/// Whether a summary describes a resolved (version, record) pair.
pub open spec fn summarises(s: CoreCapabilitySummary, shown: Seq<char>, r: CompatibilityRecord) -> bool {
    &&& s.core_version@ == shown
    &&& s.web_launch_protocol@ == crate::core_compat::protocol_id(r.web_launch_protocol)
    &&& s.client_abi@ == r.client_abi@
    &&& s.slot_protocol@ == r.slot_protocol@
    &&& s.workspace_navigation_protocol@ == r.workspace_navigation_protocol@
    &&& s.workspace_archive_protocol@ == r.workspace_archive_protocol@
    &&& s.session_format@ == r.session_format@
    &&& s.plugin_artifact_set@ == r.plugin_artifact_set@
}

/// The capability summary of the core's version, when a record supports it.
pub fn core_compatibility(core: &CoreIdentity, records: &Vec<CompatibilityRecord>) -> (res: Option<
    CoreCapabilitySummary,
>)
    ensures
        match summary_for(core.version, records@) {
            Some((shown, r)) => res matches Some(s) && summarises(s, shown, r),
            None => res is None,
        },
{
    match &core.version {
        Some(v) => match CoreCompatibility::resolve(v.as_str(), records) {
            Ok(c) => Some(c.capability_summary()),
            Err(_) => None,
        },
        None => None,
    }
}

/// The origin (`scheme://host:port`, with the scheme's default port) of a URL.
pub open spec fn origin_of(url: Seq<char>) -> Option<Seq<char>> {
    match parsed_url(url) {
        Ok(parts) => match (parts.1, parts.2) {
            (Some(host), Some(port)) => Some(parts.0 + "://"@ + host + ":"@ + decimal(port as nat)),
            _ => None,
        },
        Err(_) => None,
    }
}

/// The redacted origin of a URL: path, query and credentials dropped.
pub fn redacted_origin(url: &str) -> (res: Option<String>)
    ensures
        option_view(res) == origin_of(url@),
{
    let parts = match parse_url(url) {
        Ok(p) => p,
        Err(_) => return None,
    };
    let host = match &parts.host {
        Some(h) => h,
        None => return None,
    };
    let port = match parts.port {
        Some(p) => p,
        None => return None,
    };
    let mut origin = parts.scheme.clone();
    origin.append("://");
    origin.append(host.as_str());
    origin.append(":");
    let digits = decimal_string(port as u128);
    origin.append(digits.as_str());
    Some(origin)
}

/// Whether a frame state is one the readiness probe reports.
pub open spec fn is_frame_state(state: Seq<char>) -> bool {
    state == "ready"@ || state == "timeout"@ || state == "error"@
}

/// Refuse a frame state the readiness probe never reports; the shell checks
/// this before it resolves the active core for the observation.
pub fn check_frame_state(state: &str) -> (res: Result<(), String>)
    ensures
        res is Ok <==> is_frame_state(state@),
        res matches Err(m) ==> m@ == "WEBVIEW_DIAGNOSTIC_INVALID_STATE: "@ + state@,
{
    if str_equal(state, "ready") || str_equal(state, "timeout") || str_equal(state, "error") {
        Ok(())
    } else {
        let mut m = String::from_str("WEBVIEW_DIAGNOSTIC_INVALID_STATE: ");
        m.append(state);
        Err(m)
    }
}

/// Validate a frame-readiness observation and build its redacted record.
///
/// `expected_url` is the address the shell navigated the frame to (none while
/// the authenticated token is unknown); `ready` is refused unless the Loader is
/// present and the frame reports that same origin.
pub fn webview_route_observation(
    state: &str,
    reported_url: &str,
    loader_present: bool,
    title: &str,
    expected_url: Option<String>,
    summary: CoreCapabilitySummary,
    observed_at_ms: u128,
) -> (res: Result<WebviewRouteDiagnostic, String>)
    ensures
        !is_frame_state(state@) ==> (res matches Err(m) && m@ == "WEBVIEW_DIAGNOSTIC_INVALID_STATE: "@
            + state@),
        is_frame_state(state@) ==> match expected_url {
            None => res matches Err(m) && m@ == "WEBVIEW_DIAGNOSTIC_TARGET_UNAVAILABLE"@,
            Some(expected) => match origin_of(expected@) {
                None => res matches Err(m) && m@ == "WEBVIEW_DIAGNOSTIC_TARGET_INVALID"@,
                Some(target) => if state@ == "ready"@ && (!loader_present || origin_of(reported_url@)
                    != Some(target)) {
                    res matches Err(m) && m@ == "WEBVIEW_DIAGNOSTIC_FALSE_READY"@
                } else {
                    res matches Ok(d) && d.state@ == state@ && d.core_compatibility == summary
                        && d.target_origin@ == target && option_view(d.reported_origin)
                        == origin_of(reported_url@) && d.loader_present == loader_present
                        && d.title@ == take_chars(title@, 160) && d.observed_at_ms
                        == observed_at_ms
                },
            },
        },
{
    match check_frame_state(state) {
        Ok(()) => {},
        Err(m) => return Err(m),
    }
    let ready = str_equal(state, "ready");
    let expected = match expected_url {
        Some(u) => u,
        None => return Err(String::from_str("WEBVIEW_DIAGNOSTIC_TARGET_UNAVAILABLE")),
    };
    let target_origin = match redacted_origin(expected.as_str()) {
        Some(o) => o,
        None => return Err(String::from_str("WEBVIEW_DIAGNOSTIC_TARGET_INVALID")),
    };
    let reported_origin = redacted_origin(reported_url);
    let matches_target = match &reported_origin {
        Some(o) => str_equal(o.as_str(), target_origin.as_str()),
        None => false,
    };
    if ready && (!loader_present || !matches_target) {
        return Err(String::from_str("WEBVIEW_DIAGNOSTIC_FALSE_READY"));
    }
    Ok(WebviewRouteDiagnostic {
        state: String::from_str(state),
        core_compatibility: summary,
        target_origin,
        reported_origin,
        loader_present,
        title: take_chars_str(title, 160),
        observed_at_ms,
    })
}

/// Checks and failures accepted per surface report.
pub const SURFACE_LIMIT: usize = 64;

pub open spec fn bounded_check(c: SurfaceCheck, out: SurfaceCheck) -> bool {
    out.id@ == take_chars(c.id@, 120) && out.ok == c.ok && out.detail@ == take_chars(c.detail@, 240)
}

/// Validate a surface report from the real frame and build its record: the
/// origin must be the expected one with the Loader present, at most 64 checks
/// and 64 failures are accepted, texts are bounded, and the state is
/// `degraded` when any check failed or any failure was seen, else `ready`.
pub fn surface_observation(
    reported_origin: &str,
    loader_present: bool,
    transport_owns_host: bool,
    checks: &Vec<SurfaceCheck>,
    failures: &Vec<String>,
    expected_url: Option<String>,
    summary: CoreCapabilitySummary,
    observed_at_ms: u128,
) -> (res: Result<SurfaceDiagnostic, String>)
    ensures
        match expected_url {
            None => res matches Err(m) && m@ == "SURFACE_DIAGNOSTIC_TARGET_UNAVAILABLE"@,
            Some(expected) => match origin_of(expected@) {
                None => res matches Err(m) && m@ == "SURFACE_DIAGNOSTIC_TARGET_INVALID"@,
                Some(target) => match origin_of(reported_origin@) {
                    None => res matches Err(m) && m@ == "SURFACE_DIAGNOSTIC_ORIGIN_INVALID"@,
                    Some(origin) => if origin != target || !loader_present {
                        res matches Err(m) && m@ == "SURFACE_DIAGNOSTIC_FALSE_REPORT"@
                    } else if checks.len() > SURFACE_LIMIT || failures.len() > SURFACE_LIMIT {
                        res matches Err(m) && m@ == "SURFACE_DIAGNOSTIC_LIMIT"@
                    } else {
                        res matches Ok(d) && {
                            let failed = (exists|i: int| 0 <= i < checks.len() && !(#[trigger] checks@[i]).ok)
                                || failures.len() > 0;
                            &&& d.state@ == (if failed {
                                "degraded"@
                            } else {
                                "ready"@
                            })
                            &&& d.core_compatibility == summary
                            &&& d.origin@ == origin
                            &&& d.loader_present == loader_present
                            &&& d.transport_owns_host == transport_owns_host
                            &&& d.checks.len() == checks.len()
                            &&& forall|i: int| 0 <= i < checks.len() ==> bounded_check(
                                #[trigger] checks@[i],
                                d.checks@[i],
                            )
                            &&& d.failures.len() == failures.len()
                            &&& forall|i: int| 0 <= i < failures.len() ==> (#[trigger] d.failures@[i])@
                                == take_chars(failures@[i]@, 240)
                            &&& d.observed_at_ms == observed_at_ms
                        }
                    },
                },
            },
        },
{
    let expected = match expected_url {
        Some(u) => u,
        None => return Err(String::from_str("SURFACE_DIAGNOSTIC_TARGET_UNAVAILABLE")),
    };
    let expected_origin = match redacted_origin(expected.as_str()) {
        Some(o) => o,
        None => return Err(String::from_str("SURFACE_DIAGNOSTIC_TARGET_INVALID")),
    };
    let origin = match redacted_origin(reported_origin) {
        Some(o) => o,
        None => return Err(String::from_str("SURFACE_DIAGNOSTIC_ORIGIN_INVALID")),
    };
    if !str_equal(origin.as_str(), expected_origin.as_str()) || !loader_present {
        return Err(String::from_str("SURFACE_DIAGNOSTIC_FALSE_REPORT"));
    }
    if checks.len() > SURFACE_LIMIT || failures.len() > SURFACE_LIMIT {
        return Err(String::from_str("SURFACE_DIAGNOSTIC_LIMIT"));
    }
    let mut bounded: Vec<SurfaceCheck> = Vec::new();
    let mut any_failed = false;
    let mut i: usize = 0;
    while i < checks.len()
        invariant
            i <= checks.len(),
            bounded.len() == i,
            forall|j: int| 0 <= j < i ==> bounded_check(#[trigger] checks@[j], bounded@[j]),
            any_failed == exists|j: int| 0 <= j < i && !(#[trigger] checks@[j]).ok,
        decreases checks.len() - i,
    {
        let c = &checks[i];
        bounded.push(
            SurfaceCheck {
                id: take_chars_str(c.id.as_str(), 120),
                ok: c.ok,
                detail: take_chars_str(c.detail.as_str(), 240),
            },
        );
        if !c.ok {
            any_failed = true;
        }
        proof {
            if !any_failed {
                assert forall|j: int| !(0 <= j < i + 1 && !(#[trigger] checks@[j]).ok) by {
                    if 0 <= j < i + 1 && !checks@[j].ok && j == i {
                    }
                }
            } else {
                if c.ok {
                    let w = choose|j: int| 0 <= j < i && !(#[trigger] checks@[j]).ok;
                    assert(0 <= w < i + 1 && !checks@[w].ok);
                } else {
                    assert(0 <= i < i + 1 && !checks@[i as int].ok);
                }
            }
        }
        i = i + 1;
    }
    let mut kept: Vec<String> = Vec::new();
    let mut k: usize = 0;
    while k < failures.len()
        invariant
            k <= failures.len(),
            kept.len() == k,
            forall|j: int| 0 <= j < k ==> (#[trigger] kept@[j])@ == take_chars(failures@[j]@, 240),
        decreases failures.len() - k,
    {
        kept.push(take_chars_str(failures[k].as_str(), 240));
        k = k + 1;
    }
    let failed = any_failed || failures.len() > 0;
    Ok(SurfaceDiagnostic {
        state: if failed {
            String::from_str("degraded")
        } else {
            String::from_str("ready")
        },
        core_compatibility: summary,
        origin,
        loader_present,
        transport_owns_host,
        checks: bounded,
        failures: kept,
        observed_at_ms,
    })
}

/// The snapshot of an explicit core and profile, without changing selection:
/// no active slot, provenance or frame observations, and the core's
/// compatibility summary when a record supports its version.
pub fn snapshot_for_paths(
    core_path: &str,
    profile_path: &str,
    core: CoreIdentity,
    plugin_compatibility: CompatibilityReport,
    records: &Vec<CompatibilityRecord>,
) -> (res: DiagnosticsSnapshot)
    ensures
        res.active_core_tag is None,
        res.recorded_release_tag is None,
        res.recorded_source_commit is None,
        res.core_path@ == core_path@,
        res.profile_path@ == profile_path@,
        res.core == core,
        match summary_for(core.version, records@) {
            Some((shown, r)) => res.core_compatibility matches Some(s) && summarises(s, shown, r),
            None => res.core_compatibility is None,
        },
        res.plugin_compatibility == plugin_compatibility,
        res.webview_route is None,
        res.surface is None,
{
    let summary = core_compatibility(&core, records);
    DiagnosticsSnapshot {
        active_core_tag: None,
        recorded_release_tag: None,
        recorded_source_commit: None,
        core_path: String::from_str(core_path),
        profile_path: String::from_str(profile_path),
        core,
        core_compatibility: summary,
        plugin_compatibility,
        webview_route: None,
        surface: None,
    }
}

/// Refuse a profile name that is not a valid tag (it would leave the
/// `profiles` directory).
pub fn check_profile_name(profile: &str) -> (res: Result<(), String>)
    ensures
        res is Ok <==> is_valid_tag(profile@),
        res is Ok <==> tag_rule(profile@),
        res matches Err(m) ==> m@ == "DIAGNOSTICS_INVALID_PROFILE: "@ + profile@,
{
    if valid_tag(profile) {
        Ok(())
    } else {
        let mut m = String::from_str("DIAGNOSTICS_INVALID_PROFILE: ");
        m.append(profile);
        Err(m)
    }
}

/// The offline snapshot built from the application-data and DSH-home roots,
/// without a WebView or a running DSH: refused for an invalid profile name,
/// else every observation is reported as read.
pub fn snapshot_from_roots(
    profile: &str,
    active_core_tag: Option<String>,
    recorded_release_tag: Option<String>,
    recorded_source_commit: Option<String>,
    core_path: &str,
    profile_path: &str,
    core: CoreIdentity,
    plugin_compatibility: CompatibilityReport,
    webview_route: Option<WebviewRouteDiagnostic>,
    surface: Option<SurfaceDiagnostic>,
    records: &Vec<CompatibilityRecord>,
) -> (res: Result<DiagnosticsSnapshot, String>)
    ensures
        res is Ok <==> tag_rule(profile@),
        !is_valid_tag(profile@) ==> (res matches Err(m) && m@ == "DIAGNOSTICS_INVALID_PROFILE: "@
            + profile@),
        is_valid_tag(profile@) ==> (res matches Ok(s) && {
            &&& s.active_core_tag == active_core_tag
            &&& s.recorded_release_tag == recorded_release_tag
            &&& s.recorded_source_commit == recorded_source_commit
            &&& s.core_path@ == core_path@
            &&& s.profile_path@ == profile_path@
            &&& s.core == core
            &&& match summary_for(core.version, records@) {
                Some((shown, r)) => s.core_compatibility matches Some(c) && summarises(c, shown, r),
                None => s.core_compatibility is None,
            }
            &&& s.plugin_compatibility == plugin_compatibility
            &&& s.webview_route == webview_route
            &&& s.surface == surface
        }),
{
    check_profile_name(profile)?;
    let summary = core_compatibility(&core, records);
    Ok(DiagnosticsSnapshot {
        active_core_tag,
        recorded_release_tag,
        recorded_source_commit,
        core_path: String::from_str(core_path),
        profile_path: String::from_str(profile_path),
        core,
        core_compatibility: summary,
        plugin_compatibility,
        webview_route,
        surface,
    })
}

} // verus!
