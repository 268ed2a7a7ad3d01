//! The DSH release adapter: CLI arguments, authentication protocol, WebView
//! address and Desktop overlay, selected by tested semver ranges.

use vstd::prelude::*;
use crate::core_compat::{dsh_launch_args, launch_argv};
use crate::versions::{compare_versions, debug_quoted, debug_text, semver_comparison, semver_parsed};

verus! {

/// The first version that understands `--no-open`.
pub const NO_OPEN_MIN_VERSION: &'static str = "0.1.0-rc.8";

/// The first version of the authenticated web protocol.
pub const AUTHENTICATED_WEB_MIN_VERSION: &'static str = "0.1.2-alpha.1";

/// The first version outside the tested range.
pub const AUTHENTICATED_WEB_MAX_VERSION: &'static str = "0.1.3";

/// The overlay that lets the authenticated protocol trust the Desktop host alias.
pub const AUTHENTICATED_WEB_OVERLAY: &'static str = "# Managed by Deepseek Harness Desktop.\n# This overlay adapts the official web profile without installing Desktop plugins.\n- id: web-runtime\n  config:\n    trustedHosts: !!js \"['dsh.tauri.localhost', ...ctx.webStartup.trustedHosts]\"\n";

/// One supported generation of the DSH web launch protocol.
#[derive(Debug, Clone, Copy, PartialEq, Eq, Structural)]
pub enum Family {
    /// No one-time browser token; the loopback service address loads directly.
    LegacyWeb,
    /// stdout publishes a one-time token; the auth cookie is `SameSite=Strict`.
    AuthenticatedWebV1,
}

/// The adapter resolved for one installed DSH version.
#[derive(Debug, Clone)]
pub struct DshAdapter {
    version: String,
    family: Family,
    no_open: bool,
}

/// The family of a version that parses, by its position relative to the
/// tested bounds; `None` when it lies at or beyond the upper bound.
pub open spec fn family_of(version: Seq<char>) -> Option<Family> {
    let above_min = semver_comparison(version, AUTHENTICATED_WEB_MIN_VERSION@);
    let below_max = semver_comparison(version, AUTHENTICATED_WEB_MAX_VERSION@);
    let authenticated = match (above_min, below_max) {
        (Some(a), Some(b)) => a >= 0 && b < 0,
        _ => false,
    };
    let legacy = match above_min {
        Some(a) => a < 0,
        None => false,
    };
    if authenticated {
        Some(Family::AuthenticatedWebV1)
    } else if legacy {
        Some(Family::LegacyWeb)
    } else {
        None
    }
}

/// Whether a version understands `--no-open`.
pub open spec fn supports_no_open(version: Seq<char>) -> bool {
    match semver_comparison(version, NO_OPEN_MIN_VERSION@) {
        Some(c) => c >= 0,
        None => false,
    }
}

/// The stable adapter identifier of a family.
pub open spec fn family_id(family: Family) -> Seq<char> {
    match family {
        Family::LegacyWeb => "legacy-web"@,
        Family::AuthenticatedWebV1 => "authenticated-web-v1"@,
    }
}

impl DshAdapter {
    pub closed spec fn spec_version(&self) -> Seq<char> {
        self.version@
    }

    pub closed spec fn spec_family(&self) -> Family {
        self.family
    }

    pub closed spec fn spec_no_open(&self) -> bool {
        self.no_open
    }

    /// Select the adapter by the installed version; a version beyond the tested
    /// range fails instead of silently reusing an older protocol.
    pub fn resolve(version: &str) -> (res: Result<DshAdapter, String>)
        ensures
            match semver_parsed(version@) {
                Err(e) => res matches Err(message) && message@ == "DSH_ADAPTER_INVALID_VERSION: cannot parse "@
                    + debug_text(version@) + ": "@ + e,
                Ok(shown) => match family_of(version@) {
                    None => res matches Err(message) && message@ == "DSH_ADAPTER_UNSUPPORTED_VERSION: "@
                        + version@ + " is outside the tested range (< "@
                        + AUTHENTICATED_WEB_MAX_VERSION@ + ")"@,
                    Some(family) => res matches Ok(a) && a.spec_version() == shown && a.spec_family()
                        == family && a.spec_no_open() == supports_no_open(version@),
                },
            },
    {
        let shown = match crate::versions::parse_version(version) {
            Ok(v) => v,
            Err(e) => {
                let mut message = String::from_str("DSH_ADAPTER_INVALID_VERSION: cannot parse ");
                let quoted = debug_quoted(version);
                message.append(quoted.as_str());
                message.append(": ");
                message.append(e.as_str());
                return Err(message);
            },
        };
        let above_min = compare_versions(version, AUTHENTICATED_WEB_MIN_VERSION);
        let below_max = compare_versions(version, AUTHENTICATED_WEB_MAX_VERSION);
        let authenticated = match (above_min, below_max) {
            (Some(a), Some(b)) => a >= 0 && b < 0,
            _ => false,
        };
        let legacy = match above_min {
            Some(a) => a < 0,
            None => false,
        };
        let family = if authenticated {
            Family::AuthenticatedWebV1
        } else if legacy {
            Family::LegacyWeb
        } else {
            let mut message = String::from_str("DSH_ADAPTER_UNSUPPORTED_VERSION: ");
            message.append(version);
            message.append(" is outside the tested range (< ");
            message.append(AUTHENTICATED_WEB_MAX_VERSION);
            message.append(")");
            return Err(message);
        };
        let no_open = match compare_versions(version, NO_OPEN_MIN_VERSION) {
            Some(c) => c >= 0,
            None => false,
        };
        Ok(DshAdapter { version: shown, family, no_open })
    }

    /// The stable adapter id written to diagnostics.
    pub fn id(&self) -> (res: &'static str)
        ensures
            res@ == family_id(self.spec_family()),
    {
        match self.family {
            Family::LegacyWeb => "legacy-web",
            Family::AuthenticatedWebV1 => "authenticated-web-v1",
        }
    }

    /// The versioned internal-plugin artifact family (the adapter id).
    pub fn plugin_family(&self) -> (res: &'static str)
        ensures
            res@ == family_id(self.spec_family()),
    {
        self.id()
    }

    /// The installed version, as semver renders it.
    pub fn version(&self) -> (res: &str)
        ensures
            res@ == self.spec_version(),
    {
        self.version.as_str()
    }

    /// The protocol family.
    pub fn family(&self) -> (res: Family)
        ensures
            res == self.spec_family(),
    {
        self.family
    }

    /// Whether the launch passes `--no-open`.
    pub fn no_open(&self) -> (res: bool)
        ensures
            res == self.spec_no_open(),
    {
        self.no_open
    }

    /// Whether the protocol signals Loader readiness with a one-time authenticated URL.
    pub fn requires_authenticated_url(&self) -> (res: bool)
        ensures
            res == (self.spec_family() == Family::AuthenticatedWebV1),
    {
        self.family == Family::AuthenticatedWebV1
    }

    /// The application-private overlay to write before launch: its file name
    /// under `dsh-adapters/` and its content; none for the legacy family.
    pub fn overlay(&self) -> (res: Option<(&'static str, &'static str)>)
        ensures
            match self.spec_family() {
                Family::LegacyWeb => res is None,
                Family::AuthenticatedWebV1 => res == Some(
                    ("authenticated-web-v1.cordis.yml", AUTHENTICATED_WEB_OVERLAY),
                ),
            },
    {
        match self.family {
            Family::LegacyWeb => None,
            Family::AuthenticatedWebV1 => Some(
                ("authenticated-web-v1.cordis.yml", AUTHENTICATED_WEB_OVERLAY),
            ),
        }
    }

    /// The complete Node argv (the dsh entry script first).
    pub fn launch_args(&self, dsh_binary: &str, profile: &str, port: u16, overlay: Option<&str>) -> (res:
        Vec<String>)
        ensures
            res@.map_values(|s: String| s@) == launch_argv(
                dsh_binary@,
                profile@,
                port,
                match overlay {
                    Some(p) => Some(p@),
                    None => None,
                },
                self.spec_no_open(),
            ),
    {
        dsh_launch_args(dsh_binary, profile, port, overlay, self.no_open)
    }

    /// The WebView navigation address: the loopback service URL for the legacy
    /// family, else the authenticated WebView URL once the token is known.
    pub fn webview_url(&self, service_url: &str, authenticated_webview_url: Option<String>) -> (res:
        Option<String>)
        ensures
            match self.spec_family() {
                Family::LegacyWeb => res matches Some(u) && u@ == service_url@,
                Family::AuthenticatedWebV1 => res == authenticated_webview_url,
            },
    {
        match self.family {
            Family::LegacyWeb => Some(String::from_str(service_url)),
            Family::AuthenticatedWebV1 => authenticated_webview_url,
        }
    }
}

} // verus!
