//! Tested DSH core versions and the protocol capabilities bound to each.
//!
//! The records come from the bundled compatibility manifest, which the caller
//! loads; a version is accepted only when a record names it exactly.

use vstd::prelude::*;
use crate::order::str_equal;
use crate::text::{decimal, decimal_string, join, join_strings};
use crate::versions::{debug_quoted, debug_text, parse_version, semver_parsed};

verus! {

/// The overlay that lets the token-cookie protocol trust the Desktop host alias.
pub const TOKEN_COOKIE_OVERLAY: &'static str = "# Managed by Deepseek Harness Desktop.\n# This overlay adapts the official web profile without installing Desktop plugins.\n- id: web-runtime\n  config:\n    trustedHosts: !!js \"['dsh.tauri.localhost', ...ctx.webStartup.trustedHosts]\"\n";

/// How the DSH web service is launched and navigated.
#[derive(Debug, Clone, Copy, PartialEq, Eq, Structural)]
pub enum WebLaunchProtocol {
    /// The web service admits loopback navigation directly.
    DirectLoopbackV1,
    /// stdout publishes a one-time token; the WebView navigates with an auth cookie.
    TokenCookieV1,
}

/// One core version verified against the full matrix, with its capabilities.
#[derive(Debug, Clone)]
pub struct CompatibilityRecord {
    pub core_version: String,
    pub web_launch_protocol: WebLaunchProtocol,
    pub client_abi: String,
    pub slot_protocol: String,
    pub workspace_navigation_protocol: String,
    pub workspace_archive_protocol: String,
    pub session_format: String,
    pub plugin_artifact_set: String,
    pub supports_no_open: bool,
    pub provides_win_terminal_inspector: bool,
}

/// A serialisable summary of a core's capabilities, for logs and diagnostics.
#[derive(Debug, Clone)]
pub struct CoreCapabilitySummary {
    pub core_version: String,
    pub web_launch_protocol: String,
    pub client_abi: String,
    pub slot_protocol: String,
    pub workspace_navigation_protocol: String,
    pub workspace_archive_protocol: String,
    pub session_format: String,
    pub plugin_artifact_set: String,
}

/// The exact compatibility profile resolved for one installed DSH version.
#[derive(Debug, Clone)]
pub struct CoreCompatibility {
    version: String,
    record: CompatibilityRecord,
}

/// The stable identifier of a launch protocol.
pub open spec fn protocol_id(protocol: WebLaunchProtocol) -> Seq<char> {
    match protocol {
        WebLaunchProtocol::DirectLoopbackV1 => "direct-loopback-v1"@,
        WebLaunchProtocol::TokenCookieV1 => "token-cookie-v1"@,
    }
}

/// The launch protocol a compatibility manifest names by its identifier.
pub fn parse_web_launch_protocol(id: &str) -> (res: Option<WebLaunchProtocol>)
    ensures
        match res {
            Some(p) => protocol_id(p) == id@,
            None => id@ != protocol_id(WebLaunchProtocol::DirectLoopbackV1) && id@ != protocol_id(
                WebLaunchProtocol::TokenCookieV1,
            ),
        },
{
    if crate::order::str_equal(id, "direct-loopback-v1") {
        Some(WebLaunchProtocol::DirectLoopbackV1)
    } else if crate::order::str_equal(id, "token-cookie-v1") {
        Some(WebLaunchProtocol::TokenCookieV1)
    } else {
        None
    }
}

/// The position of the first record naming exactly `version`, if any.
pub open spec fn record_index(records: Seq<CompatibilityRecord>, version: Seq<char>) -> Option<int>
    decreases records.len(),
{
    if records.len() == 0 {
        None
    } else {
        match record_index(records.drop_last(), version) {
            Some(i) => Some(i),
            None => if records.last().core_version@ == version {
                Some(records.len() - 1)
            } else {
                None
            },
        }
    }
}

pub open spec fn record_versions(records: Seq<CompatibilityRecord>) -> Seq<Seq<char>> {
    records.map_values(|r: CompatibilityRecord| r.core_version@)
}

/// The argument vector that launches DSH: the entry script, the profile, the
/// optional overlay patch, the loopback host and port, and `--no-open` when the
/// core understands it.
pub open spec fn launch_argv(
    dsh_binary: Seq<char>,
    profile: Seq<char>,
    port: u16,
    overlay: Option<Seq<char>>,
    no_open: bool,
) -> Seq<Seq<char>> {
    seq![dsh_binary, "--profile"@, profile] + match overlay {
        Some(path) => seq!["--patch"@, path],
        None => seq![],
    } + seq!["--host"@, "127.0.0.1"@, "--port"@, decimal(port as nat)] + if no_open {
        seq!["--no-open"@]
    } else {
        seq![]
    }
}

/// Build the DSH argument vector of `launch_argv`.
pub fn dsh_launch_args(
    dsh_binary: &str,
    profile: &str,
    port: u16,
    overlay: Option<&str>,
    no_open: bool,
) -> (res: Vec<String>)
    ensures
        res@.map_values(|s: String| s@) == launch_argv(
            dsh_binary@,
            profile@,
            port,
            match overlay {
                Some(p) => Some(p@),
                None => None,
            },
            no_open,
        ),
{
    let mut args: Vec<String> = Vec::new();
    args.push(String::from_str(dsh_binary));
    args.push(String::from_str("--profile"));
    args.push(String::from_str(profile));
    match overlay {
        Some(path) => {
            args.push(String::from_str("--patch"));
            args.push(String::from_str(path));
        },
        None => {},
    }
    args.push(String::from_str("--host"));
    args.push(String::from_str("127.0.0.1"));
    args.push(String::from_str("--port"));
    args.push(decimal_string(port as u128));
    if no_open {
        args.push(String::from_str("--no-open"));
    }
    proof {
        let ov = match overlay {
            Some(p) => Some(p@),
            None => None,
        };
        assert(args@.map_values(|s: String| s@) =~= launch_argv(
            dsh_binary@,
            profile@,
            port,
            ov,
            no_open,
        ));
    }
    args
}

impl CoreCompatibility {
    /// The installed version, as semver renders it.
    pub closed spec fn spec_version(&self) -> Seq<char> {
        self.version@
    }

    /// The record this compatibility profile was resolved to.
    pub closed spec fn spec_record(&self) -> CompatibilityRecord {
        self.record
    }

    /// Accept only a version that parses and that a record names exactly; an
    /// unknown version is never mapped to a neighbouring protocol.
    pub fn resolve(version: &str, records: &Vec<CompatibilityRecord>) -> (res: Result<
        CoreCompatibility,
        String,
    >)
        ensures
            match semver_parsed(version@) {
                Err(e) => res matches Err(message) && message@ == "CORE_COMPATIBILITY_INVALID_VERSION: cannot parse "@
                    + debug_text(version@) + ": "@ + e,
                Ok(shown) => match record_index(records@, version@) {
                    None => res matches Err(message) && message@
                        == "CORE_COMPATIBILITY_UNSUPPORTED_VERSION: "@ + version@
                        + " has no tested compatibility record; supported: "@ + join(
                        record_versions(records@),
                        ", "@,
                    ),
                    Some(i) => res matches Ok(c) && c.spec_version() == shown && c.spec_record()
                        == records@[i],
                },
            },
            res is Ok <==> (semver_parsed(version@) is Ok && exists|i: int|
                0 <= i < records@.len() && (#[trigger] records@[i]).core_version@ == version@),
    {
        proof {
            lemma_record_index_exists(records@, version@);
        }
        let shown = match parse_version(version) {
            Ok(v) => v,
            Err(e) => {
                let mut message = String::from_str("CORE_COMPATIBILITY_INVALID_VERSION: cannot parse ");
                let quoted = debug_quoted(version);
                message.append(quoted.as_str());
                message.append(": ");
                message.append(e.as_str());
                return Err(message);
            },
        };
        let mut i: usize = 0;
        while i < records.len()
            invariant
                i <= records.len(),
                semver_parsed(version@) == Ok::<Seq<char>, Seq<char>>(shown@),
                record_index(records@.take(i as int), version@) is None,
            decreases records.len() - i,
        {
            proof {
                assert(records@.take(i + 1).drop_last() =~= records@.take(i as int));
            }
            if str_equal(records[i].core_version.as_str(), version) {
                proof {
                    lemma_record_index_prefix(records@, version@, i as int);
                }
                let c = CoreCompatibility { version: shown, record: records[i].clone_record() };
                return Ok(c);
            }
            i = i + 1;
        }
        assert(records@.take(records.len() as int) =~= records@);
        let mut names: Vec<String> = Vec::new();
        let mut k: usize = 0;
        while k < records.len()
            invariant
                k <= records.len(),
                names@.map_values(|s: String| s@) == record_versions(records@).take(k as int),
            decreases records.len() - k,
        {
            let ghost prior = names@;
            names.push(records[k].core_version.clone());
            proof {
                assert(names@.map_values(|s: String| s@) =~= prior.map_values(|s: String| s@).push(
                    records@[k as int].core_version@,
                ));
                assert(record_versions(records@).take(k + 1) =~= record_versions(records@).take(
                    k as int,
                ).push(records@[k as int].core_version@));
            }
            k = k + 1;
        }
        assert(record_versions(records@).take(records.len() as int) =~= record_versions(records@));
        let supported = join_strings(&names, ", ");
        let mut message = String::from_str("CORE_COMPATIBILITY_UNSUPPORTED_VERSION: ");
        message.append(version);
        message.append(" has no tested compatibility record; supported: ");
        message.append(supported.as_str());
        Err(message)
    }

    /// The installed version (as semver renders it).
    pub fn version(&self) -> (res: &str)
        ensures
            res@ == self.spec_version(),
    {
        self.version.as_str()
    }

    /// The exact versioned plugin artifact directory.
    pub fn plugin_artifact_set(&self) -> (res: &str)
        ensures
            res@ == self.spec_record().plugin_artifact_set@,
    {
        self.record.plugin_artifact_set.as_str()
    }

    /// Whether the core already provides the Windows terminal inspector.
    pub fn provides_win_terminal_inspector(&self) -> (res: bool)
        ensures
            res == self.spec_record().provides_win_terminal_inspector,
    {
        self.record.provides_win_terminal_inspector
    }

    /// The launch protocol of the record.
    pub fn web_launch_protocol(&self) -> (res: WebLaunchProtocol)
        ensures
            res == self.spec_record().web_launch_protocol,
    {
        self.record.web_launch_protocol
    }

    /// The stable identifier of the launch protocol.
    pub fn web_launch_protocol_id(&self) -> (res: &'static str)
        ensures
            res@ == protocol_id(self.spec_record().web_launch_protocol),
    {
        match self.record.web_launch_protocol {
            WebLaunchProtocol::DirectLoopbackV1 => "direct-loopback-v1",
            WebLaunchProtocol::TokenCookieV1 => "token-cookie-v1",
        }
    }

    /// The full capability summary, for diagnostics and assertions.
    pub fn capability_summary(&self) -> (res: CoreCapabilitySummary)
        ensures
            res.core_version@ == self.spec_version(),
            res.web_launch_protocol@ == protocol_id(self.spec_record().web_launch_protocol),
            res.client_abi@ == self.spec_record().client_abi@,
            res.slot_protocol@ == self.spec_record().slot_protocol@,
            res.workspace_navigation_protocol@ == self.spec_record().workspace_navigation_protocol@,
            res.workspace_archive_protocol@ == self.spec_record().workspace_archive_protocol@,
            res.session_format@ == self.spec_record().session_format@,
            res.plugin_artifact_set@ == self.spec_record().plugin_artifact_set@,
    {
        CoreCapabilitySummary {
            core_version: self.version.clone(),
            web_launch_protocol: String::from_str(self.web_launch_protocol_id()),
            client_abi: self.record.client_abi.clone(),
            slot_protocol: self.record.slot_protocol.clone(),
            workspace_navigation_protocol: self.record.workspace_navigation_protocol.clone(),
            workspace_archive_protocol: self.record.workspace_archive_protocol.clone(),
            session_format: self.record.session_format.clone(),
            plugin_artifact_set: self.record.plugin_artifact_set.clone(),
        }
    }

    /// Whether the protocol signals Loader readiness with a one-time authenticated URL.
    pub fn requires_authenticated_url(&self) -> (res: bool)
        ensures
            res == (self.spec_record().web_launch_protocol == WebLaunchProtocol::TokenCookieV1),
    {
        self.record.web_launch_protocol == WebLaunchProtocol::TokenCookieV1
    }

    /// The application-private overlay to write before launch: its file name
    /// under `dsh-compatibility/` and its content; none for direct loopback.
    pub fn overlay(&self) -> (res: Option<(&'static str, &'static str)>)
        ensures
            match self.spec_record().web_launch_protocol {
                WebLaunchProtocol::DirectLoopbackV1 => res is None,
                WebLaunchProtocol::TokenCookieV1 => res == Some(
                    ("web-launch-token-cookie-v1.cordis.yml", TOKEN_COOKIE_OVERLAY),
                ),
            },
    {
        match self.record.web_launch_protocol {
            WebLaunchProtocol::DirectLoopbackV1 => None,
            WebLaunchProtocol::TokenCookieV1 => Some(
                ("web-launch-token-cookie-v1.cordis.yml", TOKEN_COOKIE_OVERLAY),
            ),
        }
    }

    /// The complete Node argv (the dsh entry script first).
    pub fn launch_args(&self, dsh_binary: &str, profile: &str, port: u16, overlay: Option<&str>) -> (res:
        Vec<String>)
        ensures
            res@.map_values(|s: String| s@) == launch_argv(
                dsh_binary@,
                profile@,
                port,
                match overlay {
                    Some(p) => Some(p@),
                    None => None,
                },
                self.spec_record().supports_no_open,
            ),
    {
        dsh_launch_args(dsh_binary, profile, port, overlay, self.record.supports_no_open)
    }

    /// The WebView navigation address: the loopback service URL for direct
    /// loopback, else the authenticated WebView URL once the token is known.
    pub fn webview_url(&self, service_url: &str, authenticated_webview_url: Option<String>) -> (res:
        Option<String>)
        ensures
            match self.spec_record().web_launch_protocol {
                WebLaunchProtocol::DirectLoopbackV1 => res matches Some(u) && u@ == service_url@,
                WebLaunchProtocol::TokenCookieV1 => res == authenticated_webview_url,
            },
    {
        match self.record.web_launch_protocol {
            WebLaunchProtocol::DirectLoopbackV1 => Some(String::from_str(service_url)),
            WebLaunchProtocol::TokenCookieV1 => authenticated_webview_url,
        }
    }
}

impl CompatibilityRecord {
    /// A copy of the record with the same contents.
    pub fn clone_record(&self) -> (res: CompatibilityRecord)
        ensures
            res == *self,
    {
        CompatibilityRecord {
            core_version: self.core_version.clone(),
            web_launch_protocol: self.web_launch_protocol,
            client_abi: self.client_abi.clone(),
            slot_protocol: self.slot_protocol.clone(),
            workspace_navigation_protocol: self.workspace_navigation_protocol.clone(),
            workspace_archive_protocol: self.workspace_archive_protocol.clone(),
            session_format: self.session_format.clone(),
            plugin_artifact_set: self.plugin_artifact_set.clone(),
            supports_no_open: self.supports_no_open,
            provides_win_terminal_inspector: self.provides_win_terminal_inspector,
        }
    }
}

/// No record before `i` names `version` and record `i` does: `i` is the first.
pub proof fn lemma_record_index_prefix(records: Seq<CompatibilityRecord>, version: Seq<char>, i: int)
    requires
        0 <= i < records.len(),
        record_index(records.take(i), version) is None,
        records[i].core_version@ == version,
    ensures
        record_index(records, version) == Some(i),
    decreases records.len(),
{
    if i == records.len() - 1 {
        assert(records.drop_last() =~= records.take(i));
    } else {
        assert(records.drop_last().take(i) =~= records.take(i));
        lemma_record_index_prefix(records.drop_last(), version, i);
    }
}

/// A version has a record exactly when some record names it: `record_index`
/// then points at the first such record, and no earlier record names it.
pub proof fn lemma_record_index_exists(records: Seq<CompatibilityRecord>, version: Seq<char>)
    ensures
        record_index(records, version) is Some <==> exists|i: int|
            0 <= i < records.len() && (#[trigger] records[i]).core_version@ == version,
        record_index(records, version) matches Some(i) ==> 0 <= i < records.len()
            && records[i].core_version@ == version && forall|j: int|
            0 <= j < i ==> (#[trigger] records[j]).core_version@ != version,
    decreases records.len(),
{
    if records.len() > 0 {
        let prev = records.drop_last();
        lemma_record_index_exists(prev, version);
        assert forall|j: int| 0 <= j < prev.len() implies #[trigger] prev[j] == records[j] by {}
        if record_index(prev, version) is None {
            if records.last().core_version@ != version {
                assert forall|i: int| 0 <= i < records.len() implies (#[trigger] records[i]).core_version@
                    != version by {
                    if i < prev.len() {
                        assert(prev[i] == records[i]);
                    }
                }
            } else {
                assert(records[records.len() - 1].core_version@ == version);
                assert forall|j: int| 0 <= j < records.len() - 1 implies (#[trigger] records[j]).core_version@
                    != version by {
                    assert(prev[j] == records[j]);
                }
            }
        } else {
            let i = record_index(prev, version)->0;
            assert(records[i] == prev[i]);
            assert forall|j: int| 0 <= j < i implies (#[trigger] records[j]).core_version@ != version by {
                assert(prev[j] == records[j]);
            }
        }
    }
}

} // verus!
