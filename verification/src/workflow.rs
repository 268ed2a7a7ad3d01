//! Decisions of the DSH process workflow: the one-time authenticated browser
//! URL, readiness probes of the boot page, and service log rotation.
//!
//! The shell keeps the captured URL in a process-wide slot; here the slot's
//! content is passed in and the value to store is handed back.

use vstd::prelude::*;
use vstd::string::StringSliceAdditionalSpecFns;
use vstd::utf8::*;
use crate::text::{
    bytes_of, decimal, decimal_string, find_from, find_str, first_word, first_word_str,
    lemma_encode_concat, lemma_match_end_boundary, lemma_match_start_boundary, matches_at,
    replace_bytes, replace_str, starts_with_str, str_from, str_slice, trim_start,
    trim_start_str,
};
use crate::url::{
    is_loopback_host, loopback_host, option_view, parse_url, parsed_url, remove_url_query,
    replace_url_host, url_host_replaced, url_query_removed, UrlView,
};

verus! {

broadcast use vstd::utf8::group_utf8_lib;

/// The stdout prefix under which DSH announces its browser URL.
pub const WEB_ANNOUNCEMENT: &'static str = "dsh web: ";

/// What replaces the query of a captured URL in the persisted log line.
pub const CAPTURED_NOTE: &'static str = " (authenticated URL captured by Desktop)";

/// The host alias that makes the WebView same-site with the shell.
pub const WEBVIEW_HOST: &'static str = "dsh.tauri.localhost";

/// Whether decoded query pairs carry a non-empty `token`.
pub open spec fn has_token(query: Seq<(Seq<char>, Seq<char>)>) -> bool {
    exists|i: int| 0 <= i < query.len() && (#[trigger] query[i]).0 == "token"@ && query[i].1.len() > 0
}

/// Whether a parsed URL has a loopback host.
pub open spec fn has_loopback_host(parts: UrlView) -> bool {
    match parts.1 {
        Some(host) => is_loopback_host(host),
        None => false,
    }
}

/// The word announced after `dsh web: `, if the line is an announcement.
pub open spec fn announced_url(line: Seq<char>) -> Option<Seq<char>> {
    let prefix = WEB_ANNOUNCEMENT@;
    if line.len() >= prefix.len() && line.subrange(0, prefix.len() as int) == prefix {
        first_word(line.subrange(prefix.len() as int, line.len() as int))
    } else {
        None
    }
}

/// The URL a line announces that qualifies for capture: loopback host and a
/// non-empty token.
pub open spec fn capturable(line: Seq<char>) -> Option<Seq<char>> {
    match announced_url(line) {
        Some(candidate) => match parsed_url(candidate) {
            Ok(parts) => if has_loopback_host(parts) && has_token(parts.3) {
                Some(candidate)
            } else {
                None
            },
            Err(_) => None,
        },
        None => None,
    }
}

fn query_has_token(query: &Vec<(String, String)>) -> (res: bool)
    ensures
        res == has_token(query@.map_values(|p: (String, String)| (p.0@, p.1@))),
{
    let ghost q = query@.map_values(|p: (String, String)| (p.0@, p.1@));
    let mut i: usize = 0;
    while i < query.len()
        invariant
            i <= query.len(),
            q == query@.map_values(|p: (String, String)| (p.0@, p.1@)),
            forall|j: int| 0 <= j < i ==> !((#[trigger] q[j]).0 == "token"@ && q[j].1.len() > 0),
        decreases query.len() - i,
    {
        if crate::order::str_equal(query[i].0.as_str(), "token") && !query[i].1.as_str().is_empty() {
            assert(q[i as int].0 == "token"@ && q[i as int].1.len() > 0);
            return true;
        }
        i = i + 1;
    }
    false
}

fn host_is_loopback(host: &Option<String>) -> (res: bool)
    ensures
        res == match option_view(*host) {
            Some(h) => is_loopback_host(h),
            None => false,
        },
{
    match host {
        Some(h) => loopback_host(h.as_str()),
        None => false,
    }
}

/// The word after `dsh web: `, when the line starts with it.
fn announcement(line: &str) -> (res: Option<&str>)
    ensures
        match res {
            Some(w) => announced_url(line@) == Some(w@),
            None => announced_url(line@) is None,
        },
{
    let prefix_bytes = WEB_ANNOUNCEMENT.as_bytes().len();
    if !starts_with_str(line, WEB_ANNOUNCEMENT) {
        proof {
            let prefix = WEB_ANNOUNCEMENT@;
            if line@.len() >= prefix.len() && line@.subrange(0, prefix.len() as int) == prefix {
                assert(line@ =~= prefix + line@.subrange(prefix.len() as int, line@.len() as int));
                lemma_encode_concat(prefix, line@.subrange(prefix.len() as int, line@.len() as int));
                assert(line.spec_bytes().subrange(0, WEB_ANNOUNCEMENT.spec_bytes().len() as int)
                    =~= WEB_ANNOUNCEMENT.spec_bytes());
            }
        }
        return None;
    }
    proof {
        lemma_match_end_boundary(line.spec_bytes(), WEB_ANNOUNCEMENT.spec_bytes(), 0);
    }
    let rest = str_from(line, prefix_bytes);
    proof {
        let b = line.spec_bytes();
        let pb = WEB_ANNOUNCEMENT.spec_bytes();
        let head = decode_utf8(b.subrange(0, pb.len() as int));
        assert(b.subrange(0, pb.len() as int) == pb);
        assert(head == WEB_ANNOUNCEMENT@);
        assert(decode_utf8(b) == line@);
        assert(decode_utf8(b) =~= head + rest@);
        let prefix = WEB_ANNOUNCEMENT@;
        assert(line@.subrange(0, prefix.len() as int) =~= prefix);
        assert(line@.subrange(prefix.len() as int, line@.len() as int) =~= rest@);
    }
    first_word_str(rest)
}

/// Capture the authenticated browser URL that new DSH versions announce, and
/// return the log line that is safe to persist together with the URL to keep.
///
/// A qualifying announcement (loopback host, non-empty `token`) is logged with
/// its query removed and a note appended; any other line is logged unchanged
/// and nothing is captured.
pub fn capture_authenticated_service_url(line: &str) -> (res: (String, Option<String>))
    ensures
        match capturable(line@) {
            None => res.0@ == line@ && res.1 is None,
            Some(candidate) => {
                &&& option_view(res.1) == Some(candidate)
                &&& url_query_removed(candidate) matches Some(stripped)
                &&& res.0@ == WEB_ANNOUNCEMENT@ + stripped + CAPTURED_NOTE@
            },
        },
{
    let candidate = match announcement(line) {
        Some(c) => c,
        None => return (String::from_str(line), None),
    };
    let parts = match parse_url(candidate) {
        Ok(p) => p,
        Err(_) => return (String::from_str(line), None),
    };
    let loopback = host_is_loopback(&parts.host);
    let token = query_has_token(&parts.query);
    if !loopback || !token {
        return (String::from_str(line), None);
    }
    let stripped = match remove_url_query(candidate) {
        Some(u) => u,
        None => return (String::from_str(line), None),
    };
    let mut safe = String::from_str(WEB_ANNOUNCEMENT);
    safe.append(stripped.as_str());
    safe.append(CAPTURED_NOTE);
    (safe, Some(String::from_str(candidate)))
}

/// The captured URL, when it belongs to `port` (its port, or the scheme's default).
pub open spec fn url_for_port(slot: Option<Seq<char>>, port: u16) -> Option<Seq<char>> {
    match slot {
        Some(url) => match parsed_url(url) {
            Ok(parts) => if parts.2 == Some(port) {
                Some(url)
            } else {
                None
            },
            Err(_) => None,
        },
        None => None,
    }
}

/// The one-time authenticated browser URL published for `port`, if the slot holds one.
pub fn authenticated_service_url(slot: &Option<String>, port: u16) -> (res: Option<String>)
    ensures
        option_view(res) == url_for_port(option_view(*slot), port),
{
    match slot {
        Some(url) => match parse_url(url.as_str()) {
            Ok(parts) => match parts.port {
                Some(p) => if p == port {
                    Some(url.clone())
                } else {
                    None
                },
                None => None,
            },
            Err(_) => None,
        },
        None => None,
    }
}

/// The same-site WebView address: the authenticated URL for `port` with its
/// host replaced by `dsh.tauri.localhost`.
pub fn authenticated_webview_url(slot: &Option<String>, port: u16) -> (res: Option<String>)
    ensures
        option_view(res) == match url_for_port(option_view(*slot), port) {
            Some(url) => url_host_replaced(url, WEBVIEW_HOST@),
            None => None,
        },
{
    match authenticated_service_url(slot, port) {
        Some(url) => replace_url_host(url.as_str(), WEBVIEW_HOST),
        None => None,
    }
}

/// What the slot keeps is served back for its own port only: a URL whose port
/// is `port` is returned for `port` and for no other port.
pub proof fn lemma_slot_serves_its_port(url: Seq<char>, port: u16)
    requires
        parsed_url(url) matches Ok(parts) && parts.2 == Some(port),
    ensures
        url_for_port(Some(url), port) == Some(url),
        forall|q: u16| q != port ==> #[trigger] url_for_port(Some(url), q) is None,
{
}

/// Only authenticated loopback URLs are kept: a line whose URL is captured
/// announces a URL that parses, has a loopback host and carries a non-empty
/// token; a restored URL has the same properties and belongs to its port.
pub proof fn lemma_kept_urls_are_authenticated(line: Seq<char>, candidate: Seq<char>, port: u16)
    ensures
        capturable(line) matches Some(c) ==> (parsed_url(c) matches Ok(parts) && has_loopback_host(
            parts,
        ) && has_token(parts.3)),
        (parsed_url(candidate) matches Ok(parts) && has_loopback_host(parts) && parts.2 == Some(port)
            && has_token(parts.3)) ==> url_for_port(Some(candidate), port) == Some(candidate),
{
}

/// The message of a refused recovery URL.
pub const RECOVERY_INVALID: &'static str =
    "HARNESS_RECOVERY_URL_INVALID: URL must contain a token for the owned loopback port";

/// Accept a browser URL re-issued by the detached Harness control plugin when the
/// shell recovers: it must parse, have a loopback host, belong to `port` and
/// carry a non-empty token. On success the URL to store in the slot is returned.
pub fn restore_authenticated_service_url(candidate: &str, port: u16) -> (res: Result<String, String>)
    ensures
        match parsed_url(candidate@) {
            Err(e) => res matches Err(m) && m@ == "HARNESS_RECOVERY_URL_PARSE: "@ + e,
            Ok(parts) => if has_loopback_host(parts) && parts.2 == Some(port) && has_token(parts.3) {
                res matches Ok(stored) && stored@ == candidate@
            } else {
                res matches Err(m) && m@ == RECOVERY_INVALID@
            },
        },
{
    let parts = match parse_url(candidate) {
        Ok(p) => p,
        Err(e) => {
            let mut m = String::from_str("HARNESS_RECOVERY_URL_PARSE: ");
            m.append(e.as_str());
            return Err(m);
        },
    };
    let loopback = host_is_loopback(&parts.host);
    let token = query_has_token(&parts.query);
    let port_matches = match parts.port {
        Some(p) => p == port,
        None => false,
    };
    if !loopback || !port_matches || !token {
        return Err(String::from_str(RECOVERY_INVALID));
    }
    Ok(String::from_str(candidate))
}


/// The client bundles whose boot-page URLs prove that the Loader graph is live.
pub open spec fn probe_package(k: int) -> Seq<char> {
    if k == 0 {
        "@deepseek-ai/dsh-client-modules"@
    } else {
        "@deepseek-ai/dsh-client-ui-layout"@
    }
}

/// The route a bundle is served under: merged (`/plugins/??pkg/client.js`) or single.
pub open spec fn bundle_route(package: Seq<char>, merged: bool) -> Seq<char> {
    (if merged {
        "/plugins/??"@
    } else {
        "/plugins/"@
    }) + package + "/client.js"@
}

/// The probe URL the boot page declares for one package: the first merged
/// route (else the first single route) up to the next `"`, with `&amp;`
/// unescaped, on the loopback service at `port`.
pub open spec fn probe_url(port: u16, html: Seq<u8>, package: Seq<char>) -> Option<Seq<u8>> {
    let start = match find_from(html, bytes_of(bundle_route(package, true)), 0) {
        Some(i) => Some(i),
        None => find_from(html, bytes_of(bundle_route(package, false)), 0),
    };
    match start {
        None => None,
        Some(s) => {
            let tail = html.subrange(s, html.len() as int);
            match find_from(tail, bytes_of("\""@), 0) {
                None => None,
                Some(e) => Some(
                    bytes_of("http://127.0.0.1:"@ + decimal(port as nat)) + replace_bytes(
                        tail.subrange(0, e),
                        bytes_of("&amp;"@),
                        bytes_of("&"@),
                    ),
                ),
            }
        },
    }
}

/// The probe URLs of both packages, in order, skipping those the page lacks.
pub open spec fn probe_urls(port: u16, html: Seq<u8>) -> Seq<Seq<u8>> {
    let first = match probe_url(port, html, probe_package(0)) {
        Some(u) => seq![u],
        None => seq![],
    };
    let second = match probe_url(port, html, probe_package(1)) {
        Some(u) => seq![u],
        None => seq![],
    };
    first + second
}

fn route(package: &str, merged: bool) -> (res: String)
    ensures
        res@ == bundle_route(package@, merged),
{
    let mut r = if merged {
        String::from_str("/plugins/??")
    } else {
        String::from_str("/plugins/")
    };
    r.append(package);
    r.append("/client.js");
    r
}

fn probe_url_for(port: u16, html: &str, package: &str) -> (res: Option<String>)
    ensures
        match res {
            Some(u) => probe_url(port, html.spec_bytes(), package@) == Some(bytes_of(u@)),
            None => probe_url(port, html.spec_bytes(), package@) is None,
        },
{
    let merged = route(package, true);
    let single = route(package, false);
    proof {
        reveal_strlit("/plugins/??");
        reveal_strlit("/plugins/");
        assert(merged@.len() > 0 && single@.len() > 0);
        assert(decode_utf8(bytes_of(merged@)) == merged@);
        assert(decode_utf8(bytes_of(single@)) == single@);
    }
    let found = match find_str(html, merged.as_str(), 0) {
        Some(i) => Some(i),
        None => find_str(html, single.as_str(), 0),
    };
    let start = match found {
        Some(i) => i,
        None => return None,
    };
    let ghost hb = html.spec_bytes();
    proof {
        let pat = if find_from(hb, bytes_of(merged@), 0) is Some {
            bytes_of(merged@)
        } else {
            bytes_of(single@)
        };
        assert(find_from(hb, pat, 0) == Some(start as int));
        lemma_find_from_match(hb, pat, 0);
        assert(pat.len() > 0) by {
            if pat.len() == 0 {
                assert(decode_utf8(pat) =~= Seq::<char>::empty());
            }
        }
        lemma_match_start_boundary(hb, pat, start as int);
    }
    let tail = str_from(html, start);
    let quote = find_str(tail, "\"", 0);
    let end = match quote {
        Some(e) => e,
        None => return None,
    };
    proof {
        let tb = tail.spec_bytes();
        reveal_strlit("\"");
        lemma_find_from_match(tb, "\"".spec_bytes(), 0);
        assert("\"".spec_bytes().len() > 0) by {
            assert(vstd::utf8::is_ascii_chars("\""@));
        }
        lemma_match_start_boundary(tb, "\"".spec_bytes(), end as int);
        assert(is_char_boundary(tb, 0));
    }
    let path = str_slice(tail, 0, end);
    proof {
        reveal_strlit("&amp;");
        assert("&amp;"@.len() > 0);
    }
    let unescaped = replace_str(path, "&amp;", "&");
    let mut url = String::from_str("http://127.0.0.1:");
    let digits = decimal_string(port as u128);
    url.append(digits.as_str());
    url.append(unescaped.as_str());
    proof {
        lemma_encode_concat("http://127.0.0.1:"@, digits@);
        lemma_encode_concat("http://127.0.0.1:"@ + digits@, unescaped@);
        assert(url@ == "http://127.0.0.1:"@ + digits@ + unescaped@);
    }
    Some(url)
}

/// A `find_from` result is a match.
pub proof fn lemma_find_from_match(s: Seq<u8>, pat: Seq<u8>, from: int)
    ensures
        find_from(s, pat, from) matches Some(i) ==> from <= i && matches_at(s, pat, i),
    decreases s.len() + 1 - from,
{
    if from >= 0 && from + pat.len() <= s.len() && !matches_at(s, pat, from) {
        lemma_find_from_match(s, pat, from + 1);
    }
}

/// Probe URLs for the client bundles, taken from the boot page with the
/// revisions it declares: a page that declares neither yields none.
pub fn health_probe_plugin_urls(port: u16, boot_html: &str) -> (res: Vec<String>)
    ensures
        res@.map_values(|s: String| bytes_of(s@)) == probe_urls(port, boot_html.spec_bytes()),
{
    let mut urls: Vec<String> = Vec::new();
    let first = probe_url_for(port, boot_html, "@deepseek-ai/dsh-client-modules");
    match first {
        Some(u) => urls.push(u),
        None => {},
    }
    let ghost after_first = urls@;
    let second = probe_url_for(port, boot_html, "@deepseek-ai/dsh-client-ui-layout");
    match second {
        Some(u) => urls.push(u),
        None => {},
    }
    proof {
        assert(urls@.map_values(|s: String| bytes_of(s@)) =~= probe_urls(port, boot_html.spec_bytes()));
    }
    urls
}

/// ASCII lower case of one byte.
pub open spec fn ascii_lower(b: u8) -> u8 {
    if 65 <= b <= 90 {
        (b + 32) as u8
    } else {
        b
    }
}

/// Whether `b` starts with `prefix` ignoring ASCII case (`prefix` is lower case).
pub open spec fn starts_with_ignoring_case(b: Seq<u8>, prefix: Seq<u8>) -> bool {
    b.len() >= prefix.len() && forall|i: int| 0 <= i < prefix.len() ==> ascii_lower(#[trigger] b[i]) == prefix[i]
}

fn bytes_start_ignoring_case(b: &[u8], prefix: &[u8]) -> (res: bool)
    ensures
        res == starts_with_ignoring_case(b@, prefix@),
{
    if b.len() < prefix.len() {
        return false;
    }
    let mut i: usize = 0;
    while i < prefix.len()
        invariant
            i <= prefix.len() <= b.len(),
            forall|j: int| 0 <= j < i ==> ascii_lower(#[trigger] b@[j]) == prefix@[j],
        decreases prefix.len() - i,
    {
        let c = b[i];
        let lower = if 65 <= c && c <= 90 {
            c + 32
        } else {
            c
        };
        if lower != prefix[i] {
            return false;
        }
        i = i + 1;
    }
    true
}

/// Whether a probe response is a usable plugin bundle: a success status and a
/// body that, after leading white space, is not empty and is not an HTML page
/// (an unknown `/plugins/...` path falls back to `index.html` with status 200).
pub open spec fn is_plugin_bundle(ok_status: bool, body: Seq<char>) -> bool {
    let t = bytes_of(trim_start(body));
    ok_status && t.len() > 0 && !starts_with_ignoring_case(t, bytes_of("<!doctype"@))
        && !starts_with_ignoring_case(t, bytes_of("<html"@))
}

/// Whether a probe response is a usable plugin bundle (see `is_plugin_bundle`).
pub fn looks_like_plugin_bundle(ok_status: bool, body: &str) -> (res: bool)
    ensures
        res == is_plugin_bundle(ok_status, body@),
{
    if !ok_status {
        return false;
    }
    let trimmed = trim_start_str(body);
    let tb = trimmed.as_bytes();
    if tb.len() == 0 {
        return false;
    }
    if bytes_start_ignoring_case(tb, "<!doctype".as_bytes()) || bytes_start_ignoring_case(
        tb,
        "<html".as_bytes(),
    ) {
        return false;
    }
    true
}
} // verus!
