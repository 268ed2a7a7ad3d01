//! URLs as the `url` crate (re-exported by `reqwest`) parses them, and the
//! loopback-host rule of the desktop shell.

use vstd::prelude::*;
use vstd::string::StringSliceAdditionalSpecFns;
use crate::order::str_equal;

verus! {

/// What the shell reads from a parsed URL.
#[derive(Debug)]
pub struct UrlParts {
    /// `Url::scheme`.
    pub scheme: String,
    /// `Url::host_str`.
    pub host: Option<String>,
    /// `Url::port_or_known_default`.
    pub port: Option<u16>,
    /// `Url::query_pairs`, decoded.
    pub query: Vec<(String, String)>,
}

/// The parts as plain values.
pub type UrlView = (Seq<char>, Option<Seq<char>>, Option<u16>, Seq<(Seq<char>, Seq<char>)>);

pub open spec fn option_view(o: Option<String>) -> Option<Seq<char>> {
    match o {
        Some(s) => Some(s@),
        None => None,
    }
}

impl View for UrlParts {
    type V = UrlView;

    open spec fn view(&self) -> UrlView {
        (
            self.scheme@,
            option_view(self.host),
            self.port,
            self.query@.map_values(|p: (String, String)| (p.0@, p.1@)),
        )
    }
}

/// What `reqwest::Url::parse(text)` gives, read through `scheme`, `host_str`,
/// `port_or_known_default` and `query_pairs`; or the parse error as its
/// `Display` renders it.
pub uninterp spec fn parsed_url(text: Seq<char>) -> Result<UrlView, Seq<char>>;

/// Parse a URL with `reqwest::Url::parse` and read its scheme, host, port (the
/// scheme's default when absent) and decoded query pairs. Named, not described.
#[verifier::external_body]
pub fn parse_url(text: &str) -> (res: Result<UrlParts, String>)
    ensures
        match res {
            Ok(parts) => parsed_url(text@) == Ok::<UrlView, Seq<char>>(parts@),
            Err(e) => parsed_url(text@) == Err::<UrlView, Seq<char>>(e@),
        },
{
    match reqwest::Url::parse(text) {
        Ok(url) => Ok(UrlParts {
            scheme: url.scheme().to_string(),
            host: url.host_str().map(|host| host.to_string()),
            port: url.port_or_known_default(),
            query: url.query_pairs().map(|(k, v)| (k.into_owned(), v.into_owned())).collect(),
        }),
        Err(error) => Err(error.to_string()),
    }
}

/// What parsing `text` with `reqwest::Url::parse`, then `set_host(Some(host))`,
/// then rendering with `to_string` gives; `None` when either step fails.
pub uninterp spec fn url_host_replaced(text: Seq<char>, host: Seq<char>) -> Option<Seq<char>>;

/// Replace the host of a URL. Named, not described.
#[verifier::external_body]
pub fn replace_url_host(text: &str, host: &str) -> (res: Option<String>)
    ensures
        option_view(res) == url_host_replaced(text@, host@),
{
    let mut url = reqwest::Url::parse(text).ok()?;
    url.set_host(Some(host)).ok()?;
    Some(url.to_string())
}

/// What parsing `text` with `reqwest::Url::parse`, then `set_query(None)`,
/// then reading `as_str` gives; `None` when parsing fails.
pub uninterp spec fn url_query_removed(text: Seq<char>) -> Option<Seq<char>>;

/// Drop the query of a URL. Named, not described.
#[verifier::external_body]
pub fn remove_url_query(text: &str) -> (res: Option<String>)
    ensures
        option_view(res) == url_query_removed(text@),
        res is Some <==> parsed_url(text@) is Ok,
{
    let mut url = reqwest::Url::parse(text).ok()?;
    url.set_query(None);
    Some(url.as_str().to_string())
}

/// Scanner state for dotted-quad IPv4 text: completed octets, digits and value
/// of the current octet, whether it started with `0`, the first octet, and
/// whether the text is still well formed.
pub struct Ipv4Scan {
    pub done: int,
    pub digits: int,
    pub value: int,
    pub zero_first: bool,
    pub first: int,
    pub ok: bool,
}

pub open spec fn is_digit(b: u8) -> bool {
    48 <= b <= 57
}

/// One step of the scan: at most three digits per octet, no leading zero, at
/// most 255, exactly four octets separated by single dots.
pub open spec fn ipv4_step(s: Ipv4Scan, b: u8) -> Ipv4Scan {
    if !s.ok {
        s
    } else if is_digit(b) {
        let d = b - 48;
        let value = s.value * 10 + d;
        if s.digits == 3 || (s.digits >= 1 && s.zero_first) || value > 255 {
            Ipv4Scan { ok: false, ..s }
        } else {
            Ipv4Scan {
                digits: s.digits + 1,
                value: value,
                zero_first: if s.digits == 0 {
                    d == 0
                } else {
                    s.zero_first
                },
                ..s
            }
        }
    } else if b == 46 {
        if s.digits == 0 || s.done == 3 {
            Ipv4Scan { ok: false, ..s }
        } else {
            Ipv4Scan {
                done: s.done + 1,
                digits: 0,
                value: 0,
                zero_first: false,
                first: if s.done == 0 {
                    s.value
                } else {
                    s.first
                },
                ok: true,
            }
        }
    } else {
        Ipv4Scan { ok: false, ..s }
    }
}

pub open spec fn ipv4_scan(h: Seq<u8>) -> Ipv4Scan
    decreases h.len(),
{
    if h.len() == 0 {
        Ipv4Scan { done: 0, digits: 0, value: 0, zero_first: false, first: 0, ok: true }
    } else {
        ipv4_step(ipv4_scan(h.drop_last()), h.last())
    }
}

/// Whether `h` is IPv4 text in the grammar of `std::net::Ipv4Addr::from_str`
/// whose first octet is 127 (a loopback address).
pub open spec fn is_ipv4_loopback(h: Seq<u8>) -> bool {
    let s = ipv4_scan(h);
    s.ok && s.done == 3 && s.digits > 0 && s.first == 127
}

/// A host the shell treats as loopback: `localhost`, or an IPv4 address in
/// 127.0.0.0/8 (an IPv6 host is rendered in brackets and never qualifies).
pub open spec fn is_loopback_host(host: Seq<char>) -> bool {
    host == "localhost"@ || is_ipv4_loopback(vstd::utf8::encode_utf8(host))
}

/// Whether `host` is a loopback host.
pub fn loopback_host(host: &str) -> (res: bool)
    ensures
        res == is_loopback_host(host@),
{
    if str_equal(host, "localhost") {
        return true;
    }
    let b = host.as_bytes();
    let mut done: u8 = 0;
    let mut digits: u8 = 0;
    let mut value: u16 = 0;
    let mut zero_first = false;
    let mut first: u16 = 0;
    let mut i: usize = 0;
    assert(b@.take(0) =~= Seq::<u8>::empty());
    while i < b.len()
        invariant
            i <= b.len(),
            host@ != "localhost"@,
            b@ == host.spec_bytes(),
            ({
                let s = ipv4_scan(b@.take(i as int));
                &&& s.ok
                &&& s.done == done
                &&& s.digits == digits
                &&& s.value == value
                &&& s.zero_first == zero_first
                &&& s.first == first
            }),
            done <= 3,
            digits <= 3,
            value <= 255,
            first <= 255,
        decreases b.len() - i,
    {
        let c = b[i];
        proof {
            assert(b@.take(i + 1).drop_last() =~= b@.take(i as int));
            assert(b@.take(i + 1).last() == c);
            assert(ipv4_scan(b@.take(i + 1)) == ipv4_step(ipv4_scan(b@.take(i as int)), c));
        }
        if 48 <= c && c <= 57 {
            let d = (c - 48) as u16;
            if digits == 3 || (digits >= 1 && zero_first) || value * 10 + d > 255 {
                proof {
                    lemma_scan_stays_failed(b@, i as int + 1);
                }
                return false;
            }
            if digits == 0 {
                zero_first = d == 0;
            }
            digits = digits + 1;
            value = value * 10 + d;
        } else if c == 46 {
            if digits == 0 || done == 3 {
                proof {
                    lemma_scan_stays_failed(b@, i as int + 1);
                }
                return false;
            }
            if done == 0 {
                first = value;
            }
            done = done + 1;
            digits = 0;
            value = 0;
            zero_first = false;
        } else {
            proof {
                lemma_scan_stays_failed(b@, i as int + 1);
            }
            return false;
        }
        i = i + 1;
    }
    assert(b@.take(b.len() as int) =~= b@);
    done == 3 && digits > 0 && first == 127
}

/// Once the scan fails it stays failed.
pub proof fn lemma_scan_stays_failed(h: Seq<u8>, i: int)
    requires
        0 <= i <= h.len(),
        !ipv4_scan(h.take(i)).ok,
    ensures
        !ipv4_scan(h).ok,
    decreases h.len() - i,
{
    if i < h.len() {
        assert(h.take(i + 1).drop_last() =~= h.take(i));
        lemma_scan_stays_failed(h, i + 1);
    } else {
        assert(h.take(i) =~= h);
    }
}

} // verus!
