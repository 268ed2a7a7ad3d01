//! Semantic versions, parsed and compared by the `semver` crate.

use vstd::prelude::*;

verus! {

/// What `semver::Version::parse(text)` gives: the parsed version as its
/// `Display` renders it, or the parse error as its `Display` renders it.
pub uninterp spec fn semver_parsed(text: Seq<char>) -> Result<Seq<char>, Seq<char>>;

/// Parse `text` with `semver::Version::parse`; `Ok` holds the version rendered
/// by `Display`, `Err` the error rendered by `Display`. Both are named, not
/// described: semver's grammar is not restated here.
#[verifier::external_body]
pub fn parse_version(text: &str) -> (res: Result<String, String>)
    ensures
        match res {
            Ok(v) => semver_parsed(text@) == Ok::<Seq<char>, Seq<char>>(v@),
            Err(e) => semver_parsed(text@) == Err::<Seq<char>, Seq<char>>(e@),
        },
{
    match semver::Version::parse(text) {
        Ok(version) => Ok(version.to_string()),
        Err(error) => Err(error.to_string()),
    }
}

/// What comparing `semver::Version::parse(a)` with `semver::Version::parse(b)`
/// by `Ord` gives (-1, 0 or 1), or `None` when either does not parse.
pub uninterp spec fn semver_comparison(a: Seq<char>, b: Seq<char>) -> Option<i8>;

/// Compare two version texts by the `Ord` of `semver::Version` (major, minor,
/// patch, pre-release, build): -1, 0 or 1; `None` when either text does not
/// parse. The order itself is named, not described.
#[verifier::external_body]
pub fn compare_versions(a: &str, b: &str) -> (res: Option<i8>)
    ensures
        res == semver_comparison(a@, b@),
        res is Some <==> (semver_parsed(a@) is Ok && semver_parsed(b@) is Ok),
{
    match (semver::Version::parse(a), semver::Version::parse(b)) {
        (Ok(x), Ok(y)) => match x.cmp(&y) {
            std::cmp::Ordering::Less => Some(-1),
            std::cmp::Ordering::Equal => Some(0),
            std::cmp::Ordering::Greater => Some(1),
        },
        _ => None,
    }
}

/// What `format!("{:?}", text)` gives for a string: the text quoted and escaped.
pub uninterp spec fn debug_text(text: Seq<char>) -> Seq<char>;

/// The `Debug` rendering of a string (quoted, with escapes). Named, not described.
#[verifier::external_body]
pub fn debug_quoted(text: &str) -> (res: String)
    ensures
        res@ == debug_text(text@),
{
    format!("{:?}", text)
}

} // verus!
