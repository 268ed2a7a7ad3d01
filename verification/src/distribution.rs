//! The Harness version and manifest the desktop shell distributes.

use vstd::prelude::*;
use crate::text::{trim, trim_str};
use crate::url::option_view;
use crate::versions::{parse_version, semver_parsed};

verus! {

/// Where the bundled distribution is fetched from.
#[derive(Debug, Clone)]
pub enum BundledSource {
    Github,
    Manifest { url: String },
}

/// The bundled distribution configuration.
#[derive(Debug, Clone)]
pub struct BundledDistribution {
    pub version: String,
    pub source: BundledSource,
}

/// The Harness version the shell selected, and the optional manifest address.
#[derive(Debug, Clone, PartialEq, Eq)]
pub struct DshDistribution {
    pub version: String,
    pub manifest_url: Option<String>,
}

/// The version to use: the environment's when it is not blank, else the bundled one.
pub open spec fn chosen_version(bundled: Seq<char>, env_version: Option<Seq<char>>) -> Seq<char> {
    match env_version {
        Some(v) => if trim(v).len() > 0 {
            v
        } else {
            bundled
        },
        None => bundled,
    }
}

/// The manifest address: a set environment variable decides (blank means
/// none); otherwise the bundled source does.
pub open spec fn chosen_manifest(source: BundledSource, env_manifest: Option<Seq<char>>) -> Option<Seq<char>> {
    match env_manifest {
        Some(v) => if trim(v).len() == 0 {
            None
        } else {
            Some(v)
        },
        None => match source {
            BundledSource::Github => None,
            BundledSource::Manifest { url } => Some(url@),
        },
    }
}

/// Select the distribution from the bundled configuration and the
/// `DSH_DESKTOP_VERSION` / `DSH_DESKTOP_MANIFEST_URL` overrides (`None` when a
/// variable is unset); the chosen version must be valid semver.
pub fn dsh_distribution(
    bundled: BundledDistribution,
    env_version: Option<String>,
    env_manifest_url: Option<String>,
) -> (res: Result<DshDistribution, String>)
    ensures
        ({
            let version = chosen_version(bundled.version@, option_view(env_version));
            match semver_parsed(version) {
                Err(e) => res matches Err(m) && m@ == "DSH_DISTRIBUTION_VERSION_INVALID: "@ + e,
                Ok(_) => res matches Ok(d) && d.version@ == version && option_view(d.manifest_url)
                    == chosen_manifest(bundled.source, option_view(env_manifest_url)),
            }
        }),
{
    let version = match env_version {
        Some(v) => if trim_str(v.as_str()).unicode_len() > 0 {
            v
        } else {
            bundled.version
        },
        None => bundled.version,
    };
    match parse_version(version.as_str()) {
        Ok(_) => {},
        Err(e) => {
            let mut m = String::from_str("DSH_DISTRIBUTION_VERSION_INVALID: ");
            m.append(e.as_str());
            return Err(m);
        },
    }
    let manifest_url = match env_manifest_url {
        Some(v) => if trim_str(v.as_str()).unicode_len() == 0 {
            None
        } else {
            Some(v)
        },
        None => match bundled.source {
            BundledSource::Github => None,
            BundledSource::Manifest { url } => Some(url),
        },
    };
    Ok(DshDistribution { version, manifest_url })
}

} // verus!
