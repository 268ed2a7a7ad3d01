use dsh_desktop::distribution::{dsh_distribution, BundledDistribution, BundledSource};

fn bundled(source: BundledSource) -> BundledDistribution {
    BundledDistribution {
        version: "0.1.2-alpha.1".to_string(),
        source,
    }
}

#[test]
fn bundled_alpha_from_github_has_no_manifest() {
    let d = dsh_distribution(bundled(BundledSource::Github), None, None).unwrap();
    assert_eq!(d.version, "0.1.2-alpha.1");
    assert_eq!(d.manifest_url, None);
}

#[test]
fn environment_overrides_version_and_manifest() {
    let d = dsh_distribution(
        bundled(BundledSource::Manifest {
            url: "https://m/x.json".to_string(),
        }),
        Some("0.1.3".to_string()),
        None,
    )
    .unwrap();
    assert_eq!(d.version, "0.1.3");
    assert_eq!(d.manifest_url.as_deref(), Some("https://m/x.json"));
    let d = dsh_distribution(
        bundled(BundledSource::Manifest {
            url: "https://m/x.json".to_string(),
        }),
        Some("  ".to_string()),
        Some(" ".to_string()),
    )
    .unwrap();
    assert_eq!(d.version, "0.1.2-alpha.1");
    assert_eq!(d.manifest_url, None);
    let d = dsh_distribution(
        bundled(BundledSource::Github),
        None,
        Some("file:///local.json".to_string()),
    )
    .unwrap();
    assert_eq!(d.manifest_url.as_deref(), Some("file:///local.json"));
}

#[test]
fn invalid_versions_are_refused() {
    let e = dsh_distribution(bundled(BundledSource::Github), Some("v1".to_string()), None)
        .unwrap_err();
    assert!(e.starts_with("DSH_DISTRIBUTION_VERSION_INVALID: "));
}
