use dsh_desktop::plugin_compat::{
    compatibility_report, empty_report, names_to_probe, profile_references,
    require_compatible, require_packaged_plugin_compatible, PackageManifest, ProfileManifest,
    Resolution,
};

fn manifest(name: &str, deps: &[(&str, &str)], bundle: bool, inject: &[&str]) -> PackageManifest {
    PackageManifest {
        name: name.to_string(),
        dependencies: deps.iter().map(|(k, v)| (k.to_string(), v.to_string())).collect(),
        has_bundle: bundle,
        inject: inject.iter().map(|s| s.to_string()).collect(),
    }
}

#[test]
fn reports_removed_client_module_and_owned_core_dependency() {
    // profile package.json: {"dependencies":{"plugin":"1.0.0"},"dsh":{"profile":{"bundles":["plugin"]}}}
    let profile = ProfileManifest {
        dependencies: vec!["plugin".to_string()],
        bundles: vec!["plugin".to_string()],
    };
    let references = profile_references(&profile);
    assert_eq!(references, vec!["plugin"]);
    let resolved = vec![Resolution::Found {
        reference: "plugin".to_string(),
        manifest: manifest(
            "plugin",
            &[("@deepseek-ai/dsh-old", "^1")],
            true,
            &["@deepseek-ai/dsh-client-runtime"],
        ),
        profile_owned: true,
    }];
    assert_eq!(
        names_to_probe(&resolved),
        vec!["@deepseek-ai/dsh-client-runtime", "@deepseek-ai/dsh-client-runtime"]
    );
    let report = compatibility_report("core", "profile", &resolved, &vec![]);
    assert!(!report.compatible);
    assert_eq!(report.issues.len(), 2);
    assert_eq!(report.issues[0].code, "PLUGIN_CLIENT_MODULE_MISSING");
    assert_eq!(report.issues[1].code, "PLUGIN_OWNS_CORE_DEPENDENCY");
    assert_eq!(report.checked_packages, vec!["plugin"]);
    assert_eq!(
        report.issues[1].detail,
        "plugin declares @deepseek-ai/dsh-old@^1 as a runtime dependency; DSH packages must come from the selected core"
    );
    assert_eq!(
        require_compatible(&report).unwrap_err(),
        "PLUGIN_INCOMPATIBLE: PLUGIN_CLIENT_MODULE_MISSING:plugin->@deepseek-ai/dsh-client-runtime, PLUGIN_OWNS_CORE_DEPENDENCY:plugin->@deepseek-ai/dsh-old"
    );
}

#[test]
fn accepts_injections_provided_by_selected_core() {
    let resolved = vec![Resolution::Found {
        reference: "plugin".to_string(),
        manifest: manifest("plugin", &[], true, &["@deepseek-ai/dsh-client-store"]),
        profile_owned: true,
    }];
    let present = vec!["@deepseek-ai/dsh-client-store".to_string()];
    let report = compatibility_report("core", "profile", &resolved, &present);
    assert!(report.compatible, "{:?}", report.issues);
    assert!(require_compatible(&report).is_ok());
}

#[test]
fn rejects_plain_dependency_that_cannot_activate_as_plugin() {
    let resolved = vec![Resolution::Found {
        reference: "plugin".to_string(),
        manifest: manifest("plugin", &[], false, &[]),
        profile_owned: true,
    }];
    let report = compatibility_report("core", "profile", &resolved, &vec![]);
    assert_eq!(report.issues.len(), 1);
    assert_eq!(report.issues[0].code, "PLUGIN_BUNDLE_MISSING");
}

#[test]
fn missing_packages_and_legacy_cores_are_reported_in_order() {
    let profile = ProfileManifest {
        dependencies: vec!["b".to_string(), "a".to_string()],
        bundles: vec!["c".to_string(), "a".to_string()],
    };
    assert_eq!(profile_references(&profile), vec!["a", "b", "c"]);
    let resolved = vec![
        Resolution::Missing { reference: "a".to_string() },
        Resolution::Found {
            reference: "b".to_string(),
            manifest: manifest("", &[("@deepseek-ai/dsh-x", "1")], true, &[]),
            profile_owned: true,
        },
        Resolution::Found {
            reference: "c".to_string(),
            manifest: manifest("core-plugin", &[], false, &[]),
            profile_owned: false,
        },
    ];
    let legacy = vec!["@deepseek-ai/dsh-client-runtime".to_string()];
    let report = compatibility_report("core", "profile", &resolved, &legacy);
    assert_eq!(report.checked_packages, vec!["b", "core-plugin"]);
    assert_eq!(report.issues.len(), 1);
    assert_eq!(report.issues[0].code, "PLUGIN_PACKAGE_MISSING");
    assert_eq!(report.issues[0].package, "a");
    let without_legacy = compatibility_report("core", "profile", &resolved, &vec![]);
    let codes: Vec<&str> = without_legacy.issues.iter().map(|i| i.code.as_str()).collect();
    assert_eq!(codes, vec!["PLUGIN_PACKAGE_MISSING", "PLUGIN_OWNS_CORE_DEPENDENCY"]);
    let empty = empty_report("core", "profile");
    assert!(empty.compatible && empty.issues.is_empty() && empty.checked_packages.is_empty());
}

#[test]
fn packaged_plugins_are_checked_against_the_core() {
    let ok = manifest("p", &[("left-pad", "1")], true, &["@deepseek-ai/dsh-client-store"]);
    let present = vec!["@deepseek-ai/dsh-client-store".to_string()];
    assert!(require_packaged_plugin_compatible("dir", &ok, &present).is_ok());
    let bad = manifest("", &[("@deepseek-ai/dsh-a", "1")], false, &["x"]);
    assert_eq!(
        require_packaged_plugin_compatible("dir", &bad, &vec![]).unwrap_err(),
        "PLUGIN_INCOMPATIBLE: PLUGIN_BUNDLE_MISSING:dir, PLUGIN_CLIENT_MODULE_MISSING:dir->x, PLUGIN_OWNS_CORE_DEPENDENCY:dir->@deepseek-ai/dsh-a"
    );
}
