//! Ecosystem identities and configuration.

use deps_core::ecosystem::{Dependency, EcosystemConfig, EcosystemId, LicenseSource};
use deps_core::error::DepsError;
use deps_core::position::Range;

#[test]
fn test_ecosystem_id_roundtrip() {
    const ALL: &[EcosystemId] = &[
        EcosystemId::Cargo,
        EcosystemId::Npm,
        EcosystemId::Pypi,
        EcosystemId::Go,
        EcosystemId::Bundler,
        EcosystemId::Dart,
        EcosystemId::Maven,
        EcosystemId::Composer,
        EcosystemId::Gradle,
        EcosystemId::Swift,
        EcosystemId::NuGet,
        EcosystemId::Deno,
        EcosystemId::GithubActions,
        EcosystemId::GitlabCi,
    ];

    for id in ALL {
        let parsed: EcosystemId = id.id().parse().ok().unwrap();
        assert_eq!(parsed, *id);
        assert_eq!(id.to_string(), id.id());
    }
}

#[test]
fn test_osv_ecosystem_mapping_pinned() {
    let expected: &[(EcosystemId, &str)] = &[
        (EcosystemId::Cargo, "crates.io"),
        (EcosystemId::Npm, "npm"),
        (EcosystemId::Pypi, "PyPI"),
        (EcosystemId::Go, "Go"),
        (EcosystemId::Bundler, "RubyGems"),
        (EcosystemId::Dart, "Pub"),
        (EcosystemId::Maven, "Maven"),
        (EcosystemId::Composer, "Packagist"),
        (EcosystemId::Gradle, "Maven"),
        (EcosystemId::Swift, "SwiftURL"),
        (EcosystemId::NuGet, "NuGet"),
        (EcosystemId::Deno, "npm"),
        (EcosystemId::GithubActions, "GitHub Actions"),
    ];

    for (id, expected_str) in expected {
        assert_eq!(
            id.osv_ecosystem(),
            Some(*expected_str),
            "unexpected OSV ecosystem string for {id:?}"
        );
    }
    assert_eq!(EcosystemId::GitlabCi.osv_ecosystem(), None);
}

#[test]
fn test_ecosystem_id_from_str_unknown() {
    let err = "unknown".parse::<EcosystemId>().err().unwrap();
    assert!(matches!(err, DepsError::UnsupportedEcosystem(s) if s == "unknown"));
}

#[test]
fn test_ecosystem_config_default() {
    let config = EcosystemConfig::default();
    assert!(config.show_up_to_date_hints);
    assert_eq!(config.up_to_date_text, "✅");
    assert_eq!(config.needs_update_text, "❌ {}");
}

#[test]
fn test_ecosystem_config_custom() {
    let config = EcosystemConfig {
        show_up_to_date_hints: false,
        up_to_date_text: "OK".to_string(),
        needs_update_text: "Update to {}".to_string(),
        loading_text: "Loading...".to_string(),
        show_loading_hints: false,
        offline: false,
    };
    assert!(!config.show_up_to_date_hints);
    assert_eq!(config.up_to_date_text, "OK");
    assert_eq!(config.needs_update_text, "Update to {}");
}

#[test]
fn test_ecosystem_config_clone() {
    let config1 = EcosystemConfig::default();
    let config2 = config1.clone();
    assert_eq!(config1.up_to_date_text, config2.up_to_date_text);
    assert_eq!(config1.show_up_to_date_hints, config2.show_up_to_date_hints);
    assert_eq!(config1.needs_update_text, config2.needs_update_text);
}

#[test]
fn test_dependency_default_features() {
    struct MockDep;
    impl Dependency for MockDep {
        fn name(&self) -> &str {
            "test"
        }
        fn name_range(&self) -> Range {
            Range::default()
        }
        fn version_requirement(&self) -> Option<&str> {
            None
        }
        fn version_range(&self) -> Option<Range> {
            None
        }
        fn version_literal(&self) -> Option<&str> {
            None
        }
    }

    let dep = MockDep;
    assert_eq!(dep.features(), &[] as &[String]);
    assert_eq!(dep.markers(), None);
    assert_eq!(dep.features_range(), None);
    assert_eq!(dep.markers_range(), None);
}

#[test]
fn every_ecosystem_is_listed_once() {
    let all = EcosystemId::all();
    assert_eq!(all.len(), 14);
    for (i, a) in all.iter().enumerate() {
        for b in &all[i + 1..] {
            assert_ne!(a.id(), b.id());
        }
    }
}

#[test]
fn only_the_registry_declared_license_needs_no_request() {
    assert_eq!(LicenseSource::default(), LicenseSource::RegistryDeclaredSpdx);
    assert!(!LicenseSource::RegistryDeclaredSpdx.requires_dedicated_fetch());
    assert!(LicenseSource::FetchedDeclaredSpdx.requires_dedicated_fetch());
    assert!(LicenseSource::DetectedSpdx.requires_dedicated_fetch());
    assert!(LicenseSource::PomFreeText.requires_dedicated_fetch());
}

#[test]
fn default_config_shows_loading_hints_online() {
    let config = EcosystemConfig::default();
    assert_eq!(config.loading_text, "⏳");
    assert!(config.show_loading_hints);
    assert!(!config.offline);
}
