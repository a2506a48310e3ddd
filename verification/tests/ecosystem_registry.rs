//! Routing of files to ecosystems.

use deps_core::ecosystem_registry::{EcosystemDescriptor, EcosystemRegistry};

struct MockEcosystem {
    id: &'static str,
    display_name: &'static str,
    filenames: &'static [&'static str],
    lockfiles: &'static [&'static str],
}

struct MockExtEcosystem {
    id: &'static str,
    filenames: &'static [&'static str],
    extensions: &'static [&'static str],
}

struct MockPatternEcosystem {
    id: &'static str,
    patterns: &'static [&'static str],
}

fn owned(list: &[&str]) -> Vec<String> {
    list.iter().map(|s| s.to_string()).collect()
}

impl From<MockEcosystem> for EcosystemDescriptor {
    fn from(m: MockEcosystem) -> Self {
        let mut d = EcosystemDescriptor::new(m.id, m.display_name);
        d.manifest_filenames = owned(m.filenames);
        d.lockfile_filenames = owned(m.lockfiles);
        d
    }
}

impl From<MockExtEcosystem> for EcosystemDescriptor {
    fn from(m: MockExtEcosystem) -> Self {
        let mut d = EcosystemDescriptor::new(m.id, m.id);
        d.manifest_filenames = owned(m.filenames);
        d.manifest_extensions = owned(m.extensions);
        d
    }
}

impl From<MockPatternEcosystem> for EcosystemDescriptor {
    fn from(m: MockPatternEcosystem) -> Self {
        let mut d = EcosystemDescriptor::new(m.id, m.id);
        d.manifest_patterns = owned(m.patterns);
        d
    }
}

fn descriptor<M: Into<EcosystemDescriptor>>(m: M) -> EcosystemDescriptor {
    m.into()
}

fn pypi_pattern_registry() -> EcosystemRegistry {
    let mut registry = EcosystemRegistry::new();
    registry.register(descriptor(MockPatternEcosystem {
        id: "pypi",
        patterns: &[
            "requirements*.txt",
            "*-requirements.txt",
            "*.requirements.txt",
            "constraints*.txt",
        ],
    }));
    registry
}

#[test]
fn test_get_for_filename_pattern_matches_requirements_variants() {
    let registry = pypi_pattern_registry();
    for name in [
        "requirements.txt",
        "requirements-dev.txt",
        "requirements.dev.txt",
        "requirements_test.txt",
        "dev-requirements.txt",
        "test.requirements.txt",
        "constraints.txt",
        "constraints-prod.txt",
    ] {
        assert_eq!(
            registry.get_for_filename(name).map(|e| e.id()),
            Some("pypi"),
            "{name} should match a PyPI pattern"
        );
    }
}

#[test]
fn test_get_for_filename_pattern_does_not_match_unrelated_files() {
    let registry = pypi_pattern_registry();
    for name in [
        "notes.txt",
        "LICENSE.txt",
        "myrequirements.txt",
        "requirements.txt.bak",
        "Requirements.txt",
        "requirements",
    ] {
        assert!(
            registry.get_for_filename(name).is_none(),
            "{name} should not match any PyPI pattern"
        );
    }
}

#[test]
fn test_get_for_filename_exact_name_wins_over_pattern() {
    let mut registry = EcosystemRegistry::new();
    registry.register(descriptor(MockEcosystem {
        id: "exact",
        display_name: "Exact",
        filenames: &["requirements.txt"],
        lockfiles: &[],
    }));
    registry.register(descriptor(MockPatternEcosystem {
        id: "pattern",
        patterns: &["requirements*.txt"],
    }));

    assert_eq!(
        registry.get_for_filename("requirements.txt").unwrap().id(),
        "exact"
    );
}

#[test]
fn test_get_for_filename_pattern_wins_over_extension() {
    let mut registry = EcosystemRegistry::new();
    registry.register(descriptor(MockExtEcosystem {
        id: "ext",
        filenames: &[],
        extensions: &[".txt"],
    }));
    registry.register(descriptor(MockPatternEcosystem {
        id: "pattern",
        patterns: &["requirements*.txt"],
    }));

    assert_eq!(
        registry.get_for_filename("requirements.txt").unwrap().id(),
        "pattern"
    );
}

#[test]
fn test_get_for_filename_pattern_most_specific_wins_deterministically() {
    let registry = pypi_pattern_registry();
    assert_eq!(
        registry
            .get_for_filename("requirements.requirements.txt")
            .unwrap()
            .id(),
        "pypi"
    );
}

#[test]
fn test_new_registry_is_empty() {
    let registry = EcosystemRegistry::new();
    assert_eq!(registry.ecosystem_ids().len(), 0);
}

#[test]
fn test_register_ecosystem() {
    let mut registry = EcosystemRegistry::new();
    let ecosystem = descriptor(MockEcosystem {
        id: "test",
        display_name: "Test Ecosystem",
        filenames: &["test.toml"],
        lockfiles: &[],
    });

    registry.register(ecosystem);

    assert_eq!(registry.ecosystem_ids().len(), 1);
    assert!(registry.get("test").is_some());
}

#[test]
fn test_get_by_id() {
    let mut registry = EcosystemRegistry::new();
    let ecosystem = descriptor(MockEcosystem {
        id: "test",
        display_name: "Test Ecosystem",
        filenames: &["test.toml"],
        lockfiles: &[],
    });

    registry.register(ecosystem);

    let retrieved = registry.get("test").unwrap();
    assert_eq!(retrieved.id(), "test");
    assert_eq!(retrieved.display_name(), "Test Ecosystem");
}

#[test]
fn test_get_by_filename() {
    let mut registry = EcosystemRegistry::new();
    let ecosystem = descriptor(MockEcosystem {
        id: "test",
        display_name: "Test Ecosystem",
        filenames: &["test.toml", "test.json"],
        lockfiles: &[],
    });

    registry.register(ecosystem);

    let retrieved1 = registry.get_for_filename("test.toml").unwrap();
    assert_eq!(retrieved1.id(), "test");

    let retrieved2 = registry.get_for_filename("test.json").unwrap();
    assert_eq!(retrieved2.id(), "test");

    assert!(registry.get_for_filename("unknown.toml").is_none());
}

#[test]
fn test_get_by_uri() {
    let mut registry = EcosystemRegistry::new();
    let ecosystem = descriptor(MockEcosystem {
        id: "test",
        display_name: "Test Ecosystem",
        filenames: &["test.toml"],
        lockfiles: &[],
    });

    registry.register(ecosystem);

    let uri = "/home/user/project/test.toml";
    let retrieved = registry.get_for_uri(uri).unwrap();
    assert_eq!(retrieved.id(), "test");

    let unknown_uri = "/home/user/project/unknown.toml";
    assert!(registry.get_for_uri(unknown_uri).is_none());
}

#[test]
fn test_multiple_ecosystems() {
    let mut registry = EcosystemRegistry::new();

    let eco1 = descriptor(MockEcosystem {
        id: "cargo",
        display_name: "Cargo",
        filenames: &["Cargo.toml"],
        lockfiles: &["Cargo.lock"],
    });

    let eco2 = descriptor(MockEcosystem {
        id: "npm",
        display_name: "npm",
        filenames: &["package.json"],
        lockfiles: &["package-lock.json"],
    });

    registry.register(eco1);
    registry.register(eco2);

    assert_eq!(registry.ecosystem_ids().len(), 2);

    assert_eq!(
        registry.get_for_filename("Cargo.toml").unwrap().id(),
        "cargo"
    );
    assert_eq!(
        registry.get_for_filename("package.json").unwrap().id(),
        "npm"
    );
}

#[test]
fn test_get_for_lockfile() {
    let mut registry = EcosystemRegistry::new();
    let ecosystem = descriptor(MockEcosystem {
        id: "cargo",
        display_name: "Cargo",
        filenames: &["Cargo.toml"],
        lockfiles: &["Cargo.lock"],
    });

    registry.register(ecosystem);

    let retrieved = registry.get_for_lockfile("Cargo.lock").unwrap();
    assert_eq!(retrieved.id(), "cargo");
    assert_eq!(retrieved.display_name(), "Cargo");
    assert!(registry.get_for_lockfile("unknown.lock").is_none());
}

#[test]
fn test_get_for_lockfile_multiple_lockfiles() {
    let mut registry = EcosystemRegistry::new();
    let ecosystem = descriptor(MockEcosystem {
        id: "pypi",
        display_name: "PyPI",
        filenames: &["pyproject.toml"],
        lockfiles: &["poetry.lock", "uv.lock"],
    });

    registry.register(ecosystem);

    let retrieved1 = registry.get_for_lockfile("poetry.lock").unwrap();
    assert_eq!(retrieved1.id(), "pypi");

    let retrieved2 = registry.get_for_lockfile("uv.lock").unwrap();
    assert_eq!(retrieved2.id(), "pypi");
}

#[test]
fn test_all_lockfile_patterns_empty() {
    let registry = EcosystemRegistry::new();
    assert!(registry.all_lockfile_patterns().is_empty());
}

#[test]
fn test_all_lockfile_patterns_single_ecosystem() {
    let mut registry = EcosystemRegistry::new();
    let ecosystem = descriptor(MockEcosystem {
        id: "cargo",
        display_name: "Cargo",
        filenames: &["Cargo.toml"],
        lockfiles: &["Cargo.lock"],
    });

    registry.register(ecosystem);

    let patterns = registry.all_lockfile_patterns();
    assert_eq!(patterns.len(), 1);
    assert_eq!(patterns[0], "**/Cargo.lock");
}

#[test]
fn test_all_lockfile_patterns_multiple_ecosystems() {
    let mut registry = EcosystemRegistry::new();

    let eco1 = descriptor(MockEcosystem {
        id: "cargo",
        display_name: "Cargo",
        filenames: &["Cargo.toml"],
        lockfiles: &["Cargo.lock"],
    });

    let eco2 = descriptor(MockEcosystem {
        id: "npm",
        display_name: "npm",
        filenames: &["package.json"],
        lockfiles: &["package-lock.json"],
    });

    let eco3 = descriptor(MockEcosystem {
        id: "pypi",
        display_name: "PyPI",
        filenames: &["pyproject.toml"],
        lockfiles: &["poetry.lock", "uv.lock"],
    });

    registry.register(eco1);
    registry.register(eco2);
    registry.register(eco3);

    let patterns = registry.all_lockfile_patterns();
    assert_eq!(patterns.len(), 4);
    assert!(patterns.contains(&"**/Cargo.lock".to_string()));
    assert!(patterns.contains(&"**/package-lock.json".to_string()));
    assert!(patterns.contains(&"**/poetry.lock".to_string()));
    assert!(patterns.contains(&"**/uv.lock".to_string()));
}

#[test]
fn test_all_lockfile_patterns_no_lockfiles() {
    let mut registry = EcosystemRegistry::new();
    let ecosystem = descriptor(MockEcosystem {
        id: "test",
        display_name: "Test",
        filenames: &["test.toml"],
        lockfiles: &[],
    });

    registry.register(ecosystem);

    let patterns = registry.all_lockfile_patterns();
    assert!(patterns.is_empty());
}

#[test]
fn test_get_for_filename_extension_fallback() {
    let mut registry = EcosystemRegistry::new();
    registry.register(descriptor(MockExtEcosystem {
        id: "nuget",
        filenames: &["Directory.Packages.props"],
        extensions: &[".csproj", ".fsproj"],
    }));

    assert_eq!(
        registry.get_for_filename("MyApp.csproj").unwrap().id(),
        "nuget"
    );
    assert_eq!(
        registry
            .get_for_filename("Directory.Packages.props")
            .unwrap()
            .id(),
        "nuget"
    );
    assert!(registry.get_for_filename("unrelated.txt").is_none());
}

#[test]
fn test_get_for_filename_extension_fallback_case_insensitive() {
    let mut registry = EcosystemRegistry::new();
    registry.register(descriptor(MockExtEcosystem {
        id: "nuget",
        filenames: &["Directory.Packages.props"],
        extensions: &[".csproj"],
    }));

    assert_eq!(
        registry.get_for_filename("MyApp.CSPROJ").unwrap().id(),
        "nuget"
    );
}

#[test]
fn test_get_for_filename_exact_match_case_sensitive_not_shadowed_by_extension() {
    let mut registry = EcosystemRegistry::new();
    registry.register(descriptor(MockExtEcosystem {
        id: "nuget",
        filenames: &["packages.config"],
        extensions: &[],
    }));
    assert!(registry.get_for_filename("packages.Config").is_none());
}

#[test]
fn test_get_for_filename_no_extension_returns_none() {
    let mut registry = EcosystemRegistry::new();
    registry.register(descriptor(MockExtEcosystem {
        id: "nuget",
        filenames: &[],
        extensions: &[".csproj"],
    }));

    assert!(registry.get_for_filename("README").is_none());
}

#[test]
fn equally_specific_patterns_are_chosen_in_the_order_of_strings() {
    for order in [["a*bb", "aa*b"], ["aa*b", "a*bb"]] {
        let mut registry = EcosystemRegistry::new();
        for pattern in order {
            let mut d = EcosystemDescriptor::new(pattern, pattern);
            d.manifest_patterns = vec![pattern.to_string()];
            registry.register(d);
        }
        // Both match and are equally long; `a*bb` stands first in the order of strings.
        assert_eq!(registry.get_for_filename("aabb").unwrap().id(), "a*bb");
    }
}

#[test]
fn more_specific_pattern_wins_over_an_earlier_string() {
    let mut registry = EcosystemRegistry::new();
    registry.register(descriptor(MockPatternEcosystem { id: "short", patterns: &["a*"] }));
    registry.register(descriptor(MockPatternEcosystem { id: "long", patterns: &["*.lock"] }));
    assert_eq!(registry.get_for_filename("a.lock").unwrap().id(), "long");
}

#[test]
fn pattern_parts_do_not_overlap_and_patterns_need_a_star() {
    let mut registry = EcosystemRegistry::new();
    registry.register(descriptor(MockPatternEcosystem { id: "p", patterns: &["ab*ba", "plain"] }));
    assert!(registry.get_for_filename("aba").is_none());
    assert_eq!(registry.get_for_filename("abba").unwrap().id(), "p");
    assert!(registry.get_for_filename("plain").is_none());
}

#[test]
fn later_registration_replaces_an_earlier_claim() {
    let mut registry = EcosystemRegistry::new();
    registry.register(descriptor(MockExtEcosystem { id: "one", filenames: &["m"], extensions: &[".x"] }));
    registry.register(descriptor(MockExtEcosystem { id: "two", filenames: &["m"], extensions: &[".x"] }));
    assert_eq!(registry.get_for_filename("m").unwrap().id(), "two");
    assert_eq!(registry.get_for_filename("a.X").unwrap().id(), "two");
    registry.register(descriptor(MockEcosystem {
        id: "one",
        display_name: "One again",
        filenames: &[],
        lockfiles: &["one.lock"],
    }));
    assert_eq!(registry.get("one").unwrap().display_name(), "One again");
    assert_eq!(registry.ecosystem_ids(), vec!["two", "one"]);
    assert_eq!(registry.all_lockfile_patterns(), vec!["**/one.lock".to_string()]);
}

fn workflow_registry() -> EcosystemRegistry {
    let mut registry = EcosystemRegistry::default();
    let mut actions = EcosystemDescriptor::new("github-actions", "GitHub Actions");
    actions.manifest_directory_patterns =
        vec![(".github/workflows".to_string(), ".yml".to_string())];
    registry.register(actions);
    let mut pypi = EcosystemDescriptor::new("pypi", "PyPI");
    pypi.manifest_directory_patterns = vec![("requirements".to_string(), ".txt".to_string())];
    registry.register(pypi);
    registry
}

#[test]
fn directory_patterns_match_the_tail_of_the_directory() {
    let registry = workflow_registry();
    let found = registry.get_for_uri("/home/user/repo/.github/workflows/ci.yml");
    assert_eq!(found.unwrap().id(), "github-actions");
    assert_eq!(registry.get_for_uri("/p/requirements/base.txt").unwrap().id(), "pypi");
    assert_eq!(registry.get_for_uri("requirements/base.txt").unwrap().id(), "pypi");
    // Segment boundaries, suffix and depth all count.
    assert!(registry.get_for_uri("/p/myrequirements/base.txt").is_none());
    assert!(registry.get_for_uri("/p/requirements/base.md").is_none());
    assert!(registry.get_for_uri("/p/requirements/deep/base.txt").is_none());
    assert!(registry.get_for_uri("/p/workflows/ci.yml").is_none());
    // Never from the basename alone.
    assert!(registry.get_for_filename("base.txt").is_none());
}

#[test]
fn file_name_takes_precedence_over_the_directory() {
    let mut registry = workflow_registry();
    registry.register(descriptor(MockEcosystem {
        id: "exact",
        display_name: "Exact",
        filenames: &["base.txt"],
        lockfiles: &[],
    }));
    assert_eq!(registry.get_for_uri("/p/requirements/base.txt").unwrap().id(), "exact");
}

#[test]
fn first_registered_ecosystem_owns_a_shared_lock_file() {
    let mut registry = EcosystemRegistry::new();
    for id in ["a", "b"] {
        let mut d = EcosystemDescriptor::new(id, id);
        d.lockfile_filenames = vec!["shared.lock".to_string()];
        registry.register(d);
    }
    assert_eq!(registry.get_for_lockfile("shared.lock").unwrap().id(), "a");
}
