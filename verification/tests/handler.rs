//! Inlay hints and hover texts.

use deps_core::ecosystem::Dependency;
use deps_core::handler::{
    generate_hover, generate_inlay_hints, split_dependencies, EcosystemHandler, InlayHintKind,
    InlayHintsConfig,
    VersionInfo, VersionStringGetter, YankedChecker,
};
use deps_core::position::{Position, Range};

struct Dep {
    name: String,
    requirement: Option<String>,
    line: u32,
}

impl Dependency for Dep {
    fn name(&self) -> &str {
        &self.name
    }
    fn name_range(&self) -> Range {
        Range::new(Position::new(self.line, 0), Position::new(self.line, 5))
    }
    fn version_requirement(&self) -> Option<&str> {
        self.requirement.as_deref()
    }
    fn version_range(&self) -> Option<Range> {
        Some(Range::new(Position::new(self.line, 9), Position::new(self.line, 14)))
    }
    fn version_literal(&self) -> Option<&str> {
        None
    }
}

struct Version {
    text: String,
    yanked: bool,
    features: Vec<String>,
}

impl VersionStringGetter for Version {
    fn version_string(&self) -> &str {
        &self.text
    }
}

impl YankedChecker for Version {
    fn is_yanked(&self) -> bool {
        self.yanked
    }
}

impl VersionInfo for Version {
    fn features(&self) -> Vec<String> {
        self.features.clone()
    }
}

/// A unified dependency that is the crate `serde` on line 3.
#[derive(Clone, Copy)]
struct Serde(#[allow(dead_code)] u8);

/// A unified dependency that is the crate `rand` without a requirement.
struct Bare(#[allow(dead_code)] u16);

/// A unified dependency of another ecosystem.
struct Foreign(#[allow(dead_code)] u32);

struct Crates;

impl EcosystemHandler for Crates {
    type Dependency = Dep;

    fn extract_dependency<U>(_dep: &U) -> Option<&Dep> {
        // The unified types of these tests are told apart by their size.
        match std::mem::size_of::<U>() {
            1 => Some(Box::leak(Box::new(Dep {
                name: "serde".to_string(),
                requirement: Some("1.0".to_string()),
                line: 3,
            }))),
            2 => Some(Box::leak(Box::new(Dep {
                name: "rand".to_string(),
                requirement: None,
                line: 4,
            }))),
            _ => None,
        }
    }
    fn package_url(name: &str) -> String {
        format!("https://crates.io/crates/{name}")
    }
    fn ecosystem_display_name() -> &'static str {
        "crates.io"
    }
    fn is_version_latest(version_req: &str, latest: &str) -> bool {
        version_req == latest
    }
}

fn version(text: &str, yanked: bool) -> Version {
    Version { text: text.to_string(), yanked, features: Vec::new() }
}

#[test]
fn only_hintable_dependencies_are_split() {
    let none: Vec<(String, Version)> = Vec::new();
    let (cached, pending) =
        split_dependencies::<Crates, Serde, Version>(&[Serde(0), Serde(1)], &none);
    assert!(cached.is_empty());
    assert_eq!(pending.len(), 2);
    assert_eq!(pending[0].name, "serde");
    assert_eq!(pending[0].version_req, "1.0");
    let known = vec![
        ("other".to_string(), version("9", false)),
        ("serde".to_string(), version("1.2.0", true)),
        ("serde".to_string(), version("7", false)),
    ];
    let (cached, pending) = split_dependencies::<Crates, Serde, Version>(&[Serde(0)], &known);
    assert!(pending.is_empty());
    assert_eq!(cached[0].latest_version, "1.2.0");
    assert!(cached[0].is_yanked);
    let (cached, pending) = split_dependencies::<Crates, Bare, Version>(&[Bare(0)], &known);
    assert!(cached.is_empty() && pending.is_empty());
    let (cached, pending) = split_dependencies::<Crates, Foreign, Version>(&[Foreign(0)], &known);
    assert!(cached.is_empty() && pending.is_empty());
}

#[test]
fn hint_shows_the_latest_version_and_where_to_find_it() {
    let config = InlayHintsConfig::default();
    assert!(config.enabled);
    let known = vec![("serde".to_string(), version("1.2.0", false))];
    let (cached, _) = split_dependencies::<Crates, Serde, Version>(&[Serde(0)], &known);
    let hints = generate_inlay_hints::<Crates, Version>(&cached, &Vec::new(), &config);
    assert_eq!(hints.len(), 1);
    assert_eq!(hints[0].position, Position::new(3, 14));
    assert_eq!(hints[0].label, "\u{274c} 1.2.0");
    assert_eq!(
        hints[0].tooltip,
        "[serde](https://crates.io/crates/serde) - https://crates.io/crates/serde\n\n\
         Latest: **1.2.0**"
    );
    assert_eq!(hints[0].command_title, "Open on crates.io");
    assert_eq!(hints[0].command, "vscode.open");
    assert_eq!(hints[0].url, "https://crates.io/crates/serde");
    assert_eq!(hints[0].kind, Some(InlayHintKind::Type));
    assert_eq!((hints[0].padding_left, hints[0].padding_right), (Some(true), None));
}

#[test]
fn yanked_latest_version_makes_no_hint() {
    let known = vec![("serde".to_string(), version("1.2.0", true))];
    let (cached, _) = split_dependencies::<Crates, Serde, Version>(&[Serde(0)], &known);
    let config = InlayHintsConfig::default();
    assert!(generate_inlay_hints::<Crates, Version>(&cached, &Vec::new(), &config).is_empty());
}

#[test]
fn fetched_versions_are_hinted_by_the_first_not_yanked() {
    let none: Vec<(String, Version)> = Vec::new();
    let (_, mut pending) =
        split_dependencies::<Crates, Serde, Version>(&[Serde(0), Serde(1), Serde(2)], &none);
    let config = InlayHintsConfig {
        enabled: true,
        up_to_date_text: "ok".to_string(),
        needs_update_text: "{} <- {}".to_string(),
    };
    let (c, b, a) = (pending.pop().unwrap(), pending.pop().unwrap(), pending.pop().unwrap());
    let fetched = vec![
        (a, Some(vec![version("2.0", true), version("1.0", false), version("0.9", false)])),
        (b, None),
        (c, Some(vec![version("2.0", false)])),
    ];
    let hints = generate_inlay_hints::<Crates, Version>(&Vec::new(), &fetched, &config);
    let labels: Vec<&str> = hints.iter().map(|h| h.label.as_str()).collect();
    assert_eq!(labels, vec!["ok", "2.0 <- 2.0"]);
}

#[test]
fn hover_lists_versions_and_features_up_to_their_caps() {
    let mut versions: Vec<Version> = (0..10).map(|i| version(&format!("1.{i}"), i == 0)).collect();
    versions[0].features = (0..11).map(|i| format!("f{i}")).collect();
    let hover = generate_hover::<Crates, Serde, Version>(&Serde(0), &versions).unwrap();
    assert_eq!(
        hover.markdown,
        "# [serde](https://crates.io/crates/serde)\n\n**Current**: `1.0`\n\n\
         \u{26a0}\u{fe0f} **Warning**: This version has been yanked\n\n\
         **Versions** *(use Cmd+. to update)*:\n- 1.0 *(latest)*\n- 1.1\n- 1.2\n- 1.3\n- 1.4\n\
         - 1.5\n- 1.6\n- 1.7\n- *...and 2 more*\n\n**Features**:\n- `f0`\n- `f1`\n- `f2`\n\
         - `f3`\n- `f4`\n- `f5`\n- `f6`\n- `f7`\n- `f8`\n- `f9`\n- *...and 1 more*\n"
    );
    assert_eq!(hover.range, Range::new(Position::new(3, 0), Position::new(3, 5)));
}

#[test]
fn hover_needs_a_dependency_and_a_version() {
    let versions = vec![version("1.0", false)];
    assert!(generate_hover::<Crates, Foreign, Version>(&Foreign(0), &versions).is_none());
    assert!(generate_hover::<Crates, Serde, Version>(&Serde(0), &Vec::new()).is_none());
    let hover = generate_hover::<Crates, Bare, Version>(&Bare(0), &versions).unwrap();
    assert_eq!(
        hover.markdown,
        "# [rand](https://crates.io/crates/rand)\n\n**Versions** *(use Cmd+. to update)*:\n\
         - 1.0 *(latest)*\n"
    );
}
