//! Diagnostics and their severities.

use deps_core::diagnostic::{CodeDescription, Diagnostic, RelatedInformation, Severity};
use deps_core::position::{Position, Range};

#[test]
fn test_diagnostic_builder_sets_all_fields() {
    let href = url::Url::parse("https://osv.dev/GHSA-xxxx").unwrap();
    let related_uri = url::Url::parse("file:///Cargo.toml").unwrap();
    let diagnostic = Diagnostic::new(
        Range::new(Position::new(0, 0), Position::new(0, 4)),
        "vulnerable",
    )
    .with_severity(Severity::Error)
    .with_code("GHSA-xxxx")
    .with_code_description(CodeDescription::new(href.clone()))
    .with_related_information(vec![RelatedInformation::new(
        related_uri.clone(),
        Range::new(Position::new(1, 0), Position::new(1, 4)),
        "also here",
    )]);

    assert_eq!(diagnostic.severity, Some(Severity::Error));
    assert_eq!(diagnostic.code.as_deref(), Some("GHSA-xxxx"));
    assert_eq!(diagnostic.code_description.as_ref().unwrap().href, href);
    let related = diagnostic.related_information.as_ref().unwrap();
    assert_eq!(related.len(), 1);
    assert_eq!(related[0].uri, related_uri);
    assert_eq!(related[0].message, "also here");
}

#[test]
fn test_diagnostic_new_leaves_optional_fields_unset() {
    let diagnostic = Diagnostic::new(
        Range::new(Position::new(0, 0), Position::new(0, 1)),
        "message",
    );
    assert_eq!(diagnostic.severity, None);
    assert_eq!(diagnostic.code, None);
    assert_eq!(diagnostic.code_description, None);
    assert_eq!(diagnostic.related_information, None);
}

#[test]
fn test_severity_serialize_matches_lsp_wire_encoding() {
    assert_eq!(Severity::Error.wire_code(), 1);
    assert_eq!(Severity::Warning.wire_code(), 2);
    assert_eq!(Severity::Information.wire_code(), 3);
    assert_eq!(Severity::Hint.wire_code(), 4);
}

#[test]
fn test_severity_deserialize_accepts_every_valid_value() {
    assert_eq!(
        Severity::from_wire_code(1),
        Severity::Error
    );
    assert_eq!(
        Severity::from_wire_code(2),
        Severity::Warning
    );
    assert_eq!(
        Severity::from_wire_code(3),
        Severity::Information
    );
    assert_eq!(
        Severity::from_wire_code(4),
        Severity::Hint
    );
}

#[test]
fn test_severity_roundtrips_through_serialize_deserialize() {
    for severity in [
        Severity::Error,
        Severity::Warning,
        Severity::Information,
        Severity::Hint,
    ] {
        let code = severity.wire_code();
        assert_eq!(Severity::from_wire_code(code), severity);
    }
}

#[test]
fn test_severity_deserialize_clamps_out_of_range_values_instead_of_failing() {
    assert_eq!(
        Severity::from_wire_code(0),
        Severity::Error
    );
    assert_eq!(
        Severity::from_wire_code(-5),
        Severity::Error
    );
    assert_eq!(
        Severity::from_wire_code(5),
        Severity::Hint
    );
    assert_eq!(
        Severity::from_wire_code(999),
        Severity::Hint
    );
}

#[test]
fn default_diagnostic_is_empty() {
    let diagnostic = Diagnostic::default();
    assert_eq!(diagnostic.range, Range::default());
    assert_eq!(diagnostic.message, "");
    assert_eq!(diagnostic.severity, None);
    assert_eq!(diagnostic.clone(), diagnostic);
}
