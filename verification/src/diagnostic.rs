//! Diagnostics, independent of any editor protocol.

use crate::position::Range;
use vstd::prelude::*;

verus! {

/// `url::Url`, carried through diagnostics as it is.
#[verifier::external_type_specification]
#[verifier::external_body]
pub struct ExUrl(url::Url);

/// `Url::clone`, which the clones of the types below go through: the copy is the same URL.
pub assume_specification[ <url::Url as std::clone::Clone>::clone ](u: &url::Url) -> (r: url::Url)
    ensures
        r == *u,
;

/// How severe a diagnostic is.
#[derive(Debug, Clone, Copy, PartialEq, Eq, Hash, Structural)]
pub enum Severity {
    /// An error.
    Error,
    /// A warning.
    Warning,
    /// Information.
    Information,
    /// A hint.
    Hint,
}

/// The number that stands for a severity on the wire: 1 to 4, from error to hint.
pub open spec fn severity_code(severity: Severity) -> i32 {
    match severity {
        Severity::Error => 1,
        Severity::Warning => 2,
        Severity::Information => 3,
        Severity::Hint => 4,
    }
}

/// The severity that a number stands for; a number out of range is clamped to the nearest one.
pub open spec fn severity_of_code(code: i32) -> Severity {
    if code <= 1 {
        Severity::Error
    } else if code == 2 {
        Severity::Warning
    } else if code == 3 {
        Severity::Information
    } else {
        Severity::Hint
    }
}

impl Severity {
    /// The number that stands for this severity on the wire.
    #[must_use]
    pub fn wire_code(self) -> (r: i32)
        ensures
            r == severity_code(self),
    {
        match self {
            Severity::Error => 1,
            Severity::Warning => 2,
            Severity::Information => 3,
            Severity::Hint => 4,
        }
    }

    /// The severity that a number on the wire stands for. Numbers below 1 count as 1, numbers
    /// above 4 as 4.
    #[must_use]
    pub fn from_wire_code(code: i32) -> (r: Severity)
        ensures
            r == severity_of_code(code),
    {
        if code <= 1 {
            Severity::Error
        } else if code == 2 {
            Severity::Warning
        } else if code == 3 {
            Severity::Information
        } else {
            Severity::Hint
        }
    }
}

/// Where a diagnostic's code is explained.
#[non_exhaustive]
#[derive(Debug, Clone, PartialEq, Eq)]
pub struct CodeDescription {
    /// The page that explains the code.
    pub href: url::Url,
}

impl CodeDescription {
    /// The description at `href`.
    #[must_use]
    pub fn new(href: url::Url) -> (r: Self)
        ensures
            r.href == href,
    {
        CodeDescription { href }
    }
}

/// Another place that a diagnostic is about.
#[non_exhaustive]
#[derive(Debug, Clone, PartialEq, Eq)]
pub struct RelatedInformation {
    /// The document.
    pub uri: url::Url,
    /// The span in it.
    pub range: Range,
    /// What is to be seen there.
    pub message: String,
}

impl RelatedInformation {
    /// The place `range` in `uri`, with a message.
    #[must_use]
    pub fn new(uri: url::Url, range: Range, message: &str) -> (r: Self)
        ensures
            r.uri == uri,
            r.range == range,
            r.message@ == message@,
    {
        RelatedInformation { uri, range, message: message.to_owned() }
    }
}

/// A finding about a span of a document.
#[non_exhaustive]
#[derive(Debug, Clone, PartialEq, Eq)]
pub struct Diagnostic {
    /// The span.
    pub range: Range,
    /// How severe the finding is.
    pub severity: Option<Severity>,
    /// The finding's code, such as an advisory identifier.
    pub code: Option<String>,
    /// Where the code is explained.
    pub code_description: Option<CodeDescription>,
    /// The finding in words.
    pub message: String,
    /// Other places that the finding is about.
    pub related_information: Option<Vec<RelatedInformation>>,
}

impl Default for Diagnostic {
    fn default() -> (r: Self)
        ensures
            r.range == (Range {
                start: crate::position::Position { line: 0, character: 0 },
                end: crate::position::Position { line: 0, character: 0 },
            }),
            r.severity is None,
            r.code is None,
            r.code_description is None,
            r.message@ == Seq::<char>::empty(),
            r.related_information is None,
    {
        Diagnostic {
            range: Range::default(),
            severity: None,
            code: None,
            code_description: None,
            message: String::new(),
            related_information: None,
        }
    }
}

impl Diagnostic {
    /// A diagnostic with a span and a message only.
    #[must_use]
    pub fn new(range: Range, message: &str) -> (r: Self)
        ensures
            r.range == range,
            r.message@ == message@,
            r.severity is None,
            r.code is None,
            r.code_description is None,
            r.related_information is None,
    {
        Diagnostic {
            range,
            severity: None,
            code: None,
            code_description: None,
            message: message.to_owned(),
            related_information: None,
        }
    }

    /// The same diagnostic with a severity.
    #[must_use]
    pub fn with_severity(self, severity: Severity) -> (r: Self)
        ensures
            r == (Diagnostic { severity: Some(severity), ..self }),
    {
        Diagnostic { severity: Some(severity), ..self }
    }

    /// The same diagnostic with a code.
    #[must_use]
    pub fn with_code(self, code: &str) -> (r: Self)
        ensures
            r.code matches Some(c) && c@ == code@,
            r == (Diagnostic { code: r.code, ..self }),
    {
        Diagnostic { code: Some(code.to_owned()), ..self }
    }

    /// The same diagnostic with a description of its code.
    #[must_use]
    pub fn with_code_description(self, code_description: CodeDescription) -> (r: Self)
        ensures
            r == (Diagnostic { code_description: Some(code_description), ..self }),
    {
        Diagnostic { code_description: Some(code_description), ..self }
    }

    /// The same diagnostic with the other places it is about.
    #[must_use]
    pub fn with_related_information(self, related_information: Vec<RelatedInformation>) -> (r: Self)
        ensures
            r == (Diagnostic { related_information: Some(related_information), ..self }),
    {
        Diagnostic { related_information: Some(related_information), ..self }
    }
}

// ---------------------------------------------------------------------------
// Laws
// ---------------------------------------------------------------------------

/// A severity survives the way over the wire.
pub proof fn law_severity_round_trips(severity: Severity)
    ensures
        severity_of_code(severity_code(severity)) == severity,
{
}

/// Every number stands for a severity, and the one it stands for has the nearest number.
pub proof fn law_severity_codes_clamp(code: i32)
    ensures
        severity_code(severity_of_code(code)) == (if code < 1 {
            1
        } else if code > 4 {
            4
        } else {
            code as int
        }),
{
}

/// The more severe a diagnostic, the smaller its number: errors come first, hints last.
pub proof fn law_numbers_grow_as_severity_falls()
    ensures
        severity_code(Severity::Error) < severity_code(Severity::Warning) < severity_code(
            Severity::Information,
        ) < severity_code(Severity::Hint),
{
}

} // verus!
