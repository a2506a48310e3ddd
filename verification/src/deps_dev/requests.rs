//! The requests to deps.dev, and what their answers amount to.

use crate::deps_dev::project::{path_segment, DepsDevSystem};
use crate::error::DepsError;
use crate::formatter::option_text;
use vstd::prelude::*;
use vstd::utf8::encode_utf8;

verus! {

/// The deps.dev API.
pub const DEPS_DEV_API: &'static str = "https://api.deps.dev";

/// Time limit of a call on a live request path, in milliseconds.
pub const DEPS_DEV_CALL_TIMEOUT: u64 = 400;

/// Time limit of a call of the typosquat prefetch, in milliseconds. It runs in the background and
/// can afford to wait for popular packages, whose answers take longer.
pub const TYPOSQUAT_CALL_TIMEOUT: u64 = 3_000;

/// Time limit of a version-scoped GOSSIP call, in milliseconds.
pub const GOSSIP_CALL_TIMEOUT: u64 = 400;

/// Time limit of a GOSSIP batch call, in milliseconds.
pub const GOSSIP_BATCH_CALL_TIMEOUT: u64 = 5_000;

/// Largest response body that is read, in bytes.
pub const DEPS_DEV_BODY_LIMIT: usize = 1024 * 1024;

/// Largest number of GOSSIP batch calls at one time.
pub const GOSSIP_PREFETCH_CONCURRENCY: usize = 8;

// ---------------------------------------------------------------------------
// Percent-encoding
// ---------------------------------------------------------------------------

/// Whether a byte stands for itself in a URL path segment: a letter, a digit, or one of `-._~`.
pub open spec fn unreserved_byte(b: u8) -> bool {
    ||| 0x30 <= b <= 0x39
    ||| 0x41 <= b <= 0x5a
    ||| 0x61 <= b <= 0x7a
    ||| b == 0x2d
    ||| b == 0x2e
    ||| b == 0x5f
    ||| b == 0x7e
}

/// A hexadecimal digit, in upper case.
pub open spec fn hex_digit(d: int) -> char {
    if d < 10 {
        (0x30 + d) as u8 as char
    } else {
        (0x37 + d) as u8 as char
    }
}

/// One byte of a percent-encoded text.
pub open spec fn encoded_byte(b: u8) -> Seq<char> {
    if unreserved_byte(b) {
        seq![b as char]
    } else {
        seq!['%', hex_digit(b as int / 16), hex_digit(b as int % 16)]
    }
}

/// The bytes, percent-encoded.
pub open spec fn percent_encoded(bytes: Seq<u8>) -> Seq<char>
    decreases bytes.len(),
{
    if bytes.len() == 0 {
        Seq::empty()
    } else {
        percent_encoded(bytes.drop_last()) + encoded_byte(bytes.last())
    }
}

/// A text as one URL path segment.
pub open spec fn encoded_segment(s: Seq<char>) -> Seq<char> {
    percent_encoded(encode_utf8(s))
}

/// `urlencoding::encode`: the UTF-8 bytes of the text, each of them as it is where it is a
/// letter, a digit or one of `-._~`, and as `%` and two upper-case hexadecimal digits otherwise.
#[verifier::external_body]
pub(crate) fn encode_segment(s: &str) -> (r: String)
    ensures
        r@ == encoded_segment(s@),
{
    urlencoding::encode(s).into_owned()
}

// ---------------------------------------------------------------------------
// URLs
// ---------------------------------------------------------------------------

/// `<base>/<api>/systems/<system>/packages/<name>`.
pub open spec fn package_path(
    base: Seq<char>,
    api: Seq<char>,
    system: DepsDevSystem,
    name: Seq<char>,
) -> Seq<char> {
    base + api + path_segment(system) + "/packages/"@ + encoded_segment(name)
}

/// The URL of a version.
pub open spec fn version_url_of(
    base: Seq<char>,
    system: DepsDevSystem,
    name: Seq<char>,
    version: Seq<char>,
) -> Seq<char> {
    package_path(base, "/v3/systems/"@, system, name) + "/versions/"@ + encoded_segment(version)
}

/// The URL of a project.
pub open spec fn project_url_of(base: Seq<char>, key: Seq<char>) -> Seq<char> {
    base + "/v3/projects/"@ + encoded_segment(key)
}

/// The URL of the packages with similar names.
pub open spec fn similar_url_of(base: Seq<char>, system: DepsDevSystem, name: Seq<char>) -> Seq<
    char,
> {
    package_path(base, "/v3alpha/systems/"@, system, name) + ":similarlyNamedPackages"@
}

/// The URL of a package.
pub open spec fn package_url_of(base: Seq<char>, system: DepsDevSystem, name: Seq<char>) -> Seq<
    char,
> {
    package_path(base, "/v3alpha/systems/"@, system, name)
}

/// The URL of a version's dependents.
pub open spec fn dependents_url_of(
    base: Seq<char>,
    system: DepsDevSystem,
    name: Seq<char>,
    version: Seq<char>,
) -> Seq<char> {
    package_path(base, "/v3alpha/systems/"@, system, name) + "/versions/"@ + encoded_segment(
        version,
    ) + ":dependents"@
}

/// The URL of a version's findings.
pub open spec fn findings_url_of(
    base: Seq<char>,
    system: DepsDevSystem,
    name: Seq<char>,
    version: Seq<char>,
) -> Seq<char> {
    package_path(base, "/v3alpha/systems/"@, system, name) + "/versions/"@ + encoded_segment(
        version,
    ) + ":findings"@
}

/// The URL of a findings batch.
pub open spec fn batch_url_of(base: Seq<char>) -> Seq<char> {
    base + "/v3alpha/findingsbatch"@
}

fn package_path_text(base: &str, api: &str, system: DepsDevSystem, name: &str) -> (r: String)
    ensures
        r@ == package_path(base@, api@, system, name@),
{
    let mut url = base.to_owned();
    url.append(api);
    url.append(system.as_path_segment());
    url.append("/packages/");
    url.append(encode_segment(name).as_str());
    url
}

/// The URL of a version.
pub fn version_url(base: &str, system: DepsDevSystem, name: &str, version: &str) -> (r: String)
    ensures
        r@ == version_url_of(base@, system, name@, version@),
{
    let mut url = package_path_text(base, "/v3/systems/", system, name);
    url.append("/versions/");
    url.append(encode_segment(version).as_str());
    url
}

/// The URL of a project.
pub fn project_url(base: &str, key: &str) -> (r: String)
    ensures
        r@ == project_url_of(base@, key@),
{
    let mut url = base.to_owned();
    url.append("/v3/projects/");
    url.append(encode_segment(key).as_str());
    url
}

/// The URL of the packages with similar names.
pub fn similar_url(base: &str, system: DepsDevSystem, name: &str) -> (r: String)
    ensures
        r@ == similar_url_of(base@, system, name@),
{
    let mut url = package_path_text(base, "/v3alpha/systems/", system, name);
    url.append(":similarlyNamedPackages");
    url
}

/// The URL of a package.
pub fn package_url(base: &str, system: DepsDevSystem, name: &str) -> (r: String)
    ensures
        r@ == package_url_of(base@, system, name@),
{
    package_path_text(base, "/v3alpha/systems/", system, name)
}

/// The URL of a version's dependents.
pub fn dependents_url(base: &str, system: DepsDevSystem, name: &str, version: &str) -> (r: String)
    ensures
        r@ == dependents_url_of(base@, system, name@, version@),
{
    let mut url = package_path_text(base, "/v3alpha/systems/", system, name);
    url.append("/versions/");
    url.append(encode_segment(version).as_str());
    url.append(":dependents");
    url
}

/// The URL of a version's findings.
pub fn findings_url(base: &str, system: DepsDevSystem, name: &str, version: &str) -> (r: String)
    ensures
        r@ == findings_url_of(base@, system, name@, version@),
{
    let mut url = package_path_text(base, "/v3alpha/systems/", system, name);
    url.append("/versions/");
    url.append(encode_segment(version).as_str());
    url.append(":findings");
    url
}

/// The URL of a findings batch.
pub fn batch_url(base: &str) -> (r: String)
    ensures
        r@ == batch_url_of(base@),
{
    let mut url = base.to_owned();
    url.append("/v3alpha/findingsbatch");
    url
}

// ---------------------------------------------------------------------------
// Calls
// ---------------------------------------------------------------------------

/// Which deps.dev call is made.
pub enum DepsDevCall<'a> {
    /// The version call.
    Version {
        /// The package.
        name: &'a str,
    },
    /// The project call.
    Project {
        /// The project.
        key: &'a str,
    },
    /// The search for similar names.
    SimilarlyNamed {
        /// The package.
        name: &'a str,
    },
    /// The package call.
    Package {
        /// The package.
        name: &'a str,
    },
    /// The dependents call.
    Dependents {
        /// The package.
        name: &'a str,
    },
    /// The version-scoped findings call.
    GossipVersionFindings {
        /// The package.
        name: &'a str,
    },
}

impl<'a> DepsDevCall<'a> {
    /// The label of the call in log messages.
    pub fn label(&self) -> (r: &'static str)
        ensures
            r@ == (match self {
                DepsDevCall::Version { .. } => "version"@,
                DepsDevCall::Project { .. } => "project"@,
                DepsDevCall::SimilarlyNamed { .. } => "similarly-named-packages"@,
                DepsDevCall::Package { .. } => "package"@,
                DepsDevCall::Dependents { .. } => "dependents"@,
                DepsDevCall::GossipVersionFindings { .. } => "GOSSIP version findings"@,
            }),
    {
        match self {
            DepsDevCall::Version { .. } => "version",
            DepsDevCall::Project { .. } => "project",
            DepsDevCall::SimilarlyNamed { .. } => "similarly-named-packages",
            DepsDevCall::Package { .. } => "package",
            DepsDevCall::Dependents { .. } => "dependents",
            DepsDevCall::GossipVersionFindings { .. } => "GOSSIP version findings",
        }
    }

    /// The package name to redact when the call's timeout is logged; none for a project, which is
    /// logged by its key.
    pub fn timed_out_name(&self) -> (r: Option<&str>)
        ensures
            option_text(r) == (match self {
                DepsDevCall::Version { name } => Some(name@),
                DepsDevCall::Project { .. } => None,
                DepsDevCall::SimilarlyNamed { name } => Some(name@),
                DepsDevCall::Package { name } => Some(name@),
                DepsDevCall::Dependents { name } => Some(name@),
                DepsDevCall::GossipVersionFindings { name } => Some(name@),
            }),
    {
        match self {
            DepsDevCall::Version { name } => Some(name),
            DepsDevCall::Project { .. } => None,
            DepsDevCall::SimilarlyNamed { name } => Some(name),
            DepsDevCall::Package { name } => Some(name),
            DepsDevCall::Dependents { name } => Some(name),
            DepsDevCall::GossipVersionFindings { name } => Some(name),
        }
    }
}

/// Why a call gave no answer that can be read.
#[derive(Debug, Clone, Copy, PartialEq, Eq, Structural)]
pub enum CallFailure {
    /// The server answered that there is no such record. What that means depends on the call.
    NotFound,
    /// The call failed, timed out, or its answer could not be read.
    Transient,
}

/// How the transport of a call ended.
pub enum CallEnd<W> {
    /// The answer was read.
    Answered(W),
    /// The answer could not be read.
    Unreadable,
    /// The request failed.
    Failed(DepsError),
    /// The time limit elapsed.
    TimedOut,
}

/// What the end of a call's transport amounts to: the answer, an authoritative "not found", or a
/// transient failure.
pub fn call_result<W>(end: CallEnd<W>) -> (r: Result<W, CallFailure>)
    ensures
        match end {
            CallEnd::Answered(w) => r == Ok::<W, CallFailure>(w),
            CallEnd::Unreadable => r == Err::<W, CallFailure>(CallFailure::Transient),
            CallEnd::Failed(e) => r == Err::<W, CallFailure>(
                if e.not_found() {
                    CallFailure::NotFound
                } else {
                    CallFailure::Transient
                },
            ),
            CallEnd::TimedOut => r == Err::<W, CallFailure>(CallFailure::Transient),
        },
{
    match end {
        CallEnd::Answered(w) => Ok(w),
        CallEnd::Unreadable => Err(CallFailure::Transient),
        CallEnd::Failed(e) => {
            if e.is_not_found() {
                Err(CallFailure::NotFound)
            } else {
                Err(CallFailure::Transient)
            }
        },
        CallEnd::TimedOut => Err(CallFailure::Transient),
    }
}

// ---------------------------------------------------------------------------
// Laws
// ---------------------------------------------------------------------------

/// A character that may stand in an encoded segment.
pub open spec fn segment_char(c: char) -> bool {
    c == '%' || unreserved_byte(c as u8) && c as u32 <= 0x7e
}

proof fn lemma_encoded_byte_chars(b: u8)
    ensures
        forall|i: int|
            0 <= i < encoded_byte(b).len() ==> segment_char(#[trigger] encoded_byte(b)[i]),
{
    if !unreserved_byte(b) {
        let hi = b as int / 16;
        let lo = b as int % 16;
        assert(0 <= hi < 16 && 0 <= lo < 16);
    }
}

/// An encoded name adds no structure to a URL: it holds letters, digits, `-._~` and `%` only,
/// and so neither a slash nor a question mark, a hash or a colon.
pub proof fn law_encoded_segments_add_no_structure(bytes: Seq<u8>, i: int)
    requires
        0 <= i < percent_encoded(bytes).len(),
    ensures
        segment_char(percent_encoded(bytes)[i]),
        percent_encoded(bytes)[i] != '/',
        percent_encoded(bytes)[i] != '?',
        percent_encoded(bytes)[i] != '#',
        percent_encoded(bytes)[i] != ':',
    decreases bytes.len(),
{
    let rest = bytes.drop_last();
    let n = percent_encoded(rest).len();
    lemma_encoded_byte_chars(bytes.last());
    if i < n {
        law_encoded_segments_add_no_structure(rest, i);
        assert(percent_encoded(bytes)[i] == percent_encoded(rest)[i]);
    } else {
        assert(percent_encoded(bytes)[i] == encoded_byte(bytes.last())[i - n]);
    }
}

/// The number that a hexadecimal digit in upper case stands for.
pub open spec fn hex_value(c: char) -> int {
    if '0' <= c <= '9' {
        c as u32 - '0' as u32
    } else {
        c as u32 - 'A' as u32 + 10
    }
}

/// Encoding goes byte by byte and loses nothing: a byte is either itself or `%` and the two
/// hexadecimal digits of its value, itself exactly where it is a letter, a digit or one of
/// `-._~`.
pub proof fn law_encoding_can_be_undone(a: Seq<u8>, b: Seq<u8>, byte: u8)
    ensures
        percent_encoded(a + b) == percent_encoded(a) + percent_encoded(b),
        percent_encoded(seq![byte]) == encoded_byte(byte),
        ({
            let e = encoded_byte(byte);
            let c = byte as char;
            if 'a' <= c <= 'z' || 'A' <= c <= 'Z' || '0' <= c <= '9' || c == '-' || c == '.' || c
                == '_' || c == '~' {
                e == seq![c]
            } else {
                &&& e.len() == 3
                &&& e[0] == '%'
                &&& 0 <= hex_value(e[1]) < 16 && 0 <= hex_value(e[2]) < 16
                &&& hex_value(e[1]) * 16 + hex_value(e[2]) == byte
            }
        }),
    decreases b.len(),
{
    let one = seq![byte];
    assert(one.drop_last() =~= Seq::<u8>::empty());
    assert(percent_encoded(one.drop_last()) =~= Seq::<char>::empty());
    assert(percent_encoded(one) =~= encoded_byte(byte));
    if b.len() == 0 {
        assert(a + b =~= a);
        assert(percent_encoded(a) + percent_encoded(b) =~= percent_encoded(a));
    } else {
        law_encoding_can_be_undone(a, b.drop_last(), byte);
        assert((a + b).drop_last() =~= a + b.drop_last());
        assert((a + b).last() == b.last());
        assert(percent_encoded(a + b) =~= percent_encoded(a) + percent_encoded(b));
    }
}

/// Every URL lies under the base, and names the system, the package and the version that it asks
/// about, each of the two encoded.
pub proof fn law_urls_name_what_they_ask_about(
    base: Seq<char>,
    system: DepsDevSystem,
    name: Seq<char>,
    version: Seq<char>,
)
    ensures
        ({
            let package = path_segment(system) + "/packages/"@ + encoded_segment(name);
            let release = package + "/versions/"@ + encoded_segment(version);
            &&& version_url_of(base, system, name, version) == base + "/v3/systems/"@ + release
            &&& similar_url_of(base, system, name) == base + "/v3alpha/systems/"@ + package
                + ":similarlyNamedPackages"@
            &&& package_url_of(base, system, name) == base + "/v3alpha/systems/"@ + package
            &&& dependents_url_of(base, system, name, version) == base + "/v3alpha/systems/"@
                + release + ":dependents"@
            &&& findings_url_of(base, system, name, version) == base + "/v3alpha/systems/"@
                + release + ":findings"@
            &&& project_url_of(base, name) == base + "/v3/projects/"@ + encoded_segment(name)
            &&& batch_url_of(base) == base + "/v3alpha/findingsbatch"@
        }),
{
    let package = path_segment(system) + "/packages/"@ + encoded_segment(name);
    let release = package + "/versions/"@ + encoded_segment(version);
    assert(version_url_of(base, system, name, version) =~= base + "/v3/systems/"@ + release);
    assert(similar_url_of(base, system, name) =~= base + "/v3alpha/systems/"@ + package
        + ":similarlyNamedPackages"@);
    assert(package_url_of(base, system, name) =~= base + "/v3alpha/systems/"@ + package);
    assert(dependents_url_of(base, system, name, version) =~= base + "/v3alpha/systems/"@ + release
        + ":dependents"@);
    assert(findings_url_of(base, system, name, version) =~= base + "/v3alpha/systems/"@ + release
        + ":findings"@);
}

} // verus!
