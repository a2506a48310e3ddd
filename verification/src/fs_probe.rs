//! The decisions behind bounded reads and atomic writes of manifest files.
//!
//! The file system itself is touched by the caller, who hands in what a system call returned
//! and gets back what to make of it or what to do next.

use crate::text::{contains_text, decimal, occurs_at, wide_decimal_of};
use vstd::prelude::*;
use vstd::utf8::{encode_utf8, valid_utf8};

verus! {

/// Upper bound on how many ancestor directories a config-file discovery walk climbs,
/// independent of whether the filesystem root has been reached.
pub const MAX_CONFIG_ANCESTOR_DEPTH: usize = 64;

/// The ancestor directories that a discovery walk visits, out of all of them: the first ones,
/// at most [`MAX_CONFIG_ANCESTOR_DEPTH`].
///
/// `ancestors` begins with the start directory itself, followed by each successive parent.
pub fn config_ancestors<P>(ancestors: Vec<P>) -> (r: Vec<P>)
    ensures
        r@ == ancestors@.take(
            if ancestors@.len() <= MAX_CONFIG_ANCESTOR_DEPTH {
                ancestors@.len() as int
            } else {
                MAX_CONFIG_ANCESTOR_DEPTH as int
            },
        ),
{
    let mut visited = ancestors;
    visited.truncate(MAX_CONFIG_ANCESTOR_DEPTH);
    proof {
        if ancestors@.len() <= MAX_CONFIG_ANCESTOR_DEPTH {
            assert(visited@ =~= ancestors@.take(ancestors@.len() as int));
        } else {
            assert(visited@ =~= ancestors@.take(MAX_CONFIG_ANCESTOR_DEPTH as int));
        }
    }
    visited
}

// ---------------------------------------------------------------------------
// Bounded reads
// ---------------------------------------------------------------------------

/// What is said of bytes that are not valid UTF-8.
pub uninterp spec fn utf8_error_text(bytes: Seq<u8>) -> Seq<char>;

/// `String::from_utf8`, with the text of its `Utf8Error`: the string whose encoding the bytes
/// are, or, for bytes that are no valid encoding, a description of where they fail.
#[verifier::external_body]
fn utf8_string(bytes: Vec<u8>) -> (r: Result<String, String>)
    ensures
        match r {
            Ok(s) => valid_utf8(bytes@) && encode_utf8(s@) == bytes@,
            Err(text) => !valid_utf8(bytes@) && text@ == utf8_error_text(bytes@),
        },
{
    String::from_utf8(bytes).map_err(|e| e.utf8_error().to_string())
}

/// Why a bounded read gave no text.
#[derive(Debug, Clone, PartialEq, Eq)]
pub enum ReadFailure<E> {
    /// The path is a symbolic link and links are not followed.
    SymlinkRefused(String),
    /// The content is not valid UTF-8.
    NotUtf8(String),
    /// The file could not be opened or read.
    Failed(E),
}

/// How many bytes to read at most so that content over the cap is told from content at the cap:
/// one more than the cap.
pub fn capped_read_limit(max_bytes: u64) -> (r: u64)
    ensures
        r == (if max_bytes < u64::MAX {
            max_bytes + 1
        } else {
            u64::MAX as int
        }),
{
    max_bytes.saturating_add(1)
}

/// Whether `r` is what a bounded read makes of `bytes`: nothing over the cap, else the text.
pub open spec fn capped_content<E>(
    bytes: Seq<u8>,
    max_bytes: u64,
    r: Result<Option<String>, ReadFailure<E>>,
) -> bool {
    if bytes.len() > max_bytes {
        r matches Ok(None)
    } else if valid_utf8(bytes) {
        r matches Ok(Some(s)) && encode_utf8(s@) == bytes
    } else {
        r matches Err(ReadFailure::NotUtf8(text)) && text@ == utf8_error_text(bytes)
    }
}

/// The text of a file that was read up to [`capped_read_limit`]: `None` when it is longer than
/// `max_bytes`.
///
/// # Errors
///
/// The read's own failure, and [`ReadFailure::NotUtf8`] for content within the cap that is not
/// valid UTF-8.
pub fn read_to_string_capped<E>(read: Result<Vec<u8>, E>, max_bytes: u64) -> (r: Result<
    Option<String>,
    ReadFailure<E>,
>)
    ensures
        match read {
            Ok(bytes) => capped_content(bytes@, max_bytes, r),
            Err(e) => r == Err::<Option<String>, ReadFailure<E>>(ReadFailure::Failed(e)),
        },
{
    match read {
        Err(e) => Err(ReadFailure::Failed(e)),
        Ok(bytes) => {
            if bytes.len() as u64 > max_bytes {
                return Ok(None);
            }
            match utf8_string(bytes) {
                Ok(s) => Ok(Some(s)),
                Err(text) => Err(ReadFailure::NotUtf8(text)),
            }
        },
    }
}

/// The message of a refused symbolic link.
pub open spec fn symlink_refusal(path: Seq<char>) -> Seq<char> {
    "refusing to read through a symlinked path: "@ + path
}

fn symlink_refused_error(path: &str) -> (r: String)
    ensures
        r@ == symlink_refusal(path@),
{
    let mut s = "refusing to read through a symlinked path: ".to_owned();
    s.append(path);
    s
}

/// Like [`read_to_string_capped`], for a file that was opened without following a symbolic
/// link at `path`: a failed open of a link (`is_symlink`) is reported as a refusal.
///
/// # Errors
///
/// As for [`read_to_string_capped`], and [`ReadFailure::SymlinkRefused`] when the open failed
/// and `path` is a symbolic link.
pub fn read_to_string_capped_no_follow<E>(
    path: &str,
    read: Result<Vec<u8>, E>,
    is_symlink: bool,
    max_bytes: u64,
) -> (r: Result<Option<String>, ReadFailure<E>>)
    ensures
        match read {
            Ok(bytes) => capped_content(bytes@, max_bytes, r),
            Err(e) => if is_symlink {
                r matches Err(ReadFailure::SymlinkRefused(text)) && text@ == symlink_refusal(path@)
            } else {
                r == Err::<Option<String>, ReadFailure<E>>(ReadFailure::Failed(e))
            },
        },
{
    match read {
        Err(e) => {
            if is_symlink {
                Err(ReadFailure::SymlinkRefused(symlink_refused_error(path)))
            } else {
                Err(ReadFailure::Failed(e))
            }
        },
        Ok(bytes) => read_to_string_capped(Ok(bytes), max_bytes),
    }
}

// ---------------------------------------------------------------------------
// Probes
// ---------------------------------------------------------------------------

/// What a stat that follows symbolic links found at a path.
#[derive(Debug, Clone, Copy, PartialEq, Eq, Structural)]
pub enum FileKind {
    /// A regular file.
    Regular,
    /// A directory.
    Directory,
    /// A FIFO, socket or device: reading one can block indefinitely.
    Special,
}

/// Whether a path is a regular file: `stat` is what was found there, `None` on any error.
#[must_use]
pub fn is_file(stat: Option<FileKind>) -> (r: bool)
    ensures
        r == (stat == Some(FileKind::Regular)),
{
    match stat {
        Some(FileKind::Regular) => true,
        _ => false,
    }
}

/// Whether a path exists: `stat` is what was found there, `None` on any error.
#[must_use]
pub fn path_exists(stat: Option<FileKind>) -> (r: bool)
    ensures
        r == stat.is_some(),
{
    stat.is_some()
}

/// How often the file system was asked, so that a cache can be shown not to ask again.
#[derive(Debug, Clone, Copy, PartialEq, Eq, Structural)]
pub struct ProbeCounts {
    stats: usize,
    reads: usize,
}

impl ProbeCounts {
    /// How many stats were counted.
    pub closed spec fn stats(self) -> usize {
        self.stats
    }

    /// How many reads were counted.
    pub closed spec fn reads(self) -> usize {
        self.reads
    }

    /// No probe counted yet.
    pub fn new() -> (r: Self)
        ensures
            r.stats() == 0,
            r.reads() == 0,
    {
        ProbeCounts { stats: 0, reads: 0 }
    }

    /// Counts a stat; the count wraps round.
    pub fn record_stat(&mut self)
        ensures
            final(self).stats() == (if old(self).stats() < usize::MAX {
                old(self).stats() + 1
            } else {
                0
            }),
            final(self).reads() == old(self).reads(),
    {
        self.stats = self.stats.wrapping_add(1);
    }

    /// Counts a read; the count wraps round.
    pub fn record_read(&mut self)
        ensures
            final(self).reads() == (if old(self).reads() < usize::MAX {
                old(self).reads() + 1
            } else {
                0
            }),
            final(self).stats() == old(self).stats(),
    {
        self.reads = self.reads.wrapping_add(1);
    }
}

/// The current `(stat_count, read_count)` totals.
#[must_use]
pub fn snapshot(counts: &ProbeCounts) -> (r: (usize, usize))
    ensures
        r == (counts.stats(), counts.reads()),
{
    (counts.stats, counts.reads)
}

// ---------------------------------------------------------------------------
// Atomic writes
// ---------------------------------------------------------------------------

/// Why an atomic write is refused before anything is touched.
#[derive(Debug, Clone, PartialEq, Eq)]
pub enum WriteRefusal {
    /// The manifest path is a symbolic link.
    Symlink(String),
    /// The manifest path has no file name.
    NoFileName(String),
}

/// The name of the temporary file beside a manifest.
pub open spec fn temp_name(file_name: Seq<char>, pid: u32, nanos: u128) -> Seq<char> {
    file_name + ".deps-cli-"@ + decimal(pid as nat) + "-"@ + decimal(nanos as nat) + ".tmp"@
}

/// The name of the temporary file that an atomic write of `path` goes through, in the manifest's
/// own directory: derived from the file name, the process and the time.
///
/// # Errors
///
/// [`WriteRefusal::Symlink`] when the path is a symbolic link, so that neither the link nor its
/// target is ever touched; else [`WriteRefusal::NoFileName`] when the path has no file name.
pub fn plan_atomic_write(
    path: &str,
    is_symlink: bool,
    file_name: Option<&str>,
    pid: u32,
    nanos: u128,
) -> (r: Result<String, WriteRefusal>)
    ensures
        if is_symlink {
            r matches Err(WriteRefusal::Symlink(text)) && text@
                == "refusing to write through a symlinked manifest path: "@ + path@
        } else {
            match file_name {
                None => r matches Err(WriteRefusal::NoFileName(text)) && text@
                    == "manifest path has no file name"@,
                Some(name) => r matches Ok(temp) && temp@ == temp_name(name@, pid, nanos),
            }
        },
{
    if is_symlink {
        let mut text = "refusing to write through a symlinked manifest path: ".to_owned();
        text.append(path);
        return Err(WriteRefusal::Symlink(text));
    }
    match file_name {
        None => Err(WriteRefusal::NoFileName("manifest path has no file name".to_owned())),
        Some(name) => {
            let mut temp = name.to_owned();
            temp.append(".deps-cli-");
            temp.append(wide_decimal_of(pid as u128).as_str());
            temp.append("-");
            temp.append(wide_decimal_of(nanos).as_str());
            temp.append(".tmp");
            Ok(temp)
        },
    }
}

/// One step of an atomic write that was not refused.
#[derive(Debug)]
pub enum WriteAction<E> {
    /// Create the temporary file, failing if anything stands at its path already.
    CreateTemp,
    /// Copy the target's permissions onto the temporary file, write the content and sync it.
    WriteContent,
    /// Rename the temporary file over the target.
    RenameOverTarget,
    /// Remove the temporary file, because of this failure.
    RemoveTemp(E),
    /// Nothing is left to do: the write ended so.
    Finished(Result<(), E>),
}

/// What follows `done`, given how it went.
pub open spec fn following_action<E>(done: WriteAction<E>, outcome: Result<(), E>) -> WriteAction<
    E,
> {
    match done {
        WriteAction::CreateTemp => match outcome {
            Ok(_) => WriteAction::WriteContent,
            Err(e) => WriteAction::Finished(Err(e)),
        },
        WriteAction::WriteContent => match outcome {
            Ok(_) => WriteAction::RenameOverTarget,
            Err(e) => WriteAction::RemoveTemp(e),
        },
        WriteAction::RenameOverTarget => match outcome {
            Ok(_) => WriteAction::Finished(Ok(())),
            Err(e) => WriteAction::RemoveTemp(e),
        },
        WriteAction::RemoveTemp(failure) => WriteAction::Finished(Err(failure)),
        WriteAction::Finished(result) => WriteAction::Finished(result),
    }
}

/// What to do next in an atomic write, given the step just taken and how it went. A write starts
/// with [`WriteAction::CreateTemp`] and goes on until [`WriteAction::Finished`].
pub fn next_write_action<E>(done: WriteAction<E>, outcome: Result<(), E>) -> (r: WriteAction<E>)
    ensures
        r == following_action(done, outcome),
{
    match done {
        WriteAction::CreateTemp => match outcome {
            Ok(_) => WriteAction::WriteContent,
            Err(e) => WriteAction::Finished(Err(e)),
        },
        WriteAction::WriteContent => match outcome {
            Ok(_) => WriteAction::RenameOverTarget,
            Err(e) => WriteAction::RemoveTemp(e),
        },
        WriteAction::RenameOverTarget => match outcome {
            Ok(_) => WriteAction::Finished(Ok(())),
            Err(e) => WriteAction::RemoveTemp(e),
        },
        WriteAction::RemoveTemp(failure) => WriteAction::Finished(Err(failure)),
        WriteAction::Finished(result) => WriteAction::Finished(result),
    }
}

/// The step that an atomic write has come to after the given outcomes.
pub open spec fn write_progress<E>(outcomes: Seq<Result<(), E>>) -> WriteAction<E>
    decreases outcomes.len(),
{
    if outcomes.len() == 0 {
        WriteAction::CreateTemp
    } else {
        following_action(write_progress(outcomes.drop_last()), outcomes.last())
    }
}

// ---------------------------------------------------------------------------
// Laws
// ---------------------------------------------------------------------------

/// The target is replaced only by content that was created and written without failure.
pub proof fn law_target_is_replaced_only_by_complete_content<E>(outcomes: Seq<Result<(), E>>)
    requires
        write_progress(outcomes) is RenameOverTarget,
    ensures
        outcomes.len() == 2,
        outcomes[0] is Ok,
        outcomes[1] is Ok,
{
    let one = outcomes.drop_last();
    assert(write_progress(one) is WriteContent);
    let none = one.drop_last();
    assert(write_progress(none) is CreateTemp);
    if none.len() > 0 {
        assert(!(following_action(write_progress(none.drop_last()), none.last()) is CreateTemp));
    }
    assert(one.len() == 1);
    assert(one.last() == outcomes[0]);
}

/// Once the temporary file exists, every failure removes it before the write ends, and the write
/// ends with that failure.
pub proof fn law_failures_remove_the_temporary_file<E>(
    outcomes: Seq<Result<(), E>>,
    failure: E,
    removed: Result<(), E>,
)
    requires
        write_progress(outcomes) is WriteContent || write_progress(outcomes) is RenameOverTarget,
    ensures
        write_progress(outcomes.push(Err(failure))) == WriteAction::RemoveTemp(failure),
        write_progress(outcomes.push(Err(failure)).push(removed)) == WriteAction::<E>::Finished(
            Err(failure),
        ),
{
    assert(outcomes.push(Err(failure)).drop_last() =~= outcomes);
    assert(outcomes.push(Err(failure)).push(removed).drop_last() =~= outcomes.push(Err(failure)));
}

/// A write is over after four steps at the latest.
pub proof fn law_atomic_write_terminates<E>(outcomes: Seq<Result<(), E>>)
    requires
        outcomes.len() >= 4,
    ensures
        write_progress(outcomes) is Finished,
    decreases outcomes.len(),
{
    let a = outcomes.drop_last();
    if outcomes.len() > 4 {
        law_atomic_write_terminates(a);
    } else {
        let b = a.drop_last();
        let c = b.drop_last();
        let d = c.drop_last();
        assert(d.len() == 0 && c.len() == 1 && b.len() == 2 && a.len() == 3);
        assert(write_progress(d) is CreateTemp);
        assert(write_progress(c) is WriteContent || write_progress(c) is Finished);
        assert(write_progress(b) is RenameOverTarget || write_progress(b) is RemoveTemp
            || write_progress(b) is Finished);
        assert(write_progress(a) is RemoveTemp || write_progress(a) is Finished);
    }
}

/// A write that ends well went through all of its steps well.
pub proof fn law_success_means_every_step_succeeded<E>(outcomes: Seq<Result<(), E>>)
    requires
        outcomes.len() == 3,
        write_progress(outcomes) == WriteAction::<E>::Finished(Ok(())),
    ensures
        outcomes[0] is Ok,
        outcomes[1] is Ok,
        outcomes[2] is Ok,
{
    let a = outcomes.drop_last();
    let b = a.drop_last();
    let c = b.drop_last();
    assert(c.len() == 0 && b.len() == 1 && a.len() == 2);
    assert(b.last() == outcomes[0]);
    assert(a.last() == outcomes[1]);
    assert(write_progress(c) is CreateTemp);
    assert(write_progress(b) == following_action(write_progress(c), outcomes[0]));
    assert(write_progress(a) == following_action(write_progress(b), outcomes[1]));
    assert(write_progress(outcomes) == following_action(write_progress(a), outcomes[2]));
}

/// An atomic write that goes well creates the temporary file, writes it, renames it over the
/// target and is done; where not even the temporary file could be created there is nothing to
/// remove, and a write that is over stays over.
pub proof fn law_order_of_an_atomic_write<E>(failure: E, outcomes: Seq<Result<(), E>>)
    ensures
        write_progress(Seq::<Result<(), E>>::empty()) is CreateTemp,
        write_progress(seq![Ok::<(), E>(())]) is WriteContent,
        write_progress(seq![Ok::<(), E>(()), Ok::<(), E>(())]) is RenameOverTarget,
        write_progress(seq![Ok::<(), E>(()), Ok::<(), E>(()), Ok::<(), E>(())])
            == WriteAction::<E>::Finished(Ok(())),
        write_progress(seq![Err::<(), E>(failure)]) == WriteAction::<E>::Finished(Err(failure)),
        write_progress(outcomes) is Finished ==> write_progress(outcomes.push(Err(failure)))
            == write_progress(outcomes) && write_progress(outcomes.push(Ok(()))) == write_progress(
            outcomes,
        ),
{
    let none = Seq::<Result<(), E>>::empty();
    let one = seq![Ok::<(), E>(())];
    let two = seq![Ok::<(), E>(()), Ok::<(), E>(())];
    let three = seq![Ok::<(), E>(()), Ok::<(), E>(()), Ok::<(), E>(())];
    let failed = seq![Err::<(), E>(failure)];
    assert(one.drop_last() =~= none);
    assert(failed.drop_last() =~= none);
    assert(two.drop_last() =~= one);
    assert(three.drop_last() =~= two);
    assert(outcomes.push(Err(failure)).drop_last() =~= outcomes);
    assert(outcomes.push(Ok(())).drop_last() =~= outcomes);
}

/// A bounded read gives nothing exactly where the file is longer than the cap, the file's own
/// text where it is valid, and else an error: it never gives a part of a file.
pub proof fn law_bounded_read_is_all_or_nothing<E>(
    bytes: Seq<u8>,
    max_bytes: u64,
    r: Result<Option<String>, ReadFailure<E>>,
)
    requires
        capped_content(bytes, max_bytes, r),
    ensures
        r matches Ok(None) <==> bytes.len() > max_bytes,
        r matches Ok(Some(s)) ==> encode_utf8(s@) == bytes,
        r is Ok <==> bytes.len() > max_bytes || valid_utf8(bytes),
        r matches Err(failure) ==> failure matches ReadFailure::NotUtf8(text) && text@
            == utf8_error_text(bytes),
{
}

/// The temporary file lies under a name of its own: the manifest's name goes before it, the
/// ending marks it as temporary, and the process and the time are in it.
pub proof fn law_temporary_name_holds_process_and_time(
    file_name: Seq<char>,
    pid: u32,
    nanos: u128,
)
    ensures
        ({
            let name = temp_name(file_name, pid, nanos);
            &&& file_name.is_prefix_of(name)
            &&& seq!['.', 't', 'm', 'p'].is_suffix_of(name)
            &&& contains_text(name, decimal(pid as nat) + seq!['-'] + decimal(nanos as nat))
            &&& name != file_name
        }),
{
    reveal_strlit(".tmp");
    reveal_strlit("-");
    let name = temp_name(file_name, pid, nanos);
    let head = file_name + ".deps-cli-"@;
    let mid = decimal(pid as nat) + seq!['-'] + decimal(nanos as nat);
    assert("-"@ =~= seq!['-']);
    assert(".tmp"@ =~= seq!['.', 't', 'm', 'p']);
    assert(name =~= head + mid + ".tmp"@);
    assert(name.take(file_name.len() as int) =~= file_name);
    let at = head.len() as int;
    assert(name.subrange(at, at + mid.len()) =~= mid);
    assert(occurs_at(name, mid, at));
    assert(name.skip(name.len() - 4) =~= ".tmp"@);
    assert(name.len() > file_name.len());
}

} // verus!
