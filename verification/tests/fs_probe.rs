//! Bounded reads, probes and the steps of an atomic write.

use deps_core::fs_probe::{
    capped_read_limit, config_ancestors, is_file, next_write_action, path_exists,
    plan_atomic_write, read_to_string_capped, read_to_string_capped_no_follow, snapshot, FileKind,
    ProbeCounts, ReadFailure, WriteAction, WriteRefusal, MAX_CONFIG_ANCESTOR_DEPTH,
};

type Read = Result<Vec<u8>, String>;

fn content(text: &str) -> Read {
    Ok(text.as_bytes().to_vec())
}

#[test]
fn read_to_string_capped_returns_content_under_cap() {
    assert_eq!(
        read_to_string_capped(content("hello"), 1024).unwrap().as_deref(),
        Some("hello")
    );
}

#[test]
fn read_to_string_capped_accepts_content_exactly_at_cap() {
    assert_eq!(
        read_to_string_capped(content("abcde"), 5).unwrap().as_deref(),
        Some("abcde")
    );
}

#[test]
fn read_to_string_capped_rejects_content_over_cap() {
    assert_eq!(read_to_string_capped(content("abcdef"), 5).unwrap(), None);
}

#[test]
fn read_to_string_capped_missing_path_errors() {
    let read: Read = Err("No such file or directory".to_string());
    assert!(read_to_string_capped(read, 1024).is_err());
}

#[test]
fn invalid_utf8_is_an_error_within_the_cap_only() {
    let read: Read = Ok(vec![b'a', 0xff]);
    assert_eq!(
        read_to_string_capped(read.clone(), 2),
        Err(ReadFailure::NotUtf8("invalid utf-8 sequence of 1 bytes from index 1".to_string()))
    );
    assert_eq!(read_to_string_capped(read, 1), Ok(None));
    assert_eq!(
        read_to_string_capped(content("\u{20ac}"), 3),
        Ok(Some("\u{20ac}".to_string()))
    );
}

#[test]
fn one_byte_beyond_the_cap_is_read() {
    assert_eq!(capped_read_limit(5), 6);
    assert_eq!(capped_read_limit(u64::MAX), u64::MAX);
}

#[test]
fn read_to_string_capped_no_follow_reads_a_plain_file() {
    assert_eq!(
        read_to_string_capped_no_follow("Cargo.toml", content("content"), false, 1000).unwrap(),
        Some("content".to_string())
    );
}

#[test]
fn read_to_string_capped_no_follow_refuses_a_symlinked_path() {
    let failed: Read = Err("loop".to_string());
    assert_eq!(
        read_to_string_capped_no_follow("/d/Cargo.toml", failed.clone(), true, 1000),
        Err(ReadFailure::SymlinkRefused(
            "refusing to read through a symlinked path: /d/Cargo.toml".to_string()
        ))
    );
    assert_eq!(
        read_to_string_capped_no_follow("/d/Cargo.toml", failed, false, 1000),
        Err(ReadFailure::Failed("loop".to_string()))
    );
}

#[test]
fn only_a_regular_file_is_a_file() {
    assert!(is_file(Some(FileKind::Regular)));
    assert!(!is_file(Some(FileKind::Directory)));
    assert!(!is_file(Some(FileKind::Special)));
    assert!(!is_file(None));
    assert!(path_exists(Some(FileKind::Special)));
    assert!(!path_exists(None));
}

#[test]
fn probes_are_counted_apart() {
    let mut counts = ProbeCounts::new();
    counts.record_stat();
    counts.record_stat();
    counts.record_read();
    assert_eq!(snapshot(&counts), (2, 1));
}

#[test]
fn discovery_walk_is_bounded() {
    let deep: Vec<usize> = (0..MAX_CONFIG_ANCESTOR_DEPTH + 10).collect();
    let visited = config_ancestors(deep);
    assert_eq!(visited.len(), MAX_CONFIG_ANCESTOR_DEPTH);
    assert_eq!(visited[0], 0);
    assert_eq!(config_ancestors(vec!["/a/b", "/a", "/"]), vec!["/a/b", "/a", "/"]);
}

#[test]
fn write_atomic_refuses_symlinked_manifest_path() {
    assert_eq!(
        plan_atomic_write("/d/Cargo.toml", true, Some("Cargo.toml"), 7, 9),
        Err(WriteRefusal::Symlink(
            "refusing to write through a symlinked manifest path: /d/Cargo.toml".to_string()
        ))
    );
    assert_eq!(
        plan_atomic_write("/", false, None, 7, 9),
        Err(WriteRefusal::NoFileName("manifest path has no file name".to_string()))
    );
}

#[test]
fn temporary_file_is_named_after_the_manifest() {
    assert_eq!(
        plan_atomic_write("/d/Cargo.toml", false, Some("Cargo.toml"), 42, 1_700_000_000_123_456_789),
        Ok("Cargo.toml.deps-cli-42-1700000000123456789.tmp".to_string())
    );
}

/// The steps of a write whose steps fail where `fails` says so, and how it ends.
fn steps(fails: &[&str]) -> (Vec<&'static str>, Result<(), String>) {
    let mut taken = Vec::new();
    let mut action = WriteAction::CreateTemp;
    loop {
        let step = match &action {
            WriteAction::CreateTemp => "create",
            WriteAction::WriteContent => "write",
            WriteAction::RenameOverTarget => "rename",
            WriteAction::RemoveTemp(_) => "remove",
            WriteAction::Finished(_) => "",
        };
        if let WriteAction::Finished(result) = action {
            return (taken, result);
        }
        taken.push(step);
        let outcome = if fails.contains(&step) { Err(step.to_string()) } else { Ok(()) };
        action = next_write_action(action, outcome);
    }
}

#[test]
fn write_atomic_replaces_content() {
    assert_eq!(steps(&[]), (vec!["create", "write", "rename"], Ok(())));
}

#[test]
fn write_atomic_original_content_untouched_on_temp_create_failure() {
    assert_eq!(steps(&["create"]), (vec!["create"], Err("create".to_string())));
}

#[test]
fn failures_remove_the_temporary_file() {
    assert_eq!(
        steps(&["write"]),
        (vec!["create", "write", "remove"], Err("write".to_string()))
    );
    assert_eq!(
        steps(&["rename", "remove"]),
        (vec!["create", "write", "rename", "remove"], Err("rename".to_string()))
    );
}
