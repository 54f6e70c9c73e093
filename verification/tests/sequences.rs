//! Sequence numbers, file names and native ids.

use animus_subject_markdown::decimal::{decimal, padded, parse_u32};
use animus_subject_markdown::id_gen::{
    file_name_for, native_id, parse_sequence, scan_max_sequence, SequenceGenerator,
};

fn names(list: &[&str]) -> Vec<String> {
    list.iter().map(|s| s.to_string()).collect()
}

#[test]
fn parse_sequence_extracts_number() {
    assert_eq!(parse_sequence("TASK-0001.md", "TASK"), Some(1));
    assert_eq!(parse_sequence("TASK-0042.md", "TASK"), Some(42));
    assert_eq!(parse_sequence("TASK-12345.md", "TASK"), Some(12345));
}

#[test]
fn parse_sequence_rejects_mismatched_kind() {
    assert_eq!(parse_sequence("ISSUE-0001.md", "TASK"), None);
    assert_eq!(parse_sequence("README.md", "TASK"), None);
    assert_eq!(parse_sequence("TASK-.md", "TASK"), None);
    assert_eq!(parse_sequence("TASK-0001.txt", "TASK"), None);
}

#[test]
fn parse_sequence_edge_cases() {
    assert_eq!(parse_sequence("TASK-4294967295.md", "TASK"), Some(u32::MAX));
    assert_eq!(parse_sequence("TASK-4294967296.md", "TASK"), None);
    assert_eq!(parse_sequence("TASK-+7.md", "TASK"), Some(7));
    assert_eq!(parse_sequence("TASK--7.md", "TASK"), None);
    assert_eq!(parse_sequence("TASK-7.md.tmp", "TASK"), None);
    assert_eq!(parse_sequence("task-7.md", "TASK"), None);
    assert_eq!(parse_sequence("-7.md", ""), Some(7));
    assert_eq!(parse_sequence(".md", ""), None);
    assert_eq!(parse_sequence("TASK.md", "TASK"), None);
}

#[test]
fn discover_starts_at_one_for_empty_dir() {
    let mut gen = SequenceGenerator::discover(&names(&[]), "TASK");
    assert_eq!(gen.next(), 1);
    assert_eq!(gen.next(), 2);
}

#[test]
fn discover_starts_after_max_existing_and_skips_gaps() {
    let mut gen = SequenceGenerator::discover(&names(&["TASK-0001.md", "TASK-0003.md"]), "TASK");
    // The largest is 3, so the next is 4: the gap at 0002 is not filled.
    assert_eq!(gen.next(), 4);
}

#[test]
fn discover_ignores_other_kinds_and_non_md_files() {
    let list = names(&["ISSUE-0010.md", "TASK-0002.md", "TASK-0002.bak"]);
    let mut gen = SequenceGenerator::discover(&list, "TASK");
    assert_eq!(gen.next(), 3);
}

#[test]
fn id_generation_handles_gaps() {
    let mut gen = SequenceGenerator::discover(&names(&["TASK-0001.md", "TASK-0003.md"]), "TASK");
    assert_eq!(gen.next(), 4);
}

#[test]
fn largest_sequence_is_found_in_any_order() {
    let list = names(&["TASK-0007.md", "TASK-0020.md", "TASK-0003.md"]);
    assert_eq!(scan_max_sequence(&list, "TASK"), Some(20));
    assert_eq!(scan_max_sequence(&list, "ISSUE"), None);
}

#[test]
fn generator_goes_round_behind_the_largest_number() {
    let mut gen = SequenceGenerator::starting_at(u32::MAX);
    assert_eq!(gen.next(), u32::MAX);
    assert_eq!(gen.next(), 0);
    assert_eq!(gen.next(), 1);
}

#[test]
fn file_name_and_native_id_are_zero_padded() {
    assert_eq!(file_name_for("TASK", 7), "TASK-0007.md");
    assert_eq!(native_id("TASK", 7), "TASK-0007");
    assert_eq!(file_name_for("TASK", 12345), "TASK-12345.md");
}

#[test]
fn file_names_read_back() {
    for seq in [0, 1, 9, 10, 999, 1000, 9999, 10000, u32::MAX] {
        assert_eq!(parse_sequence(&file_name_for("ISSUE", seq), "ISSUE"), Some(seq));
    }
}

#[test]
fn names_of_different_subjects_differ() {
    let names = [
        file_name_for("TASK", 1),
        file_name_for("TASK", 11),
        file_name_for("TASK-1", 1),
        file_name_for("TASK-0001", 1),
        file_name_for("ISSUE", 1),
        file_name_for("TASK", 10001),
    ];
    for (i, a) in names.iter().enumerate() {
        for b in &names[i + 1..] {
            assert_ne!(a, b);
        }
    }
}

#[test]
fn numerals_agree_with_std() {
    for n in [0u32, 5, 10, 42, 100, 9999, 10000, 123456789, u32::MAX] {
        assert_eq!(decimal(n), n.to_string());
        assert_eq!(padded(n), format!("{n:04}"));
    }
    for s in ["", "+", "-", "0", "+0", "-0", "007", "4294967295", "4294967296", "99999999999", "1a"] {
        assert_eq!(parse_u32(s), s.parse::<u32>().ok(), "{s:?}");
    }
}
