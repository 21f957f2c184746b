use aterm::status::{parse_ahead_behind, parse_branch_name, parse_porcelain_status, parse_status_code, FileStatus};

#[test]
fn staged_modified_line() {
    // One staged record, no unstaged record, no untracked record.
    let (staged, unstaged, untracked) = parse_porcelain_status("M  file.txt\n");
    assert_eq!(staged.len(), 1);
    assert_eq!(unstaged.len(), 0);
    assert_eq!(untracked.len(), 0);
    assert_eq!(staged[0].path, "file.txt");
    assert_eq!(staged[0].status, FileStatus::Modified);
    assert!(staged[0].staged);
    assert!(staged[0].old_path.is_none());
}

#[test]
fn staged_rename_line() {
    let (staged, unstaged, untracked) = parse_porcelain_status("R  old.txt -> new.txt\n");
    assert_eq!(staged.len(), 1);
    assert_eq!(unstaged.len(), 0);
    assert_eq!(untracked.len(), 0);
    assert_eq!(staged[0].path, "new.txt");
    assert_eq!(staged[0].status, FileStatus::Renamed);
    assert_eq!(staged[0].old_path.as_deref(), Some("old.txt"));
}

#[test]
fn untracked_line_produces_only_untracked() {
    let (staged, unstaged, untracked) = parse_porcelain_status("?? notes.md\n");
    assert_eq!(staged.len(), 0);
    assert_eq!(unstaged.len(), 0);
    assert_eq!(untracked.len(), 1);
    assert_eq!(untracked[0].path, "notes.md");
    assert_eq!(untracked[0].status, FileStatus::Untracked);
    assert!(!untracked[0].staged);
    assert!(untracked[0].old_path.is_none());
}

#[test]
fn partially_staged_file_appears_in_both_lists() {
    let (staged, unstaged, untracked) = parse_porcelain_status("MM both.rs\n");
    assert_eq!(staged.len(), 1);
    assert_eq!(unstaged.len(), 1);
    assert_eq!(untracked.len(), 0);
    assert_eq!(staged[0].path, "both.rs");
    assert_eq!(unstaged[0].path, "both.rs");
    assert!(staged[0].staged);
    assert!(!unstaged[0].staged);
}

#[test]
fn unstaged_only_line() {
    let (staged, unstaged, _untracked) = parse_porcelain_status(" D gone.c\n");
    assert_eq!(staged.len(), 0);
    assert_eq!(unstaged.len(), 1);
    assert_eq!(unstaged[0].status, FileStatus::Deleted);
    assert_eq!(unstaged[0].path, "gone.c");
}

#[test]
fn short_and_empty_lines_are_skipped() {
    let (staged, unstaged, untracked) = parse_porcelain_status("\nM\n  \nA  kept.rs\n");
    assert_eq!(staged.len(), 1);
    assert_eq!(unstaged.len(), 0);
    assert_eq!(untracked.len(), 0);
    assert_eq!(staged[0].path, "kept.rs");
    assert_eq!(staged[0].status, FileStatus::Added);
}

#[test]
fn every_line_yields_at_most_one_record_per_list() {
    let input = "M  a\nMM b\n?? c\nR  d -> e\n A f\n";
    let (staged, unstaged, untracked) = parse_porcelain_status(input);
    let lines = input.lines().count();
    assert!(staged.len() <= lines);
    assert!(unstaged.len() <= lines);
    assert!(untracked.len() <= lines);
    assert_eq!(staged.len(), 3);
    assert_eq!(unstaged.len(), 2);
    assert_eq!(untracked.len(), 1);
}

#[test]
fn parser_is_deterministic_on_identical_input() {
    let input = "M  a\n?? b\nR  c -> d\nMM e\n";
    let a = parse_porcelain_status(input);
    let b = parse_porcelain_status(input);
    assert_eq!(a.0.len(), b.0.len());
    assert_eq!(a.1.len(), b.1.len());
    assert_eq!(a.2.len(), b.2.len());
    for (x, y) in a.0.iter().zip(b.0.iter()) {
        assert_eq!(x.path, y.path);
        assert_eq!(x.status, y.status);
        assert_eq!(x.staged, y.staged);
        assert_eq!(x.old_path, y.old_path);
    }
    for (x, y) in a.2.iter().zip(b.2.iter()) {
        assert_eq!(x.path, y.path);
    }
}

#[test]
fn old_path_set_iff_separator_present() {
    let (with_sep, _, _) = parse_porcelain_status("C  a.txt -> b.txt\n");
    assert!(with_sep[0].old_path.is_some());
    let (without_sep, _, _) = parse_porcelain_status("C  plain.txt\n");
    assert!(without_sep[0].old_path.is_none());
}

#[test]
fn untracked_record_never_carries_old_path() {
    let (_, _, untracked) = parse_porcelain_status("?? a.txt -> b.txt\n");
    assert_eq!(untracked.len(), 1);
    assert!(untracked[0].old_path.is_none());
    assert_eq!(untracked[0].path, "b.txt");
}

#[test]
fn no_trailing_newline_still_parses() {
    let (staged, _, _) = parse_porcelain_status("A  last.rs");
    assert_eq!(staged.len(), 1);
    assert_eq!(staged[0].path, "last.rs");
}

#[test]
fn crlf_line_endings_are_handled() {
    let (staged, _, _) = parse_porcelain_status("A  one.rs\r\nA  two.rs\r\n");
    assert_eq!(staged.len(), 2);
    assert_eq!(staged[0].path, "one.rs");
    assert_eq!(staged[1].path, "two.rs");
}

#[test]
fn status_code_mapping() {
    assert_eq!(parse_status_code('M'), FileStatus::Modified);
    assert_eq!(parse_status_code('A'), FileStatus::Added);
    assert_eq!(parse_status_code('D'), FileStatus::Deleted);
    assert_eq!(parse_status_code('R'), FileStatus::Renamed);
    assert_eq!(parse_status_code('C'), FileStatus::Copied);
    assert_eq!(parse_status_code('U'), FileStatus::Unmerged);
    assert_eq!(parse_status_code('?'), FileStatus::Untracked);
    assert_eq!(parse_status_code('X'), FileStatus::Unknown);
}

#[test]
fn ahead_behind_counts() {
    assert_eq!(parse_ahead_behind("2\t5\n"), (2, 5));
    assert_eq!(parse_ahead_behind("0 0"), (0, 0));
    assert_eq!(parse_ahead_behind(""), (0, 0));
    assert_eq!(parse_ahead_behind("1 2 3"), (0, 0));
    assert_eq!(parse_ahead_behind("x y"), (0, 0));
}

#[test]
fn branch_name_is_trimmed() {
    assert_eq!(parse_branch_name("main\n"), "main");
    assert_eq!(parse_branch_name("  feature/x  "), "feature/x");
    assert_eq!(parse_branch_name(""), "");
}
