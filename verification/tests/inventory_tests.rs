use aterm::inventory::{parse_branch_list, parse_worktree_list};

#[test]
fn worktree_list_example() {
    let text = "worktree /a\nbranch refs/heads/main\nworktree /b\ndetached\n";
    let wts = parse_worktree_list(text);
    assert_eq!(wts.len(), 2);
    assert_eq!(wts[0].path, "/a");
    assert_eq!(wts[0].branch, "main");
    assert_eq!(wts[1].path, "/b");
    assert_eq!(wts[1].branch, "detached");
}

#[test]
fn worktree_without_branch_line_defaults_to_detached() {
    let wts = parse_worktree_list("worktree /only\n");
    assert_eq!(wts.len(), 1);
    assert_eq!(wts[0].path, "/only");
    assert_eq!(wts[0].branch, "detached");
}

#[test]
fn worktree_list_ignores_other_lines() {
    let text = "worktree /a\nHEAD deadbeef\nbare\nbranch refs/heads/dev\n";
    let wts = parse_worktree_list(text);
    assert_eq!(wts.len(), 1);
    assert_eq!(wts[0].path, "/a");
    assert_eq!(wts[0].branch, "dev");
}

#[test]
fn worktree_branch_without_refs_heads_prefix_is_kept() {
    let wts = parse_worktree_list("worktree /a\nbranch topic\n");
    assert_eq!(wts[0].branch, "topic");
}

#[test]
fn worktree_list_empty_input() {
    assert_eq!(parse_worktree_list("").len(), 0);
}

#[test]
fn branch_list_is_sorted_and_filtered() {
    let text = "main\nfeature/two\n\n  feature/one  \nzeta\n";
    let branches = parse_branch_list(text);
    assert_eq!(branches, vec!["feature/one", "feature/two", "main", "zeta"]);
}

#[test]
fn branch_list_keeps_duplicates() {
    let branches = parse_branch_list("b\na\nb\n");
    assert_eq!(branches, vec!["a", "b", "b"]);
}

#[test]
fn branch_list_empty_input() {
    assert_eq!(parse_branch_list("").len(), 0);
    assert_eq!(parse_branch_list("\n\n").len(), 0);
}
