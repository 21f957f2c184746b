use aterm::worktree::{
    accept_candidate, attempt_seed, branch_or_head, candidate_names, effective_base_ref,
    fresh_candidate_names, generate_suffix, is_preserved_file, is_work_tree_output, join_path,
    resolve_common_dir, slugify_task_name, suffix_from, worktree_branch_name, worktree_dir_name,
    worktree_root_for, MAX_NAMING_ATTEMPTS,
};

fn is_slug_ok(s: &str) -> bool {
    !s.is_empty()
        && s.chars().all(|c| c.is_ascii_lowercase() || c.is_ascii_digit() || c == '-')
        && !s.starts_with('-')
        && !s.ends_with('-')
        && !s.contains("--")
}

#[test]
fn slugify_examples() {
    assert_eq!(slugify_task_name("Fix Bug #42"), "fix-bug-42");
    assert_eq!(slugify_task_name("hello"), "hello");
    assert_eq!(slugify_task_name("HELLO WORLD"), "hello-world");
    assert_eq!(slugify_task_name("a__b--c"), "a-b-c");
}

#[test]
fn slugify_empty_and_punctuation_fall_back_to_task() {
    assert_eq!(slugify_task_name(""), "task");
    assert_eq!(slugify_task_name("!!! ???"), "task");
    assert_eq!(slugify_task_name("---"), "task");
}

#[test]
fn slugify_is_total_and_well_formed() {
    for input in [
        "", "x", "  spaces  ", "Tr4iling-", "-leading", "Ünïcödé mix", "#42", "a b c d",
        "ALL CAPS!", "..", "_.-_.",
    ] {
        let s = slugify_task_name(input);
        assert!(is_slug_ok(&s), "bad slug {:?} for {:?}", s, input);
    }
}

#[test]
fn slugify_is_deterministic() {
    assert_eq!(slugify_task_name("Some Task"), slugify_task_name("Some Task"));
}

#[test]
fn suffix_is_three_hex_digits() {
    let s = suffix_from("seed-0", 123456789);
    assert_eq!(s.len(), 3);
    assert!(s.chars().all(|c| c.is_ascii_hexdigit() && !c.is_ascii_uppercase()));
    // Deterministic in both arguments.
    assert_eq!(s, suffix_from("seed-0", 123456789));
    let g = generate_suffix("seed-0");
    assert_eq!(g.len(), 3);
    assert!(g.chars().all(|c| c.is_ascii_hexdigit() && !c.is_ascii_uppercase()));
}

#[test]
fn candidate_names_match_naming_scheme() {
    let (branch, dir) = candidate_names("Fix Bug #42", 0, 42);
    assert!(branch.starts_with("aterm/fix-bug-42-"));
    let sfx = &branch["aterm/fix-bug-42-".len()..];
    assert_eq!(sfx.len(), 3);
    assert!(sfx.chars().all(|c| c.is_ascii_hexdigit() && !c.is_ascii_uppercase()));
    assert_eq!(dir, format!("fix-bug-42-{}", sfx));

    let (b2, d2) = fresh_candidate_names("Fix Bug #42", 1);
    assert!(b2.starts_with("aterm/fix-bug-42-"));
    assert!(d2.starts_with("fix-bug-42-"));
}

#[test]
fn attempt_seed_layout() {
    assert_eq!(attempt_seed("Fix Bug #42", 0), "Fix Bug #42-0");
    assert_eq!(attempt_seed("t", 17), "t-17");
}

#[test]
fn branch_and_dir_name_layout() {
    assert_eq!(worktree_branch_name("fix-bug-42", "a1f"), "aterm/fix-bug-42-a1f");
    assert_eq!(worktree_dir_name("fix-bug-42", "a1f"), "fix-bug-42-a1f");
}

#[test]
fn worktree_root_beside_project() {
    assert_eq!(worktree_root_for("/home/u/proj").as_deref(), Some("/home/u/worktrees/proj"));
    assert_eq!(worktree_root_for("/proj").as_deref(), Some("/worktrees/proj"));
    assert_eq!(worktree_root_for("noslash"), None);
    assert_eq!(worktree_root_for("/ends/with/"), None);
}

#[test]
fn candidate_path_lands_under_worktrees_root() {
    let root = worktree_root_for("/home/u/proj").unwrap();
    let (branch, dir) = candidate_names("Fix Bug #42", 0, 7);
    let path = join_path(&root, &dir);
    assert!(path.starts_with("/home/u/worktrees/proj/"));
    assert!(branch.starts_with("aterm/"));
}

#[test]
fn join_path_single_separator() {
    assert_eq!(join_path("/a/b", "c-d1f"), "/a/b/c-d1f");
}

#[test]
fn accept_candidate_requires_both_free() {
    assert!(accept_candidate(false, false));
    assert!(!accept_candidate(true, false));
    assert!(!accept_candidate(false, true));
    assert!(!accept_candidate(true, true));
    assert_eq!(MAX_NAMING_ATTEMPTS, 20);
}

#[test]
fn base_ref_resolution() {
    assert_eq!(effective_base_ref(&Some("  main  ".to_string())).as_deref(), Some("main"));
    assert_eq!(effective_base_ref(&Some("   ".to_string())), None);
    assert_eq!(effective_base_ref(&None), None);
}

#[test]
fn branch_or_head_handles_detached() {
    assert_eq!(branch_or_head("main\n"), "main");
    assert_eq!(branch_or_head("\n"), "HEAD");
    assert_eq!(branch_or_head(""), "HEAD");
}

#[test]
fn work_tree_probe_output() {
    assert!(is_work_tree_output("true\n"));
    assert!(is_work_tree_output("  true  "));
    assert!(!is_work_tree_output("false\n"));
    assert!(!is_work_tree_output(""));
}

#[test]
fn common_dir_normalisation() {
    assert_eq!(resolve_common_dir("/wt", "/repo/.git\n"), "/repo/.git");
    assert_eq!(resolve_common_dir("/wt", ".git\n"), "/wt/.git");
    assert_eq!(resolve_common_dir("/wt", "../main/.git"), "/wt/../main/.git");
}

#[test]
fn preserved_file_names() {
    assert!(is_preserved_file(".envrc"));
    assert!(is_preserved_file("docker-compose.override.yml"));
    assert!(is_preserved_file(".env"));
    assert!(is_preserved_file(".env.local"));
    assert!(!is_preserved_file("docker-compose.yml"));
    assert!(!is_preserved_file("envrc"));
    assert!(!is_preserved_file("README.md"));
}
