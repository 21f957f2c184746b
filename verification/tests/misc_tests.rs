use aterm::commit_files::parse_commit_files;
use aterm::iterm::build_iterm_profile;
use aterm::listing::{is_hidden_name, sort_dir_entries, DirEntry};
use aterm::repo::{remote_from_output, synth_untracked_diff};
use aterm::status::FileStatus;

#[test]
fn commit_files_merges_counts_by_path() {
    let text = "10\t2\tsrc/a.rs\n3\t0\tREADME.md\nM\tsrc/a.rs\nA\tREADME.md\n";
    let files = parse_commit_files(text);
    assert_eq!(files.len(), 2);
    assert_eq!(files[0].path, "src/a.rs");
    assert_eq!(files[0].status, FileStatus::Modified);
    assert_eq!(files[0].additions, 10);
    assert_eq!(files[0].deletions, 2);
    assert_eq!(files[1].path, "README.md");
    assert_eq!(files[1].status, FileStatus::Added);
    assert_eq!(files[1].additions, 3);
    assert_eq!(files[1].deletions, 0);
}

#[test]
fn commit_files_numstat_lines_yield_no_records() {
    // A numstat line starts with a count, never a letter, so only the
    // name-status line yields a record; the counts are joined onto it.
    let files = parse_commit_files("3\t0\tREADME.md\nA\tREADME.md\n");
    assert_eq!(files.len(), 1);
    assert_eq!(files[0].path, "README.md");
    assert_eq!(files[0].status, FileStatus::Added);
    assert_eq!(files[0].additions, 3);
    assert_eq!(files[0].deletions, 0);
}

#[test]
fn commit_files_rename_uses_final_path() {
    // The rename's lookup key is the final path. The rename line itself
    // has three tab-separated fields, so the count pass reads it too and
    // overwrites the counts for that path with zeros.
    let text = "15\t11\tnew.rs\nR\told.rs\tnew.rs\n";
    let files = parse_commit_files(text);
    assert_eq!(files.len(), 1);
    assert_eq!(files[0].path, "new.rs");
    assert_eq!(files[0].status, FileStatus::Renamed);
    assert_eq!(files[0].additions, 0);
    assert_eq!(files[0].deletions, 0);
}

#[test]
fn commit_files_counts_survive_for_plain_paths() {
    // A name-status line with two fields does not reach the count pass,
    // so counts keyed by its path stay intact.
    let files = parse_commit_files("15\t11\ta.rs\nM\ta.rs\n");
    assert_eq!(files.len(), 1);
    assert_eq!(files[0].additions, 15);
    assert_eq!(files[0].deletions, 11);
}

#[test]
fn commit_files_binary_counts_default_to_zero() {
    // numstat reports "-" for binary files: its counts parse to zero, and
    // the "-" first field is no letter, so the line yields no record of
    // its own.
    let text = "-\t-\tlogo.png\nA\tlogo.png\n";
    let files = parse_commit_files(text);
    assert_eq!(files.len(), 1);
    assert_eq!(files[0].path, "logo.png");
    assert_eq!(files[0].status, FileStatus::Added);
    assert_eq!(files[0].additions, 0);
    assert_eq!(files[0].deletions, 0);
}

#[test]
fn commit_files_duplicate_count_lines_last_wins() {
    let files = parse_commit_files("10\t10\ta.rs\n20\t30\ta.rs\nM\ta.rs\n");
    assert_eq!(files.len(), 1);
    assert_eq!(files[0].additions, 20);
    assert_eq!(files[0].deletions, 30);
}

#[test]
fn commit_files_unknown_code_defaults_to_modified() {
    let files = parse_commit_files("T\tweird.rs\n");
    assert_eq!(files.len(), 1);
    assert_eq!(files[0].status, FileStatus::Modified);
}

#[test]
fn commit_files_empty_input() {
    assert_eq!(parse_commit_files("").len(), 0);
}

#[test]
fn remote_output_trimmed_or_absent() {
    assert_eq!(
        remote_from_output("git@example.com:u/r.git\n").as_deref(),
        Some("git@example.com:u/r.git")
    );
    assert_eq!(remote_from_output("\n"), None);
    assert_eq!(remote_from_output(""), None);
}

#[test]
fn untracked_pseudo_diff_layout() {
    let d = synth_untracked_diff("notes.md", "line one\nline two\n");
    assert_eq!(d, "New file: notes.md\n\n+line one\n+line two");
    let e = synth_untracked_diff("empty.txt", "");
    assert_eq!(e, "New file: empty.txt\n\n");
}

#[test]
fn line_splitting_keeps_a_bare_final_carriage_return() {
    // A carriage return is stripped only as part of a CRLF line ending;
    // an unterminated final line keeps it.
    let lines = aterm::text::lines_of(&vec!['a', '\r']);
    assert_eq!(lines, vec![vec!['a', '\r']]);
    let lines = aterm::text::lines_of(&vec!['a', '\r', '\n', 'b', '\r']);
    assert_eq!(lines, vec![vec!['a'], vec!['b', '\r']]);
    let lines = aterm::text::lines_of(&vec!['a', '\r', '\n']);
    assert_eq!(lines, vec![vec!['a']]);
}

#[test]
fn hidden_names() {
    assert!(is_hidden_name(".git"));
    assert!(is_hidden_name(".env"));
    assert!(!is_hidden_name(".."));
    assert!(!is_hidden_name("src"));
    assert!(!is_hidden_name(""));
}

fn entry(name: &str, is_dir: bool) -> DirEntry {
    DirEntry {
        name: name.to_string(),
        path: format!("/p/{}", name),
        is_dir,
        is_git_repo: false,
    }
}

#[test]
fn directory_entries_sort_dirs_first_case_insensitive() {
    let entries = vec![
        entry("zeta.txt", false),
        entry("Alpha", true),
        entry("beta", true),
        entry("Apple.txt", false),
    ];
    let sorted = sort_dir_entries(entries);
    let names: Vec<&str> = sorted.iter().map(|e| e.name.as_str()).collect();
    assert_eq!(names, vec!["Alpha", "beta", "Apple.txt", "zeta.txt"]);
}

#[test]
fn profile_requires_guid() {
    let none = build_iterm_profile(
        Some("Work".to_string()),
        None,
        None,
        None,
        None,
    );
    assert!(none.is_none());
    let empty = build_iterm_profile(
        Some("Work".to_string()),
        Some(String::new()),
        None,
        None,
        None,
    );
    assert!(empty.is_none());
}

#[test]
fn profile_prefers_initial_text_over_command() {
    let p = build_iterm_profile(
        None,
        Some("g-1".to_string()),
        Some("ssh host".to_string()),
        Some("zsh".to_string()),
        Some(String::new()),
    )
    .unwrap();
    assert_eq!(p.name, "Unnamed");
    assert_eq!(p.guid, "g-1");
    assert_eq!(p.command.as_deref(), Some("ssh host"));
    assert_eq!(p.working_directory, None);
}

#[test]
fn profile_falls_back_to_command() {
    let p = build_iterm_profile(
        Some("Shell".to_string()),
        Some("g-2".to_string()),
        Some(String::new()),
        Some("fish".to_string()),
        Some("/home/u".to_string()),
    )
    .unwrap();
    assert_eq!(p.name, "Shell");
    assert_eq!(p.command.as_deref(), Some("fish"));
    assert_eq!(p.working_directory.as_deref(), Some("/home/u"));
}
