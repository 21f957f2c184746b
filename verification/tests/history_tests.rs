use aterm::history::{parse_commit_log, parse_diff_stats, parse_relative_time};

#[test]
fn relative_time_boundaries() {
    assert_eq!(parse_relative_time(59), "just now");
    assert_eq!(parse_relative_time(60), "1m ago");
    assert_eq!(parse_relative_time(3599), "59m ago");
    assert_eq!(parse_relative_time(3600), "1h ago");
    assert_eq!(parse_relative_time(86399), "23h ago");
    assert_eq!(parse_relative_time(86400), "1d ago");
    assert_eq!(parse_relative_time(604799), "6d ago");
    assert_eq!(parse_relative_time(604800), "1w ago");
    assert_eq!(parse_relative_time(2591999), "4w ago");
    assert_eq!(parse_relative_time(2592000), "1mo ago");
}

#[test]
fn relative_time_negative_age_is_just_now() {
    assert_eq!(parse_relative_time(-5), "just now");
    assert_eq!(parse_relative_time(0), "just now");
}

#[test]
fn relative_time_larger_values() {
    assert_eq!(parse_relative_time(7200), "2h ago");
    assert_eq!(parse_relative_time(2592000 * 13), "13mo ago");
}

#[test]
fn commit_log_basic_line() {
    let now = 1_700_000_000_i64;
    let line = format!("abc123fulldeadbeef|abc123f|Fix the bug|Ada|{}\n", now - 120);
    let commits = parse_commit_log(&line, now);
    assert_eq!(commits.len(), 1);
    assert_eq!(commits[0].hash, "abc123fulldeadbeef");
    assert_eq!(commits[0].short_hash, "abc123f");
    assert_eq!(commits[0].subject, "Fix the bug");
    assert_eq!(commits[0].author, "Ada");
    assert_eq!(commits[0].timestamp, now - 120);
    assert_eq!(commits[0].relative_time, "2m ago");
    assert_eq!(commits[0].files_changed, 0);
    assert_eq!(commits[0].additions, 0);
    assert_eq!(commits[0].deletions, 0);
}

#[test]
fn commit_log_skips_malformed_lines() {
    let commits = parse_commit_log("not a log line\na|b|c|d|100\na|b|c\n", 200);
    assert_eq!(commits.len(), 1);
    assert_eq!(commits[0].hash, "a");
    assert_eq!(commits[0].timestamp, 100);
}

#[test]
fn commit_log_bad_timestamp_is_zero() {
    let commits = parse_commit_log("h|s|subj|auth|notanumber\n", 50);
    assert_eq!(commits.len(), 1);
    assert_eq!(commits[0].timestamp, 0);
    assert_eq!(commits[0].relative_time, "just now");
}

#[test]
fn commit_log_preserves_order() {
    let commits = parse_commit_log("h1|s1|one|a|100\nh2|s2|two|a|90\n", 100);
    assert_eq!(commits.len(), 2);
    assert_eq!(commits[0].hash, "h1");
    assert_eq!(commits[1].hash, "h2");
}

#[test]
fn diff_stats_summary_line() {
    let text = " file.txt | 12 +++---\n 3 files changed, 10 insertions(+), 2 deletions(-)\n";
    assert_eq!(parse_diff_stats(text), (3, 10, 2));
}

#[test]
fn diff_stats_single_file_no_deletions() {
    let text = " 1 file changed, 7 insertions(+)\n";
    assert_eq!(parse_diff_stats(text), (1, 7, 0));
}

#[test]
fn diff_stats_no_changed_line() {
    assert_eq!(parse_diff_stats("nothing to see\n"), (0, 0, 0));
    assert_eq!(parse_diff_stats(""), (0, 0, 0));
}

#[test]
fn diff_stats_deletions_only() {
    let text = " 2 files changed, 4 deletions(-)\n";
    assert_eq!(parse_diff_stats(text), (2, 0, 4));
}
