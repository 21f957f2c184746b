//! Commit history parsing: pipe-delimited log records, relative-age labels
//! computed from fixed thresholds, and diffstat summary lines.

use crate::text::{
    chars_eq, chars_to_string, find_sub, lines_of, spec_dec_digits, spec_find_sub, spec_lines,
    spec_split, spec_split_ws, spec_timestamp_val, split_on, split_ws, str_to_chars,
    u64_to_dec_chars, parse_timestamp, parse_count, spec_count_val,
};
use vstd::prelude::*;

verus! {

/// One commit with its summary fields and derived statistics.
pub struct CommitSummary {
    pub hash: String,
    pub short_hash: String,
    pub subject: String,
    pub author: String,
    pub timestamp: i64,
    pub relative_time: String,
    pub files_changed: i32,
    pub additions: i32,
    pub deletions: i32,
}

/// The mathematical value of a commit summary.
pub ghost struct CommitSummaryView {
    pub hash: Seq<char>,
    pub short_hash: Seq<char>,
    pub subject: Seq<char>,
    pub author: Seq<char>,
    pub timestamp: int,
    pub relative_time: Seq<char>,
    pub files_changed: int,
    pub additions: int,
    pub deletions: int,
}

impl View for CommitSummary {
    type V = CommitSummaryView;

    open spec fn view(&self) -> CommitSummaryView {
        CommitSummaryView {
            hash: self.hash@,
            short_hash: self.short_hash@,
            subject: self.subject@,
            author: self.author@,
            timestamp: self.timestamp as int,
            relative_time: self.relative_time@,
            files_changed: self.files_changed as int,
            additions: self.additions as int,
            deletions: self.deletions as int,
        }
    }
}

impl DeepView for CommitSummary {
    type V = CommitSummaryView;

    open spec fn deep_view(&self) -> CommitSummaryView {
        self.view()
    }
}

/// The relative-age label for an age of `secs` seconds: fixed thresholds,
/// with 7-day weeks and 30-day months by design. Ages below one minute,
/// including negative ones, read "just now".
pub open spec fn spec_relative_time(secs: int) -> Seq<char> {
    if secs < 60 {
        seq!['j', 'u', 's', 't', ' ', 'n', 'o', 'w']
    } else if secs < 3600 {
        spec_dec_digits(secs / 60) + seq!['m', ' ', 'a', 'g', 'o']
    } else if secs < 86400 {
        spec_dec_digits(secs / 3600) + seq!['h', ' ', 'a', 'g', 'o']
    } else if secs < 604800 {
        spec_dec_digits(secs / 86400) + seq!['d', ' ', 'a', 'g', 'o']
    } else if secs < 2592000 {
        spec_dec_digits(secs / 604800) + seq!['w', ' ', 'a', 'g', 'o']
    } else {
        spec_dec_digits(secs / 2592000) + seq!['m', 'o', ' ', 'a', 'g', 'o']
    }
}

fn push_suffix(digits: Vec<char>, a: char, b: Option<char>) -> (r: Vec<char>)
    ensures
        b is Some ==> r@ == digits@ + seq![a, b->Some_0, ' ', 'a', 'g', 'o'],
        b is None ==> r@ == digits@ + seq![a, ' ', 'a', 'g', 'o'],
{
    let ghost d = digits@;
    let mut v = digits;
    v.push(a);
    if let Option::Some(c) = b {
        v.push(c);
    }
    v.push(' ');
    v.push('a');
    v.push('g');
    v.push('o');
    proof {
        if b is Some {
            assert(v@ =~= d + seq![a, b->Some_0, ' ', 'a', 'g', 'o']);
        } else {
            assert(v@ =~= d + seq![a, ' ', 'a', 'g', 'o']);
        }
    }
    v
}

/// Renders the age of `seconds_ago` seconds as a relative-time label.
pub fn parse_relative_time(seconds_ago: i64) -> (r: String)
    ensures
        r@ == spec_relative_time(seconds_ago as int),
{
    if seconds_ago < 60 {
        let mut v: Vec<char> = Vec::new();
        v.push('j');
        v.push('u');
        v.push('s');
        v.push('t');
        v.push(' ');
        v.push('n');
        v.push('o');
        v.push('w');
        proof {
            assert(v@ =~= spec_relative_time(seconds_ago as int));
        }
        chars_to_string(&v)
    } else {
        let s = seconds_ago as u64;
        let v: Vec<char> = if s < 3600 {
            push_suffix(u64_to_dec_chars(s / 60), 'm', Option::None)
        } else if s < 86400 {
            push_suffix(u64_to_dec_chars(s / 3600), 'h', Option::None)
        } else if s < 604800 {
            push_suffix(u64_to_dec_chars(s / 86400), 'd', Option::None)
        } else if s < 2592000 {
            push_suffix(u64_to_dec_chars(s / 604800), 'w', Option::None)
        } else {
            push_suffix(u64_to_dec_chars(s / 2592000), 'm', Option::Some('o'))
        };
        chars_to_string(&v)
    }
}

/// The commit summary one pipe-delimited log line denotes, at query time
/// `now`: the first five `|`-separated fields are the hash, short hash,
/// subject, author and timestamp; lines with fewer fields denote nothing.
/// Statistics start at zero and are filled by a later diffstat pass.
pub open spec fn spec_commit_of_line(l: Seq<char>, now: int) -> Option<CommitSummaryView> {
    let parts = spec_split(l, '|');
    if parts.len() >= 5 {
        let ts = spec_timestamp_val(parts[4]);
        Option::Some(
            CommitSummaryView {
                hash: parts[0],
                short_hash: parts[1],
                subject: parts[2],
                author: parts[3],
                timestamp: ts,
                relative_time: spec_relative_time(now - ts),
                files_changed: 0,
                additions: 0,
                deletions: 0,
            },
        )
    } else {
        Option::None
    }
}

pub open spec fn spec_commit_opt_seq(o: Option<CommitSummaryView>) -> Seq<CommitSummaryView> {
    match o {
        Option::Some(x) => seq![x],
        Option::None => Seq::empty(),
    }
}

/// The commit summaries a sequence of log lines denotes, in input order.
pub open spec fn spec_commit_lines(lines: Seq<Seq<char>>, now: int) -> Seq<CommitSummaryView>
    decreases lines.len(),
{
    if lines.len() == 0 {
        Seq::empty()
    } else {
        spec_commit_lines(lines.drop_last(), now) + spec_commit_opt_seq(
            spec_commit_of_line(lines.last(), now),
        )
    }
}

/// The commit summaries parsed from raw log text at query time `now`.
pub open spec fn spec_parse_commit_log(text: Seq<char>, now: int) -> Seq<CommitSummaryView> {
    spec_commit_lines(spec_lines(text), now)
}

/// Parses pipe-delimited log text into commit summaries, computing each
/// commit's relative age against the query time `now` (epoch seconds).
/// Statistics fields start at zero.
pub fn parse_commit_log(text: &str, now: i64) -> (r: Vec<CommitSummary>)
    requires
        now >= 0,
    ensures
        r.deep_view() == spec_parse_commit_log(text@, now as int),
{
    let chars = str_to_chars(text);
    let lns = lines_of(&chars);
    let ghost lv = lns.deep_view();
    let mut commits: Vec<CommitSummary> = Vec::new();
    let mut i: usize = 0;
    proof {
        assert(lv.subrange(0, 0) =~= Seq::<Seq<char>>::empty());
        assert(commits.deep_view() =~= Seq::<CommitSummaryView>::empty());
    }
    while i < lns.len()
        invariant
            now >= 0,
            i <= lv.len(),
            lns.deep_view() == lv,
            commits.deep_view() == spec_commit_lines(lv.subrange(0, i as int), now as int),
        decreases lns@.len() - i,
    {
        let line = &lns[i];
        let ghost l = lv[i as int];
        let ghost c_old = commits.deep_view();
        proof {
            assert(line@ == l);
        }
        let parts = split_on(line, '|');
        proof {
            assert(parts.deep_view().len() == parts@.len());
        }
        if parts.len() >= 5 {
            proof {
                assert(parts.deep_view()[0] == parts@[0]@);
                assert(parts.deep_view()[1] == parts@[1]@);
                assert(parts.deep_view()[2] == parts@[2]@);
                assert(parts.deep_view()[3] == parts@[3]@);
                assert(parts.deep_view()[4] == parts@[4]@);
            }
            let ts = parse_timestamp(&parts[4]);
            let rel = parse_relative_time(now - ts);
            let c = CommitSummary {
                hash: chars_to_string(&parts[0]),
                short_hash: chars_to_string(&parts[1]),
                subject: chars_to_string(&parts[2]),
                author: chars_to_string(&parts[3]),
                timestamp: ts,
                relative_time: rel,
                files_changed: 0,
                additions: 0,
                deletions: 0,
            };
            proof {
                assert(c@ == spec_commit_of_line(l, now as int)->Some_0);
            }
            commits.push(c);
            proof {
                assert(commits.deep_view() =~= c_old.push(
                    spec_commit_of_line(l, now as int)->Some_0,
                ));
            }
        }
        proof {
            let pre = lv.subrange(0, i as int);
            let ext = lv.subrange(0, i + 1 as int);
            assert(ext.drop_last() =~= pre);
            assert(ext.last() == l);
            assert(commits.deep_view() =~= spec_commit_lines(ext, now as int));
        }
        i = i + 1;
    }
    proof {
        assert(lv.subrange(0, lv.len() as int) =~= lv);
    }
    commits
}

/// The token `file`.
pub open spec fn spec_tok_file() -> Seq<char> {
    seq!['f', 'i', 'l', 'e']
}

/// The token `files`.
pub open spec fn spec_tok_files() -> Seq<char> {
    seq!['f', 'i', 'l', 'e', 's']
}

/// The word `insertion`.
pub open spec fn spec_tok_insertion() -> Seq<char> {
    seq!['i', 'n', 's', 'e', 'r', 't', 'i', 'o', 'n']
}

/// The word `deletion`.
pub open spec fn spec_tok_deletion() -> Seq<char> {
    seq!['d', 'e', 'l', 'e', 't', 'i', 'o', 'n']
}

/// The word `changed`.
pub open spec fn spec_tok_changed() -> Seq<char> {
    seq!['c', 'h', 'a', 'n', 'g', 'e', 'd']
}

/// One scan step over a diffstat summary's tokens, from token `i` on,
/// carrying the counts read so far. A `file`/`files` token takes the
/// preceding token as the files-changed count; a token containing
/// `insertion` or `deletion` takes the preceding token as the insertion or
/// deletion count; later matches overwrite earlier ones.
pub open spec fn spec_stat_scan(toks: Seq<Seq<char>>, i: int, f: int, a: int, d: int) -> (
    int,
    int,
    int,
)
    decreases toks.len() - i,
{
    if i < 0 || i >= toks.len() {
        (f, a, d)
    } else {
        let t = toks[i];
        if t == spec_tok_file() || t == spec_tok_files() {
            let nf = if i > 0 {
                spec_count_val(toks[i - 1])
            } else {
                f
            };
            spec_stat_scan(toks, i + 1, nf, a, d)
        } else if spec_find_sub(t, spec_tok_insertion()) >= 0 {
            let na = if i > 0 {
                spec_count_val(toks[i - 1])
            } else {
                a
            };
            spec_stat_scan(toks, i + 1, f, na, d)
        } else if spec_find_sub(t, spec_tok_deletion()) >= 0 {
            let nd = if i > 0 {
                spec_count_val(toks[i - 1])
            } else {
                d
            };
            spec_stat_scan(toks, i + 1, f, a, nd)
        } else {
            spec_stat_scan(toks, i + 1, f, a, d)
        }
    }
}

/// The `(files, insertions, deletions)` counts one summary line carries.
pub open spec fn spec_stat_line_counts(l: Seq<char>) -> (int, int, int) {
    spec_stat_scan(spec_split_ws(l), 0, 0, 0, 0)
}

/// The first line of `lines` that contains the word `changed`, if any.
pub open spec fn spec_first_changed_line(lines: Seq<Seq<char>>) -> Option<Seq<char>>
    decreases lines.len(),
{
    if lines.len() == 0 {
        Option::None
    } else if spec_find_sub(lines.first(), spec_tok_changed()) >= 0 {
        Option::Some(lines.first())
    } else {
        spec_first_changed_line(lines.drop_first())
    }
}

/// The `(files_changed, additions, deletions)` triple a diffstat text
/// denotes: the counts of its first line containing `changed`, or zeros
/// when no such line exists.
pub open spec fn spec_diff_stats(text: Seq<char>) -> (int, int, int) {
    match spec_first_changed_line(spec_lines(text)) {
        Option::Some(l) => spec_stat_line_counts(l),
        Option::None => (0, 0, 0),
    }
}

/// Parses a diffstat text into `(files_changed, additions, deletions)`,
/// read from its first summary line containing the word `changed`.
pub fn parse_diff_stats(text: &str) -> (r: (i32, i32, i32))
    ensures
        r.0 as int == spec_diff_stats(text@).0,
        r.1 as int == spec_diff_stats(text@).1,
        r.2 as int == spec_diff_stats(text@).2,
{
    let chars = str_to_chars(text);
    let lns = lines_of(&chars);
    let ghost lv = lns.deep_view();

    let changed = str_to_chars("changed");
    proof {
        reveal_strlit("changed");
        assert(changed@ =~= spec_tok_changed());
    }

    let mut i: usize = 0;
    proof {
        assert(lv.subrange(0, lv.len() as int) =~= lv);
        assert(lv.skip(0) =~= lv);
    }
    while i < lns.len()
        invariant
            i <= lv.len(),
            lns.deep_view() == lv,
            lv == spec_lines(text@),
            changed@ == spec_tok_changed(),
            spec_first_changed_line(lv) == spec_first_changed_line(lv.skip(i as int)),
        decreases lns@.len() - i,
    {
        let line = &lns[i];
        proof {
            let rest = lv.skip(i as int);
            assert(rest.first() == lv[i as int]);
            assert(rest.drop_first() =~= lv.skip(i + 1));
            assert(line@ == lv[i as int]);
        }
        let found = find_sub(line, &changed);
        if found.is_some() {
            proof {
                let rest = lv.skip(i as int);
                assert(spec_find_sub(line@, spec_tok_changed()) >= 0);
                assert(rest.first() == line@);
                assert(spec_first_changed_line(rest) == Option::Some(line@));
                assert(spec_first_changed_line(lv) == Option::Some(line@));
            }
            return stat_line(line);
        }
        i = i + 1;
    }
    proof {
        assert(lv.skip(i as int) =~= Seq::<Seq<char>>::empty());
    }
    (0, 0, 0)
}

/// Reads the counts out of one diffstat summary line.
fn stat_line(line: &Vec<char>) -> (r: (i32, i32, i32))
    ensures
        r.0 as int == spec_stat_line_counts(line@).0,
        r.1 as int == spec_stat_line_counts(line@).1,
        r.2 as int == spec_stat_line_counts(line@).2,
{
    let toks = split_ws(line);
    let ghost tv = toks.deep_view();

    let tok_file = str_to_chars("file");
    let tok_files = str_to_chars("files");
    let tok_ins = str_to_chars("insertion");
    let tok_del = str_to_chars("deletion");
    proof {
        reveal_strlit("file");
        reveal_strlit("files");
        reveal_strlit("insertion");
        reveal_strlit("deletion");
        assert(tok_file@ =~= spec_tok_file());
        assert(tok_files@ =~= spec_tok_files());
        assert(tok_ins@ =~= spec_tok_insertion());
        assert(tok_del@ =~= spec_tok_deletion());
    }

    let mut f: i32 = 0;
    let mut a: i32 = 0;
    let mut d: i32 = 0;
    let mut i: usize = 0;
    while i < toks.len()
        invariant
            i <= tv.len(),
            toks.deep_view() == tv,
            tok_file@ == spec_tok_file(),
            tok_files@ == spec_tok_files(),
            tok_ins@ == spec_tok_insertion(),
            tok_del@ == spec_tok_deletion(),
            spec_stat_line_counts(line@) == spec_stat_scan(
                tv,
                i as int,
                f as int,
                a as int,
                d as int,
            ),
        decreases toks@.len() - i,
    {
        let t = &toks[i];
        proof {
            assert(tv[i as int] == toks@[i as int]@);
            assert(t@ == tv[i as int]);
        }
        if chars_eq(t, &tok_file) || chars_eq(t, &tok_files) {
            if i > 0 {
                proof {
                    assert(tv[i - 1] == toks@[i - 1]@);
                }
                f = parse_count(&toks[i - 1]);
            }
        } else if find_sub(t, &tok_ins).is_some() {
            if i > 0 {
                proof {
                    assert(tv[i - 1] == toks@[i - 1]@);
                }
                a = parse_count(&toks[i - 1]);
            }
        } else if find_sub(t, &tok_del).is_some() {
            if i > 0 {
                proof {
                    assert(tv[i - 1] == toks@[i - 1]@);
                }
                d = parse_count(&toks[i - 1]);
            }
        }
        i = i + 1;
    }
    (f, a, d)
}

} // verus!
