//! Porcelain-v1 status parsing: each line carries a two-character status
//! code pair and a path field, renames written as `old -> new`. Lines are
//! partitioned into staged, unstaged and untracked change records.

use crate::text::{
    chars_to_string, find_sub, lines_of, spec_find_sub, spec_lines, spec_match_at,
    spec_split_ws, spec_trim, split_ws, str_to_chars, subvec, trim_chars, lemma_find_sub_props,
    parse_count, spec_count_val,
};
use vstd::prelude::*;

verus! {

/// The change state of one file, mapped from a porcelain status code.
#[derive(Clone, Copy, PartialEq, Eq, Debug, Structural)]
pub enum FileStatus {
    Modified,
    Added,
    Deleted,
    Renamed,
    Copied,
    Unmerged,
    Untracked,
    Unknown,
}

/// The status a single code character denotes.
pub open spec fn spec_status_of(c: char) -> FileStatus {
    if c == 'M' {
        FileStatus::Modified
    } else if c == 'A' {
        FileStatus::Added
    } else if c == 'D' {
        FileStatus::Deleted
    } else if c == 'R' {
        FileStatus::Renamed
    } else if c == 'C' {
        FileStatus::Copied
    } else if c == 'U' {
        FileStatus::Unmerged
    } else if c == '?' {
        FileStatus::Untracked
    } else {
        FileStatus::Unknown
    }
}

/// Maps one status code character to its file status.
pub fn parse_status_code(code: char) -> (s: FileStatus)
    ensures
        s == spec_status_of(code),
{
    if code == 'M' {
        FileStatus::Modified
    } else if code == 'A' {
        FileStatus::Added
    } else if code == 'D' {
        FileStatus::Deleted
    } else if code == 'R' {
        FileStatus::Renamed
    } else if code == 'C' {
        FileStatus::Copied
    } else if code == 'U' {
        FileStatus::Unmerged
    } else if code == '?' {
        FileStatus::Untracked
    } else {
        FileStatus::Unknown
    }
}

/// One file's change record relative to HEAD and/or the index.
pub struct GitFile {
    pub path: String,
    pub status: FileStatus,
    pub staged: bool,
    pub old_path: Option<String>,
}

/// The mathematical value of a change record.
pub ghost struct GitFileView {
    pub path: Seq<char>,
    pub status: FileStatus,
    pub staged: bool,
    pub old_path: Option<Seq<char>>,
}

impl View for GitFile {
    type V = GitFileView;

    open spec fn view(&self) -> GitFileView {
        GitFileView {
            path: self.path@,
            status: self.status,
            staged: self.staged,
            old_path: match self.old_path {
                Option::Some(p) => Option::Some(p@),
                Option::None => Option::None,
            },
        }
    }
}

impl DeepView for GitFile {
    type V = GitFileView;

    open spec fn deep_view(&self) -> GitFileView {
        self.view()
    }
}

/// The full three-way partition of a repository's working state.
pub struct GitStatus {
    pub branch: String,
    pub ahead: i32,
    pub behind: i32,
    pub staged: Vec<GitFile>,
    pub unstaged: Vec<GitFile>,
    pub untracked: Vec<GitFile>,
}

/// The rename separator ` -> `.
pub open spec fn spec_arrow() -> Seq<char> {
    seq![' ', '-', '>', ' ']
}

fn arrow_chars() -> (r: Vec<char>)
    ensures
        r@ == spec_arrow(),
{
    let mut r: Vec<char> = Vec::new();
    r.push(' ');
    r.push('-');
    r.push('>');
    r.push(' ');
    proof {
        assert(r@ =~= spec_arrow());
    }
    r
}

/// Splits a path field at the rename separator: the display path and, for a
/// rename, the old path. With a separator present, the old path is what
/// stands before its first occurrence and the display path is the segment
/// between the first and second occurrences.
pub open spec fn spec_rename_parts(f: Seq<char>) -> (Seq<char>, Option<Seq<char>>) {
    let i = spec_find_sub(f, spec_arrow());
    if i < 0 {
        (f, Option::None)
    } else {
        let old = f.take(i);
        let rest = f.skip(i + 4);
        let j = spec_find_sub(rest, spec_arrow());
        if j < 0 {
            (rest, Option::Some(old))
        } else {
            (rest.take(j), Option::Some(old))
        }
    }
}

/// The records a single status line produces: at most one staged record, at
/// most one unstaged record, and at most one untracked record, by
/// construction.
pub ghost struct LineRecords {
    pub staged: Option<GitFileView>,
    pub unstaged: Option<GitFileView>,
    pub untracked: Option<GitFileView>,
}

/// What one porcelain-v1 line contributes: lines shorter than three
/// characters contribute nothing; an index code `?` yields one untracked
/// record; otherwise a non-space index code yields a staged record and a
/// non-space worktree code yields an unstaged record.
pub open spec fn spec_line_records(l: Seq<char>) -> LineRecords {
    if l.len() < 3 {
        LineRecords { staged: Option::None, unstaged: Option::None, untracked: Option::None }
    } else {
        let ix = l[0];
        let wt = l[1];
        let parts = spec_rename_parts(l.skip(3));
        if ix == '?' {
            LineRecords {
                staged: Option::None,
                unstaged: Option::None,
                untracked: Option::Some(
                    GitFileView {
                        path: parts.0,
                        status: FileStatus::Untracked,
                        staged: false,
                        old_path: Option::None,
                    },
                ),
            }
        } else {
            LineRecords {
                staged: if ix != ' ' {
                    Option::Some(
                        GitFileView {
                            path: parts.0,
                            status: spec_status_of(ix),
                            staged: true,
                            old_path: parts.1,
                        },
                    )
                } else {
                    Option::None
                },
                unstaged: if wt != ' ' {
                    Option::Some(
                        GitFileView {
                            path: parts.0,
                            status: spec_status_of(wt),
                            staged: false,
                            old_path: parts.1,
                        },
                    )
                } else {
                    Option::None
                },
                untracked: Option::None,
            }
        }
    }
}

pub open spec fn spec_opt_seq(o: Option<GitFileView>) -> Seq<GitFileView> {
    match o {
        Option::Some(x) => seq![x],
        Option::None => Seq::empty(),
    }
}

/// The staged, unstaged and untracked lists that a sequence of status lines
/// produces, in line order.
pub open spec fn spec_status_lists(lines: Seq<Seq<char>>) -> (
    Seq<GitFileView>,
    Seq<GitFileView>,
    Seq<GitFileView>,
)
    decreases lines.len(),
{
    if lines.len() == 0 {
        (Seq::empty(), Seq::empty(), Seq::empty())
    } else {
        let prev = spec_status_lists(lines.drop_last());
        let rec = spec_line_records(lines.last());
        (
            prev.0 + spec_opt_seq(rec.staged),
            prev.1 + spec_opt_seq(rec.unstaged),
            prev.2 + spec_opt_seq(rec.untracked),
        )
    }
}

/// The three-way partition parsed from raw porcelain-v1 text.
pub open spec fn spec_parse_status(text: Seq<char>) -> (
    Seq<GitFileView>,
    Seq<GitFileView>,
    Seq<GitFileView>,
) {
    spec_status_lists(spec_lines(text))
}

/// Splits a path field at the rename separator, as `spec_rename_parts`.
fn rename_parts(f: &Vec<char>) -> (r: (Vec<char>, Option<Vec<char>>))
    ensures
        r.0@ == spec_rename_parts(f@).0,
        match r.1 {
            Option::Some(o) => spec_rename_parts(f@).1 == Option::Some(o@),
            Option::None => spec_rename_parts(f@).1 is None,
        },
{
    let arrow = arrow_chars();
    match find_sub(f, &arrow) {
        Option::None => (subvec(f, 0, f.len()), Option::None),
        Option::Some(i) => {
            let fl = f.len();
            proof {
                lemma_find_sub_props(f@, arrow@);
                assert(spec_match_at(f@, arrow@, i as int));
                assert(arrow@.len() == 4);
                assert(i + 4 <= fl);
            }
            let old = subvec(f, 0, i);
            let rest = subvec(f, i + 4, fl);
            let j = match find_sub(&rest, &arrow) {
                Option::None => rest.len(),
                Option::Some(j) => {
                    proof {
                        lemma_find_sub_props(rest@, arrow@);
                        assert(spec_match_at(rest@, arrow@, j as int));
                    }
                    j
                },
            };
            let newp = subvec(&rest, 0, j);
            proof {
                assert(f@.subrange(0, f@.len() as int) =~= f@);
                assert(old@ =~= f@.take(i as int));
                assert(rest@ =~= f@.skip(i + 4));
                assert(rest@.subrange(0, rest@.len() as int) =~= rest@);
                if spec_find_sub(rest@, spec_arrow()) >= 0 {
                    assert(newp@ =~= f@.skip(i + 4).take(j as int));
                }
            }
            (newp, Option::Some(old))
        },
    }
}

/// Parses raw porcelain-v1 status text into the staged, unstaged and
/// untracked record lists, in line order.
pub fn parse_porcelain_status(text: &str) -> (r: (Vec<GitFile>, Vec<GitFile>, Vec<GitFile>))
    ensures
        r.0.deep_view() == spec_parse_status(text@).0,
        r.1.deep_view() == spec_parse_status(text@).1,
        r.2.deep_view() == spec_parse_status(text@).2,
{
    let chars = str_to_chars(text);
    let lns = lines_of(&chars);
    let ghost lv = lns.deep_view();
    let mut staged: Vec<GitFile> = Vec::new();
    let mut unstaged: Vec<GitFile> = Vec::new();
    let mut untracked: Vec<GitFile> = Vec::new();
    let mut i: usize = 0;
    proof {
        assert(lv.subrange(0, 0) =~= Seq::<Seq<char>>::empty());
        assert(staged.deep_view() =~= Seq::<GitFileView>::empty());
        assert(unstaged.deep_view() =~= Seq::<GitFileView>::empty());
        assert(untracked.deep_view() =~= Seq::<GitFileView>::empty());
    }
    while i < lns.len()
        invariant
            i <= lns@.len(),
            lns.deep_view() == lv,
            staged.deep_view() == spec_status_lists(lv.subrange(0, i as int)).0,
            unstaged.deep_view() == spec_status_lists(lv.subrange(0, i as int)).1,
            untracked.deep_view() == spec_status_lists(lv.subrange(0, i as int)).2,
        decreases lns@.len() - i,
    {
        let line = &lns[i];
        let ghost l = lv[i as int];
        let ghost rec = spec_line_records(l);
        let ghost s_old = staged.deep_view();
        let ghost u_old = unstaged.deep_view();
        let ghost t_old = untracked.deep_view();
        if line.len() >= 3 {
            let ix = line[0];
            let wt = line[1];
            let pf = subvec(line, 3, line.len());
            proof {
                assert(pf@ =~= l.skip(3));
            }
            let parts = rename_parts(&pf);
            let display = chars_to_string(&parts.0);
            if ix == '?' {
                let f = GitFile {
                    path: display,
                    status: FileStatus::Untracked,
                    staged: false,
                    old_path: Option::None,
                };
                proof {
                    assert(f@ == rec.untracked->Some_0);
                }
                untracked.push(f);
                proof {
                    assert(untracked.deep_view() =~= t_old.push(rec.untracked->Some_0));
                }
            } else {
                if ix != ' ' {
                    let old_path: Option<String> = match &parts.1 {
                        Option::Some(o) => Option::Some(chars_to_string(o)),
                        Option::None => Option::None,
                    };
                    let f = GitFile {
                        path: display.clone(),
                        status: parse_status_code(ix),
                        staged: true,
                        old_path,
                    };
                    proof {
                        assert(f@ == rec.staged->Some_0);
                    }
                    staged.push(f);
                    proof {
                        assert(staged.deep_view() =~= s_old.push(rec.staged->Some_0));
                    }
                }
                if wt != ' ' {
                    let old_path: Option<String> = match &parts.1 {
                        Option::Some(o) => Option::Some(chars_to_string(o)),
                        Option::None => Option::None,
                    };
                    let f = GitFile {
                        path: display,
                        status: parse_status_code(wt),
                        staged: false,
                        old_path,
                    };
                    proof {
                        assert(f@ == rec.unstaged->Some_0);
                    }
                    unstaged.push(f);
                    proof {
                        assert(unstaged.deep_view() =~= u_old.push(rec.unstaged->Some_0));
                    }
                }
            }
        }
        proof {
            let pre = lv.subrange(0, i as int);
            let ext = lv.subrange(0, i + 1 as int);
            assert(ext.drop_last() =~= pre);
            assert(ext.last() == l);
            assert(staged.deep_view() =~= spec_status_lists(ext).0);
            assert(unstaged.deep_view() =~= spec_status_lists(ext).1);
            assert(untracked.deep_view() =~= spec_status_lists(ext).2);
        }
        i = i + 1;
    }
    proof {
        assert(lv.subrange(0, lv.len() as int) =~= lv);
    }
    (staged, unstaged, untracked)
}

/// The `(behind, ahead)` pair that a `rev-list --left-right --count`
/// output denotes: the two whitespace-separated count fields when exactly
/// two are present, and `(0, 0)` otherwise.
pub open spec fn spec_ahead_behind(text: Seq<char>) -> (int, int) {
    let toks = spec_split_ws(spec_trim(text));
    if toks.len() == 2 {
        (spec_count_val(toks[0]), spec_count_val(toks[1]))
    } else {
        (0, 0)
    }
}

/// Parses upstream comparison output into `(behind, ahead)` counts.
pub fn parse_ahead_behind(text: &str) -> (r: (i32, i32))
    ensures
        r.0 as int == spec_ahead_behind(text@).0,
        r.1 as int == spec_ahead_behind(text@).1,
{
    let chars = str_to_chars(text);
    let trimmed = trim_chars(&chars);
    let toks = split_ws(&trimmed);
    proof {
        assert(toks.deep_view().len() == toks@.len());
    }
    if toks.len() == 2 {
        proof {
            assert(toks.deep_view()[0] == toks@[0]@);
            assert(toks.deep_view()[1] == toks@[1]@);
        }
        let behind = parse_count(&toks[0]);
        let ahead = parse_count(&toks[1]);
        (behind, ahead)
    } else {
        (0, 0)
    }
}

/// The branch name that a `branch --show-current` query reports: its
/// output with surrounding whitespace trimmed.
pub fn parse_branch_name(out: &str) -> (r: String)
    ensures
        r@ == spec_trim(out@),
{
    let chars = str_to_chars(out);
    let trimmed = trim_chars(&chars);
    chars_to_string(&trimmed)
}

/// Every status line yields at most one staged and at most one unstaged
/// record, and an untracked line yields neither.
pub proof fn lemma_line_partition(l: Seq<char>)
    ensures
        spec_line_records(l).untracked is Some ==> spec_line_records(l).staged is None
            && spec_line_records(l).unstaged is None,
        spec_status_lists(seq![l]).0.len() <= 1,
        spec_status_lists(seq![l]).1.len() <= 1,
{
    let e = Seq::<Seq<char>>::empty();
    assert(spec_status_lists(e).0 =~= Seq::<GitFileView>::empty());
    assert(spec_status_lists(e).1 =~= Seq::<GitFileView>::empty());
    assert(seq![l].drop_last() =~= e);
    assert(seq![l].last() == l);
    assert(spec_opt_seq(spec_line_records(l).staged).len() <= 1);
    assert(spec_opt_seq(spec_line_records(l).unstaged).len() <= 1);
}

/// Parsing never yields more staged, unstaged or untracked records than
/// there are input lines.
pub proof fn lemma_record_counts(lines: Seq<Seq<char>>)
    ensures
        spec_status_lists(lines).0.len() <= lines.len(),
        spec_status_lists(lines).1.len() <= lines.len(),
        spec_status_lists(lines).2.len() <= lines.len(),
    decreases lines.len(),
{
    if lines.len() > 0 {
        lemma_record_counts(lines.drop_last());
    }
}

/// A staged or unstaged record carries an old path exactly when its source
/// line contained the rename separator; an untracked record never carries
/// one, whatever its line contained.
pub proof fn lemma_rename_round_trip(l: Seq<char>)
    ensures
        spec_line_records(l).staged matches Some(f) ==> (f.old_path is Some <==> spec_find_sub(
            l.skip(3),
            spec_arrow(),
        ) >= 0),
        spec_line_records(l).unstaged matches Some(f) ==> (f.old_path is Some
            <==> spec_find_sub(l.skip(3), spec_arrow()) >= 0),
        spec_line_records(l).untracked matches Some(f) ==> f.old_path is None,
{
}


/// Every record in the staged list is marked staged; none in the
/// unstaged list is; and every untracked record is untracked, unstaged
/// and carries no old path.
pub proof fn lemma_partition_flags(lines: Seq<Seq<char>>)
    ensures
        forall|k: int|
            0 <= k < spec_status_lists(lines).0.len() ==> (#[trigger] spec_status_lists(
                lines,
            ).0[k]).staged,
        forall|k: int|
            0 <= k < spec_status_lists(lines).1.len() ==> !(#[trigger] spec_status_lists(
                lines,
            ).1[k]).staged,
        forall|k: int|
            0 <= k < spec_status_lists(lines).2.len() ==> {
                let u = #[trigger] spec_status_lists(lines).2[k];
                u.status == FileStatus::Untracked && !u.staged && u.old_path is None
            },
    decreases lines.len(),
{
    if lines.len() > 0 {
        lemma_partition_flags(lines.drop_last());
        let prev = spec_status_lists(lines.drop_last());
        let rec = spec_line_records(lines.last());
        assert forall|k: int|
            0 <= k < spec_status_lists(lines).0.len() implies (#[trigger] spec_status_lists(
            lines,
        ).0[k]).staged by {
            if k < prev.0.len() {
                assert(spec_status_lists(lines).0[k] == prev.0[k]);
            }
        }
        assert forall|k: int|
            0 <= k < spec_status_lists(lines).1.len() implies !(#[trigger] spec_status_lists(
            lines,
        ).1[k]).staged by {
            if k < prev.1.len() {
                assert(spec_status_lists(lines).1[k] == prev.1[k]);
            }
        }
        assert forall|k: int| 0 <= k < spec_status_lists(lines).2.len() implies {
            let u = #[trigger] spec_status_lists(lines).2[k];
            u.status == FileStatus::Untracked && !u.staged && u.old_path is None
        } by {
            if k < prev.2.len() {
                assert(spec_status_lists(lines).2[k] == prev.2[k]);
            }
        }
    }
}

/// Status parsing is a pure function of its input: the same text always
/// yields the same three lists.
pub proof fn lemma_status_parse_deterministic(a: Seq<char>, b: Seq<char>)
    requires
        a == b,
    ensures
        spec_parse_status(a) == spec_parse_status(b),
{
}

} // verus!
