//! Per-commit file listings: a two-pass merge of tab-separated numstat
//! lines (additions/deletions per path) with name-status lines (status code
//! per path), joined on the final file path.

use crate::status::FileStatus;
use crate::text::{
    chars_eq, chars_to_string, lines_of, spec_count_val, spec_lines, spec_split, split_on,
    str_to_chars,
};
use vstd::prelude::*;

verus! {

/// One file touched by a commit, with its change counts.
pub struct CommitFile {
    pub path: String,
    pub status: FileStatus,
    pub additions: i32,
    pub deletions: i32,
}

/// The mathematical value of a commit file change.
pub ghost struct CommitFileView {
    pub path: Seq<char>,
    pub status: FileStatus,
    pub additions: int,
    pub deletions: int,
}

impl View for CommitFile {
    type V = CommitFileView;

    open spec fn view(&self) -> CommitFileView {
        CommitFileView {
            path: self.path@,
            status: self.status,
            additions: self.additions as int,
            deletions: self.deletions as int,
        }
    }
}

impl DeepView for CommitFile {
    type V = CommitFileView;

    open spec fn deep_view(&self) -> CommitFileView {
        self.view()
    }
}

/// The status a name-status code character denotes in the per-commit view:
/// anything unrecognised defaults to Modified.
pub open spec fn spec_commit_file_status(c: char) -> FileStatus {
    if c == 'A' {
        FileStatus::Added
    } else if c == 'M' {
        FileStatus::Modified
    } else if c == 'D' {
        FileStatus::Deleted
    } else if c == 'R' {
        FileStatus::Renamed
    } else {
        FileStatus::Modified
    }
}

fn commit_file_status(c: char) -> (s: FileStatus)
    ensures
        s == spec_commit_file_status(c),
{
    if c == 'A' {
        FileStatus::Added
    } else if c == 'M' {
        FileStatus::Modified
    } else if c == 'D' {
        FileStatus::Deleted
    } else if c == 'R' {
        FileStatus::Renamed
    } else {
        FileStatus::Modified
    }
}

/// The count mapping that the numstat lines build: every line with exactly
/// three tab-separated fields maps its path (third field) to its addition
/// and deletion counts, later lines overwriting earlier ones.
pub open spec fn spec_numstat_map(lines: Seq<Seq<char>>) -> Map<Seq<char>, (int, int)>
    decreases lines.len(),
{
    if lines.len() == 0 {
        Map::empty()
    } else {
        let m = spec_numstat_map(lines.drop_last());
        let parts = spec_split(lines.last(), '\t');
        if parts.len() == 3 {
            m.insert(parts[2], (spec_count_val(parts[0]), spec_count_val(parts[1])))
        } else {
            m
        }
    }
}

/// An ASCII letter: the shape of a name-status code character. Numstat
/// lines start with a count or `-`, never a letter.
pub open spec fn spec_is_status_letter(c: char) -> bool {
    (65 <= c as int && c as int <= 90) || (97 <= c as int && c as int <= 122)
}

fn is_status_letter(c: char) -> (r: bool)
    ensures
        r == spec_is_status_letter(c),
{
    let u = c as u32;
    (65 <= u && u <= 90) || (97 <= u && u <= 122)
}

/// The commit file record one name-status line denotes, given the count
/// mapping: the line must have at least two tab-separated fields and a
/// one-letter status code, so numstat lines (whose first field is a count
/// or `-`) denote nothing; the path is the third field when present (a
/// rename), else the second; counts default to zero for paths absent
/// from the mapping (binary files).
pub open spec fn spec_file_of_line(l: Seq<char>, m: Map<Seq<char>, (int, int)>) -> Option<
    CommitFileView,
> {
    let parts = spec_split(l, '\t');
    if parts.len() >= 2 && parts[0].len() == 1 && spec_is_status_letter(parts[0][0]) {
        let path = if parts.len() == 3 {
            parts[2]
        } else {
            parts[1]
        };
        let counts = if m.contains_key(path) {
            m[path]
        } else {
            (0, 0)
        };
        Option::Some(
            CommitFileView {
                path: path,
                status: spec_commit_file_status(parts[0][0]),
                additions: counts.0,
                deletions: counts.1,
            },
        )
    } else {
        Option::None
    }
}

pub open spec fn spec_file_opt_seq(o: Option<CommitFileView>) -> Seq<CommitFileView> {
    match o {
        Option::Some(x) => seq![x],
        Option::None => Seq::empty(),
    }
}

/// The commit file records the name-status lines produce, in line order,
/// against the count mapping `m`.
pub open spec fn spec_commit_files_rec(lines: Seq<Seq<char>>, m: Map<Seq<char>, (int, int)>)
    -> Seq<CommitFileView>
    decreases lines.len(),
{
    if lines.len() == 0 {
        Seq::empty()
    } else {
        spec_commit_files_rec(lines.drop_last(), m) + spec_file_opt_seq(
            spec_file_of_line(lines.last(), m),
        )
    }
}

/// The commit file listing parsed from combined numstat and name-status
/// text.
pub open spec fn spec_parse_commit_files(text: Seq<char>) -> Seq<CommitFileView> {
    spec_commit_files_rec(spec_lines(text), spec_numstat_map(spec_lines(text)))
}

struct NumstatEntry {
    key: Vec<char>,
    adds: i32,
    dels: i32,
}

ghost struct NumstatEntryView {
    key: Seq<char>,
    adds: int,
    dels: int,
}

impl View for NumstatEntry {
    type V = NumstatEntryView;

    closed spec fn view(&self) -> NumstatEntryView {
        NumstatEntryView { key: self.key@, adds: self.adds as int, dels: self.dels as int }
    }
}

impl DeepView for NumstatEntry {
    type V = NumstatEntryView;

    closed spec fn deep_view(&self) -> NumstatEntryView {
        self.view()
    }
}

/// The mapping an entry list represents: entries inserted left to right.
spec fn spec_assoc_map(es: Seq<NumstatEntryView>) -> Map<Seq<char>, (int, int)>
    decreases es.len(),
{
    if es.len() == 0 {
        Map::empty()
    } else {
        spec_assoc_map(es.drop_last()).insert(es.last().key, (es.last().adds, es.last().dels))
    }
}

/// The index of the last entry with the given key, or -1.
spec fn spec_assoc_find(es: Seq<NumstatEntryView>, k: Seq<char>) -> int
    decreases es.len(),
{
    if es.len() == 0 {
        -1
    } else if es.last().key == k {
        es.len() - 1
    } else {
        spec_assoc_find(es.drop_last(), k)
    }
}

proof fn lemma_assoc_find(es: Seq<NumstatEntryView>, k: Seq<char>)
    ensures
        spec_assoc_map(es).contains_key(k) <==> spec_assoc_find(es, k) >= 0,
        spec_assoc_find(es, k) >= 0 ==> spec_assoc_find(es, k) < es.len() && es[spec_assoc_find(
            es,
            k,
        )].key == k && spec_assoc_map(es)[k] == (
            es[spec_assoc_find(es, k)].adds,
            es[spec_assoc_find(es, k)].dels,
        ),
    decreases es.len(),
{
    if es.len() > 0 {
        lemma_assoc_find(es.drop_last(), k);
        if es.last().key != k && spec_assoc_find(es, k) >= 0 {
            assert(es[spec_assoc_find(es, k)] == es.drop_last()[spec_assoc_find(es, k)]);
        }
    }
}

/// Looks up a path in the entry list, scanning for the most recent match;
/// zeros when the path is absent.
fn assoc_lookup(entries: &Vec<NumstatEntry>, key: &Vec<char>) -> (r: (i32, i32))
    ensures
        ({
            let m = spec_assoc_map(entries.deep_view());
            if m.contains_key(key@) {
                r.0 as int == m[key@].0 && r.1 as int == m[key@].1
            } else {
                r.0 == 0 && r.1 == 0
            }
        }),
{
    let ghost ev = entries.deep_view();
    let mut j: usize = entries.len();
    proof {
        assert(ev.subrange(0, ev.len() as int) =~= ev);
    }
    while j > 0
        invariant
            j <= ev.len(),
            entries.deep_view() == ev,
            spec_assoc_find(ev, key@) == spec_assoc_find(ev.subrange(0, j as int), key@),
        decreases j,
    {
        proof {
            let pre = ev.subrange(0, j as int);
            assert(pre.last() == ev[j - 1]);
            assert(pre.drop_last() =~= ev.subrange(0, j - 1));
            assert(ev[j - 1] == entries@[j - 1]@);
        }
        if chars_eq(&entries[j - 1].key, key) {
            proof {
                lemma_assoc_find(ev, key@);
            }
            return (entries[j - 1].adds, entries[j - 1].dels);
        }
        j = j - 1;
    }
    proof {
        assert(ev.subrange(0, 0) =~= Seq::<NumstatEntryView>::empty());
        lemma_assoc_find(ev, key@);
    }
    (0, 0)
}

/// Parses combined `--numstat --name-status` text for one commit into its
/// file change records: a first pass builds the per-path count mapping
/// from the numstat lines, a second walks the name-status lines and joins
/// counts by final path.
pub fn parse_commit_files(text: &str) -> (r: Vec<CommitFile>)
    ensures
        r.deep_view() == spec_parse_commit_files(text@),
{
    let chars = str_to_chars(text);
    let lns = lines_of(&chars);
    let ghost lv = lns.deep_view();

    let mut entries: Vec<NumstatEntry> = Vec::new();
    let mut i: usize = 0;
    proof {
        assert(lv.subrange(0, 0) =~= Seq::<Seq<char>>::empty());
        assert(entries.deep_view() =~= Seq::<NumstatEntryView>::empty());
        assert(spec_assoc_map(entries.deep_view()) =~= spec_numstat_map(lv.subrange(0, 0)));
    }
    while i < lns.len()
        invariant
            i <= lv.len(),
            lns.deep_view() == lv,
            spec_assoc_map(entries.deep_view()) == spec_numstat_map(lv.subrange(0, i as int)),
        decreases lns@.len() - i,
    {
        let line = &lns[i];
        let ghost l = lv[i as int];
        proof {
            assert(line@ == l);
        }
        let parts = split_on(line, '\t');
        let ghost e_old = entries.deep_view();
        proof {
            assert(parts.deep_view().len() == parts@.len());
        }
        if parts.len() == 3 {
            proof {
                assert(parts.deep_view()[0] == parts@[0]@);
                assert(parts.deep_view()[1] == parts@[1]@);
                assert(parts.deep_view()[2] == parts@[2]@);
            }
            let adds = crate::text::parse_count(&parts[0]);
            let dels = crate::text::parse_count(&parts[1]);
            let key = crate::text::subvec(&parts[2], 0, parts[2].len());
            proof {
                assert(key@ =~= parts@[2]@);
            }
            let e = NumstatEntry { key, adds, dels };
            entries.push(e);
            proof {
                let ext = entries.deep_view();
                assert(ext =~~= e_old.push(ext.last()));
                assert(ext.drop_last() =~~= e_old);
            }
        }
        proof {
            let pre = lv.subrange(0, i as int);
            let ext2 = lv.subrange(0, i + 1 as int);
            assert(ext2.drop_last() =~= pre);
            assert(ext2.last() == l);
            assert(spec_assoc_map(entries.deep_view()) =~= spec_numstat_map(ext2));
        }
        i = i + 1;
    }
    proof {
        assert(lv.subrange(0, lv.len() as int) =~= lv);
    }
    let ghost m = spec_numstat_map(lv);

    let mut files: Vec<CommitFile> = Vec::new();
    let mut i2: usize = 0;
    proof {
        assert(files.deep_view() =~= Seq::<CommitFileView>::empty());
    }
    while i2 < lns.len()
        invariant
            i2 <= lv.len(),
            lns.deep_view() == lv,
            spec_assoc_map(entries.deep_view()) == m,
            files.deep_view() == spec_commit_files_rec(lv.subrange(0, i2 as int), m),
        decreases lns@.len() - i2,
    {
        let line = &lns[i2];
        let ghost l = lv[i2 as int];
        let ghost f_old = files.deep_view();
        proof {
            assert(line@ == l);
        }
        let parts = split_on(line, '\t');
        proof {
            assert(parts.deep_view().len() == parts@.len());
        }
        if parts.len() >= 2 && parts[0].len() == 1 && is_status_letter(parts[0][0]) {
            proof {
                assert(parts.deep_view()[0] == parts@[0]@);
                assert(parts.deep_view()[1] == parts@[1]@);
                if parts@.len() == 3 {
                    assert(parts.deep_view()[2] == parts@[2]@);
                }
            }
            let path: &Vec<char> = if parts.len() == 3 {
                &parts[2]
            } else {
                &parts[1]
            };
            let counts = assoc_lookup(&entries, path);
            let code = parts[0][0];
            let f = CommitFile {
                path: chars_to_string(path),
                status: commit_file_status(code),
                additions: counts.0,
                deletions: counts.1,
            };
            proof {
                assert(f@ == spec_file_of_line(l, m)->Some_0);
            }
            files.push(f);
            proof {
                assert(files.deep_view() =~= f_old.push(spec_file_of_line(l, m)->Some_0));
            }
        }
        proof {
            let pre = lv.subrange(0, i2 as int);
            let ext = lv.subrange(0, i2 + 1 as int);
            assert(ext.drop_last() =~= pre);
            assert(ext.last() == l);
            assert(files.deep_view() =~= spec_commit_files_rec(ext, m));
        }
        i2 = i2 + 1;
    }
    proof {
        assert(lv.subrange(0, lv.len() as int) =~= lv);
    }
    files
}

} // verus!
