//! Directory listing presentation rules: which entries are hidden, and the
//! display order (directories before files, then case-insensitively by
//! name).

use crate::text::{lemma_lex_total, lemma_lex_trans, lex_le, spec_lex_le, str_to_chars};
use crate::worktree::spec_lower_char;
use vstd::prelude::*;
use vstd::seq_lib::{to_multiset_build, to_multiset_insert};

verus! {

/// One entry of a directory listing.
pub struct DirEntry {
    pub name: String,
    pub path: String,
    pub is_dir: bool,
    pub is_git_repo: bool,
}

/// The mathematical value of a directory entry.
pub ghost struct DirEntryView {
    pub name: Seq<char>,
    pub path: Seq<char>,
    pub is_dir: bool,
    pub is_git_repo: bool,
}

impl View for DirEntry {
    type V = DirEntryView;

    open spec fn view(&self) -> DirEntryView {
        DirEntryView {
            name: self.name@,
            path: self.path@,
            is_dir: self.is_dir,
            is_git_repo: self.is_git_repo,
        }
    }
}

impl DeepView for DirEntry {
    type V = DirEntryView;

    open spec fn deep_view(&self) -> DirEntryView {
        self.view()
    }
}

/// Whether a listing hides an entry: dotfiles are hidden, except the
/// parent marker `..`.
pub open spec fn spec_is_hidden(name: Seq<char>) -> bool {
    name.len() > 0 && name[0] == '.' && name != seq!['.', '.']
}

/// Decides whether a directory entry is hidden from the listing.
pub fn is_hidden_name(name: &str) -> (r: bool)
    ensures
        r == spec_is_hidden(name@),
{
    let chars = str_to_chars(name);
    if chars.len() == 0 {
        return false;
    }
    if chars[0] != '.' {
        return false;
    }
    if chars.len() == 2 && chars[1] == '.' {
        proof {
            assert(name@ =~= seq!['.', '.']);
        }
        return false;
    }
    proof {
        if name@ == seq!['.', '.'] {
            assert(name@.len() == 2 && name@[1] == '.');
        }
    }
    true
}

/// A name lowercased, character by character, in ASCII.
pub open spec fn spec_lower(s: Seq<char>) -> Seq<char> {
    s.map_values(|c: char| spec_lower_char(c))
}

fn lower_chars(v: &Vec<char>) -> (r: Vec<char>)
    ensures
        r@ == spec_lower(v@),
{
    let mut r: Vec<char> = Vec::new();
    let mut i: usize = 0;
    proof {
        assert(r@ =~= v@.subrange(0, 0).map_values(|c: char| spec_lower_char(c)));
    }
    while i < v.len()
        invariant
            i <= v@.len(),
            r@ == v@.subrange(0, i as int).map_values(|c: char| spec_lower_char(c)),
        decreases v.len() - i,
    {
        r.push(crate::worktree::lower_ascii_char(v[i]));
        proof {
            assert(r@ =~= v@.subrange(0, i + 1 as int).map_values(
                |c: char| spec_lower_char(c),
            ));
        }
        i = i + 1;
    }
    proof {
        assert(v@.subrange(0, v@.len() as int) =~= v@);
    }
    r
}

/// The display order: directories come before files; among equals, names
/// compare case-insensitively.
pub open spec fn spec_entry_le(a: DirEntryView, b: DirEntryView) -> bool {
    if a.is_dir && !b.is_dir {
        true
    } else if !a.is_dir && b.is_dir {
        false
    } else {
        spec_lex_le(spec_lower(a.name), spec_lower(b.name))
    }
}

proof fn lemma_entry_total(a: DirEntryView, b: DirEntryView)
    ensures
        spec_entry_le(a, b) || spec_entry_le(b, a),
{
    lemma_lex_total(spec_lower(a.name), spec_lower(b.name));
}

proof fn lemma_entry_trans(a: DirEntryView, b: DirEntryView, c: DirEntryView)
    requires
        spec_entry_le(a, b),
        spec_entry_le(b, c),
    ensures
        spec_entry_le(a, c),
{
    if a.is_dir == b.is_dir && b.is_dir == c.is_dir {
        lemma_lex_trans(spec_lower(a.name), spec_lower(b.name), spec_lower(c.name));
    }
}

fn entry_le(a: &DirEntry, b: &DirEntry) -> (r: bool)
    ensures
        r == spec_entry_le(a@, b@),
{
    if a.is_dir && !b.is_dir {
        true
    } else if !a.is_dir && b.is_dir {
        false
    } else {
        let la = lower_chars(&str_to_chars(a.name.as_str()));
        let lb = lower_chars(&str_to_chars(b.name.as_str()));
        lex_le(&la, &lb)
    }
}

/// An entry sequence in display order.
pub open spec fn spec_entries_sorted(q: Seq<DirEntryView>) -> bool {
    forall|i: int, j: int|
        0 <= i < j < q.len() ==> spec_entry_le(#[trigger] q[i], #[trigger] q[j])
}

fn sorted_insert_entry(out: &mut Vec<DirEntry>, e: DirEntry)
    requires
        spec_entries_sorted(old(out).deep_view()),
    ensures
        spec_entries_sorted(final(out).deep_view()),
        final(out).deep_view().to_multiset() == old(out).deep_view().to_multiset().insert(e@),
{
    let ghost dv = out.deep_view();
    let ghost ev = e@;
    let mut p: usize = 0;
    while p < out.len() && entry_le(&out[p], &e)
        invariant
            p <= dv.len(),
            out.deep_view() == dv,
            e@ == ev,
            forall|k: int| 0 <= k < p ==> spec_entry_le(#[trigger] dv[k], ev),
        decreases out.len() - p,
    {
        proof {
            assert(dv[p as int] == out@[p as int]@);
        }
        p = p + 1;
    }
    proof {
        if p < dv.len() {
            assert(dv[p as int] == out@[p as int]@);
            lemma_entry_total(dv[p as int], ev);
        }
    }
    out.insert(p, e);
    proof {
        let nv = out.deep_view();
        assert(nv =~~= dv.insert(p as int, ev));
        to_multiset_insert(dv, p as int, ev);
        assert forall|i: int, j: int| 0 <= i < j < nv.len() implies spec_entry_le(
            #[trigger] nv[i],
            #[trigger] nv[j],
        ) by {
            if j < p {
            } else if i < p && j == p {
            } else if i < p && j > p {
                assert(nv[j] == dv[j - 1]);
            } else if i == p {
                assert(nv[j] == dv[j - 1]);
                if p < dv.len() && j - 1 > p {
                    lemma_entry_trans(ev, dv[p as int], dv[j - 1]);
                }
            } else {
                assert(nv[i] == dv[i - 1]);
                assert(nv[j] == dv[j - 1]);
            }
        }
    }
}

/// Sorts directory entries into display order: directories first, then
/// case-insensitively by name; the result holds exactly the given
/// entries.
pub fn sort_dir_entries(entries: Vec<DirEntry>) -> (r: Vec<DirEntry>)
    ensures
        spec_entries_sorted(r.deep_view()),
        r.deep_view().to_multiset() == entries.deep_view().to_multiset(),
{
    let ghost iv = entries.deep_view();
    let mut input = entries;
    let mut out: Vec<DirEntry> = Vec::new();
    proof {
        assert(out.deep_view() =~= Seq::<DirEntryView>::empty());
        assert(iv.subrange(0, 0) =~= Seq::<DirEntryView>::empty());
    }
    let mut j: usize = 0;
    while j < input.len()
        invariant
            j <= iv.len(),
            input.deep_view() == iv,
            spec_entries_sorted(out.deep_view()),
            out.deep_view().to_multiset() == iv.subrange(0, j as int).to_multiset(),
        decreases input.len() - j,
    {
        proof {
            assert(iv[j as int] == input@[j as int]@);
        }
        let e = DirEntry {
            name: input[j].name.clone(),
            path: input[j].path.clone(),
            is_dir: input[j].is_dir,
            is_git_repo: input[j].is_git_repo,
        };
        proof {
            assert(e@ == iv[j as int]);
        }
        sorted_insert_entry(&mut out, e);
        proof {
            let pre = iv.subrange(0, j as int);
            let ext = iv.subrange(0, j + 1 as int);
            assert(ext =~= pre.push(iv[j as int]));
            to_multiset_build(pre, iv[j as int]);
        }
        j = j + 1;
    }
    proof {
        assert(iv.subrange(0, iv.len() as int) =~= iv);
    }
    out
}

} // verus!
