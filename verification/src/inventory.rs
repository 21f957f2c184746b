//! Worktree and branch inventory parsing: porcelain worktree-list blocks
//! keyed by line prefix, and the lexicographically sorted local branch
//! listing.

use crate::text::{
    chars_to_string, has_prefix, lex_le, lemma_lex_total, lemma_lex_trans, lines_of,
    spec_has_prefix, spec_lex_le, spec_lines, spec_trim, str_to_chars, subvec, trim_chars,
};
use vstd::prelude::*;
use vstd::seq_lib::{to_multiset_build, to_multiset_insert};

verus! {

/// One worktree of a repository: its absolute path and its branch, the
/// literal `detached` when none is attached.
pub struct WorktreeInfo {
    pub path: String,
    pub branch: String,
}

/// The mathematical value of a worktree record.
pub ghost struct WorktreeInfoView {
    pub path: Seq<char>,
    pub branch: Seq<char>,
}

impl View for WorktreeInfo {
    type V = WorktreeInfoView;

    open spec fn view(&self) -> WorktreeInfoView {
        WorktreeInfoView { path: self.path@, branch: self.branch@ }
    }
}

impl DeepView for WorktreeInfo {
    type V = WorktreeInfoView;

    open spec fn deep_view(&self) -> WorktreeInfoView {
        self.view()
    }
}

/// The literal `detached`.
pub open spec fn spec_detached() -> Seq<char> {
    seq!['d', 'e', 't', 'a', 'c', 'h', 'e', 'd']
}

/// The block-opening prefix `worktree ` (nine characters).
pub open spec fn spec_wt_prefix() -> Seq<char> {
    seq!['w', 'o', 'r', 'k', 't', 'r', 'e', 'e', ' ']
}

/// The branch-line prefix `branch ` (seven characters).
pub open spec fn spec_br_prefix() -> Seq<char> {
    seq!['b', 'r', 'a', 'n', 'c', 'h', ' ']
}

/// The ref prefix `refs/heads/` (eleven characters).
pub open spec fn spec_refs_heads() -> Seq<char> {
    seq!['r', 'e', 'f', 's', '/', 'h', 'e', 'a', 'd', 's', '/']
}

/// Emits the pending block, if one is open: its branch defaults to
/// `detached` when none was recorded.
pub open spec fn spec_flush(
    out: Seq<WorktreeInfoView>,
    pp: Option<Seq<char>>,
    pb: Option<Seq<char>>,
) -> Seq<WorktreeInfoView> {
    match pp {
        Option::Some(p) => out.push(
            WorktreeInfoView {
                path: p,
                branch: match pb {
                    Option::Some(b) => b,
                    Option::None => spec_detached(),
                },
            },
        ),
        Option::None => out,
    }
}

/// The worktree records the lines from index `i` on produce, given the
/// open block `(pp, pb)` and the records emitted so far: a `worktree `
/// line flushes the open block and opens a new one; a `branch ` line sets
/// the open block's branch, a leading `refs/heads/` stripped; a line
/// beginning `detached` sets it to the literal `detached`; other lines do
/// nothing; the end of input flushes the open block.
pub open spec fn spec_wt_rec(
    lines: Seq<Seq<char>>,
    i: int,
    pp: Option<Seq<char>>,
    pb: Option<Seq<char>>,
    out: Seq<WorktreeInfoView>,
) -> Seq<WorktreeInfoView>
    decreases lines.len() - i,
{
    if i < 0 || i >= lines.len() {
        spec_flush(out, pp, pb)
    } else {
        let l = lines[i];
        if spec_has_prefix(l, spec_wt_prefix()) {
            spec_wt_rec(
                lines,
                i + 1,
                Option::Some(spec_trim(l.skip(9))),
                Option::None,
                spec_flush(out, pp, pb),
            )
        } else if spec_has_prefix(l, spec_br_prefix()) {
            let b = spec_trim(l.skip(7));
            let b2 = if spec_has_prefix(b, spec_refs_heads()) {
                b.skip(11)
            } else {
                b
            };
            spec_wt_rec(lines, i + 1, pp, Option::Some(b2), out)
        } else if spec_has_prefix(l, spec_detached()) {
            spec_wt_rec(lines, i + 1, pp, Option::Some(spec_detached()), out)
        } else {
            spec_wt_rec(lines, i + 1, pp, pb, out)
        }
    }
}

/// The worktree records parsed from porcelain worktree-list text.
pub open spec fn spec_parse_worktrees(text: Seq<char>) -> Seq<WorktreeInfoView> {
    spec_wt_rec(spec_lines(text), 0, Option::None, Option::None, Seq::empty())
}

/// The view of an optional character vector.
pub open spec fn spec_opt_view(o: Option<Vec<char>>) -> Option<Seq<char>> {
    match o {
        Option::Some(v) => Option::Some(v@),
        Option::None => Option::None,
    }
}

fn detached_string() -> (r: String)
    ensures
        r@ == spec_detached(),
{
    let mut v: Vec<char> = Vec::new();
    v.push('d');
    v.push('e');
    v.push('t');
    v.push('a');
    v.push('c');
    v.push('h');
    v.push('e');
    v.push('d');
    proof {
        assert(v@ =~= spec_detached());
    }
    chars_to_string(&v)
}

fn flush_pending(
    out: &mut Vec<WorktreeInfo>,
    pp: Option<Vec<char>>,
    pb: Option<Vec<char>>,
)
    ensures
        final(out).deep_view() == spec_flush(
            old(out).deep_view(),
            spec_opt_view(pp),
            spec_opt_view(pb),
        ),
{
    let ghost o0 = out.deep_view();
    match pp {
        Option::Some(p) => {
            let branch = match pb {
                Option::Some(b) => chars_to_string(&b),
                Option::None => detached_string(),
            };
            let rec = WorktreeInfo { path: chars_to_string(&p), branch };
            let ghost rv = rec@;
            out.push(rec);
            proof {
                assert(out.deep_view() =~~= o0.push(rv));
            }
        },
        Option::None => {},
    }
}

/// Parses porcelain worktree-list text into worktree records, one per
/// `worktree` block, branches defaulting to `detached`.
pub fn parse_worktree_list(text: &str) -> (r: Vec<WorktreeInfo>)
    ensures
        r.deep_view() == spec_parse_worktrees(text@),
{
    let chars = str_to_chars(text);
    let lns = lines_of(&chars);
    let ghost lv = lns.deep_view();

    let wt_prefix = str_to_chars("worktree ");
    let br_prefix = str_to_chars("branch ");
    let detached = str_to_chars("detached");
    let refs_heads = str_to_chars("refs/heads/");
    proof {
        reveal_strlit("worktree ");
        reveal_strlit("branch ");
        reveal_strlit("detached");
        reveal_strlit("refs/heads/");
        assert(wt_prefix@ =~= spec_wt_prefix());
        assert(br_prefix@ =~= spec_br_prefix());
        assert(detached@ =~= spec_detached());
        assert(refs_heads@ =~= spec_refs_heads());
    }

    let mut out: Vec<WorktreeInfo> = Vec::new();
    let mut pp: Option<Vec<char>> = Option::None;
    let mut pb: Option<Vec<char>> = Option::None;
    let mut i: usize = 0;
    proof {
        assert(out.deep_view() =~= Seq::<WorktreeInfoView>::empty());
    }
    while i < lns.len()
        invariant
            i <= lv.len(),
            lns.deep_view() == lv,
            wt_prefix@ == spec_wt_prefix(),
            br_prefix@ == spec_br_prefix(),
            detached@ == spec_detached(),
            refs_heads@ == spec_refs_heads(),
            spec_parse_worktrees(text@) == spec_wt_rec(
                lv,
                i as int,
                spec_opt_view(pp),
                spec_opt_view(pb),
                out.deep_view(),
            ),
        decreases lns@.len() - i,
    {
        let line = &lns[i];
        let ghost l = lv[i as int];
        proof {
            assert(line@ == l);
        }
        if has_prefix(line, &wt_prefix) {
            let rest = subvec(line, 9, line.len());
            let trimmed = trim_chars(&rest);
            proof {
                assert(rest@ =~= l.skip(9));
            }
            let old_pp = pp;
            let old_pb = pb;
            flush_pending(&mut out, old_pp, old_pb);
            pp = Option::Some(trimmed);
            pb = Option::None;
        } else if has_prefix(line, &br_prefix) {
            let rest = subvec(line, 7, line.len());
            let trimmed = trim_chars(&rest);
            proof {
                assert(rest@ =~= l.skip(7));
            }
            let b2: Vec<char> = if has_prefix(&trimmed, &refs_heads) {
                let stripped = subvec(&trimmed, 11, trimmed.len());
                proof {
                    assert(stripped@ =~= spec_trim(l.skip(7)).skip(11));
                }
                stripped
            } else {
                trimmed
            };
            pb = Option::Some(b2);
        } else if has_prefix(line, &detached) {
            let mut d: Vec<char> = Vec::new();
            d.push('d');
            d.push('e');
            d.push('t');
            d.push('a');
            d.push('c');
            d.push('h');
            d.push('e');
            d.push('d');
            proof {
                assert(d@ =~= spec_detached());
            }
            pb = Option::Some(d);
        }
        i = i + 1;
    }
    let final_pp = pp;
    let final_pb = pb;
    flush_pending(&mut out, final_pp, final_pb);
    out
}

/// The trimmed, non-empty branch names the ref listing's lines carry, in
/// input order.
pub open spec fn spec_branch_items(lines: Seq<Seq<char>>) -> Seq<Seq<char>>
    decreases lines.len(),
{
    if lines.len() == 0 {
        Seq::empty()
    } else {
        let prev = spec_branch_items(lines.drop_last());
        let t = spec_trim(lines.last());
        if t.len() > 0 {
            prev.push(t)
        } else {
            prev
        }
    }
}

/// A sequence of names in lexicographic order.
pub open spec fn spec_sorted(q: Seq<Seq<char>>) -> bool {
    forall|i: int, j: int| 0 <= i < j < q.len() ==> spec_lex_le(#[trigger] q[i], #[trigger] q[j])
}

fn sorted_insert(out: &mut Vec<String>, s: String)
    requires
        spec_sorted(old(out).deep_view()),
    ensures
        spec_sorted(final(out).deep_view()),
        final(out).deep_view().to_multiset() == old(out).deep_view().to_multiset().insert(s@),
{
    let ghost dv = out.deep_view();
    let ghost sv = s@;
    let sc = str_to_chars(s.as_str());
    let mut p: usize = 0;
    while p < out.len() && lex_le(&str_to_chars(out[p].as_str()), &sc)
        invariant
            p <= dv.len(),
            out.deep_view() == dv,
            sc@ == sv,
            forall|k: int| 0 <= k < p ==> spec_lex_le(#[trigger] dv[k], sv),
        decreases out.len() - p,
    {
        proof {
            assert(dv[p as int] == out@[p as int]@);
        }
        p = p + 1;
    }
    proof {
        if p < dv.len() {
            assert(dv[p as int] == out@[p as int]@);
            lemma_lex_total(dv[p as int], sv);
        }
    }
    out.insert(p, s);
    proof {
        let nv = out.deep_view();
        assert(nv =~~= dv.insert(p as int, sv));
        to_multiset_insert(dv, p as int, sv);
        assert forall|i: int, j: int| 0 <= i < j < nv.len() implies spec_lex_le(
            #[trigger] nv[i],
            #[trigger] nv[j],
        ) by {
            if j < p {
            } else if i < p && j == p {
            } else if i < p && j > p {
                assert(nv[j] == dv[j - 1]);
            } else if i == p {
                assert(nv[j] == dv[j - 1]);
                if p < dv.len() {
                    if j - 1 > p {
                        lemma_lex_trans(sv, dv[p as int], dv[j - 1]);
                    }
                }
            } else {
                assert(nv[i] == dv[i - 1]);
                assert(nv[j] == dv[j - 1]);
            }
        }
    }
}

/// Parses a local ref listing into branch names: one per line, trimmed,
/// empty lines dropped, and the result sorted lexicographically, holding
/// exactly the input's non-empty names.
pub fn parse_branch_list(text: &str) -> (r: Vec<String>)
    ensures
        spec_sorted(r.deep_view()),
        r.deep_view().to_multiset() == spec_branch_items(spec_lines(text@)).to_multiset(),
{
    let chars = str_to_chars(text);
    let lns = lines_of(&chars);
    let ghost lv = lns.deep_view();

    let mut items: Vec<String> = Vec::new();
    let mut i: usize = 0;
    proof {
        assert(lv.subrange(0, 0) =~= Seq::<Seq<char>>::empty());
        assert(items.deep_view() =~= Seq::<Seq<char>>::empty());
    }
    while i < lns.len()
        invariant
            i <= lv.len(),
            lns.deep_view() == lv,
            items.deep_view() == spec_branch_items(lv.subrange(0, i as int)),
        decreases lns@.len() - i,
    {
        let line = &lns[i];
        let ghost l = lv[i as int];
        let ghost it_old = items.deep_view();
        proof {
            assert(line@ == l);
        }
        let trimmed = trim_chars(line);
        if trimmed.len() > 0 {
            items.push(chars_to_string(&trimmed));
            proof {
                assert(items.deep_view() =~~= it_old.push(spec_trim(l)));
            }
        }
        proof {
            let pre = lv.subrange(0, i as int);
            let ext = lv.subrange(0, i + 1 as int);
            assert(ext.drop_last() =~= pre);
            assert(ext.last() == l);
            assert(items.deep_view() =~= spec_branch_items(ext));
        }
        i = i + 1;
    }
    proof {
        assert(lv.subrange(0, lv.len() as int) =~= lv);
    }

    let ghost iv = items.deep_view();
    let mut out: Vec<String> = Vec::new();
    let mut j: usize = 0;
    proof {
        assert(out.deep_view() =~= Seq::<Seq<char>>::empty());
        assert(iv.subrange(0, 0) =~= Seq::<Seq<char>>::empty());
        assert(out.deep_view().to_multiset() =~= iv.subrange(0, 0).to_multiset());
    }
    while j < items.len()
        invariant
            j <= iv.len(),
            items.deep_view() == iv,
            spec_sorted(out.deep_view()),
            out.deep_view().to_multiset() == iv.subrange(0, j as int).to_multiset(),
        decreases items.len() - j,
    {
        proof {
            assert(iv[j as int] == items@[j as int]@);
        }
        let s = items[j].clone();
        sorted_insert(&mut out, s);
        proof {
            let pre = iv.subrange(0, j as int);
            let ext = iv.subrange(0, j + 1 as int);
            assert(ext =~= pre.push(iv[j as int]));
            to_multiset_build(pre, iv[j as int]);
        }
        j = j + 1;
    }
    proof {
        assert(iv.subrange(0, iv.len() as int) =~= iv);
    }
    out
}

} // verus!
