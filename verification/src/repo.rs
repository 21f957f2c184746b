//! Small translations of single git query outputs: the configured remote
//! and the synthesized pseudo-diff shown for untracked files.

use crate::text::{
    chars_to_string, lines_of, push_all, spec_lines, spec_trim, str_to_chars, trim_chars,
};
use vstd::prelude::*;

verus! {

/// Reads a `remote get-url` output: the trimmed URL, or nothing when the
/// output is blank (no remote configured).
pub fn remote_from_output(out: &str) -> (r: Option<String>)
    ensures
        match r {
            Option::Some(s) => s@ == spec_trim(out@) && s@.len() > 0,
            Option::None => spec_trim(out@).len() == 0,
        },
{
    let chars = str_to_chars(out);
    let trimmed = trim_chars(&chars);
    if trimmed.len() > 0 {
        Option::Some(chars_to_string(&trimmed))
    } else {
        Option::None
    }
}

/// The body of a pseudo-diff: each content line prefixed with `+`, joined
/// by newlines.
pub open spec fn spec_plus_lines(ls: Seq<Seq<char>>) -> Seq<char>
    decreases ls.len(),
{
    if ls.len() == 0 {
        Seq::empty()
    } else if ls.len() == 1 {
        seq!['+'] + ls[0]
    } else {
        spec_plus_lines(ls.drop_last()) + seq!['\n', '+'] + ls.last()
    }
}

/// The pseudo-diff shown for an untracked file with no real diff output:
/// a `New file:` header naming the file, a blank line, then the file's
/// content with each line prefixed `+`.
pub open spec fn spec_untracked_diff(file: Seq<char>, content: Seq<char>) -> Seq<char> {
    seq!['N', 'e', 'w', ' ', 'f', 'i', 'l', 'e', ':', ' '] + file + seq!['\n', '\n']
        + spec_plus_lines(spec_lines(content))
}

/// Synthesizes the pseudo-diff for an untracked file from its content.
pub fn synth_untracked_diff(file: &str, content: &str) -> (r: String)
    ensures
        r@ == spec_untracked_diff(file@, content@),
{
    let mut v: Vec<char> = Vec::new();
    v.push('N');
    v.push('e');
    v.push('w');
    v.push(' ');
    v.push('f');
    v.push('i');
    v.push('l');
    v.push('e');
    v.push(':');
    v.push(' ');
    let fc = str_to_chars(file);
    push_all(&mut v, &fc);
    v.push('\n');
    v.push('\n');
    let ghost head = v@;

    let cc = str_to_chars(content);
    let lns = lines_of(&cc);
    let ghost lv = lns.deep_view();
    let mut body: Vec<char> = Vec::new();
    let mut i: usize = 0;
    proof {
        assert(lv.subrange(0, 0) =~= Seq::<Seq<char>>::empty());
        assert(body@ =~= spec_plus_lines(lv.subrange(0, 0)));
    }
    while i < lns.len()
        invariant
            i <= lv.len(),
            lns.deep_view() == lv,
            body@ == spec_plus_lines(lv.subrange(0, i as int)),
        decreases lns@.len() - i,
    {
        let ghost b_old = body@;
        let ghost l = lv[i as int];
        if i > 0 {
            body.push('\n');
        }
        body.push('+');
        let line = &lns[i];
        proof {
            assert(line@ == l);
        }
        push_all(&mut body, line);
        proof {
            let pre = lv.subrange(0, i as int);
            let ext = lv.subrange(0, i + 1 as int);
            assert(ext.drop_last() =~= pre);
            assert(ext.last() == l);
            if i == 0 {
                assert(body@ =~= seq!['+'] + l);
            } else {
                assert(body@ =~= spec_plus_lines(pre) + seq!['\n', '+'] + l);
            }
            assert(body@ =~= spec_plus_lines(ext));
        }
        i = i + 1;
    }
    proof {
        assert(lv.subrange(0, lv.len() as int) =~= lv);
    }
    push_all(&mut v, &body);
    proof {
        assert(v@ =~= spec_untracked_diff(file@, content@));
    }
    chars_to_string(&v)
}

} // verus!
