//! Character-sequence utilities shared by every parser in the crate:
//! conversion between `&str` and `Vec<char>`, splitting, line handling,
//! whitespace trimming, prefix and substring search, and decimal
//! parsing/formatting.

use vstd::prelude::*;

verus! {

/// Turns a string slice into the vector of its characters.
pub fn str_to_chars(s: &str) -> (r: Vec<char>)
    ensures
        r@ == s@,
{
    let n = s.unicode_len();
    let mut r: Vec<char> = Vec::new();
    let mut i: usize = 0;
    while i < n
        invariant
            n == s@.len(),
            i <= n,
            r@ == s@.subrange(0, i as int),
        decreases n - i,
    {
        r.push(s.get_char(i));
        proof {
            assert(r@ =~= s@.subrange(0, i + 1 as int));
        }
        i = i + 1;
    }
    proof {
        assert(r@ =~= s@);
    }
    r
}

/// Relies on `String::from_iter` over `char`: collecting the characters of a
/// vector yields the string with exactly those characters, in order.
#[verifier::external_body]
pub fn chars_to_string(v: &Vec<char>) -> (r: String)
    ensures
        r@ == v@,
{
    v.iter().collect()
}

/// Copies the characters of `v` between `from` (inclusive) and `to`
/// (exclusive) into a fresh vector.
pub fn subvec(v: &Vec<char>, from: usize, to: usize) -> (r: Vec<char>)
    requires
        from <= to <= v@.len(),
    ensures
        r@ == v@.subrange(from as int, to as int),
{
    let mut r: Vec<char> = Vec::new();
    let mut i: usize = from;
    while i < to
        invariant
            from <= i <= to <= v@.len(),
            r@ == v@.subrange(from as int, i as int),
        decreases to - i,
    {
        r.push(v[i]);
        proof {
            assert(r@ =~= v@.subrange(from as int, i + 1 as int));
        }
        i = i + 1;
    }
    r
}

/// Splitting on a separator character, scanned left to right; `cur` is the
/// segment accumulated so far. Every separator ends a segment, so empty
/// segments are kept and the result always holds at least one segment.
pub open spec fn spec_split_rec(s: Seq<char>, sep: char, cur: Seq<char>) -> Seq<Seq<char>>
    decreases s.len(),
{
    if s.len() == 0 {
        seq![cur]
    } else if s[0] == sep {
        seq![cur] + spec_split_rec(s.drop_first(), sep, Seq::empty())
    } else {
        spec_split_rec(s.drop_first(), sep, cur.push(s[0]))
    }
}

/// The segments of `s` between occurrences of `sep`, empty segments kept.
pub open spec fn spec_split(s: Seq<char>, sep: char) -> Seq<Seq<char>> {
    spec_split_rec(s, sep, Seq::empty())
}

pub proof fn lemma_split_rec_len(s: Seq<char>, sep: char, cur: Seq<char>)
    ensures
        spec_split_rec(s, sep, cur).len() >= 1,
    decreases s.len(),
{
    if s.len() > 0 {
        if s[0] == sep {
            lemma_split_rec_len(s.drop_first(), sep, Seq::empty());
        } else {
            lemma_split_rec_len(s.drop_first(), sep, cur.push(s[0]));
        }
    }
}

/// Splits `v` on `sep`, keeping empty segments.
pub fn split_on(v: &Vec<char>, sep: char) -> (r: Vec<Vec<char>>)
    ensures
        r.deep_view() == spec_split(v@, sep),
        r@.len() >= 1,
{
    let ghost s = v@;
    let mut r: Vec<Vec<char>> = Vec::new();
    let mut cur: Vec<char> = Vec::new();
    let mut i: usize = 0;
    proof {
        assert(s.subrange(0, s.len() as int) =~= s);
        assert(r.deep_view() =~= Seq::<Seq<char>>::empty());
        assert(r.deep_view() + spec_split_rec(s, sep, cur@) =~= spec_split_rec(
            s,
            sep,
            Seq::empty(),
        ));
    }
    while i < v.len()
        invariant
            i <= s.len(),
            v@ == s,
            spec_split(s, sep) == r.deep_view() + spec_split_rec(
                s.subrange(i as int, s.len() as int),
                sep,
                cur@,
            ),
        decreases v.len() - i,
    {
        proof {
            let rest = s.subrange(i as int, s.len() as int);
            assert(rest[0] == s[i as int]);
            assert(rest.drop_first() =~= s.subrange(i + 1, s.len() as int));
        }
        if v[i] == sep {
            let done = cur;
            cur = Vec::new();
            let ghost d = done@;
            let ghost r_old = r.deep_view();
            r.push(done);
            proof {
                assert(r.deep_view() =~~= r_old.push(d));
                let rest2 = spec_split_rec(s.subrange(i + 1, s.len() as int), sep, Seq::empty());
                assert(r_old.push(d) + rest2 =~~= r_old + (seq![d] + rest2));
            }
        } else {
            cur.push(v[i]);
        }
        i = i + 1;
    }
    proof {
        assert(s.subrange(s.len() as int, s.len() as int) =~= Seq::<char>::empty());
    }
    let ghost r_old = r.deep_view();
    let last = cur;
    let ghost lv = last@;
    r.push(last);
    proof {
        assert(r.deep_view() =~~= r_old.push(lv));
        assert(r_old.push(lv) =~~= r_old + seq![lv]);
    }
    r
}

/// A line with one trailing carriage return removed, as the line splitter
/// produces for CRLF-terminated input.
pub open spec fn spec_strip_cr(l: Seq<char>) -> Seq<char> {
    if l.len() > 0 && l[l.len() - 1] == '\r' {
        l.drop_last()
    } else {
        l
    }
}

/// The lines of `s`: segments between newline characters, a final empty
/// segment from a trailing newline dropped, and one trailing carriage
/// return removed from each newline-terminated segment. An unterminated
/// final line keeps a bare trailing carriage return, since it belongs to
/// no line ending. Empty input has no lines.
pub open spec fn spec_lines(s: Seq<char>) -> Seq<Seq<char>> {
    if s.len() == 0 {
        Seq::empty()
    } else {
        spec_lines_nonempty(s)
    }
}

pub open spec fn spec_lines_nonempty(s: Seq<char>) -> Seq<Seq<char>> {
    let p = spec_split(s, '\n');
    let stripped = p.drop_last().map_values(|l: Seq<char>| spec_strip_cr(l));
    if s[s.len() - 1] == '\n' {
        stripped
    } else {
        stripped.push(p.last())
    }
}

/// Splits `v` into lines.
pub fn lines_of(v: &Vec<char>) -> (r: Vec<Vec<char>>)
    ensures
        r.deep_view() == spec_lines(v@),
{
    if v.len() == 0 {
        let r: Vec<Vec<char>> = Vec::new();
        proof {
            assert(r.deep_view() =~= spec_lines(v@));
        }
        return r;
    }
    let mut parts = split_on(v, '\n');
    proof {
        lemma_split_rec_len(v@, '\n', Seq::empty());
    }
    let terminated = v[v.len() - 1] == '\n';
    let last_part: Option<Vec<char>> = if terminated {
        let _dropped = parts.pop();
        Option::None
    } else {
        parts.pop()
    };
    proof {
        assert(parts.deep_view() =~~= spec_split(v@, '\n').drop_last());
        if !terminated {
            assert(last_part matches Option::Some(lp) && lp@ == spec_split(v@, '\n').last());
        }
    }
    let ghost q = parts.deep_view();
    let mut r: Vec<Vec<char>> = Vec::new();
    let mut i: usize = 0;
    while i < parts.len()
        invariant
            i <= parts.len(),
            parts.deep_view() == q,
            r.deep_view() == q.subrange(0, i as int).map_values(|l: Seq<char>| spec_strip_cr(l)),
        decreases parts.len() - i,
    {
        let p = &parts[i];
        let stripped: Vec<char> = if p.len() > 0 && p[p.len() - 1] == '\r' {
            subvec(p, 0, p.len() - 1)
        } else {
            subvec(p, 0, p.len())
        };
        proof {
            assert(p@.subrange(0, p@.len() as int) =~= p@);
            assert(p@.len() > 0 && p@[p@.len() - 1] == '\r' ==> p@.subrange(
                0,
                p@.len() - 1,
            ) =~= p@.drop_last());
            assert(stripped@ == spec_strip_cr(q[i as int]));
        }
        let ghost r_old = r.deep_view();
        let ghost sv = stripped@;
        r.push(stripped);
        proof {
            assert(r.deep_view() =~~= r_old.push(sv));
            assert(r.deep_view() =~~= q.subrange(0, i + 1 as int).map_values(
                |l: Seq<char>| spec_strip_cr(l),
            ));
        }
        i = i + 1;
    }
    proof {
        assert(q.subrange(0, q.len() as int) =~= q);
    }
    match last_part {
        Option::Some(lastp) => {
            let ghost r_old = r.deep_view();
            let ghost lv = lastp@;
            r.push(lastp);
            proof {
                assert(r.deep_view() =~~= r_old.push(lv));
                assert(r.deep_view() =~~= spec_lines(v@));
            }
            r
        },
        Option::None => {
            proof {
                assert(r.deep_view() =~~= spec_lines(v@));
            }
            r
        },
    }
}

/// ASCII whitespace, the only whitespace this crate's trimming recognises.
pub open spec fn spec_is_ws(c: char) -> bool {
    c == ' ' || c == '\t' || c == '\n' || c == '\r'
}

/// `s` without its leading whitespace.
pub open spec fn spec_trim_start(s: Seq<char>) -> Seq<char>
    decreases s.len(),
{
    if s.len() > 0 && spec_is_ws(s[0]) {
        spec_trim_start(s.drop_first())
    } else {
        s
    }
}

/// `s` without its trailing whitespace.
pub open spec fn spec_trim_end(s: Seq<char>) -> Seq<char>
    decreases s.len(),
{
    if s.len() > 0 && spec_is_ws(s[s.len() - 1]) {
        spec_trim_end(s.drop_last())
    } else {
        s
    }
}

/// `s` without leading or trailing whitespace.
pub open spec fn spec_trim(s: Seq<char>) -> Seq<char> {
    spec_trim_end(spec_trim_start(s))
}

fn is_ws(c: char) -> (r: bool)
    ensures
        r == spec_is_ws(c),
{
    c == ' ' || c == '\t' || c == '\n' || c == '\r'
}

/// Trims ASCII whitespace from both ends of `v`.
pub fn trim_chars(v: &Vec<char>) -> (r: Vec<char>)
    ensures
        r@ == spec_trim(v@),
{
    let ghost s = v@;
    let mut start: usize = 0;
    proof {
        assert(s.subrange(0, s.len() as int) =~= s);
    }
    while start < v.len() && is_ws(v[start])
        invariant
            start <= s.len(),
            v@ == s,
            spec_trim_start(s) == spec_trim_start(s.subrange(start as int, s.len() as int)),
        decreases v.len() - start,
    {
        proof {
            let rest = s.subrange(start as int, s.len() as int);
            assert(rest[0] == s[start as int]);
            assert(rest.drop_first() =~= s.subrange(start + 1, s.len() as int));
        }
        start = start + 1;
    }
    proof {
        let rest = s.subrange(start as int, s.len() as int);
        if start < s.len() {
            assert(rest[0] == s[start as int]);
        }
        assert(spec_trim_start(s) == rest);
    }
    let mut end: usize = v.len();
    while end > start && is_ws(v[end - 1])
        invariant
            start <= end <= s.len(),
            v@ == s,
            spec_trim_start(s) == s.subrange(start as int, s.len() as int),
            spec_trim_end(s.subrange(start as int, s.len() as int)) == spec_trim_end(
                s.subrange(start as int, end as int),
            ),
        decreases end,
    {
        proof {
            let cut = s.subrange(start as int, end as int);
            assert(cut[cut.len() - 1] == s[end - 1]);
            assert(cut.drop_last() =~= s.subrange(start as int, end - 1));
        }
        end = end - 1;
    }
    proof {
        let cut = s.subrange(start as int, end as int);
        if end > start {
            assert(cut[cut.len() - 1] == s[end - 1]);
        }
        assert(spec_trim_end(cut) == cut);
    }
    subvec(v, start, end)
}

/// Whether `s` starts with `p`.
pub open spec fn spec_has_prefix(s: Seq<char>, p: Seq<char>) -> bool {
    s.len() >= p.len() && s.subrange(0, p.len() as int) == p
}

/// Tests whether `v` starts with the characters of the literal `p`.
pub fn has_prefix(v: &Vec<char>, p: &Vec<char>) -> (r: bool)
    ensures
        r == spec_has_prefix(v@, p@),
{
    if v.len() < p.len() {
        proof {
            assert(!spec_has_prefix(v@, p@));
        }
        return false;
    }
    let mut i: usize = 0;
    while i < p.len()
        invariant
            i <= p@.len() <= v@.len(),
            forall|j: int| 0 <= j < i ==> v@[j] == p@[j],
        decreases p.len() - i,
    {
        if v[i] != p[i] {
            proof {
                assert(v@.subrange(0, p@.len() as int)[i as int] != p@[i as int]);
            }
            return false;
        }
        i = i + 1;
    }
    proof {
        assert(v@.subrange(0, p@.len() as int) =~= p@);
    }
    true
}

/// Whether `pat` occurs in `s` starting at index `i`.
pub open spec fn spec_match_at(s: Seq<char>, pat: Seq<char>, i: int) -> bool {
    0 <= i && i + pat.len() <= s.len() && s.subrange(i, i + pat.len()) == pat
}

/// The first index at which `pat` occurs in `s`, or -1 if it does not.
pub open spec fn spec_find_sub(s: Seq<char>, pat: Seq<char>) -> int
    decreases s.len(),
{
    if pat.len() == 0 {
        0
    } else if s.len() < pat.len() {
        -1
    } else if s.subrange(0, pat.len() as int) == pat {
        0
    } else {
        let r = spec_find_sub(s.drop_first(), pat);
        if r < 0 {
            -1
        } else {
            r + 1
        }
    }
}

pub proof fn lemma_find_sub_props(s: Seq<char>, pat: Seq<char>)
    ensures
        spec_find_sub(s, pat) >= 0 ==> spec_match_at(s, pat, spec_find_sub(s, pat)),
        spec_find_sub(s, pat) >= 0 ==> forall|j: int|
            0 <= j < spec_find_sub(s, pat) ==> !spec_match_at(s, pat, j),
        spec_find_sub(s, pat) < 0 ==> forall|j: int| !spec_match_at(s, pat, j),
    decreases s.len(),
{
    if pat.len() == 0 {
        assert(s.subrange(0, 0) =~= pat);
    } else if s.len() < pat.len() {
        assert forall|j: int| !spec_match_at(s, pat, j) by {}
    } else if s.subrange(0, pat.len() as int) == pat {
    } else {
        lemma_find_sub_props(s.drop_first(), pat);
        let t = s.drop_first();
        let r = spec_find_sub(t, pat);
        assert forall|j: int| 1 <= j implies spec_match_at(t, pat, j - 1) == spec_match_at(
            s,
            pat,
            j,
        ) by {
            if 0 <= j - 1 && j - 1 + pat.len() <= t.len() {
                assert(t.subrange(j - 1, j - 1 + pat.len()) =~= s.subrange(j, j + pat.len()));
            }
        }
        if r >= 0 {
            assert(spec_match_at(s, pat, r + 1));
            assert forall|j: int| 0 <= j < r + 1 implies !spec_match_at(s, pat, j) by {
                if j == 0 {
                    assert(!spec_match_at(s, pat, 0));
                } else {
                    assert(!spec_match_at(t, pat, j - 1));
                }
            }
        } else {
            assert forall|j: int| !spec_match_at(s, pat, j) by {
                if j >= 1 {
                    assert(!spec_match_at(t, pat, j - 1));
                }
            }
        }
    }
}

/// Finds the first occurrence of `pat` in `v`, or `None`; `pat` must not be
/// empty.
pub fn find_sub(v: &Vec<char>, pat: &Vec<char>) -> (r: Option<usize>)
    requires
        pat@.len() > 0,
    ensures
        match r {
            Some(i) => spec_find_sub(v@, pat@) == i as int,
            None => spec_find_sub(v@, pat@) < 0,
        },
{
    let vlen = v.len();
    let plen = pat.len();
    if plen > vlen {
        proof {
            lemma_find_sub_props(v@, pat@);
            if spec_find_sub(v@, pat@) >= 0 {
                assert(spec_match_at(v@, pat@, spec_find_sub(v@, pat@)));
            }
        }
        return None;
    }
    let bound = vlen - plen;
    let mut i: usize = 0;
    while i <= bound
        invariant
            plen == pat@.len(),
            vlen == v@.len(),
            plen >= 1,
            bound == vlen - plen,
            i <= bound + 1,
            forall|j: int| 0 <= j < i ==> !spec_match_at(v@, pat@, j),
        decreases bound + 1 - i,
    {
        let mut k: usize = 0;
        let mut ok = true;
        while ok && k < plen
            invariant
                plen == pat@.len(),
                vlen == v@.len(),
                i + plen <= vlen,
                k <= plen,
                ok ==> forall|j: int| 0 <= j < k ==> v@[i + j] == pat@[j],
                !ok ==> !spec_match_at(v@, pat@, i as int),
            decreases (if ok { 1int } else { 0int }), plen - k,
        {
            let idx = i + k;
            if v[idx] != pat[k] {
                proof {
                    if spec_match_at(v@, pat@, i as int) {
                        assert(v@.subrange(i as int, i + pat@.len())[k as int] == v@[i + k]);
                    }
                    assert(v@[idx as int] != pat@[k as int]);
                }
                ok = false;
            } else {
                k = k + 1;
            }
        }
        if ok {
            proof {
                assert(v@.subrange(i as int, i + pat@.len()) =~= pat@);
                lemma_find_sub_props(v@, pat@);
                let f = spec_find_sub(v@, pat@);
                if f < 0 {
                    assert(!spec_match_at(v@, pat@, i as int));
                }
                assert(spec_match_at(v@, pat@, f));
                if f < i {
                    assert(!spec_match_at(v@, pat@, f));
                }
                if f > i {
                    assert(!spec_match_at(v@, pat@, i as int));
                }
            }
            return Some(i);
        }
        i = i + 1;
    }
    proof {
        lemma_find_sub_props(v@, pat@);
        let f = spec_find_sub(v@, pat@);
        if f >= 0 {
            assert(spec_match_at(v@, pat@, f));
            assert(f + pat@.len() <= v@.len());
            assert(f < i);
        }
    }
    None
}

/// Compares two character vectors for equality of their contents.
pub fn chars_eq(a: &Vec<char>, b: &Vec<char>) -> (r: bool)
    ensures
        r == (a@ == b@),
{
    if a.len() != b.len() {
        return false;
    }
    let mut i: usize = 0;
    while i < a.len()
        invariant
            a@.len() == b@.len(),
            i <= a@.len(),
            forall|j: int| 0 <= j < i ==> a@[j] == b@[j],
        decreases a.len() - i,
    {
        if a[i] != b[i] {
            return false;
        }
        i = i + 1;
    }
    proof {
        assert(a@ =~= b@);
    }
    true
}

/// The character for the decimal digit `d`.
pub open spec fn spec_digit_char(d: int) -> char {
    if d == 0 {
        '0'
    } else if d == 1 {
        '1'
    } else if d == 2 {
        '2'
    } else if d == 3 {
        '3'
    } else if d == 4 {
        '4'
    } else if d == 5 {
        '5'
    } else if d == 6 {
        '6'
    } else if d == 7 {
        '7'
    } else if d == 8 {
        '8'
    } else {
        '9'
    }
}

/// The decimal digits of a non-negative number, most significant first.
pub open spec fn spec_dec_digits(n: int) -> Seq<char>
    recommends
        n >= 0,
    decreases n,
{
    if n < 10 {
        seq![spec_digit_char(n)]
    } else {
        spec_dec_digits(n / 10).push(spec_digit_char(n % 10))
    }
}

fn dec_digit_char(d: u64) -> (c: char)
    requires
        d < 10,
    ensures
        c == spec_digit_char(d as int),
{
    if d == 0 {
        '0'
    } else if d == 1 {
        '1'
    } else if d == 2 {
        '2'
    } else if d == 3 {
        '3'
    } else if d == 4 {
        '4'
    } else if d == 5 {
        '5'
    } else if d == 6 {
        '6'
    } else if d == 7 {
        '7'
    } else if d == 8 {
        '8'
    } else {
        '9'
    }
}

/// Writes `n` in decimal.
pub fn u64_to_dec_chars(n: u64) -> (r: Vec<char>)
    ensures
        r@ == spec_dec_digits(n as int),
    decreases n,
{
    if n < 10 {
        let mut r: Vec<char> = Vec::new();
        r.push(dec_digit_char(n));
        proof {
            assert(r@ =~= seq![spec_digit_char(n as int)]);
        }
        r
    } else {
        let mut r = u64_to_dec_chars(n / 10);
        r.push(dec_digit_char(n % 10));
        r
    }
}

/// Whether `c` is a decimal digit.
pub open spec fn spec_is_digit(c: char) -> bool {
    48 <= c as int <= 57
}

/// The value of the digit `c`.
pub open spec fn spec_digit_val(c: char) -> int {
    c as int - 48
}

/// Whether every character of `s` is a decimal digit.
pub open spec fn spec_all_digits(s: Seq<char>) -> bool {
    forall|i: int| 0 <= i < s.len() ==> spec_is_digit(s[i])
}

/// The number written by the digit string `s` (0 when `s` is empty).
pub open spec fn spec_dec_val(s: Seq<char>) -> int
    decreases s.len(),
{
    if s.len() == 0 {
        0
    } else {
        spec_dec_val(s.drop_last()) * 10 + spec_digit_val(s[s.len() - 1])
    }
}

pub proof fn lemma_dec_val_nonneg(s: Seq<char>)
    requires
        spec_all_digits(s),
    ensures
        spec_dec_val(s) >= 0,
    decreases s.len(),
{
    if s.len() > 0 {
        assert(spec_all_digits(s.drop_last())) by {
            assert(forall|i: int|
                0 <= i < s.len() - 1 ==> s.drop_last()[i] == s[i]);
        }
        lemma_dec_val_nonneg(s.drop_last());
    }
}

fn is_digit(c: char) -> (r: bool)
    ensures
        r == spec_is_digit(c),
{
    let u = c as u32;
    48 <= u && u <= 57
}

/// Reads `v` as an unsigned decimal number: `Some` exactly when `v` is a
/// non-empty digit string whose value fits in `u64`.
pub fn parse_u64_digits(v: &Vec<char>) -> (r: Option<u64>)
    ensures
        match r {
            Some(x) => v@.len() > 0 && spec_all_digits(v@) && x as int == spec_dec_val(v@),
            None => v@.len() == 0 || !spec_all_digits(v@) || spec_dec_val(v@) > u64::MAX,
        },
{
    if v.len() == 0 {
        return None;
    }
    let mut val: u64 = 0;
    let mut i: usize = 0;
    proof {
        assert(v@.subrange(0, 0) =~= Seq::<char>::empty());
    }
    while i < v.len()
        invariant
            i <= v@.len(),
            spec_all_digits(v@.subrange(0, i as int)),
            val as int == spec_dec_val(v@.subrange(0, i as int)),
        decreases v.len() - i,
    {
        let c = v[i];
        if !is_digit(c) {
            return None;
        }
        let d = (c as u32) - 48;
        proof {
            let pre = v@.subrange(0, i as int);
            let ext = v@.subrange(0, i + 1 as int);
            assert(ext.drop_last() =~= pre);
            assert(spec_all_digits(ext)) by {
                assert(forall|j: int| 0 <= j < i ==> ext[j] == pre[j]);
            }
        }
        if val > (u64::MAX - (d as u64)) / 10 {
            proof {
                let ext = v@.subrange(0, i + 1 as int);
                assert(spec_dec_val(ext) == val * 10 + d);
                assert(spec_dec_val(ext) > u64::MAX);
                if spec_all_digits(v@) {
                    lemma_dec_val_grows(v@, i + 1 as int);
                    assert(spec_dec_val(v@) >= spec_dec_val(ext));
                }
            }
            return None;
        }
        val = val * 10 + (d as u64);
        i = i + 1;
    }
    proof {
        assert(v@.subrange(0, v@.len() as int) =~= v@);
    }
    Some(val)
}

/// The value of an all-digit sequence never shrinks as more digits are read.
pub proof fn lemma_dec_val_grows(s: Seq<char>, i: int)
    requires
        spec_all_digits(s),
        0 <= i <= s.len(),
    ensures
        spec_dec_val(s) >= spec_dec_val(s.subrange(0, i)),
    decreases s.len() - i,
{
    lemma_dec_val_nonneg(s);
    if i < s.len() {
        lemma_dec_val_grows(s, i + 1);
        let pre = s.subrange(0, i);
        let ext = s.subrange(0, i + 1);
        assert(ext.drop_last() =~= pre);
        assert(spec_all_digits(pre)) by {
            assert(forall|j: int| 0 <= j < i ==> pre[j] == s[j]);
        }
        lemma_dec_val_nonneg(pre);
        assert(spec_dec_val(ext) == spec_dec_val(pre) * 10 + spec_digit_val(ext[i]));
    } else {
        assert(s.subrange(0, i) =~= s);
    }
}

/// The number a count field denotes: the value of a non-empty digit string
/// that fits in `i32`, and 0 for anything else.
pub open spec fn spec_count_val(s: Seq<char>) -> int {
    if s.len() > 0 && spec_all_digits(s) && spec_dec_val(s) <= i32::MAX {
        spec_dec_val(s)
    } else {
        0
    }
}

/// Reads a count field: digits only, zero on anything malformed or too
/// large.
pub fn parse_count(v: &Vec<char>) -> (r: i32)
    ensures
        r as int == spec_count_val(v@),
        r >= 0,
{
    proof {
        if v@.len() > 0 && spec_all_digits(v@) {
            lemma_dec_val_nonneg(v@);
        }
    }
    match parse_u64_digits(v) {
        Some(x) => {
            proof {
                lemma_dec_val_nonneg(v@);
            }
            if x <= i32::MAX as u64 {
                x as i32
            } else {
                0
            }
        },
        None => 0,
    }
}

/// The number a timestamp field denotes: the value of a non-empty digit
/// string that fits in `i64`, and 0 for anything else.
pub open spec fn spec_timestamp_val(s: Seq<char>) -> int {
    if s.len() > 0 && spec_all_digits(s) && spec_dec_val(s) <= i64::MAX {
        spec_dec_val(s)
    } else {
        0
    }
}

/// Reads a timestamp field: digits only, zero on anything malformed or too
/// large.
pub fn parse_timestamp(v: &Vec<char>) -> (r: i64)
    ensures
        r as int == spec_timestamp_val(v@),
        r >= 0,
{
    proof {
        if v@.len() > 0 && spec_all_digits(v@) {
            lemma_dec_val_nonneg(v@);
        }
    }
    match parse_u64_digits(v) {
        Some(x) => {
            proof {
                lemma_dec_val_nonneg(v@);
            }
            if x <= i64::MAX as u64 {
                x as i64
            } else {
                0
            }
        },
        None => 0,
    }
}

/// Whitespace-splitting, scanned left to right; `cur` is the token
/// accumulated so far. Runs of whitespace produce no empty tokens.
pub open spec fn spec_split_ws_rec(s: Seq<char>, cur: Seq<char>) -> Seq<Seq<char>>
    decreases s.len(),
{
    if s.len() == 0 {
        if cur.len() > 0 {
            seq![cur]
        } else {
            Seq::empty()
        }
    } else if spec_is_ws(s[0]) {
        (if cur.len() > 0 {
            seq![cur]
        } else {
            Seq::empty()
        }) + spec_split_ws_rec(s.drop_first(), Seq::empty())
    } else {
        spec_split_ws_rec(s.drop_first(), cur.push(s[0]))
    }
}

/// The whitespace-separated tokens of `s`.
pub open spec fn spec_split_ws(s: Seq<char>) -> Seq<Seq<char>> {
    spec_split_ws_rec(s, Seq::empty())
}

/// Splits `v` into whitespace-separated tokens.
pub fn split_ws(v: &Vec<char>) -> (r: Vec<Vec<char>>)
    ensures
        r.deep_view() == spec_split_ws(v@),
{
    let ghost s = v@;
    let mut r: Vec<Vec<char>> = Vec::new();
    let mut cur: Vec<char> = Vec::new();
    let mut i: usize = 0;
    proof {
        assert(s.subrange(0, s.len() as int) =~= s);
        assert(r.deep_view() =~= Seq::<Seq<char>>::empty());
        assert(r.deep_view() + spec_split_ws_rec(s, cur@) =~= spec_split_ws_rec(s, Seq::empty()));
    }
    while i < v.len()
        invariant
            i <= s.len(),
            v@ == s,
            spec_split_ws(s) == r.deep_view() + spec_split_ws_rec(
                s.subrange(i as int, s.len() as int),
                cur@,
            ),
        decreases v.len() - i,
    {
        proof {
            let rest = s.subrange(i as int, s.len() as int);
            assert(rest[0] == s[i as int]);
            assert(rest.drop_first() =~= s.subrange(i + 1, s.len() as int));
        }
        if is_ws(v[i]) {
            if cur.len() > 0 {
                let done = cur;
                cur = Vec::new();
                let ghost d = done@;
                let ghost r_old = r.deep_view();
                r.push(done);
                proof {
                    assert(r.deep_view() =~~= r_old.push(d));
                    let rest2 = spec_split_ws_rec(
                        s.subrange(i + 1, s.len() as int),
                        Seq::empty(),
                    );
                    assert(r_old.push(d) + rest2 =~~= r_old + (seq![d] + rest2));
                    assert(spec_split_ws(s) == r.deep_view() + spec_split_ws_rec(
                        s.subrange(i + 1, s.len() as int),
                        cur@,
                    ));
                }
            } else {
                proof {
                    let rest = s.subrange(i as int, s.len() as int);
                    let rest2 = spec_split_ws_rec(
                        s.subrange(i + 1, s.len() as int),
                        Seq::empty(),
                    );
                    assert(cur@.len() == 0);
                    assert(cur@ =~= Seq::<char>::empty());
                    assert(spec_split_ws_rec(rest, cur@) == Seq::<Seq<char>>::empty() + rest2);
                    assert(Seq::<Seq<char>>::empty() + rest2 =~~= rest2);
                    assert(r.deep_view() + spec_split_ws_rec(rest, cur@) == r.deep_view()
                        + rest2);
                    assert(spec_split_ws(s) == r.deep_view() + spec_split_ws_rec(
                        s.subrange(i + 1, s.len() as int),
                        cur@,
                    ));
                }
            }
        } else {
            cur.push(v[i]);
            proof {
                assert(spec_split_ws(s) == r.deep_view() + spec_split_ws_rec(
                    s.subrange(i + 1, s.len() as int),
                    cur@,
                ));
            }
        }
        i = i + 1;
    }
    proof {
        assert(s.subrange(s.len() as int, s.len() as int) =~= Seq::<char>::empty());
    }
    if cur.len() > 0 {
        let ghost r_old = r.deep_view();
        let last = cur;
        let ghost lv = last@;
        r.push(last);
        proof {
            assert(r.deep_view() =~~= r_old.push(lv));
            assert(r_old.push(lv) =~~= r_old + seq![lv]);
        }
        r
    } else {
        proof {
            assert(r.deep_view() + Seq::<Seq<char>>::empty() =~~= r.deep_view());
        }
        r
    }
}


/// Appends all characters of `w` to `v`.
pub fn push_all(v: &mut Vec<char>, w: &Vec<char>)
    ensures
        final(v)@ == old(v)@ + w@,
{
    let ghost v0 = old(v)@;
    let mut i: usize = 0;
    proof {
        assert(v@ =~= v0 + w@.subrange(0, 0));
    }
    while i < w.len()
        invariant
            i <= w@.len(),
            v@ == v0 + w@.subrange(0, i as int),
        decreases w.len() - i,
    {
        v.push(w[i]);
        proof {
            assert(v@ =~= v0 + w@.subrange(0, i + 1 as int));
        }
        i = i + 1;
    }
    proof {
        assert(w@.subrange(0, w@.len() as int) =~= w@);
    }
}

/// Lexicographic order on character sequences, by code point; the empty
/// sequence comes first.
pub open spec fn spec_lex_le(a: Seq<char>, b: Seq<char>) -> bool
    decreases a.len(),
{
    if a.len() == 0 {
        true
    } else if b.len() == 0 {
        false
    } else if (a[0] as u32) < (b[0] as u32) {
        true
    } else if (a[0] as u32) > (b[0] as u32) {
        false
    } else {
        spec_lex_le(a.drop_first(), b.drop_first())
    }
}

/// The lexicographic order is total.
pub proof fn lemma_lex_total(a: Seq<char>, b: Seq<char>)
    ensures
        spec_lex_le(a, b) || spec_lex_le(b, a),
    decreases a.len(),
{
    if a.len() > 0 && b.len() > 0 && (a[0] as u32) == (b[0] as u32) {
        lemma_lex_total(a.drop_first(), b.drop_first());
    }
}

/// The lexicographic order is transitive.
pub proof fn lemma_lex_trans(a: Seq<char>, b: Seq<char>, c: Seq<char>)
    requires
        spec_lex_le(a, b),
        spec_lex_le(b, c),
    ensures
        spec_lex_le(a, c),
    decreases a.len(),
{
    if a.len() > 0 && b.len() > 0 && c.len() > 0 && (a[0] as u32) == (b[0] as u32) && (
    b[0] as u32) == (c[0] as u32) {
        lemma_lex_trans(a.drop_first(), b.drop_first(), c.drop_first());
    }
}

/// Compares two character vectors in lexicographic order.
pub fn lex_le(a: &Vec<char>, b: &Vec<char>) -> (r: bool)
    ensures
        r == spec_lex_le(a@, b@),
{
    let mut i: usize = 0;
    proof {
        assert(a@.skip(0) =~= a@);
        assert(b@.skip(0) =~= b@);
    }
    while i < a.len() && i < b.len()
        invariant
            i <= a@.len(),
            i <= b@.len(),
            spec_lex_le(a@, b@) == spec_lex_le(a@.skip(i as int), b@.skip(i as int)),
        decreases a.len() - i,
    {
        proof {
            let ra = a@.skip(i as int);
            let rb = b@.skip(i as int);
            assert(ra[0] == a@[i as int]);
            assert(rb[0] == b@[i as int]);
            assert(ra.drop_first() =~= a@.skip(i + 1));
            assert(rb.drop_first() =~= b@.skip(i + 1));
        }
        if a[i] != b[i] {
            let ca = a[i] as u32;
            let cb = b[i] as u32;
            proof {
                vstd::utf8::char_u32_cast(a@[i as int], ca);
                vstd::utf8::char_u32_cast(b@[i as int], cb);
                assert(ca != cb);
            }
            return ca < cb;
        }
        i = i + 1;
    }
    proof {
        if i >= a@.len() {
            assert(a@.skip(i as int) =~= Seq::<char>::empty());
        } else {
            assert(b@.skip(i as int) =~= Seq::<char>::empty());
            assert(a@.skip(i as int).len() > 0);
        }
    }
    a.len() <= b.len()
}


} // verus!
