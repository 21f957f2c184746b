//! Worktree lifecycle naming: task-name slugs, collision-avoiding hex
//! suffixes, the branch and directory naming convention, base-ref
//! resolution, preserved-file selection and shared-metadata-directory
//! resolution.

use crate::text::{
    chars_eq, chars_to_string, push_all, spec_has_prefix, spec_trim, str_to_chars, subvec,
    trim_chars, u64_to_dec_chars, spec_dec_digits, has_prefix,
};
use vstd::prelude::*;

verus! {

/// How many naming attempts are made before worktree creation gives up.
pub const MAX_NAMING_ATTEMPTS: u32 = 20;

/// Lowercase ASCII letters and digits: the characters a slug keeps.
pub open spec fn spec_is_lower_alnum(c: char) -> bool {
    (97 <= c as int && c as int <= 122) || (48 <= c as int && c as int <= 57)
}

/// ASCII lowercasing of a single character: uppercase letters map to their
/// lowercase forms, everything else is unchanged.
pub open spec fn spec_lower_char(c: char) -> char {
    if c == 'A' {
        'a'
    } else if c == 'B' {
        'b'
    } else if c == 'C' {
        'c'
    } else if c == 'D' {
        'd'
    } else if c == 'E' {
        'e'
    } else if c == 'F' {
        'f'
    } else if c == 'G' {
        'g'
    } else if c == 'H' {
        'h'
    } else if c == 'I' {
        'i'
    } else if c == 'J' {
        'j'
    } else if c == 'K' {
        'k'
    } else if c == 'L' {
        'l'
    } else if c == 'M' {
        'm'
    } else if c == 'N' {
        'n'
    } else if c == 'O' {
        'o'
    } else if c == 'P' {
        'p'
    } else if c == 'Q' {
        'q'
    } else if c == 'R' {
        'r'
    } else if c == 'S' {
        's'
    } else if c == 'T' {
        't'
    } else if c == 'U' {
        'u'
    } else if c == 'V' {
        'v'
    } else if c == 'W' {
        'w'
    } else if c == 'X' {
        'x'
    } else if c == 'Y' {
        'y'
    } else if c == 'Z' {
        'z'
    } else {
        c
    }
}

/// Lowercases one ASCII character, as `spec_lower_char`.
pub fn lower_ascii_char(c: char) -> (r: char)
    ensures
        r == spec_lower_char(c),
{
    match c {
        'A' => 'a',
        'B' => 'b',
        'C' => 'c',
        'D' => 'd',
        'E' => 'e',
        'F' => 'f',
        'G' => 'g',
        'H' => 'h',
        'I' => 'i',
        'J' => 'j',
        'K' => 'k',
        'L' => 'l',
        'M' => 'm',
        'N' => 'n',
        'O' => 'o',
        'P' => 'p',
        'Q' => 'q',
        'R' => 'r',
        'S' => 's',
        'T' => 't',
        'U' => 'u',
        'V' => 'v',
        'W' => 'w',
        'X' => 'x',
        'Y' => 'y',
        'Z' => 'z',
        _ => c,
    }
}

fn is_lower_alnum(c: char) -> (r: bool)
    ensures
        r == spec_is_lower_alnum(c),
{
    let u = c as u32;
    (97 <= u && u <= 122) || (48 <= u && u <= 57)
}

/// One left-to-right pass of slug building from position `i` on: lowercased
/// alphanumerics are kept; any other character becomes a single dash,
/// never doubled and never at the start.
pub open spec fn spec_slug_rec(s: Seq<char>, i: int, acc: Seq<char>, prev_dash: bool) -> Seq<
    char,
>
    decreases s.len() - i,
{
    if i < 0 || i >= s.len() {
        acc
    } else {
        let lower = spec_lower_char(s[i]);
        if spec_is_lower_alnum(lower) {
            spec_slug_rec(s, i + 1, acc.push(lower), false)
        } else if !prev_dash && acc.len() > 0 {
            spec_slug_rec(s, i + 1, acc.push('-'), true)
        } else {
            spec_slug_rec(s, i + 1, acc, prev_dash)
        }
    }
}

/// `s` without trailing dashes.
pub open spec fn spec_strip_trailing_dashes(s: Seq<char>) -> Seq<char>
    decreases s.len(),
{
    if s.len() > 0 && s[s.len() - 1] == '-' {
        spec_strip_trailing_dashes(s.drop_last())
    } else {
        s
    }
}

/// `s` without leading dashes.
pub open spec fn spec_strip_leading_dashes(s: Seq<char>) -> Seq<char>
    decreases s.len(),
{
    if s.len() > 0 && s[0] == '-' {
        spec_strip_leading_dashes(s.drop_first())
    } else {
        s
    }
}

/// The slug of a task name: its lowercased alphanumeric runs joined by
/// single dashes, surrounding dashes trimmed; `task` when nothing remains.
pub open spec fn spec_slugify(s: Seq<char>) -> Seq<char> {
    let raw = spec_slug_rec(s, 0, Seq::empty(), false);
    let t = spec_strip_leading_dashes(spec_strip_trailing_dashes(raw));
    if t.len() == 0 {
        seq!['t', 'a', 's', 'k']
    } else {
        t
    }
}

/// Slugifies a task name for use in branch and directory names.
pub fn slugify_task_name(name: &str) -> (r: String)
    ensures
        r@ == spec_slugify(name@),
{
    let chars = str_to_chars(name);
    let ghost s = chars@;
    let mut acc: Vec<char> = Vec::new();
    let mut prev_dash = false;
    let mut i: usize = 0;
    while i < chars.len()
        invariant
            i <= s.len(),
            chars@ == s,
            spec_slug_rec(s, 0, Seq::empty(), false) == spec_slug_rec(
                s,
                i as int,
                acc@,
                prev_dash,
            ),
        decreases chars.len() - i,
    {
        let lower = lower_ascii_char(chars[i]);
        if is_lower_alnum(lower) {
            acc.push(lower);
            prev_dash = false;
        } else if !prev_dash && acc.len() > 0 {
            acc.push('-');
            prev_dash = true;
        }
        i = i + 1;
    }
    let ghost raw = acc@;
    while acc.len() > 0 && acc[acc.len() - 1] == '-'
        invariant
            spec_strip_trailing_dashes(raw) == spec_strip_trailing_dashes(acc@),
        decreases acc.len(),
    {
        let _c = acc.pop();
    }
    let ghost t1 = acc@;
    proof {
        assert(spec_strip_trailing_dashes(t1) == t1);
    }
    let mut start: usize = 0;
    proof {
        assert(t1.skip(0) =~= t1);
    }
    while start < acc.len() && acc[start] == '-'
        invariant
            start <= t1.len(),
            acc@ == t1,
            spec_strip_leading_dashes(t1) == spec_strip_leading_dashes(
                t1.skip(start as int),
            ),
        decreases acc.len() - start,
    {
        proof {
            let rest = t1.skip(start as int);
            assert(rest[0] == t1[start as int]);
            assert(rest.drop_first() =~= t1.skip(start + 1));
        }
        start = start + 1;
    }
    proof {
        let rest = t1.skip(start as int);
        if start < t1.len() {
            assert(rest[0] == t1[start as int]);
        }
        assert(spec_strip_leading_dashes(t1) == rest);
    }
    let trimmed = subvec(&acc, start, acc.len());
    if trimmed.len() == 0 {
        let mut v: Vec<char> = Vec::new();
        v.push('t');
        v.push('a');
        v.push('s');
        v.push('k');
        proof {
            assert(v@ =~= seq!['t', 'a', 's', 'k']);
        }
        chars_to_string(&v)
    } else {
        chars_to_string(&trimmed)
    }
}

/// A well-formed slug: non-empty, made of lowercase alphanumerics and
/// dashes, with no dash at either end and no doubled dash.
pub open spec fn spec_slug_ok(t: Seq<char>) -> bool {
    &&& t.len() > 0
    &&& forall|i: int| 0 <= i < t.len() ==> spec_is_lower_alnum(#[trigger] t[i]) || t[i] == '-'
    &&& t[0] != '-'
    &&& t[t.len() - 1] != '-'
    &&& forall|i: int| 0 <= i < t.len() - 1 ==> !(#[trigger] t[i] == '-' && t[i + 1] == '-')
}

spec fn spec_slug_acc_ok(acc: Seq<char>, prev_dash: bool) -> bool {
    &&& forall|i: int| 0 <= i < acc.len() ==> spec_is_lower_alnum(#[trigger] acc[i]) || acc[i]
        == '-'
    &&& acc.len() > 0 ==> acc[0] != '-'
    &&& forall|i: int| 0 <= i < acc.len() - 1 ==> !(#[trigger] acc[i] == '-' && acc[i + 1]
        == '-')
    &&& acc.len() > 0 ==> (prev_dash <==> acc[acc.len() - 1] == '-')
    &&& acc.len() == 0 ==> !prev_dash
}

proof fn lemma_slug_rec_ok(s: Seq<char>, i: int, acc: Seq<char>, prev_dash: bool)
    requires
        0 <= i <= s.len(),
        spec_slug_acc_ok(acc, prev_dash),
    ensures
        ({
            let r = spec_slug_rec(s, i, acc, prev_dash);
            &&& forall|j: int| 0 <= j < r.len() ==> spec_is_lower_alnum(#[trigger] r[j]) || r[j]
                == '-'
            &&& r.len() > 0 ==> r[0] != '-'
            &&& forall|j: int| 0 <= j < r.len() - 1 ==> !(#[trigger] r[j] == '-' && r[j + 1]
                == '-')
        }),
    decreases s.len() - i,
{
    if i < s.len() {
        let lower = spec_lower_char(s[i]);
        if spec_is_lower_alnum(lower) {
            lemma_slug_rec_ok(s, i + 1, acc.push(lower), false);
        } else if !prev_dash && acc.len() > 0 {
            lemma_slug_rec_ok(s, i + 1, acc.push('-'), true);
        } else {
            lemma_slug_rec_ok(s, i + 1, acc, prev_dash);
        }
    }
}

proof fn lemma_strip_trailing_props(s: Seq<char>)
    requires
        forall|i: int| 0 <= i < s.len() ==> spec_is_lower_alnum(#[trigger] s[i]) || s[i] == '-',
        s.len() > 0 ==> s[0] != '-',
        forall|i: int| 0 <= i < s.len() - 1 ==> !(#[trigger] s[i] == '-' && s[i + 1] == '-'),
    ensures
        ({
            let r = spec_strip_trailing_dashes(s);
            &&& forall|i: int| 0 <= i < r.len() ==> spec_is_lower_alnum(#[trigger] r[i]) || r[i]
                == '-'
            &&& r.len() > 0 ==> r[0] != '-'
            &&& forall|i: int| 0 <= i < r.len() - 1 ==> !(#[trigger] r[i] == '-' && r[i + 1]
                == '-')
            &&& r.len() > 0 ==> r[r.len() - 1] != '-'
        }),
    decreases s.len(),
{
    if s.len() > 0 && s[s.len() - 1] == '-' {
        lemma_strip_trailing_props(s.drop_last());
    }
}

proof fn lemma_strip_leading_props(s: Seq<char>)
    requires
        forall|i: int| 0 <= i < s.len() ==> spec_is_lower_alnum(#[trigger] s[i]) || s[i] == '-',
        forall|i: int| 0 <= i < s.len() - 1 ==> !(#[trigger] s[i] == '-' && s[i + 1] == '-'),
        s.len() > 0 ==> s[s.len() - 1] != '-',
    ensures
        ({
            let r = spec_strip_leading_dashes(s);
            &&& forall|i: int| 0 <= i < r.len() ==> spec_is_lower_alnum(#[trigger] r[i]) || r[i]
                == '-'
            &&& forall|i: int| 0 <= i < r.len() - 1 ==> !(#[trigger] r[i] == '-' && r[i + 1]
                == '-')
            &&& r.len() > 0 ==> r[r.len() - 1] != '-'
            &&& r.len() > 0 ==> r[0] != '-'
        }),
    decreases s.len(),
{
    if s.len() > 0 && s[0] == '-' {
        assert(forall|i: int|
            0 <= i < s.drop_first().len() ==> #[trigger] s.drop_first()[i] == s[i + 1]);
        lemma_strip_leading_props(s.drop_first());
    }
}

/// Slugification is total and well-formed: every input maps to a
/// non-empty string of lowercase alphanumerics and single interior
/// dashes, with no dash at either end; empty and all-punctuation inputs
/// map to `task`.
pub proof fn lemma_slugify_valid(s: Seq<char>)
    ensures
        spec_slug_ok(spec_slugify(s)),
{
    let raw = spec_slug_rec(s, 0, Seq::empty(), false);
    lemma_slug_rec_ok(s, 0, Seq::empty(), false);
    lemma_strip_trailing_props(raw);
    lemma_strip_leading_props(spec_strip_trailing_dashes(raw));
    let t = spec_strip_leading_dashes(spec_strip_trailing_dashes(raw));
    if t.len() == 0 {
        let task = seq!['t', 'a', 's', 'k'];
        assert(spec_is_lower_alnum(task[0]));
        assert(spec_is_lower_alnum(task[1]));
        assert(spec_is_lower_alnum(task[2]));
        assert(spec_is_lower_alnum(task[3]));
    }
}

/// The hexadecimal digit character for `d`.
pub open spec fn spec_hex_digit(d: int) -> char {
    if d == 0 {
        '0'
    } else if d == 1 {
        '1'
    } else if d == 2 {
        '2'
    } else if d == 3 {
        '3'
    } else if d == 4 {
        '4'
    } else if d == 5 {
        '5'
    } else if d == 6 {
        '6'
    } else if d == 7 {
        '7'
    } else if d == 8 {
        '8'
    } else if d == 9 {
        '9'
    } else if d == 10 {
        'a'
    } else if d == 11 {
        'b'
    } else if d == 12 {
        'c'
    } else if d == 13 {
        'd'
    } else if d == 14 {
        'e'
    } else {
        'f'
    }
}

fn hex_digit_char(d: u64) -> (c: char)
    requires
        d < 16,
    ensures
        c == spec_hex_digit(d as int),
{
    if d == 0 {
        '0'
    } else if d == 1 {
        '1'
    } else if d == 2 {
        '2'
    } else if d == 3 {
        '3'
    } else if d == 4 {
        '4'
    } else if d == 5 {
        '5'
    } else if d == 6 {
        '6'
    } else if d == 7 {
        '7'
    } else if d == 8 {
        '8'
    } else if d == 9 {
        '9'
    } else if d == 10 {
        'a'
    } else if d == 11 {
        'b'
    } else if d == 12 {
        'c'
    } else if d == 13 {
        'd'
    } else if d == 14 {
        'e'
    } else {
        'f'
    }
}

/// A value masked to twelve bits, written as exactly three hex digits.
pub open spec fn spec_hex3(n: int) -> Seq<char> {
    let m = n % 4096;
    seq![spec_hex_digit(m / 256), spec_hex_digit((m / 16) % 16), spec_hex_digit(m % 16)]
}

/// One mixing step of the suffix hash.
pub open spec fn spec_mix_step(acc: u64, x: u64) -> u64 {
    vstd::wrapping::u64_specs::wrapping_mul(acc ^ x, 0x100000001b3)
}

/// The suffix hash folded over a seed string.
pub open spec fn spec_mix_chars(s: Seq<char>, acc: u64) -> u64
    decreases s.len(),
{
    if s.len() == 0 {
        acc
    } else {
        spec_mix_chars(s.drop_first(), spec_mix_step(acc, (s[0] as u32) as u64))
    }
}

/// The three-hex-digit suffix derived from a seed string and a
/// high-resolution timestamp: a 64-bit fold of the seed mixed with the
/// timestamp, masked to twelve bits.
pub open spec fn spec_suffix(seed: Seq<char>, nanos: u64) -> Seq<char> {
    spec_hex3(spec_mix_step(spec_mix_chars(seed, 0xcbf29ce484222325), nanos) as int)
}

/// A well-formed suffix: exactly three lowercase hexadecimal digits.
pub open spec fn spec_suffix_ok(t: Seq<char>) -> bool {
    &&& t.len() == 3
    &&& forall|i: int|
        0 <= i < 3 ==> ((48 <= #[trigger] t[i] as int && t[i] as int <= 57) || (97 <= t[i] as int
            && t[i] as int <= 102))
}

/// Every suffix the scheme can produce is three lowercase hex digits.
pub proof fn lemma_suffix_ok(seed: Seq<char>, nanos: u64)
    ensures
        spec_suffix_ok(spec_suffix(seed, nanos)),
{
}

/// Computes the worktree name suffix for a seed and a timestamp.
pub fn suffix_from(seed: &str, nanos: u64) -> (r: String)
    ensures
        r@ == spec_suffix(seed@, nanos),
        spec_suffix_ok(r@),
{
    let chars = str_to_chars(seed);
    let ghost sv = chars@;
    let mut acc: u64 = 0xcbf29ce484222325;
    let mut i: usize = 0;
    proof {
        assert(sv.skip(0) =~= sv);
    }
    while i < chars.len()
        invariant
            i <= sv.len(),
            chars@ == sv,
            spec_mix_chars(sv, 0xcbf29ce484222325) == spec_mix_chars(
                sv.skip(i as int),
                acc,
            ),
        decreases chars.len() - i,
    {
        proof {
            let rest = sv.skip(i as int);
            assert(rest[0] == sv[i as int]);
            assert(rest.drop_first() =~= sv.skip(i + 1));
        }
        let x = (chars[i] as u32) as u64;
        acc = (acc ^ x).wrapping_mul(0x100000001b3);
        i = i + 1;
    }
    proof {
        assert(sv.skip(i as int) =~= Seq::<char>::empty());
    }
    let h = (acc ^ nanos).wrapping_mul(0x100000001b3);
    let m = h % 4096;
    let mut v: Vec<char> = Vec::new();
    v.push(hex_digit_char(m / 256));
    v.push(hex_digit_char((m / 16) % 16));
    v.push(hex_digit_char(m % 16));
    proof {
        assert(v@ =~= spec_suffix(seed@, nanos));
        lemma_suffix_ok(seed@, nanos);
    }
    chars_to_string(&v)
}

/// Relies on `std::time::SystemTime::now` for a nanosecond-resolution
/// timestamp; nothing is assumed of the value, and two calls may differ.
#[verifier::external_body]
fn current_nanos() -> u64 {
    let nanos = std::time::SystemTime::now()
        .duration_since(std::time::UNIX_EPOCH)
        .unwrap_or_default()
        .as_nanos();
    nanos as u64
}

/// Generates a worktree name suffix from a seed and the current
/// high-resolution time: always three lowercase hex digits, with the
/// timestamp contribution making repeated collisions unlikely.
pub fn generate_suffix(seed: &str) -> (r: String)
    ensures
        spec_suffix_ok(r@),
{
    let nanos = current_nanos();
    suffix_from(seed, nanos)
}

/// The seed the naming scheme hashes for a given attempt: the task name,
/// a dash, and the attempt number in decimal.
pub open spec fn spec_attempt_seed(task: Seq<char>, attempt: int) -> Seq<char> {
    task + seq!['-'] + spec_dec_digits(attempt)
}

/// Builds the attempt seed string.
pub fn attempt_seed(task_name: &str, attempt: u32) -> (r: String)
    ensures
        r@ == spec_attempt_seed(task_name@, attempt as int),
{
    let mut v = str_to_chars(task_name);
    let ghost t = v@;
    v.push('-');
    let digits = u64_to_dec_chars(attempt as u64);
    push_all(&mut v, &digits);
    proof {
        assert(v@ =~= spec_attempt_seed(task_name@, attempt as int));
    }
    chars_to_string(&v)
}

/// The branch name for a slug and suffix: `aterm/<slug>-<suffix>`.
pub open spec fn spec_branch_name(slug: Seq<char>, sfx: Seq<char>) -> Seq<char> {
    seq!['a', 't', 'e', 'r', 'm', '/'] + slug + seq!['-'] + sfx
}

/// The directory name for a slug and suffix: `<slug>-<suffix>`.
pub open spec fn spec_dir_name(slug: Seq<char>, sfx: Seq<char>) -> Seq<char> {
    slug + seq!['-'] + sfx
}

/// Builds the branch name `aterm/<slug>-<suffix>`.
pub fn worktree_branch_name(slug: &str, suffix: &str) -> (r: String)
    ensures
        r@ == spec_branch_name(slug@, suffix@),
{
    let mut v: Vec<char> = Vec::new();
    v.push('a');
    v.push('t');
    v.push('e');
    v.push('r');
    v.push('m');
    v.push('/');
    let sl = str_to_chars(slug);
    push_all(&mut v, &sl);
    v.push('-');
    let sf = str_to_chars(suffix);
    push_all(&mut v, &sf);
    proof {
        assert(v@ =~= spec_branch_name(slug@, suffix@));
    }
    chars_to_string(&v)
}

/// Builds the directory name `<slug>-<suffix>`.
pub fn worktree_dir_name(slug: &str, suffix: &str) -> (r: String)
    ensures
        r@ == spec_dir_name(slug@, suffix@),
{
    let mut v = str_to_chars(slug);
    v.push('-');
    let sf = str_to_chars(suffix);
    push_all(&mut v, &sf);
    proof {
        assert(v@ =~= spec_dir_name(slug@, suffix@));
    }
    chars_to_string(&v)
}

/// A naming candidate is accepted exactly when neither its target
/// directory nor its branch name was observed to exist; an accepted
/// candidate therefore never reuses either, as seen at check time.
pub fn accept_candidate(path_exists: bool, branch_exists: bool) -> (r: bool)
    ensures
        r == (!path_exists && !branch_exists),
{
    !path_exists && !branch_exists
}

/// The index of the last `/` in `s`, or -1.
pub open spec fn spec_rfind_slash(s: Seq<char>) -> int
    decreases s.len(),
{
    if s.len() == 0 {
        -1
    } else if s[s.len() - 1] == '/' {
        s.len() - 1
    } else {
        spec_rfind_slash(s.drop_last())
    }
}

/// The worktrees root for a project directory: the project's parent, then
/// `worktrees`, then the project's directory name. `None` when the path
/// has no `/` or ends with one (no usable parent and name).
pub open spec fn spec_worktree_root(p: Seq<char>) -> Option<Seq<char>> {
    let i = spec_rfind_slash(p);
    if i < 0 || i == p.len() - 1 {
        Option::None
    } else {
        Option::Some(
            p.take(i) + seq!['/', 'w', 'o', 'r', 'k', 't', 'r', 'e', 'e', 's', '/'] + p.skip(
                i + 1,
            ),
        )
    }
}

/// Computes the worktrees root directory for a project path: a `worktrees`
/// directory beside the project, with a per-project subdirectory.
pub fn worktree_root_for(project_path: &str) -> (r: Option<String>)
    ensures
        match r {
            Option::Some(s) => spec_worktree_root(project_path@) == Option::Some(s@),
            Option::None => spec_worktree_root(project_path@) is None,
        },
{
    let chars = str_to_chars(project_path);
    let ghost p = chars@;
    let mut j: usize = chars.len();
    proof {
        assert(p.subrange(0, p.len() as int) =~= p);
    }
    while j > 0 && chars[j - 1] != '/'
        invariant
            j <= p.len(),
            chars@ == p,
            spec_rfind_slash(p) == spec_rfind_slash(p.subrange(0, j as int)),
            forall|k: int| j <= k < p.len() ==> p[k] != '/',
        decreases j,
    {
        proof {
            let pre = p.subrange(0, j as int);
            assert(pre[pre.len() - 1] == p[j - 1]);
            assert(pre.drop_last() =~= p.subrange(0, j - 1));
        }
        j = j - 1;
    }
    if j == 0 {
        proof {
            assert(p.subrange(0, 0) =~= Seq::<char>::empty());
            assert(spec_rfind_slash(p) == -1);
        }
        return Option::None;
    }
    proof {
        let pre = p.subrange(0, j as int);
        assert(pre[pre.len() - 1] == p[j - 1]);
        assert(spec_rfind_slash(pre) == j - 1);
    }
    let i = j - 1;
    if i == chars.len() - 1 {
        return Option::None;
    }
    let mut v = subvec(&chars, 0, i);
    v.push('/');
    v.push('w');
    v.push('o');
    v.push('r');
    v.push('k');
    v.push('t');
    v.push('r');
    v.push('e');
    v.push('e');
    v.push('s');
    v.push('/');
    let name = subvec(&chars, i + 1, chars.len());
    push_all(&mut v, &name);
    proof {
        assert(name@ =~= p.skip(i + 1));
        assert(v@ =~= p.take(i as int) + seq![
            '/',
            'w',
            'o',
            'r',
            'k',
            't',
            'r',
            'e',
            'e',
            's',
            '/',
        ] + p.skip(i + 1));
    }
    Option::Some(chars_to_string(&v))
}

/// Joins two path segments with a single `/`.
pub fn join_path(a: &str, b: &str) -> (r: String)
    ensures
        r@ == a@ + seq!['/'] + b@,
{
    let mut v = str_to_chars(a);
    v.push('/');
    let bc = str_to_chars(b);
    push_all(&mut v, &bc);
    proof {
        assert(v@ =~= a@ + seq!['/'] + b@);
    }
    chars_to_string(&v)
}

/// The base ref a creation request resolves to before consulting the
/// repository: the explicit ref trimmed, kept only when non-empty.
pub fn effective_base_ref(base_ref: &Option<String>) -> (r: Option<String>)
    ensures
        match r {
            Option::Some(s) => base_ref matches Option::Some(b) && s@ == spec_trim(b@)
                && s@.len() > 0,
            Option::None => match base_ref {
                Option::Some(b) => spec_trim(b@).len() == 0,
                Option::None => true,
            },
        },
{
    match base_ref {
        Option::Some(b) => {
            let chars = str_to_chars(b.as_str());
            let trimmed = trim_chars(&chars);
            if trimmed.len() > 0 {
                Option::Some(chars_to_string(&trimmed))
            } else {
                Option::None
            }
        },
        Option::None => Option::None,
    }
}

/// The current branch a `branch --show-current` output denotes: its
/// trimmed text, or the literal `HEAD` when that is empty (detached HEAD).
pub open spec fn spec_branch_or_head(s: Seq<char>) -> Seq<char> {
    if spec_trim(s).len() == 0 {
        seq!['H', 'E', 'A', 'D']
    } else {
        spec_trim(s)
    }
}

/// Resolves a `branch --show-current` output to a usable ref name.
pub fn branch_or_head(out: &str) -> (r: String)
    ensures
        r@ == spec_branch_or_head(out@),
{
    let chars = str_to_chars(out);
    let trimmed = trim_chars(&chars);
    if trimmed.len() == 0 {
        let mut v: Vec<char> = Vec::new();
        v.push('H');
        v.push('E');
        v.push('A');
        v.push('D');
        proof {
            assert(v@ =~= seq!['H', 'E', 'A', 'D']);
        }
        chars_to_string(&v)
    } else {
        chars_to_string(&trimmed)
    }
}

/// Whether a repository check output affirms a work tree: its trimmed
/// text is exactly `true`.
pub fn is_work_tree_output(out: &str) -> (r: bool)
    ensures
        r == (spec_trim(out@) == seq!['t', 'r', 'u', 'e']),
{
    let chars = str_to_chars(out);
    let trimmed = trim_chars(&chars);
    let mut pat: Vec<char> = Vec::new();
    pat.push('t');
    pat.push('r');
    pat.push('u');
    pat.push('e');
    proof {
        assert(pat@ =~= seq!['t', 'r', 'u', 'e']);
    }
    chars_eq(&trimmed, &pat)
}

/// The shared git metadata directory for a worktree: the reported path
/// trimmed, and, when it is relative (does not start with `/`), joined
/// under the worktree's own path.
pub open spec fn spec_resolve_common_dir(wt: Seq<char>, raw: Seq<char>) -> Seq<char> {
    let t = spec_trim(raw);
    if t.len() > 0 && t[0] == '/' {
        t
    } else {
        wt + seq!['/'] + t
    }
}

/// Normalises a `rev-parse --git-common-dir` answer to an absolute path.
pub fn resolve_common_dir(worktree_path: &str, raw: &str) -> (r: String)
    ensures
        r@ == spec_resolve_common_dir(worktree_path@, raw@),
{
    let chars = str_to_chars(raw);
    let trimmed = trim_chars(&chars);
    if trimmed.len() > 0 && trimmed[0] == '/' {
        chars_to_string(&trimmed)
    } else {
        let mut v = str_to_chars(worktree_path);
        v.push('/');
        push_all(&mut v, &trimmed);
        proof {
            assert(v@ =~= worktree_path@ + seq!['/'] + spec_trim(raw@));
        }
        chars_to_string(&v)
    }
}

/// Whether a file directly under the project root is propagated into a
/// new worktree: exactly `.envrc`, exactly `docker-compose.override.yml`,
/// or any name beginning with `.env`.
pub open spec fn spec_is_preserved(name: Seq<char>) -> bool {
    ||| name == seq!['.', 'e', 'n', 'v', 'r', 'c']
    ||| name == seq![
        'd',
        'o',
        'c',
        'k',
        'e',
        'r',
        '-',
        'c',
        'o',
        'm',
        'p',
        'o',
        's',
        'e',
        '.',
        'o',
        'v',
        'e',
        'r',
        'r',
        'i',
        'd',
        'e',
        '.',
        'y',
        'm',
        'l',
    ]
    ||| spec_has_prefix(name, seq!['.', 'e', 'n', 'v'])
}

/// Decides whether a project-root file is copied into a new worktree.
pub fn is_preserved_file(name: &str) -> (r: bool)
    ensures
        r == spec_is_preserved(name@),
{
    let chars = str_to_chars(name);
    let envrc = str_to_chars(".envrc");
    let compose = str_to_chars("docker-compose.override.yml");
    let envpfx = str_to_chars(".env");
    proof {
        reveal_strlit(".envrc");
        reveal_strlit("docker-compose.override.yml");
        reveal_strlit(".env");
        assert(envrc@ =~= seq!['.', 'e', 'n', 'v', 'r', 'c']);
        assert(compose@ =~= seq![
            'd',
            'o',
            'c',
            'k',
            'e',
            'r',
            '-',
            'c',
            'o',
            'm',
            'p',
            'o',
            's',
            'e',
            '.',
            'o',
            'v',
            'e',
            'r',
            'r',
            'i',
            'd',
            'e',
            '.',
            'y',
            'm',
            'l',
        ]);
        assert(envpfx@ =~= seq!['.', 'e', 'n', 'v']);
    }
    chars_eq(&chars, &envrc) || chars_eq(&chars, &compose) || has_prefix(&chars, &envpfx)
}

/// A branch/directory pair in the naming scheme's shape: `aterm/` plus
/// the task's slug, a dash and a three-hex-digit suffix, the directory
/// name the same without the `aterm/` prefix.
pub open spec fn spec_candidate_shaped(task: Seq<char>, branch: Seq<char>, dir: Seq<char>) -> bool {
    exists|sfx: Seq<char>|
        #[trigger] spec_suffix_ok(sfx) && branch == spec_branch_name(spec_slugify(task), sfx)
            && dir == spec_dir_name(spec_slugify(task), sfx)
}

/// Builds the candidate branch and directory names for one naming
/// attempt, deterministically from the task name, the attempt index and a
/// timestamp.
pub fn candidate_names(task_name: &str, attempt: u32, nanos: u64) -> (r: (String, String))
    ensures
        r.0@ == spec_branch_name(
            spec_slugify(task_name@),
            spec_suffix(spec_attempt_seed(task_name@, attempt as int), nanos),
        ),
        r.1@ == spec_dir_name(
            spec_slugify(task_name@),
            spec_suffix(spec_attempt_seed(task_name@, attempt as int), nanos),
        ),
        spec_candidate_shaped(task_name@, r.0@, r.1@),
{
    let slug = slugify_task_name(task_name);
    let seed = attempt_seed(task_name, attempt);
    let suffix = suffix_from(seed.as_str(), nanos);
    let branch = worktree_branch_name(slug.as_str(), suffix.as_str());
    let dir = worktree_dir_name(slug.as_str(), suffix.as_str());
    proof {
        let sfx = spec_suffix(spec_attempt_seed(task_name@, attempt as int), nanos);
        lemma_suffix_ok(spec_attempt_seed(task_name@, attempt as int), nanos);
        assert(spec_suffix_ok(sfx) && branch@ == spec_branch_name(spec_slugify(task_name@), sfx)
            && dir@ == spec_dir_name(spec_slugify(task_name@), sfx));
    }
    (branch, dir)
}

/// Builds the candidate branch and directory names for one naming
/// attempt, seeding the suffix with the current time; the result is
/// always in the scheme's shape.
pub fn fresh_candidate_names(task_name: &str, attempt: u32) -> (r: (String, String))
    ensures
        spec_candidate_shaped(task_name@, r.0@, r.1@),
{
    let nanos = current_nanos();
    candidate_names(task_name, attempt, nanos)
}


} // verus!
