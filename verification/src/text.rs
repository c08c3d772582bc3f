//! Character-level text primitives shared by the rules: Unicode white space,
//! trimming, line splitting, UTF-8 byte lengths, searching and decimal
//! rendering, each stated over `Seq<char>`.

use vstd::prelude::*;

verus! {

/// Longest text (in characters) that the library accepts: a `Vec<char>` of
/// it must fit in the address space, so longer inputs cannot exist.
pub open spec fn max_text_len() -> int {
    (usize::MAX / 8) as int
}

/// Unicode `White_Space`, which is what `char::is_whitespace` tests.
pub open spec fn is_ws(c: char) -> bool {
    ||| c == '\t'
    ||| c == '\n'
    ||| c == '\x0B'
    ||| c == '\x0C'
    ||| c == '\r'
    ||| c == ' '
    ||| c == '\u{85}'
    ||| c == '\u{A0}'
    ||| c == '\u{1680}'
    ||| ('\u{2000}' <= c && c <= '\u{200A}')
    ||| c == '\u{2028}'
    ||| c == '\u{2029}'
    ||| c == '\u{202F}'
    ||| c == '\u{205F}'
    ||| c == '\u{3000}'
}

pub fn is_whitespace(c: char) -> (r: bool)
    ensures
        r == is_ws(c),
{
    c == '\t' || c == '\n' || c == '\x0B' || c == '\x0C' || c == '\r' || c == ' ' || c == '\u{85}'
        || c == '\u{A0}' || c == '\u{1680}' || ('\u{2000}' <= c && c <= '\u{200A}') || c
        == '\u{2028}' || c == '\u{2029}' || c == '\u{202F}' || c == '\u{205F}' || c == '\u{3000}'
}

pub open spec fn is_ascii_digit_spec(c: char) -> bool {
    '0' <= c && c <= '9'
}

/// First index `>= i` whose character is `c`, or `s.len()`.
pub open spec fn find_char_from(s: Seq<char>, i: int, c: char) -> int
    decreases s.len() - i,
{
    if i >= s.len() {
        s.len() as int
    } else if s[i] == c {
        i
    } else {
        find_char_from(s, i + 1, c)
    }
}

pub proof fn lemma_find_char_from(s: Seq<char>, i: int, c: char)
    requires
        0 <= i <= s.len(),
    ensures
        i <= find_char_from(s, i, c) <= s.len(),
        find_char_from(s, i, c) < s.len() ==> s[find_char_from(s, i, c)] == c,
        forall|j: int| i <= j < find_char_from(s, i, c) ==> s[j] != c,
    decreases s.len() - i,
{
    if i < s.len() && s[i] != c {
        lemma_find_char_from(s, i + 1, c);
    }
}

/// End of the run of characters satisfying `p` that starts at `i`.
pub open spec fn run_end(s: Seq<char>, i: int, p: spec_fn(char) -> bool) -> int
    decreases s.len() - i,
{
    if 0 <= i < s.len() && p(s[i]) {
        run_end(s, i + 1, p)
    } else {
        i
    }
}

/// Start of the run of characters satisfying `p` that ends just before `j`.
pub open spec fn run_start(s: Seq<char>, j: int, p: spec_fn(char) -> bool) -> int
    decreases j,
{
    if 0 < j <= s.len() && p(s[j - 1]) {
        run_start(s, j - 1, p)
    } else {
        j
    }
}

pub proof fn lemma_run_end(s: Seq<char>, i: int, p: spec_fn(char) -> bool)
    requires
        0 <= i <= s.len(),
    ensures
        i <= run_end(s, i, p) <= s.len(),
        forall|k: int| i <= k < run_end(s, i, p) ==> p(#[trigger] s[k]),
        run_end(s, i, p) < s.len() ==> !p(s[run_end(s, i, p)]),
    decreases s.len() - i,
{
    if i < s.len() && p(s[i]) {
        lemma_run_end(s, i + 1, p);
    }
}

pub proof fn lemma_run_start(s: Seq<char>, j: int, p: spec_fn(char) -> bool)
    requires
        0 <= j <= s.len(),
    ensures
        0 <= run_start(s, j, p) <= j,
        forall|k: int| run_start(s, j, p) <= k < j ==> p(#[trigger] s[k]),
        run_start(s, j, p) > 0 ==> !p(s[run_start(s, j, p) - 1]),
    decreases j,
{
    if 0 < j && p(s[j - 1]) {
        lemma_run_start(s, j - 1, p);
    }
}

pub open spec fn ws_pred() -> spec_fn(char) -> bool {
    |c: char| is_ws(c)
}

pub open spec fn space_pred() -> spec_fn(char) -> bool {
    |c: char| c == ' '
}

/// `str::trim_start`: drop the leading white space.
pub open spec fn trim_start(s: Seq<char>) -> Seq<char> {
    s.subrange(run_end(s, 0, ws_pred()), s.len() as int)
}

/// `str::trim_end`: drop the trailing white space.
pub open spec fn trim_end(s: Seq<char>) -> Seq<char> {
    s.subrange(0, run_start(s, s.len() as int, ws_pred()))
}

/// `str::trim`: drop white space at both ends.
pub open spec fn trim(s: Seq<char>) -> Seq<char> {
    trim_end(trim_start(s))
}

pub proof fn lemma_trim_lens(s: Seq<char>)
    ensures
        trim_start(s).len() <= s.len(),
        trim_end(s).len() <= s.len(),
        trim(s).len() <= s.len(),
{
    lemma_run_end(s, 0, ws_pred());
    lemma_run_start(s, s.len() as int, ws_pred());
    let t = trim_start(s);
    lemma_run_start(t, t.len() as int, ws_pred());
}

/// Index just past the leading white space of `s`.
pub fn skip_ws(s: &[char], start: usize) -> (r: usize)
    requires
        start <= s@.len(),
    ensures
        r == run_end(s@, start as int, ws_pred()),
{
    let mut i = start;
    while i < s.len() && is_whitespace(s[i])
        invariant
            start <= i <= s@.len(),
            run_end(s@, i as int, ws_pred()) == run_end(s@, start as int, ws_pred()),
        decreases s@.len() - i,
    {
        i = i + 1;
    }
    proof {
        r_end_here(s@, i as int, ws_pred());
    }
    i
}

proof fn r_end_here(s: Seq<char>, i: int, p: spec_fn(char) -> bool)
    requires
        0 <= i <= s.len(),
        i < s.len() ==> !p(s[i]),
    ensures
        run_end(s, i, p) == i,
{
}

/// Start of the trailing white space of `s[..end]`.
pub fn skip_ws_back(s: &[char], end: usize) -> (r: usize)
    requires
        end <= s@.len(),
    ensures
        r == run_start(s@, end as int, ws_pred()),
{
    let mut j = end;
    while j > 0 && is_whitespace(s[j - 1])
        invariant
            j <= end <= s@.len(),
            run_start(s@, j as int, ws_pred()) == run_start(s@, end as int, ws_pred()),
        decreases j,
    {
        j = j - 1;
    }
    j
}

/// Index just past the run of spaces starting at `start`.
pub fn skip_spaces(s: &[char], start: usize) -> (r: usize)
    requires
        start <= s@.len(),
    ensures
        r == run_end(s@, start as int, space_pred()),
{
    let mut i = start;
    while i < s.len() && s[i] == ' '
        invariant
            start <= i <= s@.len(),
            run_end(s@, i as int, space_pred()) == run_end(s@, start as int, space_pred()),
        decreases s@.len() - i,
    {
        i = i + 1;
    }
    i
}

/// Start of the run of spaces that ends just before `end`.
pub fn skip_spaces_back(s: &[char], end: usize) -> (r: usize)
    requires
        end <= s@.len(),
    ensures
        r == run_start(s@, end as int, space_pred()),
{
    let mut j = end;
    while j > 0 && s[j - 1] == ' '
        invariant
            j <= end <= s@.len(),
            run_start(s@, j as int, space_pred()) == run_start(s@, end as int, space_pred()),
        decreases j,
    {
        j = j - 1;
    }
    j
}

pub fn trim_start_chars(s: &[char]) -> (r: Vec<char>)
    ensures
        r@ == trim_start(s@),
{
    let b = skip_ws(s, 0);
    proof {
        lemma_run_end(s@, 0, ws_pred());
    }
    slice_to_vec(s, b, s.len())
}

pub fn trim_end_chars(s: &[char]) -> (r: Vec<char>)
    ensures
        r@ == trim_end(s@),
{
    let e = skip_ws_back(s, s.len());
    proof {
        lemma_run_start(s@, s@.len() as int, ws_pred());
    }
    slice_to_vec(s, 0, e)
}

pub fn trim_chars(s: &[char]) -> (r: Vec<char>)
    ensures
        r@ == trim(s@),
{
    let t = trim_start_chars(s);
    trim_end_chars(t.as_slice())
}

/// A copy of `s[start..end]`.
pub fn slice_to_vec(s: &[char], start: usize, end: usize) -> (r: Vec<char>)
    requires
        start <= end <= s@.len(),
    ensures
        r@ == s@.subrange(start as int, end as int),
{
    let mut r: Vec<char> = Vec::new();
    let mut i = start;
    while i < end
        invariant
            start <= i <= end <= s@.len(),
            r@ == s@.subrange(start as int, i as int),
        decreases end - i,
    {
        r.push(s[i]);
        i = i + 1;
        assert(r@ =~= s@.subrange(start as int, i as int));
    }
    r
}

/// `t` with one trailing `'\r'` removed.
pub open spec fn strip_cr(t: Seq<char>) -> Seq<char> {
    if t.len() > 0 && t.last() == '\r' {
        t.drop_last()
    } else {
        t
    }
}

/// The lines of `s[i..]` as `str::lines` yields them: split after each
/// `'\n'`, drop the `'\n'` and a `'\r'` just before it; no empty line is
/// produced after a final line break.
pub open spec fn split_lines_from(s: Seq<char>, i: int) -> Seq<Seq<char>>
    decreases s.len() - i,
{
    if i < 0 || i >= s.len() {
        seq![]
    } else {
        let k = find_char_from(s, i, '\n');
        if k >= s.len() {
            seq![s.subrange(i, s.len() as int)]
        } else if k < i {
            seq![]
        } else {
            seq![strip_cr(s.subrange(i, k))] + split_lines_from(s, k + 1)
        }
    }
}

/// `str::lines` over a character sequence.
pub open spec fn split_lines(s: Seq<char>) -> Seq<Seq<char>> {
    split_lines_from(s, 0)
}

pub proof fn lemma_split_lines_bounds(s: Seq<char>, i: int)
    requires
        0 <= i <= s.len(),
    ensures
        split_lines_from(s, i).len() <= s.len() - i,
        forall|k: int|
            0 <= k < split_lines_from(s, i).len() ==> (#[trigger] split_lines_from(s, i)[k]).len()
                <= s.len() - i,
    decreases s.len() - i,
{
    if i < s.len() {
        let k = find_char_from(s, i, '\n');
        lemma_find_char_from(s, i, '\n');
        if k < s.len() {
            lemma_split_lines_bounds(s, k + 1);
            let rest = split_lines_from(s, k + 1);
            let first = strip_cr(s.subrange(i, k));
            assert(split_lines_from(s, i) == seq![first] + rest);
            assert forall|m: int| 0 <= m < split_lines_from(s, i).len() implies (
            #[trigger] split_lines_from(s, i)[m]).len() <= s.len() - i by {
                if m > 0 {
                    assert(split_lines_from(s, i)[m] == rest[m - 1]);
                }
            }
        }
    }
}

/// The character sequences held by a vector of character vectors.
pub open spec fn seqs_view(v: Seq<Vec<char>>) -> Seq<Seq<char>> {
    v.map_values(|x: Vec<char>| x@)
}

/// Split `s` into lines, with the semantics of `str::lines`.
pub fn lines_of(s: &[char]) -> (r: Vec<Vec<char>>)
    ensures
        seqs_view(r@) == split_lines(s@),
{
    let mut out: Vec<Vec<char>> = Vec::new();
    let mut cur: usize = 0;
    let n = s.len();
    while cur < n
        invariant
            n == s@.len(),
            cur <= n,
            seqs_view(out@) + split_lines_from(s@, cur as int) == split_lines(s@),
        decreases n - cur,
    {
        let mut k = cur;
        while k < n && s[k] != '\n'
            invariant
                cur <= k <= n,
                n == s@.len(),
                find_char_from(s@, k as int, '\n') == find_char_from(s@, cur as int, '\n'),
            decreases n - k,
        {
            k = k + 1;
        }
        let ghost old_out = seqs_view(out@);
        let ghost rest = split_lines_from(s@, cur as int);
        if k == n {
            let piece = slice_to_vec(s, cur, n);
            out.push(piece);
            assert(seqs_view(out@) =~= old_out.push(s@.subrange(cur as int, n as int)));
            assert(rest == seq![s@.subrange(cur as int, n as int)]);
            assert(split_lines_from(s@, n as int) == Seq::<Seq<char>>::empty());
            assert(seqs_view(out@) + split_lines_from(s@, n as int) =~= old_out + rest);
            cur = n;
        } else {
            let end = if k > cur && s[k - 1] == '\r' {
                k - 1
            } else {
                k
            };
            let piece = slice_to_vec(s, cur, end);
            assert(piece@ =~= strip_cr(s@.subrange(cur as int, k as int)));
            out.push(piece);
            assert(seqs_view(out@) =~= old_out.push(piece@));
            assert(rest == seq![piece@] + split_lines_from(s@, k + 1));
            assert(seqs_view(out@) + split_lines_from(s@, k + 1) =~= old_out + rest);
            cur = k + 1;
        }
    }
    assert(split_lines_from(s@, cur as int) == Seq::<Seq<char>>::empty());
    assert(seqs_view(out@) + Seq::<Seq<char>>::empty() =~= seqs_view(out@));
    out
}

/// Number of bytes of the UTF-8 encoding of `c`.
pub open spec fn char_len(c: char) -> nat {
    if (c as u32) < 0x80 {
        1
    } else if (c as u32) < 0x800 {
        2
    } else if (c as u32) < 0x10000 {
        3
    } else {
        4
    }
}

pub fn char_len_exec(c: char) -> (r: usize)
    ensures
        r == char_len(c),
        1 <= r <= 4,
{
    let u = c as u32;
    if u < 0x80 {
        1
    } else if u < 0x800 {
        2
    } else if u < 0x10000 {
        3
    } else {
        4
    }
}

/// Number of bytes of the UTF-8 encoding of `s` (what `str::len` returns).
pub open spec fn utf8_len(s: Seq<char>) -> nat
    decreases s.len(),
{
    if s.len() == 0 {
        0
    } else {
        utf8_len(s.drop_last()) + char_len(s.last())
    }
}

pub proof fn lemma_utf8_len_bounds(s: Seq<char>)
    ensures
        s.len() <= utf8_len(s) <= 4 * s.len(),
    decreases s.len(),
{
    if s.len() > 0 {
        lemma_utf8_len_bounds(s.drop_last());
    }
}

pub proof fn lemma_utf8_len_take_ge(s: Seq<char>, k: int)
    requires
        0 <= k <= s.len(),
    ensures
        k <= utf8_len(s.take(k)) <= 4 * k,
{
    lemma_utf8_len_bounds(s.take(k));
}

pub proof fn lemma_utf8_len_take(s: Seq<char>, i: int)
    requires
        0 <= i < s.len(),
    ensures
        utf8_len(s.take(i + 1)) == utf8_len(s.take(i)) + char_len(s[i]),
{
    assert(s.take(i + 1).drop_last() =~= s.take(i));
}

pub proof fn lemma_utf8_len_concat(a: Seq<char>, b: Seq<char>)
    ensures
        utf8_len(a + b) == utf8_len(a) + utf8_len(b),
    decreases b.len(),
{
    if b.len() == 0 {
        assert(a + b =~= a);
    } else {
        lemma_utf8_len_concat(a, b.drop_last());
        assert((a + b).drop_last() =~= a + b.drop_last());
    }
}

pub proof fn lemma_utf8_len_subrange(s: Seq<char>, a: int, b: int)
    requires
        0 <= a <= b <= s.len(),
    ensures
        utf8_len(s.subrange(a, b)) <= utf8_len(s),
        utf8_len(s.subrange(a, b)) + utf8_len(s.take(a)) + utf8_len(s.subrange(b, s.len() as int)) == utf8_len(s),
{
    assert(s =~= s.take(a) + s.subrange(a, b) + s.subrange(b, s.len() as int));
    lemma_utf8_len_concat(s.take(a), s.subrange(a, b));
    lemma_utf8_len_concat(s.take(a) + s.subrange(a, b), s.subrange(b, s.len() as int));
}

pub proof fn lemma_utf8_len_trim(s: Seq<char>)
    ensures
        utf8_len(trim(s)) <= utf8_len(s),
        utf8_len(trim_start(s)) <= utf8_len(s),
        utf8_len(trim_end(s)) <= utf8_len(s),
{
    lemma_run_end(s, 0, ws_pred());
    lemma_run_start(s, s.len() as int, ws_pred());
    let t = trim_start(s);
    lemma_run_start(t, t.len() as int, ws_pred());
    lemma_utf8_len_subrange(s, run_end(s, 0, ws_pred()), s.len() as int);
    lemma_utf8_len_subrange(s, 0, run_start(s, s.len() as int, ws_pred()));
    lemma_utf8_len_subrange(t, 0, run_start(t, t.len() as int, ws_pred()));
}

/// Whether all characters of `s` are ASCII (then bytes and characters
/// coincide).
pub open spec fn all_ascii(s: Seq<char>) -> bool {
    forall|i: int| 0 <= i < s.len() ==> (s[i] as u32) < 0x80
}

pub proof fn lemma_utf8_len_ascii(s: Seq<char>)
    requires
        all_ascii(s),
    ensures
        utf8_len(s) == s.len(),
    decreases s.len(),
{
    if s.len() > 0 {
        assert(all_ascii(s.drop_last()));
        lemma_utf8_len_ascii(s.drop_last());
    }
}

/// Byte length of `s[..i]`.
pub fn byte_offset(s: &[char], i: usize) -> (r: usize)
    requires
        i <= s@.len(),
        s@.len() <= max_text_len(),
    ensures
        r == utf8_len(s@.take(i as int)),
        r <= 4 * i,
{
    let mut k: usize = 0;
    let mut acc: usize = 0;
    while k < i
        invariant
            k <= i <= s@.len(),
            s@.len() <= max_text_len(),
            acc == utf8_len(s@.take(k as int)),
            acc <= 4 * k,
        decreases i - k,
    {
        proof {
            lemma_utf8_len_take(s@, k as int);
        }
        acc = acc + char_len_exec(s[k]);
        k = k + 1;
    }
    acc
}

/// Byte length of `s`.
pub fn byte_len(s: &[char]) -> (r: usize)
    requires
        s@.len() <= max_text_len(),
    ensures
        r == utf8_len(s@),
        r <= 4 * s@.len(),
{
    let r = byte_offset(s, s.len());
    assert(s@.take(s@.len() as int) =~= s@);
    r
}

/// Whether `s` begins with `p`.
pub open spec fn starts_with(s: Seq<char>, p: Seq<char>) -> bool {
    p.len() <= s.len() && s.subrange(0, p.len() as int) == p
}

/// Whether `s[i..]` begins with `p`.
pub open spec fn matches_at(s: Seq<char>, i: int, p: Seq<char>) -> bool {
    0 <= i && i + p.len() <= s.len() && s.subrange(i, i + p.len()) == p
}

pub fn matches_at_exec(s: &[char], i: usize, p: &[char]) -> (r: bool)
    ensures
        r == matches_at(s@, i as int, p@),
{
    if i > s.len() || p.len() > s.len() - i {
        return false;
    }
    let mut k: usize = 0;
    while k < p.len()
        invariant
            i <= s@.len(),
            i as int + p@.len() <= s@.len(),
            i as int + p.len() <= s.len(),
            k <= p@.len(),
            forall|m: int| 0 <= m < k ==> s@[i + m] == p@[m],
        decreases p@.len() - k,
    {
        if s[i + k] != p[k] {
            assert(s@.subrange(i as int, i + p@.len())[k as int] != p@[k as int]);
            return false;
        }
        k = k + 1;
    }
    assert(s@.subrange(i as int, i + p@.len()) =~= p@);
    true
}

pub fn starts_with_exec(s: &[char], p: &[char]) -> (r: bool)
    ensures
        r == starts_with(s@, p@),
{
    matches_at_exec(s, 0, p)
}

/// Whether `a` and `b` hold the same characters.
pub fn eq_chars(a: &[char], b: &[char]) -> (r: bool)
    ensures
        r == (a@ == b@),
{
    if a.len() != b.len() {
        assert(a@.len() != b@.len());
        return false;
    }
    let r = matches_at_exec(a, 0, b);
    assert(a@.subrange(0, b@.len() as int) =~= a@);
    r
}

/// Whether `v` holds exactly the characters of `s`.
pub fn eq_str(v: &[char], s: &str) -> (r: bool)
    ensures
        r == (v@ == s@),
{
    let p = str_chars(s);
    if v.len() != p.len() {
        assert(v@.len() != p@.len());
        return false;
    }
    let r = matches_at_exec(v, 0, p.as_slice());
    proof {
        if r {
            assert(v@.subrange(0, p@.len() as int) =~= v@);
        } else {
            assert(v@.subrange(0, p@.len() as int) =~= v@);
        }
    }
    r
}

/// Whether `v` begins with the characters of `s`.
pub fn starts_with_str(v: &[char], s: &str) -> (r: bool)
    ensures
        r == starts_with(v@, s@),
{
    let p = str_chars(s);
    starts_with_exec(v, p.as_slice())
}

/// Whether `v` ends with the characters of `s`.
pub open spec fn ends_with(v: Seq<char>, p: Seq<char>) -> bool {
    p.len() <= v.len() && v.subrange(v.len() - p.len(), v.len() as int) == p
}

pub fn ends_with_str(v: &[char], s: &str) -> (r: bool)
    ensures
        r == ends_with(v@, s@),
{
    let p = str_chars(s);
    if p.len() > v.len() {
        return false;
    }
    matches_at_exec(v, v.len() - p.len(), p.as_slice())
}

/// Whether `c` occurs in `s`.
pub fn contains_char(s: &[char], c: char) -> (r: bool)
    ensures
        r == s@.contains(c),
{
    let mut i: usize = 0;
    while i < s.len()
        invariant
            i <= s@.len(),
            forall|k: int| 0 <= k < i ==> s@[k] != c,
        decreases s@.len() - i,
    {
        if s[i] == c {
            assert(s@[i as int] == c);
            return true;
        }
        i = i + 1;
    }
    false
}

/// First index at which `p` occurs in `s` (as a character index), if any.
pub open spec fn find_seq(s: Seq<char>, p: Seq<char>) -> Option<int> {
    if exists|i: int| matches_at(s, i, p) {
        Some(choose|i: int| matches_at(s, i, p) && forall|j: int| 0 <= j < i ==> !matches_at(s, j, p))
    } else {
        None
    }
}

pub fn find_seq_exec(s: &[char], p: &[char]) -> (r: Option<usize>)
    ensures
        match r {
            Some(i) => matches_at(s@, i as int, p@) && forall|j: int|
                0 <= j < i ==> !matches_at(s@, j, p@),
            None => forall|j: int| !matches_at(s@, j, p@),
        },
        r matches Some(i) ==> find_seq(s@, p@) == Some(i as int),
        r is None ==> find_seq(s@, p@) is None,
{
    let mut i: usize = 0;
    while i < s.len()
        invariant
            i <= s@.len(),
            forall|j: int| 0 <= j < i ==> !matches_at(s@, j, p@),
        decreases s@.len() - i,
    {
        if matches_at_exec(s, i, p) {
            proof {
                let w = choose|k: int|
                    matches_at(s@, k, p@) && forall|j: int| 0 <= j < k ==> !matches_at(s@, j, p@);
                assert(matches_at(s@, i as int, p@) && forall|j: int|
                    0 <= j < i ==> !matches_at(s@, j, p@));
                if w < i {
                } else if w > i {
                    assert(!matches_at(s@, i as int, p@));
                }
            }
            return Some(i);
        }
        i = i + 1;
    }
    if matches_at_exec(s, i, p) {
        proof {
            let w = choose|k: int|
                matches_at(s@, k, p@) && forall|j: int| 0 <= j < k ==> !matches_at(s@, j, p@);
            assert(matches_at(s@, i as int, p@) && forall|j: int|
                0 <= j < i ==> !matches_at(s@, j, p@));
            if w > i {
                assert(!matches_at(s@, i as int, p@));
            }
        }
        return Some(i);
    }
    assert forall|j: int| !matches_at(s@, j, p@) by {
        if j > i {
            assert(j + p@.len() > s@.len());
        }
    }
    None
}

/// Value of the decimal digits `s[..k]`.
pub open spec fn digits_value(s: Seq<char>, k: int) -> int
    decreases k,
{
    if k <= 0 {
        0
    } else {
        digits_value(s, k - 1) * 10 + (s[k - 1] as int - '0' as int)
    }
}

/// `s` without one leading `+`.
pub open spec fn unsigned_part(s: Seq<char>) -> Seq<char> {
    if s.len() > 0 && s[0] == '+' {
        s.drop_first()
    } else {
        s
    }
}

pub open spec fn all_digits(d: Seq<char>) -> bool {
    forall|i: int| 0 <= i < d.len() ==> is_ascii_digit_spec(#[trigger] d[i])
}

/// What `str::parse::<usize>` gives: an optional `+` then at least one
/// ASCII digit, with a value that fits in `usize`.
pub open spec fn parse_usize_spec(s: Seq<char>) -> Option<usize> {
    let d = unsigned_part(s);
    if d.len() > 0 && all_digits(d) && digits_value(d, d.len() as int) <= usize::MAX {
        Some(digits_value(d, d.len() as int) as usize)
    } else {
        None
    }
}

proof fn lemma_digits_mono(s: Seq<char>, k: int)
    requires
        0 <= k <= s.len(),
        forall|i: int| 0 <= i < s.len() ==> is_ascii_digit_spec(#[trigger] s[i]),
    ensures
        0 <= digits_value(s, k) <= digits_value(s, s.len() as int),
    decreases s.len() - k,
{
    if k < s.len() {
        lemma_digits_mono(s, k + 1);
        lemma_digits_nonneg(s, k);
    } else {
        lemma_digits_nonneg(s, k);
    }
}

proof fn lemma_digits_nonneg(s: Seq<char>, k: int)
    requires
        0 <= k <= s.len(),
        forall|i: int| 0 <= i < s.len() ==> is_ascii_digit_spec(#[trigger] s[i]),
    ensures
        0 <= digits_value(s, k),
    decreases k,
{
    if k > 0 {
        lemma_digits_nonneg(s, k - 1);
    }
}

/// `str::parse::<usize>` on a character sequence.
pub fn parse_usize(s: &[char]) -> (r: Option<usize>)
    ensures
        r == parse_usize_spec(s@),
{
    let start: usize = if s.len() > 0 && s[0] == '+' {
        1
    } else {
        0
    };
    let ghost d = unsigned_part(s@);
    assert(d =~= s@.subrange(start as int, s@.len() as int));
    if start >= s.len() {
        return None;
    }
    let mut i = start;
    while i < s.len()
        invariant
            start <= i <= s@.len(),
            d == s@.subrange(start as int, s@.len() as int),
            d == unsigned_part(s@),
            forall|k: int| start <= k < i ==> is_ascii_digit_spec(#[trigger] s@[k]),
        decreases s@.len() - i,
    {
        if !('0' <= s[i] && s[i] <= '9') {
            assert(d[i - start] == s@[i as int]);
            assert(!is_ascii_digit_spec(d[i - start]));
            assert(!all_digits(d));
            return None;
        }
        i = i + 1;
    }
    assert forall|k: int| 0 <= k < d.len() implies is_ascii_digit_spec(#[trigger] d[k]) by {
        assert(d[k] == s@[k + start]);
    }
    let mut v: usize = 0;
    let mut j = start;
    while j < s.len()
        invariant
            start <= j <= s@.len(),
            d == s@.subrange(start as int, s@.len() as int),
            d == unsigned_part(s@),
            forall|k: int| 0 <= k < d.len() ==> is_ascii_digit_spec(#[trigger] d[k]),
            v == digits_value(d, j - start),
        decreases s@.len() - j,
    {
        assert(d[j - start] == s@[j as int]);
        assert(is_ascii_digit_spec(d[j - start]));
        let digit = (s[j] as u32 - '0' as u32) as usize;
        assert(digit == s@[j as int] as int - '0' as int);
        assert(digits_value(d, j - start + 1) == digits_value(d, j - start) * 10 + (d[j - start] as int - '0' as int));
        if v > (usize::MAX - digit) / 10 {
            proof {
                lemma_digits_mono(d, j - start + 1);
                assert(digits_value(d, j - start + 1) == v * 10 + digit);
                assert(v * 10 + digit > usize::MAX) by (nonlinear_arith)
                    requires
                        v > (usize::MAX - digit) / 10,
                        digit < 10,
                ;
            }
            return None;
        }
        proof {
            assert(v * 10 + digit <= usize::MAX) by (nonlinear_arith)
                requires
                    v <= (usize::MAX - digit) / 10,
                    digit < 10,
            ;
        }
        v = v * 10 + digit;
        j = j + 1;
    }
    Some(v)
}

pub open spec fn non_ws_pred() -> spec_fn(char) -> bool {
    |c: char| !is_ws(c)
}

/// The white-space separated words of `s[i..]` (`str::split_whitespace`).
pub open spec fn words_from(s: Seq<char>, i: int) -> Seq<Seq<char>>
    decreases s.len() - i,
{
    let a = run_end(s, i, ws_pred());
    let b = run_end(s, a, non_ws_pred());
    if 0 <= i && i <= a && a < b && b <= s.len() {
        seq![s.subrange(a, b)] + words_from(s, b)
    } else {
        seq![]
    }
}

pub open spec fn words(s: Seq<char>) -> Seq<Seq<char>> {
    words_from(s, 0)
}

/// The white-space separated words of `s`.
pub fn split_words(s: &[char]) -> (r: Vec<Vec<char>>)
    ensures
        seqs_view(r@) == words(s@),
        forall|k: int| 0 <= k < r@.len() ==> (#[trigger] r@[k])@.len() <= s@.len(),
{
    let mut out: Vec<Vec<char>> = Vec::new();
    let mut i: usize = 0;
    while i < s.len()
        invariant
            i <= s@.len(),
            seqs_view(out@) + words_from(s@, i as int) == words(s@),
            forall|k: int| 0 <= k < out@.len() ==> (#[trigger] out@[k])@.len() <= s@.len(),
        decreases s@.len() - i,
    {
        let a = skip_ws(s, i);
        proof {
            lemma_run_end(s@, i as int, ws_pred());
        }
        let mut b = a;
        while b < s.len() && !is_whitespace(s[b])
            invariant
                a <= b <= s@.len(),
                run_end(s@, b as int, non_ws_pred()) == run_end(s@, a as int, non_ws_pred()),
            decreases s@.len() - b,
        {
            b = b + 1;
        }
        proof {
            lemma_run_end(s@, a as int, non_ws_pred());
        }
        if a < b {
            let w = slice_to_vec(s, a, b);
            let ghost before = seqs_view(out@);
            out.push(w);
            assert(seqs_view(out@) =~= before.push(w@));
            assert(words_from(s@, i as int) == seq![w@] + words_from(s@, b as int));
            assert(seqs_view(out@) + words_from(s@, b as int) =~= before + words_from(s@, i as int));
            i = b;
        } else {
            assert(words_from(s@, i as int) == Seq::<Seq<char>>::empty());
            assert(a == s@.len());
            assert(words_from(s@, a as int) == Seq::<Seq<char>>::empty());
            i = a;
        }
    }
    assert(words_from(s@, i as int) == Seq::<Seq<char>>::empty());
    assert(seqs_view(out@) + Seq::<Seq<char>>::empty() =~= seqs_view(out@));
    out
}

/// Column (1-based, in bytes) of the first occurrence of `part` in `line`,
/// or 1 when it does not occur.
pub open spec fn find_col(line: Seq<char>, part: Seq<char>) -> int {
    match find_seq(line, part) {
        Some(i) => utf8_len(line.take(i)) + 1int,
        None => 1,
    }
}

pub proof fn lemma_find_col_bound(line: Seq<char>, part: Seq<char>)
    ensures
        1 <= find_col(line, part) <= utf8_len(line) + 1,
{
    if exists|i: int| matches_at(line, i, part) {
        let i = choose|i: int| matches_at(line, i, part) && forall|j: int| 0 <= j < i ==> !matches_at(line, j, part);
        let w = choose|i: int| matches_at(line, i, part);
        assert(matches_at(line, w, part));
        lemma_find_seq_first(line, part, w);
        assert(find_seq(line, part) == Some(i));
        lemma_utf8_len_subrange(line, 0, i);
        assert(line.take(i) =~= line.subrange(0, i));
    }
}

/// A match at `w` makes `find_seq` find the earliest match.
proof fn lemma_find_seq_first(s: Seq<char>, p: Seq<char>, w: int)
    requires
        matches_at(s, w, p),
    ensures
        exists|i: int| matches_at(s, i, p) && forall|j: int| 0 <= j < i ==> !matches_at(s, j, p),
    decreases w,
{
    if exists|j: int| 0 <= j < w && matches_at(s, j, p) {
        let j = choose|j: int| 0 <= j < w && matches_at(s, j, p);
        lemma_find_seq_first(s, p, j);
    } else {
        assert(forall|j: int| 0 <= j < w ==> !matches_at(s, j, p));
    }
}

pub fn find_col_exec(line: &[char], part: &[char]) -> (r: usize)
    requires
        line@.len() <= max_text_len(),
    ensures
        r == find_col(line@, part@),
{
    match find_seq_exec(line, part) {
        Some(i) => {
            let b = byte_offset(line, i);
            b + 1
        },
        None => 1,
    }
}

/// The decimal digits of `n`.
pub open spec fn decimal(n: nat) -> Seq<char>
    decreases n,
{
    if n < 10 {
        seq![digit_char(n)]
    } else {
        decimal(n / 10) + seq![digit_char(n % 10)]
    }
}

pub open spec fn digit_char(d: nat) -> char {
    if d == 0 {
        '0'
    } else if d == 1 {
        '1'
    } else if d == 2 {
        '2'
    } else if d == 3 {
        '3'
    } else if d == 4 {
        '4'
    } else if d == 5 {
        '5'
    } else if d == 6 {
        '6'
    } else if d == 7 {
        '7'
    } else if d == 8 {
        '8'
    } else {
        '9'
    }
}

fn digit_char_exec(d: usize) -> (r: char)
    requires
        d < 10,
    ensures
        r == digit_char(d as nat),
{
    if d == 0 {
        '0'
    } else if d == 1 {
        '1'
    } else if d == 2 {
        '2'
    } else if d == 3 {
        '3'
    } else if d == 4 {
        '4'
    } else if d == 5 {
        '5'
    } else if d == 6 {
        '6'
    } else if d == 7 {
        '7'
    } else if d == 8 {
        '8'
    } else {
        '9'
    }
}

/// Append the decimal rendering of `n` to `out`.
pub fn push_decimal(out: &mut Vec<char>, n: usize)
    ensures
        final(out)@ == old(out)@ + decimal(n as nat),
    decreases n,
{
    if n < 10 {
        out.push(digit_char_exec(n));
        assert(decimal(n as nat) == seq![digit_char(n as nat)]);
    } else {
        push_decimal(out, n / 10);
        out.push(digit_char_exec(n % 10));
        assert(decimal(n as nat) == decimal((n / 10) as nat) + seq![digit_char((n % 10) as nat)]);
    }
}

/// Append all of `src` to `out`.
pub fn push_all(out: &mut Vec<char>, src: &[char])
    ensures
        final(out)@ == old(out)@ + src@,
{
    let ghost start = out@;
    let mut i: usize = 0;
    while i < src.len()
        invariant
            i <= src@.len(),
            out@ == start + src@.subrange(0, i as int),
        decreases src@.len() - i,
    {
        out.push(src[i]);
        i = i + 1;
        assert(out@ =~= start + src@.subrange(0, i as int));
    }
    assert(src@.subrange(0, src@.len() as int) =~= src@);
}

/// Append the characters of `s` to `out`.
pub fn push_str(out: &mut Vec<char>, s: &str)
    ensures
        final(out)@ == old(out)@ + s@,
{
    let v = str_chars(s);
    push_all(out, v.as_slice());
}

/// The characters of `s`.
pub fn str_chars(s: &str) -> (r: Vec<char>)
    ensures
        r@ == s@,
{
    let mut r: Vec<char> = Vec::new();
    for c in it: s.chars()
        invariant
            r@ == it.seq().take(it.index() as int),
            it.seq() == s@,
    {
        r.push(c);
        assert(r@ =~= it.seq().take(it.index() as int + 1));
    }
    assert(r@ =~= s@);
    r
}

/// `count` spaces.
pub open spec fn spaces(count: nat) -> Seq<char> {
    Seq::new(count, |i: int| ' ')
}

pub fn push_spaces(out: &mut Vec<char>, count: usize)
    ensures
        final(out)@ == old(out)@ + spaces(count as nat),
{
    let ghost start = out@;
    let mut i: usize = 0;
    while i < count
        invariant
            i <= count,
            out@ == start + spaces(i as nat),
        decreases count - i,
    {
        out.push(' ');
        i = i + 1;
        assert(out@ =~= start + spaces(i as nat));
    }
}

/// The lines joined with `'\n'` between consecutive ones.
pub open spec fn join_lines(ls: Seq<Seq<char>>) -> Seq<char>
    decreases ls.len(),
{
    if ls.len() == 0 {
        seq![]
    } else if ls.len() == 1 {
        ls[0]
    } else {
        join_lines(ls.drop_last()) + seq!['\n'] + ls.last()
    }
}

/// Join the lines with `'\n'`.
pub fn join_lines_exec(ls: &Vec<Vec<char>>) -> (r: Vec<char>)
    ensures
        r@ == join_lines(seqs_view(ls@)),
{
    let mut out: Vec<char> = Vec::new();
    let mut i: usize = 0;
    while i < ls.len()
        invariant
            i <= ls@.len(),
            out@ == join_lines(seqs_view(ls@).take(i as int)),
        decreases ls@.len() - i,
    {
        let ghost before = seqs_view(ls@).take(i as int);
        let ghost after = seqs_view(ls@).take(i + 1);
        assert(after.drop_last() =~= before);
        if i > 0 {
            out.push('\n');
        }
        push_all(&mut out, ls[i].as_slice());
        i = i + 1;
        proof {
            if i == 1 {
                assert(out@ =~= after[0]);
            } else {
                assert(out@ =~= join_lines(before) + seq!['\n'] + after.last());
            }
        }
    }
    assert(seqs_view(ls@).take(ls@.len() as int) =~= seqs_view(ls@));
    out
}

/// What `char::is_alphanumeric` answers for `c` (the Unicode `Alphabetic`
/// or `Numeric` property).
pub uninterp spec fn unicode_alphanumeric(c: char) -> bool;

/// `char::is_alphanumeric`: among ASCII characters exactly the letters and
/// digits are alphabetic or numeric, as its documentation and those of
/// `is_alphabetic` and `is_numeric` show; the rest of the answer is left to
/// the name.
#[verifier::external_body]
pub(crate) fn is_alphanumeric(c: char) -> (r: bool)
    ensures
        r == unicode_alphanumeric(c),
        (c as u32) < 128 ==> (r <==> ('a' <= c <= 'z' || 'A' <= c <= 'Z' || '0' <= c <= '9')),
{
    c.is_alphanumeric()
}

/// The lowercase form of `s`, as `str::to_lowercase` computes it.
pub uninterp spec fn lowercase(s: Seq<char>) -> Seq<char>;

/// The ASCII lowercase of `c`: `A`-`Z` become `a`-`z`, others stay.
pub open spec fn ascii_lower(c: char) -> char {
    if 'A' <= c <= 'Z' {
        ((c as u32) + 32) as char
    } else {
        c
    }
}

/// `str::to_lowercase`: Unicode lowercase mapping of every character; on
/// ASCII text, that maps `A`-`Z` to `a`-`z` and leaves the rest.
#[verifier::external_body]
pub(crate) fn to_lowercase(s: &str) -> (r: String)
    ensures
        r@ == lowercase(s@),
        all_ascii(s@) ==> r@ == s@.map_values(|c: char| ascii_lower(c)),
{
    s.to_lowercase()
}

/// A `String` holding exactly the characters of `v`.
#[verifier::external_body]
pub(crate) fn chars_to_string(v: &[char]) -> (s: String)
    ensures
        s@ == v@,
{
    v.iter().collect()
}

} // verus!
