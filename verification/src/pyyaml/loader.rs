//! Load a YAML document into a [`YamlValue`] tree, resolving plain scalars
//! to booleans, integers, floats and nulls with YAML 1.1 semantics.

use vstd::prelude::*;
use crate::pyyaml::resolver::{DEFAULT_SCALAR_TAG, resolve_from, resolve_scalar_tag};
use crate::pyyaml::error::YamlError;
use crate::pyyaml::parser::{Event, Parser, concat_two, event_in};
use crate::pyyaml::scanner::{buffer_of, error_in, marks_in};
use crate::pyyaml::value::{YamlMapping, YamlValue, copy_value, same_value};
use crate::text::{
    decimal, push_decimal, push_str, chars_to_string, contains_char, ends_with, eq_str, lowercase, matches_at_exec, max_text_len, seqs_view, starts_with, str_chars,
    to_lowercase,
};

verus! {

// --- Integers -----------------------------------------------------------------

/// `s` without any `c`.
pub open spec fn without_char(s: Seq<char>, c: char) -> Seq<char>
    decreases s.len(),
{
    if s.len() == 0 {
        s
    } else if s.last() == c {
        without_char(s.drop_last(), c)
    } else {
        without_char(s.drop_last(), c).push(s.last())
    }
}

/// The characters of `s` other than `c`, in order.
pub fn remove_char(s: &[char], c: char) -> (r: Vec<char>)
    ensures
        r@ == without_char(s@, c),
{
    let mut out: Vec<char> = Vec::new();
    let mut i: usize = 0;
    while i < s.len()
        invariant
            i <= s@.len(),
            out@ == without_char(s@.take(i as int), c),
        decreases s@.len() - i,
    {
        assert(s@.take(i as int + 1).drop_last() =~= s@.take(i as int));
        if s[i] != c {
            out.push(s[i]);
        }
        i = i + 1;
    }
    assert(s@.take(s@.len() as int) =~= s@);
    out
}

/// The value of `c` as a digit in bases up to 36; 36 for no digit.
pub open spec fn digit_of(c: char) -> int {
    if '0' <= c <= '9' {
        c as int - '0' as int
    } else if 'a' <= c <= 'z' {
        c as int - 'a' as int + 10
    } else if 'A' <= c <= 'Z' {
        c as int - 'A' as int + 10
    } else {
        36
    }
}

fn digit_value(c: char) -> (r: u64)
    ensures
        r == digit_of(c),
{
    if '0' <= c && c <= '9' {
        (c as u32 - '0' as u32) as u64
    } else if 'a' <= c && c <= 'z' {
        (c as u32 - 'a' as u32 + 10) as u64
    } else if 'A' <= c && c <= 'Z' {
        (c as u32 - 'A' as u32 + 10) as u64
    } else {
        36
    }
}

/// The value of the digits `d[..k]` in base `radix`.
pub open spec fn radix_value(d: Seq<char>, radix: int, k: int) -> int
    decreases k,
{
    if k <= 0 {
        0
    } else {
        radix_value(d, radix, k - 1) * radix + digit_of(d[k - 1])
    }
}

/// Every character of `d` is a digit of base `radix`.
pub open spec fn radix_digits(d: Seq<char>, radix: int) -> bool {
    forall|i: int| 0 <= i < d.len() ==> #[trigger] digit_of(d[i]) < radix
}

/// `s` without one leading sign.
pub open spec fn unsigned_digits(s: Seq<char>) -> Seq<char> {
    if s.len() > 0 && (s[0] == '-' || s[0] == '+') {
        s.drop_first()
    } else {
        s
    }
}

/// What `i64::from_str_radix(s, radix)` gives: an optional sign, then at
/// least one digit of the base, with a value that fits in `i64`.
pub open spec fn parse_i64_spec(s: Seq<char>, radix: int) -> Option<i64> {
    let d = unsigned_digits(s);
    let v = radix_value(d, radix, d.len() as int);
    let signed = if s.len() > 0 && s[0] == '-' {
        -v
    } else {
        v
    };
    if d.len() > 0 && radix_digits(d, radix) && i64::MIN <= signed <= i64::MAX {
        Some(signed as i64)
    } else {
        None
    }
}

proof fn lemma_radix_value_mono(d: Seq<char>, radix: int, k: int)
    requires
        2 <= radix <= 36,
        0 <= k <= d.len(),
        radix_digits(d, radix),
    ensures
        0 <= radix_value(d, radix, k) <= radix_value(d, radix, d.len() as int),
    decreases d.len() - k,
{
    lemma_radix_value_nonneg(d, radix, k);
    if k < d.len() {
        lemma_radix_value_mono(d, radix, k + 1);
        let a = radix_value(d, radix, k);
        assert(0 <= digit_of(d[k]));
        assert(a <= a * radix) by (nonlinear_arith)
            requires
                0 <= a,
                2 <= radix,
        ;
    }
}

proof fn lemma_radix_value_nonneg(d: Seq<char>, radix: int, k: int)
    requires
        2 <= radix <= 36,
        0 <= k <= d.len(),
        radix_digits(d, radix),
    ensures
        0 <= radix_value(d, radix, k),
    decreases k,
{
    if k > 0 {
        lemma_radix_value_nonneg(d, radix, k - 1);
        let a = radix_value(d, radix, k - 1);
        assert(0 <= digit_of(d[k - 1]));
        assert(0 <= a * radix) by (nonlinear_arith)
            requires
                0 <= a,
                2 <= radix,
        ;
    }
}

/// `i64::from_str_radix` on a character sequence.
pub fn parse_i64_radix(s: &[char], radix: u64) -> (r: Option<i64>)
    requires
        2 <= radix <= 36,
    ensures
        r == parse_i64_spec(s@, radix as int),
{
    let neg = s.len() > 0 && s[0] == '-';
    let start: usize = if s.len() > 0 && (s[0] == '-' || s[0] == '+') {
        1
    } else {
        0
    };
    let ghost d = unsigned_digits(s@);
    assert(d =~= s@.subrange(start as int, s@.len() as int));
    if start >= s.len() {
        return None;
    }
    let mut i = start;
    while i < s.len()
        invariant
            start <= i <= s@.len(),
            d == s@.subrange(start as int, s@.len() as int),
            d == unsigned_digits(s@),
            forall|k: int| start <= k < i ==> #[trigger] digit_of(s@[k]) < radix,
        decreases s@.len() - i,
    {
        let dv = digit_value(s[i]);
        if dv >= radix {
            proof {
                let w = i - start;
                assert(d[w] == s@[i as int]);
                assert(digit_of(d[w]) >= radix);
                assert(!radix_digits(d, radix as int));
            }
            return None;
        }
        i = i + 1;
    }
    assert forall|k: int| 0 <= k < d.len() implies #[trigger] digit_of(d[k]) < radix by {
        assert(d[k] == s@[k + start]);
    }
    let limit: u64 = if neg {
        0x8000_0000_0000_0000u64
    } else {
        0x7FFF_FFFF_FFFF_FFFFu64
    };
    let mut v: u64 = 0;
    let mut j = start;
    while j < s.len()
        invariant
            start <= j <= s@.len(),
            2 <= radix <= 36,
            d == s@.subrange(start as int, s@.len() as int),
            d == unsigned_digits(s@),
            radix_digits(d, radix as int),
            v == radix_value(d, radix as int, j - start),
            v <= limit,
            limit >= 0x7FFF_FFFF_FFFF_FFFFu64,
            neg == (s@.len() > 0 && s@[0] == '-'),
            neg ==> limit == 0x8000_0000_0000_0000u64,
            !neg ==> limit == 0x7FFF_FFFF_FFFF_FFFFu64,
            d.len() > 0,
        decreases s@.len() - j,
    {
        assert(d[j - start] == s@[j as int]);
        let digit = digit_value(s[j]);
        assert(digit < radix);
        assert(radix_value(d, radix as int, j - start + 1) == radix_value(d, radix as int, j - start)
            * radix + digit_of(d[j - start]));
        if v > (limit - digit) / radix {
            proof {
                lemma_radix_value_mono(d, radix as int, j - start + 1);
                assert(v * radix + digit > limit) by (nonlinear_arith)
                    requires
                        v > (limit - digit) / (radix as int),
                        digit < radix,
                        radix >= 2,
                ;
                let total = radix_value(d, radix as int, d.len() as int);
                assert(total > limit);
                if neg {
                    assert(-total < i64::MIN);
                } else {
                    assert(total > i64::MAX);
                }
            }
            return None;
        }
        proof {
            assert(v * radix + digit <= limit) by (nonlinear_arith)
                requires
                    v <= (limit - digit) / (radix as int),
                    digit < radix,
                    radix >= 2,
            ;
        }
        v = v * radix + digit;
        j = j + 1;
    }
    if neg {
        if v == 0x8000_0000_0000_0000u64 {
            Some(i64::MIN)
        } else {
            Some(-(v as i64))
        }
    } else {
        Some(v as i64)
    }
}

/// The pieces of `s` between the occurrences of `c`, as `str::split` gives
/// them (the empty pieces included).
pub open spec fn split_on(s: Seq<char>, c: char) -> Seq<Seq<char>>
    decreases s.len(),
{
    if s.len() == 0 {
        seq![Seq::<char>::empty()]
    } else {
        let p = split_on(s.drop_last(), c);
        if s.last() == c {
            p.push(Seq::<char>::empty())
        } else {
            p.update(p.len() - 1, p.last().push(s.last()))
        }
    }
}

proof fn lemma_split_on_nonempty(s: Seq<char>, c: char)
    ensures
        split_on(s, c).len() >= 1,
    decreases s.len(),
{
    if s.len() > 0 {
        lemma_split_on_nonempty(s.drop_last(), c);
    }
}

/// `str::split(c)` on a character sequence.
pub fn split_char(s: &[char], c: char) -> (r: Vec<Vec<char>>)
    ensures
        seqs_view(r@) == split_on(s@, c),
{
    let mut parts: Vec<Vec<char>> = Vec::new();
    let mut cur: Vec<char> = Vec::new();
    let mut i: usize = 0;
    while i < s.len()
        invariant
            i <= s@.len(),
            seqs_view(parts@).push(cur@) == split_on(s@.take(i as int), c),
        decreases s@.len() - i,
    {
        let ghost before = seqs_view(parts@).push(cur@);
        assert(s@.take(i as int + 1).drop_last() =~= s@.take(i as int));
        proof {
            lemma_split_on_nonempty(s@.take(i as int), c);
        }
        if s[i] == c {
            let done = cur;
            parts.push(done);
            cur = Vec::new();
            assert(seqs_view(parts@).push(cur@) =~= before.push(Seq::<char>::empty()));
        } else {
            cur.push(s[i]);
            assert(seqs_view(parts@).push(cur@) =~= before.update(
                before.len() - 1,
                before.last().push(s@[i as int]),
            ));
        }
        i = i + 1;
    }
    assert(s@.take(s@.len() as int) =~= s@);
    parts.push(cur);
    assert(seqs_view(parts@) =~= split_on(s@, c));
    parts
}

/// The value of sexagesimal pieces (`190:20:30`), each read as a decimal
/// `i64`, with `None` where a piece is no number or the value overflows.
pub open spec fn sexagesimal_value(parts: Seq<Seq<char>>) -> Option<i64>
    decreases parts.len(),
{
    if parts.len() == 0 {
        Some(0)
    } else {
        match sexagesimal_value(parts.drop_last()) {
            None => None,
            Some(t) => match parse_i64_spec(parts.last(), 10) {
                None => None,
                Some(p) => if i64::MIN <= t * 60 <= i64::MAX && i64::MIN <= t * 60 + p <= i64::MAX {
                    Some((t * 60 + p) as i64)
                } else {
                    None
                },
            },
        }
    }
}

fn sexagesimal(parts: &Vec<Vec<char>>) -> (r: Option<i64>)
    ensures
        r == sexagesimal_value(seqs_view(parts@)),
{
    let ghost ps = seqs_view(parts@);
    let mut total: i64 = 0;
    let mut i: usize = 0;
    while i < parts.len()
        invariant
            i <= parts@.len(),
            ps == seqs_view(parts@),
            sexagesimal_value(ps.take(i as int)) == Some(total),
        decreases parts@.len() - i,
    {
        assert(ps.take(i as int + 1).drop_last() =~= ps.take(i as int));
        assert(ps.take(i as int + 1).last() == parts@[i as int]@);
        let scaled = match total.checked_mul(60) {
            Some(m) => m,
            None => {
                proof {
                    lemma_sexagesimal_none(ps, i as int + 1);
                }
                return None;
            },
        };
        let part = match parse_i64_radix(parts[i].as_slice(), 10) {
            Some(p) => p,
            None => {
                proof {
                    lemma_sexagesimal_none(ps, i as int + 1);
                }
                return None;
            },
        };
        total = match scaled.checked_add(part) {
            Some(t) => t,
            None => {
                proof {
                    lemma_sexagesimal_none(ps, i as int + 1);
                }
                return None;
            },
        };
        i = i + 1;
    }
    assert(ps.take(parts@.len() as int) =~= ps);
    Some(total)
}

/// Once a prefix has no value, the whole has none.
proof fn lemma_sexagesimal_none(ps: Seq<Seq<char>>, k: int)
    requires
        0 <= k <= ps.len(),
        sexagesimal_value(ps.take(k)) is None,
    ensures
        sexagesimal_value(ps) is None,
    decreases ps.len() - k,
{
    if k < ps.len() {
        assert(ps.take(k + 1).drop_last() =~= ps.take(k));
        lemma_sexagesimal_none(ps, k + 1);
    } else {
        assert(ps.take(k) =~= ps);
    }
}

/// `-n` as a release build computes `-1 * n`: the negation of `i64::MIN`
/// wraps to itself.
pub open spec fn negate_wrapping(n: i64) -> i64 {
    if n == i64::MIN {
        n
    } else {
        (-n) as i64
    }
}

/// The digits that follow the sign of a cleaned integer scalar.
pub open spec fn int_digits(cleaned: Seq<char>) -> Seq<char> {
    unsigned_digits(cleaned)
}

/// The magnitude that the digits of an integer scalar denote.
pub open spec fn int_magnitude(digits: Seq<char>) -> Option<i64> {
    if starts_with(digits, seq!['0', 'b']) {
        parse_i64_spec(digits.skip(2), 2)
    } else if starts_with(digits, seq!['0', 'x']) {
        parse_i64_spec(digits.skip(2), 16)
    } else if starts_with(digits, seq!['0', 'o']) {
        parse_i64_spec(digits.skip(2), 8)
    } else if digits.len() > 1 && digits[0] == '0' && !digits.contains(':') {
        parse_i64_spec(digits, 8)
    } else if digits.contains(':') {
        sexagesimal_value(split_on(digits, ':'))
    } else {
        parse_i64_spec(digits, 10)
    }
}

/// The integer an `int`-tagged scalar denotes: underscores dropped, one
/// sign, then binary (`0b`), hexadecimal (`0x`), octal (`0o` or a leading
/// `0`), sexagesimal (`:`) or decimal digits.
pub open spec fn int_of(value: Seq<char>) -> Option<i64> {
    let cleaned = without_char(value, '_');
    let neg = cleaned.len() > 0 && cleaned[0] == '-';
    match int_magnitude(int_digits(cleaned)) {
        None => None,
        Some(n) => Some(
            if neg {
                negate_wrapping(n)
            } else {
                n
            },
        ),
    }
}

fn slice_from(s: &[char], start: usize) -> (r: Vec<char>)
    requires
        start <= s@.len(),
    ensures
        r@ == s@.skip(start as int),
{
    let mut out: Vec<char> = Vec::new();
    let mut i = start;
    while i < s.len()
        invariant
            start <= i <= s@.len(),
            out@ == s@.subrange(start as int, i as int),
        decreases s@.len() - i,
    {
        out.push(s[i]);
        i = i + 1;
        assert(out@ =~= s@.subrange(start as int, i as int));
    }
    out
}

/// The integer of an `int`-tagged scalar, or `None` where it has none.
pub fn construct_int(value: &str) -> (r: Option<i64>)
    ensures
        r == int_of(value@),
{
    let chars = str_chars(value);
    let cleaned = remove_char(chars.as_slice(), '_');
    let neg = cleaned.len() > 0 && cleaned[0] == '-';
    let start: usize = if cleaned.len() > 0 && (cleaned[0] == '-' || cleaned[0] == '+') {
        1
    } else {
        0
    };
    let digits = slice_from(cleaned.as_slice(), start);
    assert(digits@ =~= int_digits(cleaned@));
    let d = digits.as_slice();
    let has_colon = contains_char(d, ':');
    let prefixed = d.len() >= 2 && d[0] == '0';
    if prefixed {
        assert(d@.subrange(0, 2) =~= seq!['0', d@[1]]);
    }
    let parsed = if prefixed && d[1] == 'b' {
        let rest = slice_from(d, 2);
        parse_i64_radix(rest.as_slice(), 2)
    } else if prefixed && d[1] == 'x' {
        let rest = slice_from(d, 2);
        parse_i64_radix(rest.as_slice(), 16)
    } else if prefixed && d[1] == 'o' {
        let rest = slice_from(d, 2);
        parse_i64_radix(rest.as_slice(), 8)
    } else if prefixed && !has_colon {
        parse_i64_radix(d, 8)
    } else if has_colon {
        let parts = split_char(d, ':');
        sexagesimal(&parts)
    } else {
        parse_i64_radix(d, 10)
    };
    assert(!prefixed ==> !starts_with(d@, seq!['0', 'b']) && !starts_with(d@, seq!['0', 'x'])
        && !starts_with(d@, seq!['0', 'o']));
    assert(parsed == int_magnitude(d@));
    match parsed {
        None => None,
        Some(n) => {
            if neg {
                if n == i64::MIN {
                    Some(n)
                } else {
                    Some(-n)
                }
            } else {
                Some(n)
            }
        },
    }
}

// --- Booleans and floats --------------------------------------------------------

/// The words that a `bool`-tagged scalar reads as true.
pub open spec fn true_words() -> Seq<Seq<char>> {
    seq!["yes"@, "Yes"@, "YES"@, "true"@, "True"@, "TRUE"@, "on"@, "On"@, "ON"@]
}

/// The boolean of a `bool`-tagged scalar: true for a word of
/// [`true_words`], false for anything else.
pub fn construct_bool(value: &str) -> (r: bool)
    ensures
        r == true_words().contains(value@),
{
    let words: Vec<&str> = vec!["yes", "Yes", "YES", "true", "True", "TRUE", "on", "On", "ON"];
    assert(words@.len() == true_words().len());
    let v = str_chars(value);
    let mut i: usize = 0;
    while i < words.len()
        invariant
            i <= words@.len(),
            words@.len() == true_words().len(),
            forall|k: int| 0 <= k < words@.len() ==> (#[trigger] words@[k])@ == true_words()[k],
            v@ == value@,
            forall|k: int| 0 <= k < i ==> true_words()[k] != value@,
        decreases words@.len() - i,
    {
        if eq_str(v.as_slice(), words[i]) {
            assert(true_words()[i as int] == value@);
            return true;
        }
        i = i + 1;
    }
    assert forall|k: int| 0 <= k < true_words().len() implies true_words()[k] != value@ by {}
    false
}

/// The bits of positive infinity.
pub open spec fn positive_infinity_bits() -> u64 {
    0x7FF0_0000_0000_0000u64
}

/// The bits of negative infinity.
pub open spec fn negative_infinity_bits() -> u64 {
    0xFFF0_0000_0000_0000u64
}

/// The bits of the quiet NaN that `f64::NAN` holds.
pub open spec fn nan_bits() -> u64 {
    0x7FF8_0000_0000_0000u64
}

/// How the bits of the double of a `float`-tagged scalar are found:
/// underscores dropped, then infinities and NaN by their case-insensitive
/// names, `None` for sexagesimal digits, else the cleaned text is read as a
/// double (`Err` holds that text).
pub open spec fn float_of(value: Seq<char>) -> Result<Option<u64>, Seq<char>> {
    let cleaned = without_char(value, '_');
    let lower = lowercase(cleaned);
    if ends_with(lower, seq!['.', 'i', 'n', 'f']) {
        Ok(
            Some(
                if lower.len() > 0 && lower[0] == '-' {
                    negative_infinity_bits()
                } else {
                    positive_infinity_bits()
                },
            ),
        )
    } else if ends_with(lower, seq!['.', 'n', 'a', 'n']) {
        Ok(Some(nan_bits()))
    } else if cleaned.contains(':') {
        Ok(None)
    } else {
        Err(cleaned)
    }
}

fn ends_with_chars(v: &[char], p: &[char]) -> (r: bool)
    ensures
        r == ends_with(v@, p@),
{
    if p.len() > v.len() {
        return false;
    }
    matches_at_exec(v, v.len() - p.len(), p)
}

/// The bits of the double of a `float`-tagged scalar, `None` where it has
/// none, or the text that is still to be read as a double.
pub fn construct_float(value: &str) -> (r: Result<Option<u64>, String>)
    ensures
        match (r, float_of(value@)) {
            (Ok(a), Ok(b)) => a == b,
            (Err(a), Err(b)) => a@ == b,
            _ => false,
        },
{
    let chars = str_chars(value);
    let cleaned = remove_char(chars.as_slice(), '_');
    let cleaned_text = chars_to_string(cleaned.as_slice());
    let lower_text = to_lowercase(cleaned_text.as_str());
    let lower = str_chars(lower_text.as_str());
    let inf: Vec<char> = vec!['.', 'i', 'n', 'f'];
    let nan: Vec<char> = vec!['.', 'n', 'a', 'n'];
    assert(inf@ =~= seq!['.', 'i', 'n', 'f']);
    assert(nan@ =~= seq!['.', 'n', 'a', 'n']);
    if ends_with_chars(lower.as_slice(), inf.as_slice()) {
        if lower.len() > 0 && lower[0] == '-' {
            Ok(Some(0xFFF0_0000_0000_0000u64))
        } else {
            Ok(Some(0x7FF0_0000_0000_0000u64))
        }
    } else if ends_with_chars(lower.as_slice(), nan.as_slice()) {
        Ok(Some(0x7FF8_0000_0000_0000u64))
    } else if contains_char(cleaned.as_slice(), ':') {
        Ok(None)
    } else {
        Err(cleaned_text)
    }
}

// --- Scalars ----------------------------------------------------------------------

/// The tag a scalar is constructed by: its own, else the resolved tag of a
/// plain scalar, else the string tag.
pub open spec fn resolved_tag(value: Seq<char>, plain: bool, tag: Option<Seq<char>>) -> Seq<char> {
    match tag {
        Some(t) => t,
        None => if plain {
            resolve_from(value, 0)
        } else {
            DEFAULT_SCALAR_TAG@
        },
    }
}

/// The relation between a text and what `f` reads from it.
pub open spec fn reads_as<F: Fn(&str) -> Option<u64>>(f: F) -> spec_fn(Seq<char>, Option<u64>) -> bool {
    |t: Seq<char>, b: Option<u64>| exists|s: &str| s@ == t && #[trigger] f.ensures((s,), b)
}

/// Whether `r` is a string value holding `value`.
pub open spec fn is_str_of(r: YamlValue, value: Seq<char>) -> bool {
    r matches YamlValue::Str(s) && s@ == value
}

/// The value a scalar with text `value` and tag `tag` is constructed as,
/// where `read` relates a text to the double read from it; an integer or
/// float tag on text without such a number gives the text.
pub open spec fn scalar_denotes(
    r: YamlValue,
    value: Seq<char>,
    tag: Seq<char>,
    read: spec_fn(Seq<char>, Option<u64>) -> bool,
) -> bool {
    if tag == "tag:yaml.org,2002:null"@ {
        r is Null
    } else if tag == "tag:yaml.org,2002:bool"@ {
        r == YamlValue::Bool(true_words().contains(value))
    } else if tag == "tag:yaml.org,2002:int"@ {
        match int_of(value) {
            Some(n) => r == YamlValue::Int(n),
            None => is_str_of(r, value),
        }
    } else if tag == "tag:yaml.org,2002:float"@ {
        match float_of(value) {
            Ok(Some(b)) => r == YamlValue::Float(b),
            Ok(None) => is_str_of(r, value),
            Err(text) => (r matches YamlValue::Float(b) && read(text, Some(b))) || (is_str_of(
                r,
                value,
            ) && read(text, None)),
        }
    } else {
        is_str_of(r, value)
    }
}

/// The value of a scalar event; `read_double` reads a double from a text,
/// giving its bits.
pub fn construct_scalar<F: Fn(&str) -> Option<u64>>(
    value: String,
    plain: bool,
    tag: Option<&str>,
    read_double: &F,
) -> (r: YamlValue)
    requires
        forall|t: &str| #[trigger] read_double.requires((t,)),
    ensures
        scalar_denotes(
            r,
            value@,
            resolved_tag(
                value@,
                plain,
                match tag {
                    Some(t) => Some(t@),
                    None => None,
                },
            ),
            reads_as(*read_double),
        ),
{
    let resolved: &str = match tag {
        Some(t) => t,
        None => if plain {
            resolve_scalar_tag(value.as_str())
        } else {
            DEFAULT_SCALAR_TAG
        },
    };
    let t = str_chars(resolved);
    if eq_str(t.as_slice(), "tag:yaml.org,2002:null") {
        YamlValue::Null
    } else if eq_str(t.as_slice(), "tag:yaml.org,2002:bool") {
        YamlValue::Bool(construct_bool(value.as_str()))
    } else if eq_str(t.as_slice(), "tag:yaml.org,2002:int") {
        match construct_int(value.as_str()) {
            Some(n) => YamlValue::Int(n),
            None => YamlValue::Str(value),
        }
    } else if eq_str(t.as_slice(), "tag:yaml.org,2002:float") {
        match construct_float(value.as_str()) {
            Ok(Some(b)) => YamlValue::Float(b),
            Ok(None) => YamlValue::Str(value),
            Err(text) => match read_double(text.as_str()) {
                Some(b) => YamlValue::Float(b),
                None => YamlValue::Str(value),
            },
        }
    } else {
        YamlValue::Str(value)
    }
}

// --- Composing documents --------------------------------------------------------------

/// The node recorded under the anchor `name`: the latest one.
pub open spec fn anchor_lookup(anchors: Seq<(String, YamlValue)>, name: Seq<char>) -> Option<YamlValue>
    decreases anchors.len(),
{
    if anchors.len() == 0 {
        None
    } else if anchors.last().0@ == name {
        Some(anchors.last().1)
    } else {
        anchor_lookup(anchors.drop_last(), name)
    }
}

/// The text that `{:?}` writes for a string: the string in double quotes,
/// with Rust's escapes.
pub uninterp spec fn debug_text(s: Seq<char>) -> Seq<char>;

/// `format!("{s:?}")`.
#[verifier::external_body]
fn debug_quoted(s: &str) -> (r: String)
    ensures
        r@ == debug_text(s@),
{
    format!("{s:?}")
}

/// The text that `{:?}` writes for a character: the character in single
/// quotes, with Rust's escapes.
pub uninterp spec fn char_debug_text(c: char) -> Seq<char>;

/// `format!("{c:?}")`.
#[verifier::external_body]
fn debug_char(c: char) -> (r: String)
    ensures
        r@ == char_debug_text(c),
{
    format!("{c:?}")
}

pub open spec fn bool_text(b: bool) -> Seq<char> {
    if b {
        "true"@
    } else {
        "false"@
    }
}

pub open spec fn opt_string_text(o: Option<String>) -> Seq<char> {
    match o {
        Some(s) => "Some("@ + debug_text(s@) + ")"@,
        None => "None"@,
    }
}

pub open spec fn opt_char_text(o: Option<char>) -> Seq<char> {
    match o {
        Some(c) => "Some("@ + char_debug_text(c) + ")"@,
        None => "None"@,
    }
}

/// An event written as `{:?}` writes it: the variant's name, then its
/// fields in braces, strings and characters quoted.
pub open spec fn event_text(e: Event) -> Seq<char> {
    match e {
        Event::StreamStart => "StreamStart"@,
        Event::StreamEnd => "StreamEnd"@,
        Event::DocumentStart => "DocumentStart"@,
        Event::DocumentEnd => "DocumentEnd"@,
        Event::Alias { value, mark } => "Alias { value: "@ + debug_text(value@) + ", mark: Mark { pointer: "@
            + decimal(mark.pointer as nat) + ", line: "@ + decimal(mark.line as nat) + ", column: "@
            + decimal(mark.column as nat) + " } }"@,
        Event::Scalar { value, plain, style, anchor, tag } => "Scalar { value: "@ + debug_text(value@)
            + ", plain: "@ + bool_text(plain) + ", style: "@ + opt_char_text(style) + ", anchor: "@
            + opt_string_text(anchor) + ", tag: "@ + opt_string_text(tag) + " }"@,
        Event::SequenceStart { anchor, tag } => "SequenceStart { anchor: "@ + opt_string_text(anchor)
            + ", tag: "@ + opt_string_text(tag) + " }"@,
        Event::SequenceEnd => "SequenceEnd"@,
        Event::MappingStart { anchor, tag } => "MappingStart { anchor: "@ + opt_string_text(anchor)
            + ", tag: "@ + opt_string_text(tag) + " }"@,
        Event::MappingEnd => "MappingEnd"@,
    }
}

fn push_opt_string(out: &mut Vec<char>, o: &Option<String>)
    ensures
        final(out)@ == old(out)@ + opt_string_text(*o),
{
    match o {
        Some(s) => {
            push_str(out, "Some(");
            let q = debug_quoted(s.as_str());
            push_str(out, q.as_str());
            push_str(out, ")");
        },
        None => push_str(out, "None"),
    }
}

fn push_opt_char(out: &mut Vec<char>, o: Option<char>)
    ensures
        final(out)@ == old(out)@ + opt_char_text(o),
{
    match o {
        Some(c) => {
            push_str(out, "Some(");
            let q = debug_char(c);
            push_str(out, q.as_str());
            push_str(out, ")");
        },
        None => push_str(out, "None"),
    }
}

/// An event as text, for error messages.
pub fn event_debug_text(e: &Event) -> (r: String)
    ensures
        r@ == event_text(*e),
{
    let mut out: Vec<char> = Vec::new();
    match e {
        Event::StreamStart => push_str(&mut out, "StreamStart"),
        Event::StreamEnd => push_str(&mut out, "StreamEnd"),
        Event::DocumentStart => push_str(&mut out, "DocumentStart"),
        Event::DocumentEnd => push_str(&mut out, "DocumentEnd"),
        Event::Alias { value, mark } => {
            push_str(&mut out, "Alias { value: ");
            let q = debug_quoted(value.as_str());
            push_str(&mut out, q.as_str());
            push_str(&mut out, ", mark: Mark { pointer: ");
            push_decimal(&mut out, mark.pointer);
            push_str(&mut out, ", line: ");
            push_decimal(&mut out, mark.line);
            push_str(&mut out, ", column: ");
            push_decimal(&mut out, mark.column);
            push_str(&mut out, " } }");
        },
        Event::Scalar { value, plain, style, anchor, tag } => {
            push_str(&mut out, "Scalar { value: ");
            let q = debug_quoted(value.as_str());
            push_str(&mut out, q.as_str());
            push_str(&mut out, ", plain: ");
            if *plain {
                push_str(&mut out, "true");
            } else {
                push_str(&mut out, "false");
            }
            push_str(&mut out, ", style: ");
            push_opt_char(&mut out, *style);
            push_str(&mut out, ", anchor: ");
            push_opt_string(&mut out, anchor);
            push_str(&mut out, ", tag: ");
            push_opt_string(&mut out, tag);
            push_str(&mut out, " }");
        },
        Event::SequenceStart { anchor, tag } => {
            push_str(&mut out, "SequenceStart { anchor: ");
            push_opt_string(&mut out, anchor);
            push_str(&mut out, ", tag: ");
            push_opt_string(&mut out, tag);
            push_str(&mut out, " }");
        },
        Event::SequenceEnd => push_str(&mut out, "SequenceEnd"),
        Event::MappingStart { anchor, tag } => {
            push_str(&mut out, "MappingStart { anchor: ");
            push_opt_string(&mut out, anchor);
            push_str(&mut out, ", tag: ");
            push_opt_string(&mut out, tag);
            push_str(&mut out, " }");
        },
        Event::MappingEnd => push_str(&mut out, "MappingEnd"),
    }
    proof {
        assert(out@ =~= event_text(*e));
    }
    chars_to_string(out.as_slice())
}

/// An error without marks.
fn plain_error(problem: String) -> (e: YamlError)
    ensures
        e.problem@ == problem@,
        e.problem_mark is None,
        e.context_mark is None,
{
    YamlError::new(None, None, problem, None)
}

/// The scalar parts of an event's optional text.
pub open spec fn opt_view(o: Option<String>) -> Option<Seq<char>> {
    match o {
        Some(t) => Some(t@),
        None => None,
    }
}

/// What composing a node from its first event gives, as far as the event
/// alone decides it.
pub open spec fn composed_from<F: Fn(&str) -> Option<u64>>(
    event: Event,
    anchors: Seq<(String, YamlValue)>,
    read_double: F,
    r: Result<YamlValue, YamlError>,
) -> bool {
    match event {
        Event::Alias { value, mark } => match anchor_lookup(anchors, value@) {
            Some(node) => r matches Ok(v) && same_value(node, v),
            None => r matches Err(e) && e.problem@ == "found undefined alias "@ + debug_text(value@)
                && e.problem_mark == Some(mark),
        },
        Event::Scalar { value, plain, style, anchor, tag } => r matches Ok(v) && scalar_denotes(
            v,
            value@,
            resolved_tag(value@, plain, opt_view(tag)),
            reads_as(read_double),
        ),
        Event::SequenceStart { .. } => r matches Ok(v) ==> v is Sequence,
        Event::MappingStart { .. } => r matches Ok(v) ==> v is Mapping,
        _ => r matches Err(e) && e.problem_mark is None,
    }
}

struct Loader {
    parser: Parser,
    anchors: Vec<(String, YamlValue)>,
}

impl Loader {
    /// The latest node recorded under the anchor `name`, copied.
    fn find_anchor(&self, name: &str) -> (r: Option<YamlValue>)
        ensures
            match anchor_lookup(self.anchors@, name@) {
                Some(node) => r matches Some(v) && same_value(node, v),
                None => r is None,
            },
    {
        let mut i = self.anchors.len();
        assert(self.anchors@.take(i as int) =~= self.anchors@);
        while i > 0
            invariant
                i <= self.anchors@.len(),
                anchor_lookup(self.anchors@.take(i as int), name@) == anchor_lookup(self.anchors@, name@),
            decreases i,
        {
            let ghost prefix = self.anchors@.take(i as int);
            assert(prefix.drop_last() =~= self.anchors@.take(i - 1));
            if eq_str(str_chars(self.anchors[i - 1].0.as_str()).as_slice(), name) {
                return Some(copy_value(&self.anchors[i - 1].1));
            }
            i = i - 1;
        }
        None
    }

    /// Record a copy of `node` under `anchor`, if there is one.
    fn record(&mut self, anchor: Option<String>, node: &YamlValue)
        ensures
            match anchor {
                Some(name) => final(self).anchors@.len() == old(self).anchors@.len() + 1
                    && final(self).anchors@.drop_last() == old(self).anchors@
                    && final(self).anchors@.last().0 == name
                    && same_value(*node, final(self).anchors@.last().1),
                None => final(self).anchors@ == old(self).anchors@,
            },
            final(self).parser == old(self).parser,
    {
        if let Some(name) = anchor {
            let copy = copy_value(node);
            self.anchors.push((name, copy));
        }
    }

    /// The next event; the end of the stream is an error here.
    fn next_event(&mut self) -> (r: Result<Event, YamlError>)
        requires
            old(self).parser.wf(),
        ensures
            final(self).parser.buffer_view() == old(self).parser.buffer_view(),
            final(self).anchors@ == old(self).anchors@,
            match r {
                Ok(ev) => final(self).parser.wf() && final(self).parser.measure() < old(
                    self,
                ).parser.measure() && event_in(final(self).parser.buffer_view(), ev),
                Err(e) => marks_in(final(self).parser.buffer_view(), e),
            },
            old(self).parser.at_start() ==> (r matches Ok(ev) ==> ev is StreamStart),
    {
        match self.parser.next_event() {
            Ok(Some(event)) => Ok(event),
            Ok(None) => Err(plain_error(concat_two("unexpected end of event stream", ""))),
            Err(e) => Err(e),
        }
    }

    /// The node that starts with `event`, with everything nested in it.
    fn compose<F: Fn(&str) -> Option<u64>>(&mut self, event: Event, read_double: &F) -> (r: Result<
        YamlValue,
        YamlError,
    >)
        requires
            old(self).parser.wf(),
            event_in(old(self).parser.buffer_view(), event),
            forall|t: &str| #[trigger] read_double.requires((t,)),
        ensures
            final(self).parser.buffer_view() == old(self).parser.buffer_view(),
            match r {
                Ok(_) => final(self).parser.wf() && final(self).parser.measure() <= old(
                    self,
                ).parser.measure(),
                Err(e) => marks_in(final(self).parser.buffer_view(), e),
            },
            composed_from(event, old(self).anchors@, *read_double, r),
        decreases old(self).parser.measure(),
    {
        proof {
            self.parser.lemma_measure_bounded();
        }
        match event {
            Event::Alias { value, mark } => match self.find_anchor(value.as_str()) {
                Some(node) => Ok(node),
                None => {
                    let quoted = debug_quoted(value.as_str());
                    let problem = concat_two("found undefined alias ", quoted.as_str());
                    Err(YamlError::new(None, None, problem, Some(mark)))
                },
            },
            Event::Scalar { value, plain, style, anchor, tag } => {
                let tag_ref: Option<&str> = match &tag {
                    Some(t) => Some(t.as_str()),
                    None => None,
                };
                let node = construct_scalar(value, plain, tag_ref, read_double);
                self.record(anchor, &node);
                Ok(node)
            },
            Event::SequenceStart { anchor, tag } => {
                let ghost entry = self.parser.measure();
                let mut items: Vec<YamlValue> = Vec::new();
                loop
                    invariant
                        self.parser.wf(),
                        self.parser.buffer_view() == old(self).parser.buffer_view(),
                        self.parser.measure() <= entry,
                        entry == old(self).parser.measure(),
                        forall|t: &str| #[trigger] read_double.requires((t,)),
                        event is SequenceStart,
                    decreases self.parser.measure(),
                {
                    proof {
                        self.parser.lemma_measure_bounded();
                    }
                    let next = match self.next_event() {
                        Ok(ev) => ev,
                        Err(e) => return Err(e),
                    };
                    match next {
                        Event::SequenceEnd => break,
                        other => {
                            proof {
                                self.parser.lemma_measure_bounded();
                            }
                            let item = match self.compose(other, read_double) {
                                Ok(v) => v,
                                Err(e) => return Err(e),
                            };
                            items.push(item);
                            proof {
                                self.parser.lemma_measure_bounded();
                            }
                        },
                    }
                }
                let node = YamlValue::Sequence(items);
                self.record(anchor, &node);
                Ok(node)
            },
            Event::MappingStart { anchor, tag } => {
                let ghost entry = self.parser.measure();
                let mut map = YamlMapping::new();
                loop
                    invariant
                        self.parser.wf(),
                        self.parser.buffer_view() == old(self).parser.buffer_view(),
                        self.parser.measure() <= entry,
                        entry == old(self).parser.measure(),
                        forall|t: &str| #[trigger] read_double.requires((t,)),
                        event is MappingStart,
                    decreases self.parser.measure(),
                {
                    proof {
                        self.parser.lemma_measure_bounded();
                    }
                    let next = match self.next_event() {
                        Ok(ev) => ev,
                        Err(e) => return Err(e),
                    };
                    let key = match next {
                        Event::MappingEnd => break,
                        other => {
                            proof {
                                self.parser.lemma_measure_bounded();
                            }
                            match self.compose(other, read_double) {
                                Ok(v) => v,
                                Err(e) => return Err(e),
                            }
                        },
                    };
                    proof {
                        self.parser.lemma_measure_bounded();
                    }
                    let value_event = match self.next_event() {
                        Ok(ev) => ev,
                        Err(e) => return Err(e),
                    };
                    proof {
                        self.parser.lemma_measure_bounded();
                    }
                    let value = match self.compose(value_event, read_double) {
                        Ok(v) => v,
                        Err(e) => return Err(e),
                    };
                    map.insert(key, value);
                    proof {
                        self.parser.lemma_measure_bounded();
                    }
                }
                let node = YamlValue::Mapping(map);
                self.record(anchor, &node);
                Ok(node)
            },
            other => {
                let text = event_debug_text(&other);
                Err(plain_error(concat_two("unexpected event while composing: ", text.as_str())))
            },
        }
    }
}

/// Load a single YAML document; `read_double` reads the double of a float
/// scalar, giving its bits. An empty stream loads as `Null`; more than one
/// document is an error.
pub fn load<F: Fn(&str) -> Option<u64>>(content: &str, read_double: &F) -> (r: Result<
    YamlValue,
    YamlError,
>)
    requires
        content@.len() <= max_text_len(),
        forall|t: &str| #[trigger] read_double.requires((t,)),
    ensures
        r matches Err(e) ==> marks_in(buffer_of(content@), e),
{
    let mut loader = Loader { parser: Parser::new(content), anchors: Vec::new() };
    match loader.next_event() {
        Err(e) => {
            return Err(e);
        },
        Ok(Event::StreamStart) => {},
        Ok(other) => {
            let text = event_debug_text(&other);
            return Err(plain_error(concat_two("expected stream start, got ", text.as_str())));
        },
    }
    let mut document: Option<YamlValue> = None;
    loop
        invariant
            loader.parser.wf(),
            loader.parser.buffer_view() == buffer_of(content@),
            forall|t: &str| #[trigger] read_double.requires((t,)),
        decreases loader.parser.measure(),
    {
        proof {
            loader.parser.lemma_measure_bounded();
        }
        let step = match loader.parser.next_event() {
            Ok(s) => s,
            Err(e) => {
                return Err(e);
            },
        };
        match step {
            None => break,
            Some(Event::StreamEnd) => break,
            Some(Event::DocumentStart) => {
                proof {
                    loader.parser.lemma_measure_bounded();
                }
                let event = match loader.next_event() {
                    Ok(ev) => ev,
                    Err(e) => {
                        return Err(e);
                    },
                };
                let value = match loader.compose(event, read_double) {
                    Ok(v) => v,
                    Err(e) => {
                        return Err(e);
                    },
                };
                if document.is_some() {
                    return Err(
                        plain_error(concat_two("expected a single document in the stream", "")),
                    );
                }
                proof {
                    loader.parser.lemma_measure_bounded();
                }
                document = Some(value);
            },
            Some(Event::DocumentEnd) => {
                loader.anchors.clear();
                proof {
                    loader.parser.lemma_measure_bounded();
                }
            },
            Some(other) => {
                let text = event_debug_text(&other);
                return Err(
                    plain_error(concat_two("unexpected event between documents: ", text.as_str())),
                );
            },
        }
    }
    match document {
        Some(v) => Ok(v),
        None => Ok(YamlValue::Null),
    }
}

} // verus!
