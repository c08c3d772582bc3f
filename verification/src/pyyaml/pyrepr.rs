//! Python `repr()` compatible formatting for characters and strings.
//! The scanner and parser embed the `repr` of characters and strings in
//! their error messages, following CPython's rules.

use vstd::prelude::*;
use crate::text::{chars_to_string, contains_char, is_whitespace, is_ws, str_chars};

verus! {

/// `char::is_control`: the general category Cc (the C0 and C1 control
/// codes).
pub open spec fn is_control(c: char) -> bool {
    (c as u32) <= 0x1F || (0x7F <= (c as u32) && (c as u32) <= 0x9F)
}

/// Whether CPython prints `c` as it is inside a `repr`: not a separator
/// other than the space, not a control, format or private-use character.
pub open spec fn python_printable(c: char) -> bool {
    let u = c as u32;
    if c == ' ' {
        true
    } else if is_control(c) {
        false
    } else if (0x200B <= u && u <= 0x200F) || u == 0x2028 || u == 0x2029 || (0x202A <= u && u
        <= 0x202E) {
        false
    } else if u == 0xA0 || u == 0x1680 || (0x2000 <= u && u <= 0x200A) || u == 0x205F || u
        == 0x3000 {
        false
    } else if u == 0xFEFF {
        false
    } else if 0xE000 <= u && u <= 0xF8FF {
        false
    } else {
        !is_ws(c) || u >= 0x80
    }
}

fn is_python_printable(ch: char) -> (r: bool)
    ensures
        r == python_printable(ch),
{
    let u = ch as u32;
    if ch == ' ' {
        return true;
    }
    if u <= 0x1F || (0x7F <= u && u <= 0x9F) {
        return false;
    }
    if (0x200B <= u && u <= 0x200F) || u == 0x2028 || u == 0x2029 || (0x202A <= u && u <= 0x202E) {
        return false;
    }
    if u == 0xA0 || u == 0x1680 || (0x2000 <= u && u <= 0x200A) || u == 0x205F || u == 0x3000 {
        return false;
    }
    if u == 0xFEFF {
        return false;
    }
    if 0xE000 <= u && u <= 0xF8FF {
        return false;
    }
    !is_whitespace(ch) || u >= 0x80
}

/// The lowercase hexadecimal digit of `d`.
pub open spec fn hex_digit(d: nat) -> char {
    seq!['0', '1', '2', '3', '4', '5', '6', '7', '8', '9', 'a', 'b', 'c', 'd', 'e', 'f'][d as int]
}

/// The last `w` lowercase hexadecimal digits of `n`, zero-padded.
pub open spec fn hex_fixed(n: nat, w: nat) -> Seq<char>
    decreases w,
{
    if w == 0 {
        seq![]
    } else {
        hex_fixed(n / 16, (w - 1) as nat).push(hex_digit(n % 16))
    }
}

/// How `repr` writes `c` when `c` is not the quote.
pub open spec fn escape_spec(c: char) -> Seq<char> {
    let code = c as u32;
    if c == '\\' {
        seq!['\\', '\\']
    } else if c == '\t' {
        seq!['\\', 't']
    } else if c == '\n' {
        seq!['\\', 'n']
    } else if c == '\r' {
        seq!['\\', 'r']
    } else if python_printable(c) {
        seq![c]
    } else if code <= 0xFF {
        seq!['\\', 'x'] + hex_fixed(code as nat, 2)
    } else if code <= 0xFFFF {
        seq!['\\', 'u'] + hex_fixed(code as nat, 4)
    } else {
        seq!['\\', 'U'] + hex_fixed(code as nat, 8)
    }
}

/// The quote `repr` uses: double quotes when the string holds a single
/// quote and no double quote, single quotes otherwise.
pub open spec fn repr_quote(s: Seq<char>) -> char {
    if s.contains('\'') && !s.contains('"') {
        '"'
    } else {
        '\''
    }
}

/// The characters of `s` as `repr` writes them between the quotes `q`.
pub open spec fn repr_body(s: Seq<char>, q: char) -> Seq<char>
    decreases s.len(),
{
    if s.len() == 0 {
        seq![]
    } else {
        repr_body(s.drop_last(), q) + if s.last() == q {
            seq!['\\', q]
        } else {
            escape_spec(s.last())
        }
    }
}

/// Python's `repr` of the string `s`.
pub open spec fn py_repr_spec(s: Seq<char>) -> Seq<char> {
    seq![repr_quote(s)] + repr_body(s, repr_quote(s)) + seq![repr_quote(s)]
}

fn push_hex(out: &mut Vec<char>, n: u32, w: usize)
    ensures
        final(out)@ == old(out)@ + hex_fixed(n as nat, w as nat),
    decreases w,
{
    if w > 0 {
        push_hex(out, n / 16, w - 1);
        let d = n % 16;
        let c = if d == 0 {
            '0'
        } else if d == 1 {
            '1'
        } else if d == 2 {
            '2'
        } else if d == 3 {
            '3'
        } else if d == 4 {
            '4'
        } else if d == 5 {
            '5'
        } else if d == 6 {
            '6'
        } else if d == 7 {
            '7'
        } else if d == 8 {
            '8'
        } else if d == 9 {
            '9'
        } else if d == 10 {
            'a'
        } else if d == 11 {
            'b'
        } else if d == 12 {
            'c'
        } else if d == 13 {
            'd'
        } else if d == 14 {
            'e'
        } else {
            'f'
        };
        assert(c == hex_digit(n as nat % 16));
        out.push(c);
        assert(final(out)@ =~= old(out)@ + hex_fixed(n as nat, w as nat));
    } else {
        assert(out@ =~= old(out)@ + hex_fixed(n as nat, w as nat));
    }
}

fn escape_char(ch: char, out: &mut Vec<char>)
    ensures
        final(out)@ == old(out)@ + escape_spec(ch),
{
    let ghost start = out@;
    if ch == '\\' {
        out.push('\\');
        out.push('\\');
    } else if ch == '\t' {
        out.push('\\');
        out.push('t');
    } else if ch == '\n' {
        out.push('\\');
        out.push('n');
    } else if ch == '\r' {
        out.push('\\');
        out.push('r');
    } else if is_python_printable(ch) {
        out.push(ch);
    } else {
        let code = ch as u32;
        if code <= 0xFF {
            out.push('\\');
            out.push('x');
            push_hex(out, code, 2);
        } else if code <= 0xFFFF {
            out.push('\\');
            out.push('u');
            push_hex(out, code, 4);
        } else {
            out.push('\\');
            out.push('U');
            push_hex(out, code, 8);
        }
    }
    assert(out@ =~= start + escape_spec(ch));
}

/// Python `repr()` of a string (also used for single characters).
pub fn py_repr(s: &str) -> (r: String)
    ensures
        r@ == py_repr_spec(s@),
{
    let v = str_chars(s);
    let has_single = contains_char(v.as_slice(), '\'');
    let has_double = contains_char(v.as_slice(), '"');
    let quote = if has_single && !has_double {
        '"'
    } else {
        '\''
    };
    let mut out: Vec<char> = Vec::new();
    out.push(quote);
    let mut i: usize = 0;
    while i < v.len()
        invariant
            i <= v@.len(),
            v@ == s@,
            quote == repr_quote(s@),
            out@ == seq![quote] + repr_body(v@.take(i as int), quote),
        decreases v@.len() - i,
    {
        let ch = v[i];
        assert(v@.take(i + 1).drop_last() =~= v@.take(i as int));
        if ch == quote {
            out.push('\\');
            out.push(ch);
        } else {
            escape_char(ch, &mut out);
        }
        i = i + 1;
        assert(out@ =~= seq![quote] + repr_body(v@.take(i as int), quote));
    }
    out.push(quote);
    assert(v@.take(v@.len() as int) =~= v@);
    chars_to_string(out.as_slice())
}

pub fn py_repr_char(ch: char) -> (r: String)
    ensures
        r@ == py_repr_spec(seq![ch]),
{
    let mut one: Vec<char> = Vec::new();
    one.push(ch);
    let s = chars_to_string(one.as_slice());
    assert(s@ =~= seq![ch]);
    py_repr(s.as_str())
}

} // verus!
