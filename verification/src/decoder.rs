//! Automatic character-encoding detection (BOM-based, UTF-8/16/32).

use vstd::prelude::*;
use crate::pyyaml::pyrepr::hex_digit;
use crate::text::{chars_to_string, push_str};

verus! {

/// What `String::from_utf8` gives for `bytes`: the decoded text, or the
/// text of its error.
pub uninterp spec fn utf8_decoded(bytes: Seq<u8>) -> Result<Seq<char>, Seq<char>>;

/// What `String::from_utf16` gives for `units`: the decoded text, or the
/// text of its error.
pub uninterp spec fn utf16_decoded(units: Seq<u16>) -> Result<Seq<char>, Seq<char>>;

/// `String::from_utf8`, with the error rendered by `to_string`.
#[verifier::external_body]
pub(crate) fn from_utf8(bytes: &[u8]) -> (r: Result<String, String>)
    ensures
        match r {
            Ok(s) => utf8_decoded(bytes@) == Ok::<Seq<char>, Seq<char>>(s@),
            Err(e) => utf8_decoded(bytes@) == Err::<Seq<char>, Seq<char>>(e@),
        },
{
    match String::from_utf8(bytes.to_vec()) {
        Ok(s) => Ok(s),
        Err(e) => Err(e.to_string()),
    }
}

/// `String::from_utf16`, with the error rendered by `to_string`.
#[verifier::external_body]
fn from_utf16(units: &[u16]) -> (r: Result<String, String>)
    ensures
        match r {
            Ok(s) => utf16_decoded(units@) == Ok::<Seq<char>, Seq<char>>(s@),
            Err(e) => utf16_decoded(units@) == Err::<Seq<char>, Seq<char>>(e@),
        },
{
    match String::from_utf16(units) {
        Ok(s) => Ok(s),
        Err(e) => Err(e.to_string()),
    }
}

/// Whether `code` is a Unicode scalar value (a `char`).
pub open spec fn scalar_value(code: u32) -> bool {
    code <= 0x10FFFF && !(0xD800 <= code && code <= 0xDFFF)
}

/// `char::from_u32`: the character with that code, if it is a scalar value.
#[verifier::external_body]
pub(crate) fn char_from_u32(code: u32) -> (r: Option<char>)
    ensures
        match r {
            Some(c) => scalar_value(code) && c == (code as char),
            None => !scalar_value(code),
        },
{
    char::from_u32(code)
}

/// The code of the 4-byte group at `i`, big- or little-endian.
pub open spec fn code_at(data: Seq<u8>, i: int, big_endian: bool) -> u32 {
    let v = if big_endian {
        data[i] * 0x1000000 + data[i + 1] * 0x10000 + data[i + 2] * 0x100 + data[i + 3]
    } else {
        data[i + 3] * 0x1000000 + data[i + 2] * 0x10000 + data[i + 1] * 0x100 + data[i]
    };
    v as u32
}

/// The 16-bit unit at byte `i`.
pub open spec fn unit_at(data: Seq<u8>, i: int, big_endian: bool) -> u16 {
    let v = if big_endian {
        data[i] * 0x100 + data[i + 1]
    } else {
        data[i + 1] * 0x100 + data[i]
    };
    v as u16
}

/// The 16-bit units of `data`.
pub open spec fn units_of(data: Seq<u8>, big_endian: bool) -> Seq<u16> {
    Seq::new(data.len() / 2, |k: int| unit_at(data, 2 * k, big_endian))
}

/// `n` in lowercase hexadecimal, without leading zeros.
pub open spec fn hex_min(n: nat) -> Seq<char>
    decreases n,
{
    if n < 16 {
        seq![hex_digit(n)]
    } else {
        hex_min(n / 16).push(hex_digit(n % 16))
    }
}

/// The decoding of the 4-byte groups from group `k` on, in front of which
/// `acc` was decoded.
pub open spec fn utf32_from(data: Seq<u8>, k: int, big_endian: bool, acc: Seq<char>) -> Result<Seq<char>, Seq<char>>
    decreases data.len() / 4 - k,
{
    if k < 0 || k >= data.len() / 4 {
        Ok(acc)
    } else {
        let code = code_at(data, 4 * k, big_endian);
        if scalar_value(code) {
            utf32_from(data, k + 1, big_endian, acc.push(code as char))
        } else {
            Err("invalid code point 0x"@ + hex_min(code as nat))
        }
    }
}

pub open spec fn utf32_decoded(data: Seq<u8>, big_endian: bool) -> Result<Seq<char>, Seq<char>> {
    if data.len() % 4 != 0 {
        Err("truncated UTF-32 data"@)
    } else {
        utf32_from(data, 0, big_endian, seq![])
    }
}

pub open spec fn utf16_of(data: Seq<u8>, big_endian: bool) -> Result<Seq<char>, Seq<char>> {
    if data.len() % 2 != 0 {
        Err("truncated UTF-16 data"@)
    } else {
        utf16_decoded(units_of(data, big_endian))
    }
}

pub open spec fn starts_with_bytes(data: Seq<u8>, p: Seq<u8>) -> bool {
    p.len() <= data.len() && data.take(p.len() as int) == p
}

/// The encoding that the first bytes announce, and the decoding.
pub open spec fn auto_decode_spec(data: Seq<u8>) -> Result<Seq<char>, Seq<char>> {
    if starts_with_bytes(data, seq![0x00u8, 0x00u8, 0xFEu8, 0xFFu8]) {
        utf32_decoded(data.skip(4), true)
    } else if starts_with_bytes(data, seq![0x00u8, 0x00u8, 0x00u8]) && data.len() >= 4 {
        utf32_decoded(data, true)
    } else if starts_with_bytes(data, seq![0xFFu8, 0xFEu8, 0x00u8, 0x00u8]) {
        utf32_decoded(data.skip(4), false)
    } else if data.len() >= 4 && data[1] == 0 && data[2] == 0 && data[3] == 0 {
        utf32_decoded(data, false)
    } else if starts_with_bytes(data, seq![0xFEu8, 0xFFu8]) {
        utf16_of(data.skip(2), true)
    } else if starts_with_bytes(data, seq![0x00u8]) && data.len() >= 2 {
        utf16_of(data, true)
    } else if starts_with_bytes(data, seq![0xFFu8, 0xFEu8]) {
        utf16_of(data.skip(2), false)
    } else if data.len() >= 2 && data[1] == 0 {
        utf16_of(data, false)
    } else if starts_with_bytes(data, seq![0xEFu8, 0xBBu8, 0xBFu8]) {
        utf8_decoded(data.skip(3))
    } else {
        utf8_decoded(data)
    }
}

fn push_hex_min(out: &mut Vec<char>, n: u32)
    ensures
        final(out)@ == old(out)@ + hex_min(n as nat),
    decreases n,
{
    if n >= 16 {
        push_hex_min(out, n / 16);
    }
    let d = n % 16;
    let c = if d < 10 {
        seq_digit(d)
    } else {
        seq_digit(d)
    };
    out.push(c);
    assert(final(out)@ =~= old(out)@ + hex_min(n as nat));
}

fn seq_digit(d: u32) -> (c: char)
    requires
        d < 16,
    ensures
        c == hex_digit(d as nat),
{
    if d == 0 {
        '0'
    } else if d == 1 {
        '1'
    } else if d == 2 {
        '2'
    } else if d == 3 {
        '3'
    } else if d == 4 {
        '4'
    } else if d == 5 {
        '5'
    } else if d == 6 {
        '6'
    } else if d == 7 {
        '7'
    } else if d == 8 {
        '8'
    } else if d == 9 {
        '9'
    } else if d == 10 {
        'a'
    } else if d == 11 {
        'b'
    } else if d == 12 {
        'c'
    } else if d == 13 {
        'd'
    } else if d == 14 {
        'e'
    } else {
        'f'
    }
}

fn decode_utf32(data: &[u8], big_endian: bool) -> (r: Result<String, String>)
    ensures
        match r {
            Ok(s) => utf32_decoded(data@, big_endian) == Ok::<Seq<char>, Seq<char>>(s@),
            Err(e) => utf32_decoded(data@, big_endian) == Err::<Seq<char>, Seq<char>>(e@),
        },
{
    if data.len() % 4 != 0 {
        return Err("truncated UTF-32 data".to_owned());
    }
    let mut out: Vec<char> = Vec::new();
    let n = data.len() / 4;
    let mut k: usize = 0;
    while k < n
        invariant
            n == data@.len() / 4,
            data@.len() % 4 == 0,
            data@.len() <= usize::MAX,
            k <= n,
            utf32_from(data@, k as int, big_endian, out@) == utf32_from(data@, 0, big_endian, seq![]),
        decreases n - k,
    {
        assert(4 * k + 4 <= data@.len()) by (nonlinear_arith)
            requires
                k < n,
                n == data@.len() / 4,
        ;
        let i = 4 * k;
        let b0 = data[i] as u32;
        let b1 = data[i + 1] as u32;
        let b2 = data[i + 2] as u32;
        let b3 = data[i + 3] as u32;
        let code: u32 = if big_endian {
            b0 * 0x1000000 + b1 * 0x10000 + b2 * 0x100 + b3
        } else {
            b3 * 0x1000000 + b2 * 0x10000 + b1 * 0x100 + b0
        };
        assert(code == code_at(data@, i as int, big_endian));
        match char_from_u32(code) {
            Some(c) => {
                assert((code as char) == c);
                let ghost before = out@;
                out.push(c);
                assert(utf32_from(data@, k as int, big_endian, before) == utf32_from(data@, k + 1, big_endian, out@));
            },
            None => {
                let mut m: Vec<char> = Vec::new();
                push_str(&mut m, "invalid code point 0x");
                push_hex_min(&mut m, code);
                let e = chars_to_string(m.as_slice());
                assert(e@ =~= "invalid code point 0x"@ + hex_min(code as nat));
                assert(utf32_from(data@, k as int, big_endian, out@) == Err::<Seq<char>, Seq<char>>(e@));
                return Err(e);
            },
        }
        k = k + 1;
    }
    Ok(chars_to_string(out.as_slice()))
}

fn decode_utf16(data: &[u8], big_endian: bool) -> (r: Result<String, String>)
    ensures
        match r {
            Ok(s) => utf16_of(data@, big_endian) == Ok::<Seq<char>, Seq<char>>(s@),
            Err(e) => utf16_of(data@, big_endian) == Err::<Seq<char>, Seq<char>>(e@),
        },
{
    if data.len() % 2 != 0 {
        return Err("truncated UTF-16 data".to_owned());
    }
    let mut units: Vec<u16> = Vec::new();
    let n = data.len() / 2;
    let mut k: usize = 0;
    while k < n
        invariant
            n == data@.len() / 2,
            data@.len() <= usize::MAX,
            k <= n,
            units@ == units_of(data@, big_endian).take(k as int),
        decreases n - k,
    {
        assert(2 * k + 2 <= data@.len()) by (nonlinear_arith)
            requires
                k < n,
                n == data@.len() / 2,
        ;
        let b0 = data[2 * k] as u16;
        let b1 = data[2 * k + 1] as u16;
        let u: u16 = if big_endian {
            b0 * 0x100 + b1
        } else {
            b1 * 0x100 + b0
        };
        assert(u == unit_at(data@, 2 * k, big_endian));
        units.push(u);
        k = k + 1;
        assert(units@ =~= units_of(data@, big_endian).take(k as int));
    }
    assert(units_of(data@, big_endian).take(n as int) =~= units_of(data@, big_endian));
    from_utf16(units.as_slice())
}

fn starts_with_bytes_exec(data: &[u8], p: &[u8]) -> (r: bool)
    ensures
        r == starts_with_bytes(data@, p@),
{
    if p.len() > data.len() {
        return false;
    }
    let mut i: usize = 0;
    while i < p.len()
        invariant
            i <= p@.len() <= data@.len(),
            forall|j: int| 0 <= j < i ==> data@[j] == p@[j],
        decreases p@.len() - i,
    {
        if data[i] != p[i] {
            assert(data@.take(p@.len() as int)[i as int] != p@[i as int]);
            return false;
        }
        i = i + 1;
    }
    assert(data@.take(p@.len() as int) =~= p@);
    true
}

/// Detect the encoding from the BOM / first bytes and decode.
pub fn auto_decode(data: &[u8]) -> (r: Result<String, String>)
    ensures
        match r {
            Ok(s) => auto_decode_spec(data@) == Ok::<Seq<char>, Seq<char>>(s@),
            Err(e) => auto_decode_spec(data@) == Err::<Seq<char>, Seq<char>>(e@),
        },
{
    let bom_utf32_be: [u8; 4] = [0x00, 0x00, 0xFE, 0xFF];
    let bom_utf32_le: [u8; 4] = [0xFF, 0xFE, 0x00, 0x00];
    let bom_utf16_be: [u8; 2] = [0xFE, 0xFF];
    let bom_utf16_le: [u8; 2] = [0xFF, 0xFE];
    let bom_utf8: [u8; 3] = [0xEF, 0xBB, 0xBF];
    let zeros3: [u8; 3] = [0x00, 0x00, 0x00];
    let zero1: [u8; 1] = [0x00];
    assert(bom_utf32_be@ =~= seq![0x00u8, 0x00u8, 0xFEu8, 0xFFu8]);
    assert(bom_utf32_le@ =~= seq![0xFFu8, 0xFEu8, 0x00u8, 0x00u8]);
    assert(bom_utf16_be@ =~= seq![0xFEu8, 0xFFu8]);
    assert(bom_utf16_le@ =~= seq![0xFFu8, 0xFEu8]);
    assert(bom_utf8@ =~= seq![0xEFu8, 0xBBu8, 0xBFu8]);
    assert(zeros3@ =~= seq![0x00u8, 0x00u8, 0x00u8]);
    assert(zero1@ =~= seq![0x00u8]);
    if starts_with_bytes_exec(data, &bom_utf32_be) {
        decode_utf32(vstd::slice::slice_subrange(data, 4, data.len()), true)
    } else if starts_with_bytes_exec(data, &zeros3) && data.len() >= 4 {
        decode_utf32(data, true)
    } else if starts_with_bytes_exec(data, &bom_utf32_le) {
        decode_utf32(vstd::slice::slice_subrange(data, 4, data.len()), false)
    } else if data.len() >= 4 && data[1] == 0 && data[2] == 0 && data[3] == 0 {
        decode_utf32(data, false)
    } else if starts_with_bytes_exec(data, &bom_utf16_be) {
        decode_utf16(vstd::slice::slice_subrange(data, 2, data.len()), true)
    } else if starts_with_bytes_exec(data, &zero1) && data.len() >= 2 {
        decode_utf16(data, true)
    } else if starts_with_bytes_exec(data, &bom_utf16_le) {
        decode_utf16(vstd::slice::slice_subrange(data, 2, data.len()), false)
    } else if data.len() >= 2 && data[1] == 0 {
        decode_utf16(data, false)
    } else if starts_with_bytes_exec(data, &bom_utf8) {
        from_utf8(vstd::slice::slice_subrange(data, 3, data.len()))
    } else {
        from_utf8(data)
    }
}

} // verus!
