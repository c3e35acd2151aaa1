//! Base64, as data URLs carry it.

use vstd::prelude::*;
use crate::text;
use crate::text::trim;

verus! {

/// Shown where an icon's content does not decode.
pub const INVALID_ICON_CONTENT: &'static str = "图标图片内容无效";

/// The padding character `=`.
pub const PAD: u8 = 61;

// ---------------------------------------------------------------------------
// Model
// ---------------------------------------------------------------------------

/// The character for a value below 64.
#[verifier::opaque]
pub open spec fn symbol(v: int) -> char {
    if v < 26 {
        (('A' as u8) + v) as char
    } else if v < 52 {
        (('a' as u8) + (v - 26)) as char
    } else if v < 62 {
        (('0' as u8) + (v - 52)) as char
    } else if v == 62 {
        '+'
    } else {
        '/'
    }
}

/// The value of a character, given by its byte.
#[verifier::opaque]
pub open spec fn symbol_value(b: u8) -> Option<u8> {
    if 65 <= b <= 90 {
        Some((b - 65) as u8)
    } else if 97 <= b <= 122 {
        Some((b - 97 + 26) as u8)
    } else if 48 <= b <= 57 {
        Some((b - 48 + 52) as u8)
    } else if b == 43 {
        Some(62)
    } else if b == 47 {
        Some(63)
    } else {
        None
    }
}

/// Up to three bytes as four characters, the missing ones written as padding.
#[verifier::opaque]
pub open spec fn encoded_group(g: Seq<u8>) -> Seq<char> {
    let a = g[0] as int;
    let b = if g.len() > 1 {
        g[1] as int
    } else {
        0
    };
    let c = if g.len() > 2 {
        g[2] as int
    } else {
        0
    };
    seq![
        symbol(a / 4),
        symbol((a % 4) * 16 + b / 16),
        if g.len() > 1 {
            symbol((b % 16) * 4 + c / 64)
        } else {
            '='
        },
        if g.len() > 2 {
            symbol(c % 64)
        } else {
            '='
        },
    ]
}

/// The bytes in groups of three, each group as four characters.
pub open spec fn encoded(bytes: Seq<u8>) -> Seq<char>
    decreases bytes.len(),
{
    if bytes.len() == 0 {
        Seq::empty()
    } else if bytes.len() <= 3 {
        encoded_group(bytes)
    } else {
        encoded_group(bytes.take(3)) + encoded(bytes.skip(3))
    }
}

/// The six bits that the byte at an offset of a group stands for. Padding
/// counts as zero, and only in the second half of the last group.
pub open spec fn six_bits(b: u8, offset: int, last: bool) -> Option<int> {
    if b == PAD {
        if last && offset >= 2 {
            Some(0)
        } else {
            None
        }
    } else {
        match symbol_value(b) {
            Some(v) => Some(v as int),
            None => None,
        }
    }
}

/// The number of padding bytes at the end of a group.
pub open spec fn padding(g: Seq<u8>) -> int
    decreases g.len(),
{
    if g.len() > 0 && g.last() == PAD {
        1 + padding(g.drop_last())
    } else {
        0
    }
}

/// The bytes that a group of four writes; one byte less for each padding byte.
#[verifier::opaque]
pub open spec fn decoded_group(g: Seq<u8>, last: bool) -> Option<Seq<u8>> {
    let pad = padding(g);
    if pad > 2 || (!last && pad > 0) {
        None
    } else {
        match (
            six_bits(g[0], 0, last),
            six_bits(g[1], 1, last),
            six_bits(g[2], 2, last),
            six_bits(g[3], 3, last),
        ) {
            (Some(a), Some(b), Some(c), Some(d)) => {
                let value = ((a * 64 + b) * 64 + c) * 64 + d;
                let all = seq![
                    (value / 65536) as u8,
                    ((value / 256) % 256) as u8,
                    (value % 256) as u8,
                ];
                Some(all.take(3 - pad))
            },
            _ => None,
        }
    }
}

/// The bytes that a sequence of groups writes.
pub open spec fn decoded_groups(b: Seq<u8>) -> Option<Seq<u8>>
    decreases b.len(),
{
    if b.len() == 0 {
        Some(Seq::empty())
    } else if b.len() < 4 {
        None
    } else {
        match (decoded_group(b.take(4), b.len() == 4), decoded_groups(b.skip(4))) {
            (Some(x), Some(y)) => Some(x + y),
            _ => None,
        }
    }
}

/// The bytes that a text writes, white space around it put aside.
pub open spec fn decoded(s: Seq<char>) -> Option<Seq<u8>> {
    let b = vstd::utf8::encode_utf8(text::trimmed(s));
    if b.len() == 0 || b.len() % 4 != 0 {
        None
    } else {
        decoded_groups(b)
    }
}

// ---------------------------------------------------------------------------
// Law
// ---------------------------------------------------------------------------

proof fn lemma_symbol(v: int)
    requires
        0 <= v < 64,
    ensures
        symbol_value(symbol(v) as u8) == Some(v as u8),
        '\0' <= symbol(v) <= '\u{7f}',
        symbol(v) as u8 != PAD,
        !text::is_white_space(symbol(v)),
{
    reveal(symbol);
    reveal(symbol_value);
}

/// Four values of six bits hold the three bytes that they were cut from.
proof fn lemma_regrouped(a: int, b: int, c: int)
    requires
        0 <= a < 256,
        0 <= b < 256,
        0 <= c < 256,
    ensures
        ({
            let p = a / 4;
            let q = (a % 4) * 16 + b / 16;
            let r = (b % 16) * 4 + c / 64;
            let t = c % 64;
            let value = ((p * 64 + q) * 64 + r) * 64 + t;
            &&& 0 <= p < 64 && 0 <= q < 64 && 0 <= r < 64 && 0 <= t < 64
            &&& value / 65536 == a
            &&& (value / 256) % 256 == b
            &&& value % 256 == c
        }),
{
    let a1 = a / 4;
    let a0 = a % 4;
    let b1 = b / 16;
    let b0 = b % 16;
    let c1 = c / 64;
    let c0 = c % 64;
    assert(a == 4 * a1 + a0 && 0 <= a0 < 4 && 0 <= a1 < 64);
    assert(b == 16 * b1 + b0 && 0 <= b0 < 16 && 0 <= b1 < 16);
    assert(c == 64 * c1 + c0 && 0 <= c0 < 64 && 0 <= c1 < 4);
    lemma_three_bytes(((a1 * 64 + (a0 * 16 + b1)) * 64 + (b0 * 4 + c1)) * 64 + c0, a, b, c);
}

proof fn lemma_three_bytes(value: int, a: int, b: int, c: int)
    requires
        value == 65536 * a + 256 * b + c,
        0 <= a < 256,
        0 <= b < 256,
        0 <= c < 256,
    ensures
        value / 65536 == a,
        (value / 256) % 256 == b,
        value % 256 == c,
{
    assert(value / 256 == 256 * a + b);
}

/// The text as bytes: each character is ASCII.
pub open spec fn as_ascii(s: Seq<char>) -> Seq<u8> {
    Seq::new(s.len(), |i: int| s[i] as u8)
}

proof fn lemma_group(g: Seq<u8>, last: bool)
    requires
        0 < g.len() <= 3,
        g.len() < 3 ==> last,
    ensures
        encoded_group(g).len() == 4,
        forall|i: int|
            0 <= i < 4 ==> '\0' <= encoded_group(g)[i] <= '\u{7f}' && !text::is_white_space(
                #[trigger] encoded_group(g)[i],
            ),
        decoded_group(as_ascii(encoded_group(g)), last) == Some(g),
{
    let a = g[0] as int;
    let b = if g.len() > 1 {
        g[1] as int
    } else {
        0
    };
    let c = if g.len() > 2 {
        g[2] as int
    } else {
        0
    };
    let p = a / 4;
    let q = (a % 4) * 16 + b / 16;
    let r = (b % 16) * 4 + c / 64;
    let t = c % 64;
    lemma_regrouped(a, b, c);
    lemma_symbol(p);
    lemma_symbol(q);
    lemma_symbol(r);
    lemma_symbol(t);
    reveal(encoded_group);
    reveal(decoded_group);
    let e = as_ascii(encoded_group(g));
    reveal_with_fuel(padding, 5);
    let pad = 3 - g.len();
    assert(padding(e) == pad);
    assert(six_bits(e[0], 0, last) == Some(p));
    assert(six_bits(e[1], 1, last) == Some(q));
    assert(six_bits(e[2], 2, last) == Some(if g.len() > 1 { r } else { 0 }));
    assert(six_bits(e[3], 3, last) == Some(if g.len() > 2 { t } else { 0 }));
    assert(decoded_group(e, last) is Some);
    assert(decoded_group(e, last).unwrap() =~= g);
}

proof fn lemma_encoded(bytes: Seq<u8>)
    ensures
        encoded(bytes).len() % 4 == 0,
        bytes.len() > 0 ==> encoded(bytes).len() > 0,
        forall|i: int|
            0 <= i < encoded(bytes).len() ==> '\0' <= encoded(bytes)[i] <= '\u{7f}'
                && !text::is_white_space(#[trigger] encoded(bytes)[i]),
        decoded_groups(as_ascii(encoded(bytes))) == Some(bytes),
    decreases bytes.len(),
{
    if bytes.len() == 0 {
        assert(decoded_groups(as_ascii(encoded(bytes))).unwrap() =~= bytes);
    } else if bytes.len() <= 3 {
        lemma_group(bytes, true);
        let e = as_ascii(encoded(bytes));
        assert(e.take(4) =~= e);
        assert(e.skip(4) =~= Seq::<u8>::empty());
        assert(decoded_groups(e.skip(4)) == Some(Seq::<u8>::empty()));
        assert(decoded_groups(e).unwrap() =~= bytes);
    } else {
        let g = bytes.take(3);
        let rest = bytes.skip(3);
        lemma_group(g, false);
        lemma_encoded(rest);
        let e = as_ascii(encoded(bytes));
        assert(e.take(4) =~= as_ascii(encoded_group(g)));
        assert(e.skip(4) =~= as_ascii(encoded(rest)));
        assert forall|i: int| 0 <= i < encoded(bytes).len() implies '\0' <= encoded(bytes)[i] <= '\u{7f}'
            && !text::is_white_space(#[trigger] encoded(bytes)[i]) by {
            if i < 4 {
                assert(encoded(bytes)[i] == encoded_group(g)[i]);
            } else {
                assert(encoded(bytes)[i] == encoded(rest)[i - 4]);
            }
        }
        assert(decoded_groups(e).unwrap() =~= bytes);
    }
}

/// Decoding what was encoded gives the bytes back. Nothing at all is encoded
/// as the empty text, which does not decode.
pub proof fn law_base64_read_back(bytes: Seq<u8>)
    requires
        bytes.len() > 0,
    ensures
        decoded(encoded(bytes)) == Some(bytes),
{
    lemma_encoded(bytes);
    let s = encoded(bytes);
    assert(text::is_trimmed(s));
    text::law_trimmed_idempotent(s);
    assert forall|i: int| 0 <= i < s.len() implies '\0' <= #[trigger] s[i] <= '\u{7f}' by {
        assert(!text::is_white_space(s[i]));
    }
    vstd::utf8::is_ascii_chars_encode_utf8(s);
    assert(vstd::utf8::encode_utf8(s) =~= as_ascii(s));
}

/// What Base64 writes is ASCII without white space.
pub proof fn lemma_encoded_plain(bytes: Seq<u8>)
    ensures
        encoded(bytes).len() % 4 == 0,
        forall|i: int|
            0 <= i < encoded(bytes).len() ==> '\0' <= encoded(bytes)[i] <= '\u{7f}'
                && !text::is_white_space(#[trigger] encoded(bytes)[i]),
{
    lemma_encoded(bytes);
}

// ---------------------------------------------------------------------------
// Code
// ---------------------------------------------------------------------------

fn symbol_of(v: u8) -> (r: char)
    requires
        v < 64,
    ensures
        r == symbol(v as int),
{
    reveal(symbol);
    if v < 26 {
        (65 + v) as char
    } else if v < 52 {
        (97 + (v - 26)) as char
    } else if v < 62 {
        (48 + (v - 52)) as char
    } else if v == 62 {
        '+'
    } else {
        '/'
    }
}

/// The bytes in Base64.
pub fn base64_encode(bytes: &[u8]) -> (r: String)
    ensures
        r@ == encoded(bytes@),
{
    let n: usize = bytes.len();
    let mut out = String::new();
    let mut i: usize = 0;
    assert(bytes@.skip(0) =~= bytes@);
    assert(out@ + encoded(bytes@) =~= encoded(bytes@));
    while i < n
        invariant
            n == bytes@.len(),
            i <= n,
            out@ + encoded(bytes@.skip(i as int)) == encoded(bytes@),
        decreases n - i,
    {
        let ghost rest = bytes@.skip(i as int);
        let ghost before = out@;
        let have: usize = if n - i > 3 {
            3
        } else {
            n - i
        };
        let a: u8 = bytes[i];
        let b: u8 = if have > 1 {
            bytes[i + 1]
        } else {
            0
        };
        let c: u8 = if have > 2 {
            bytes[i + 2]
        } else {
            0
        };
        out.push(symbol_of(a / 4));
        out.push(symbol_of((a % 4) * 16 + b / 16));
        if have > 1 {
            out.push(symbol_of((b % 16) * 4 + c / 64));
        } else {
            out.push('=');
        }
        if have > 2 {
            out.push(symbol_of(c % 64));
        } else {
            out.push('=');
        }
        proof {
            let g = rest.take(have as int);
            reveal(encoded_group);
            assert(out@ =~= before + encoded_group(g));
            if have < 3 || n - i == 3 {
                assert(g =~= rest);
                assert(bytes@.skip(i + have).len() == 0);
                assert(out@ + encoded(bytes@.skip(i + have)) =~= before + encoded(rest));
            } else {
                assert(rest.skip(3) =~= bytes@.skip(i + 3));
                assert(out@ + encoded(bytes@.skip(i + 3)) =~= before + (encoded_group(g) + encoded(
                    bytes@.skip(i + 3),
                )));
            }
        }
        i = i + have;
    }
    assert(bytes@.skip(i as int).len() == 0);
    assert(out@ + encoded(bytes@.skip(i as int)) =~= out@);
    out
}

/// The value of a Base64 character, given by its byte.
pub fn base64_value(byte: u8) -> (r: Option<u8>)
    ensures
        r == symbol_value(byte),
{
    reveal(symbol_value);
    if 65 <= byte && byte <= 90 {
        Some(byte - 65)
    } else if 97 <= byte && byte <= 122 {
        Some(byte - 97 + 26)
    } else if 48 <= byte && byte <= 57 {
        Some(byte - 48 + 52)
    } else if byte == 43 {
        Some(62)
    } else if byte == 47 {
        Some(63)
    } else {
        None
    }
}

fn six_bits_of(b: u8, offset: usize, last: bool) -> (r: Option<u32>)
    ensures
        match r {
            Some(v) => six_bits(b, offset as int, last) == Some(v as int) && v < 64,
            None => six_bits(b, offset as int, last) is None,
        },
{
    reveal(symbol_value);
    if b == PAD {
        if last && offset >= 2 {
            Some(0)
        } else {
            None
        }
    } else {
        match base64_value(b) {
            Some(v) => Some(v as u32),
            None => None,
        }
    }
}

fn decode_group(bytes: &[u8], at: usize, last: bool, out: &mut Vec<u8>) -> (r: bool)
    requires
        at + 4 <= bytes@.len(),
    ensures
        match decoded_group(bytes@.subrange(at as int, at + 4), last) {
            Some(x) => r && final(out)@ == old(out)@ + x,
            None => !r,
        },
{
    let ghost g = bytes@.subrange(at as int, at + 4);
    let n: usize = bytes.len();
    let pad: usize = if bytes[at + 3] != PAD {
        0
    } else if bytes[at + 2] != PAD {
        1
    } else if bytes[at + 1] != PAD {
        2
    } else {
        3
    };
    proof {
        reveal(decoded_group);
        reveal(symbol_value);
        reveal_with_fuel(padding, 5);
        assert(pad < 3 ==> padding(g) == pad);
        assert(pad == 3 ==> padding(g) > 2);
    }
    if pad > 2 || (!last && pad > 0) {
        return false;
    }
    match (
        six_bits_of(bytes[at], 0, last),
        six_bits_of(bytes[at + 1], 1, last),
        six_bits_of(bytes[at + 2], 2, last),
        six_bits_of(bytes[at + 3], 3, last),
    ) {
        (Some(a), Some(b), Some(c), Some(d)) => {
            let value: u32 = ((a * 64 + b) * 64 + c) * 64 + d;
            let ghost before = out@;
            out.push((value / 65536) as u8);
            if pad < 2 {
                out.push(((value / 256) % 256) as u8);
            }
            if pad < 1 {
                out.push((value % 256) as u8);
            }
            assert(out@ =~= before + decoded_group(g, last).unwrap());
            true
        },
        _ => false,
    }
}

/// The bytes that a Base64 text writes, white space around it put aside.
pub fn base64_decode(value: &str) -> (r: Result<Vec<u8>, String>)
    ensures
        match r {
            Ok(bytes) => decoded(value@) == Some(bytes@),
            Err(e) => decoded(value@) is None && e@ == INVALID_ICON_CONTENT@,
        },
{
    let clean = trim(value);
    let bytes = clean.as_str().as_bytes();
    let n: usize = bytes.len();
    if n == 0 || n % 4 != 0 {
        return Err(INVALID_ICON_CONTENT.to_string());
    }
    let mut out: Vec<u8> = Vec::new();
    let mut i: usize = 0;
    assert(bytes@.skip(0) =~= bytes@);
    assert(decoded_groups(bytes@) matches Some(all) ==> out@ + all =~= all);
    while i < n
        invariant
            n == bytes@.len(),
            n % 4 == 0,
            i % 4 == 0,
            i <= n,
            match decoded_groups(bytes@.skip(i as int)) {
                Some(y) => decoded_groups(bytes@) == Some(out@ + y),
                None => decoded_groups(bytes@) is None,
            },
            decoded(value@) == decoded_groups(bytes@),
        decreases n - i,
    {
        let last = n - i == 4;
        let ghost rest = bytes@.skip(i as int);
        let ghost before = out@;
        assert(rest.take(4) =~= bytes@.subrange(i as int, i + 4));
        assert(rest.skip(4) =~= bytes@.skip(i + 4));
        let fine = decode_group(bytes, i, last, &mut out);
        if !fine {
            return Err(INVALID_ICON_CONTENT.to_string());
        }
        proof {
            let x = decoded_group(rest.take(4), last).unwrap();
            match decoded_groups(bytes@.skip(i + 4)) {
                Some(y) => {
                    assert(before + (x + y) =~= out@ + y);
                },
                None => {},
            }
        }
        i = i + 4;
    }
    proof {
        assert(bytes@.skip(i as int).len() == 0);
        assert(out@ + Seq::<u8>::empty() =~= out@);
        assert(decoded_groups(bytes@.skip(i as int)).unwrap() =~= Seq::<u8>::empty());
    }
    Ok(out)
}

/// The alphabet: the capital letters, the small letters, the digits, `+` and `/`
/// stand for the numbers from 0 to 63, in this order, and nothing else does.
pub proof fn law_alphabet(v: int, b: u8)
    ensures
        0 <= v < 26 ==> symbol(v) as u32 == 65 + v,
        26 <= v < 52 ==> symbol(v) as u32 == 97 + v - 26,
        52 <= v < 62 ==> symbol(v) as u32 == 48 + v - 52,
        symbol(62) == '+',
        symbol(63) == '/',
        0 <= v < 64 ==> symbol_value(symbol(v) as u8) == Some(v as u8),
        symbol_value(b) matches Some(n) ==> n < 64 && symbol(n as int) as u8 == b,
{
    reveal(symbol);
    reveal(symbol_value);
}

/// The number that four symbols stand for.
pub open spec fn symbols_value(a: int, b: int, c: int, d: int) -> int {
    ((a * 64 + b) * 64 + c) * 64 + d
}

/// Three bytes become four symbols that stand for the same 24 bits; where only
/// one or two bytes are left, the missing bits are zero and the missing symbols
/// are equals signs.
pub proof fn law_encoded_groups(a: u8, b: u8, c: u8, rest: Seq<u8>)
    ensures
        exists|w: int, x: int, y: int, z: int|
            0 <= w < 64 && 0 <= x < 64 && 0 <= y < 64 && 0 <= z < 64 && #[trigger] symbols_value(
                w,
                x,
                y,
                z,
            ) == (a * 256 + b) * 256 + c && encoded(seq![a, b, c] + rest) == seq![
                symbol(w),
                symbol(x),
                symbol(y),
                symbol(z),
            ] + encoded(rest),
        exists|w: int, x: int, y: int|
            0 <= w < 64 && 0 <= x < 64 && 0 <= y < 64 && #[trigger] symbols_value(w, x, y, 0) == (a
                * 256 + b) * 256 && encoded(seq![a, b]) == seq![
                symbol(w),
                symbol(x),
                symbol(y),
                '=',
            ],
        exists|w: int, x: int|
            0 <= w < 64 && 0 <= x < 64 && #[trigger] symbols_value(w, x, 0, 0) == a * 65536
                && encoded(seq![a]) == seq![symbol(w), symbol(x), '=', '='],
        encoded(Seq::empty()).len() == 0,
{
    reveal(encoded_group);
    let i = a as int;
    let j = b as int;
    let k = c as int;
    lemma_regrouped(i, j, k);
    let three = seq![a, b, c];
    let all = three + rest;
    let w = i / 4;
    let x = (i % 4) * 16 + j / 16;
    let y = (j % 16) * 4 + k / 64;
    let z = k % 64;
    if rest.len() == 0 {
        assert(all =~= three);
        assert(encoded(all) =~= encoded_group(three) + encoded(rest));
    } else {
        assert(all.take(3) =~= three);
        assert(all.skip(3) =~= rest);
    }
    assert(encoded_group(three) =~= seq![symbol(w), symbol(x), symbol(y), symbol(z)]);
    assert(symbols_value(w, x, y, z) == (i * 256 + j) * 256 + k);
    let u = (j % 16) * 4;
    assert(encoded(seq![a, b]) =~= seq![symbol(w), symbol(x), symbol(u), '=']);
    assert(symbols_value(w, x, u, 0) == (i * 256 + j) * 256);
    let t = (i % 4) * 16;
    assert(encoded(seq![a]) =~= seq![symbol(w), symbol(t), '=', '=']);
    assert(symbols_value(w, t, 0, 0) == i * 65536);
}

proof fn lemma_groups_symbols(b: Seq<u8>, i: int)
    requires
        decoded_groups(b) is Some,
        0 <= i < b.len(),
    ensures
        symbol_value(b[i]) is Some || (b[i] == 61 && i >= b.len() - 2),
    decreases b.len(),
{
    reveal(decoded_group);
    let g = b.take(4);
    if i < 4 {
        assert(g[i] == b[i]);
        assert(six_bits(g[i], i, b.len() == 4) is Some);
    } else {
        assert(b.skip(4)[i - 4] == b[i]);
        lemma_groups_symbols(b.skip(4), i - 4);
    }
}

/// Only a text is decoded that has, trimmed, a length that is a positive multiple
/// of four, and that holds symbols of the alphabet alone, but for equals signs in
/// its last two places.
pub proof fn law_decoded_shape(s: Seq<char>, i: int)
    requires
        decoded(s) is Some,
        0 <= i < vstd::utf8::encode_utf8(text::trimmed(s)).len(),
    ensures
        ({
            let b = vstd::utf8::encode_utf8(text::trimmed(s));
            &&& b.len() > 0 && b.len() % 4 == 0
            &&& symbol_value(b[i]) is Some || (b[i] == 61 && i >= b.len() - 2)
        }),
{
    lemma_groups_symbols(vstd::utf8::encode_utf8(text::trimmed(s)), i);
}

/// Four symbols become the three bytes that their 24 bits are; with one or two
/// equals signs at the end, the bytes that are whole, whatever bits are left over.
pub proof fn law_decoded_groups(w: int, x: int, y: int, z: int, rest: Seq<u8>)
    requires
        0 <= w < 64,
        0 <= x < 64,
        0 <= y < 64,
        0 <= z < 64,
    ensures
        ({
            let a = symbol(w) as u8;
            let b = symbol(x) as u8;
            let c = symbol(y) as u8;
            let d = symbol(z) as u8;
            let v = symbols_value(w, x, y, z);
            let u = symbols_value(w, x, y, 0);
            let t = symbols_value(w, x, 0, 0);
            &&& decoded_groups(rest) matches Some(more) ==> decoded_groups(seq![a, b, c, d] + rest)
                == Some(
                seq![(v / 65536) as u8, ((v / 256) % 256) as u8, (v % 256) as u8] + more,
            )
            &&& decoded_groups(rest) is None ==> decoded_groups(seq![a, b, c, d] + rest) is None
            &&& decoded_groups(seq![a, b, c, 61u8]) == Some(
                seq![(u / 65536) as u8, ((u / 256) % 256) as u8],
            )
            &&& decoded_groups(seq![a, b, 61u8, 61u8]) == Some(seq![(t / 65536) as u8])
        }),
{
    lemma_full_group(w, x, y, z, rest.len() == 0);
    lemma_two_byte_group(w, x, y);
    lemma_one_byte_group(w, x);
    let a = symbol(w) as u8;
    let b = symbol(x) as u8;
    let c = symbol(y) as u8;
    let none = Seq::<u8>::empty();
    assert(decoded_groups(none) == Some(none));
    let full = seq![a, b, c, symbol(z) as u8];
    assert((full + rest).take(4) =~= full);
    assert((full + rest).skip(4) =~= rest);
    let two = seq![a, b, c, 61u8];
    assert(two.take(4) =~= two && two.skip(4) =~= none);
    assert(decoded_groups(two)->0 =~= decoded_group(two, true)->0);
    let one = seq![a, b, 61u8, 61u8];
    assert(one.take(4) =~= one && one.skip(4) =~= none);
    assert(decoded_groups(one)->0 =~= decoded_group(one, true)->0);
}

proof fn lemma_full_group(w: int, x: int, y: int, z: int, last: bool)
    requires
        0 <= w < 64,
        0 <= x < 64,
        0 <= y < 64,
        0 <= z < 64,
    ensures
        ({
            let v = symbols_value(w, x, y, z);
            decoded_group(
                seq![symbol(w) as u8, symbol(x) as u8, symbol(y) as u8, symbol(z) as u8],
                last,
            ) == Some(seq![(v / 65536) as u8, ((v / 256) % 256) as u8, (v % 256) as u8])
        }),
{
    reveal(decoded_group);
    lemma_symbol(w);
    lemma_symbol(x);
    lemma_symbol(y);
    lemma_symbol(z);
    let v = symbols_value(w, x, y, z);
    let g = seq![symbol(w) as u8, symbol(x) as u8, symbol(y) as u8, symbol(z) as u8];
    assert(padding(g) == 0);
    let bytes = seq![(v / 65536) as u8, ((v / 256) % 256) as u8, (v % 256) as u8];
    assert(bytes.take(3) =~= bytes);
}

proof fn lemma_two_byte_group(w: int, x: int, y: int)
    requires
        0 <= w < 64,
        0 <= x < 64,
        0 <= y < 64,
    ensures
        ({
            let v = symbols_value(w, x, y, 0);
            decoded_group(
                seq![symbol(w) as u8, symbol(x) as u8, symbol(y) as u8, 61u8],
                true,
            ) == Some(seq![(v / 65536) as u8, ((v / 256) % 256) as u8])
        }),
{
    reveal(decoded_group);
    lemma_symbol(w);
    lemma_symbol(x);
    lemma_symbol(y);
    let v = symbols_value(w, x, y, 0);
    let front = seq![symbol(w) as u8, symbol(x) as u8, symbol(y) as u8];
    let g = seq![symbol(w) as u8, symbol(x) as u8, symbol(y) as u8, 61u8];
    assert(g.drop_last() =~= front);
    assert(padding(front) == 0);
    assert(padding(g) == 1);
    let bytes = seq![(v / 65536) as u8, ((v / 256) % 256) as u8, (v % 256) as u8];
    assert(bytes.take(2) =~= seq![(v / 65536) as u8, ((v / 256) % 256) as u8]);
}

proof fn lemma_one_byte_group(w: int, x: int)
    requires
        0 <= w < 64,
        0 <= x < 64,
    ensures
        ({
            let v = symbols_value(w, x, 0, 0);
            decoded_group(seq![symbol(w) as u8, symbol(x) as u8, 61u8, 61u8], true) == Some(
                seq![(v / 65536) as u8],
            )
        }),
{
    reveal(decoded_group);
    lemma_symbol(w);
    lemma_symbol(x);
    let v = symbols_value(w, x, 0, 0);
    let two = seq![symbol(w) as u8, symbol(x) as u8];
    let three = seq![symbol(w) as u8, symbol(x) as u8, 61u8];
    let g = seq![symbol(w) as u8, symbol(x) as u8, 61u8, 61u8];
    assert(three.drop_last() =~= two);
    assert(g.drop_last() =~= three);
    assert(padding(two) == 0);
    assert(padding(three) == 1);
    assert(padding(g) == 2);
    let bytes = seq![(v / 65536) as u8, ((v / 256) % 256) as u8, (v % 256) as u8];
    assert(bytes.take(1) =~= seq![(v / 65536) as u8]);
}

} // verus!
