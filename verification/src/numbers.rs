//! Numbers written as text and read back.

use vstd::prelude::*;
use crate::text;
use crate::text::{chars_of, push_text};

verus! {

/// The digit for `d`, with letters for ten and more.
pub open spec fn digit_char(d: nat) -> char {
    if d < 10 {
        (('0' as u8) + d) as char
    } else {
        (('a' as u8) + (d - 10)) as char
    }
}

/// The digits of `n` in the given base, most significant first.
pub open spec fn digits(n: nat, base: nat) -> Seq<char>
    decreases n,
{
    if base < 2 || n < base {
        seq![digit_char(n)]
    } else {
        proof {
            lemma_quotient_smaller(n, base);
        }
        digits(n / base, base).push(digit_char(n % base))
    }
}

/// Dividing by two or more makes a number smaller.
pub proof fn lemma_quotient_smaller(n: nat, base: nat)
    requires
        2 <= base <= n,
    ensures
        n / base < n,
{
    assert(n / base < n) by (nonlinear_arith)
        requires
            2 <= base <= n,
    ;
}

/// `n` in decimal.
pub open spec fn decimal(n: nat) -> Seq<char> {
    digits(n, 10)
}

/// `n` in decimal, with a minus sign where it is negative.
pub open spec fn signed_decimal(n: int) -> Seq<char> {
    if n < 0 {
        seq!['-'] + decimal((-n) as nat)
    } else {
        decimal(n as nat)
    }
}

/// `n` in hexadecimal, in lower case.
pub open spec fn hexadecimal(n: nat) -> Seq<char> {
    digits(n, 16)
}

/// `s` with zeros before it up to the given width.
pub open spec fn zero_padded(s: Seq<char>, width: nat) -> Seq<char>
    decreases width - s.len(),
{
    if s.len() >= width {
        s
    } else {
        zero_padded(seq!['0'] + s, width)
    }
}

/// The value of a decimal digit.
pub open spec fn digit_value(c: char) -> nat {
    ((c as u32) - ('0' as u32)) as nat
}

/// Every character is a decimal digit.
pub open spec fn all_digits(s: Seq<char>) -> bool {
    forall|i: int| 0 <= i < s.len() ==> text::is_digit(#[trigger] s[i])
}

/// The number that a sequence of decimal digits writes.
pub open spec fn decimal_value(s: Seq<char>) -> nat
    decreases s.len(),
{
    if s.len() == 0 {
        0
    } else {
        10 * decimal_value(s.drop_last()) + digit_value(s.last())
    }
}

/// `s` without one leading plus sign.
pub open spec fn without_plus(s: Seq<char>) -> Seq<char> {
    if s.len() > 0 && s[0] == '+' {
        s.drop_first()
    } else {
        s
    }
}

/// The number that `s` writes: digits behind at most one plus sign, at most
/// `max`.
pub open spec fn parsed(s: Seq<char>, max: nat) -> Option<nat> {
    let d = without_plus(s);
    if d.len() > 0 && all_digits(d) && decimal_value(d) <= max {
        Some(decimal_value(d))
    } else {
        None
    }
}

proof fn lemma_decimal_value_grows(s: Seq<char>, k: int)
    requires
        0 <= k <= s.len(),
    ensures
        decimal_value(s.take(k)) <= decimal_value(s),
    decreases s.len(),
{
    if k < s.len() {
        assert(s.drop_last().take(k) =~= s.take(k));
        lemma_decimal_value_grows(s.drop_last(), k);
    } else {
        assert(s.take(k) =~= s);
    }
}

/// The digits of a number are decimal digits that write the number.
pub proof fn lemma_decimal_shape(n: nat)
    ensures
        decimal(n).len() > 0,
        all_digits(decimal(n)),
        decimal_value(decimal(n)) == n,
    decreases n,
{
    reveal_with_fuel(decimal_value, 2);
    if n < 10 {
        assert(decimal(n) =~= seq![digit_char(n)]);
        assert(decimal(n).drop_last() =~= Seq::<char>::empty());
    } else {
        lemma_decimal_shape(n / 10);
        assert(decimal(n).drop_last() =~= decimal(n / 10));
        assert(decimal(n).last() == digit_char(n % 10));
        assert(text::is_digit(digit_char(n % 10)));
        assert forall|i: int| 0 <= i < decimal(n).len() implies text::is_digit(
            #[trigger] decimal(n)[i],
        ) by {
            if i < decimal(n / 10).len() {
                assert(decimal(n)[i] == decimal(n / 10)[i]);
            }
        }
    }
}

/// Reading back a number that was written in decimal gives the number.
pub proof fn law_decimal_read_back(n: nat, max: nat)
    requires
        n <= max,
    ensures
        parsed(decimal(n), max) == Some(n),
{
    lemma_decimal_shape(n);
    assert(text::is_digit(decimal(n)[0]));
}

/// Appends the digits of `n` in the given base.
fn push_digits(out: &mut String, n: u64, base: u64)
    requires
        2 <= base <= 16,
    ensures
        final(out)@ == old(out)@ + digits(n as nat, base as nat),
    decreases n,
{
    let ghost before = out@;
    if n >= base {
        proof {
            lemma_quotient_smaller(n as nat, base as nat);
        }
        push_digits(out, n / base, base);
    }
    let d: u64 = n % base;
    let c: char = if d < 10 {
        (48u8 + (d as u8)) as char
    } else {
        (97u8 + ((d - 10) as u8)) as char
    };
    proof {
        assert(0 <= n % base < base) by (nonlinear_arith)
            requires
                2 <= base,
        ;
        if n < base {
            assert(n % base == n) by (nonlinear_arith)
                requires
                    0 <= n < base,
            ;
        }
        assert(c == digit_char((n as nat) % (base as nat)));
    }
    out.push(c);
    assert(out@ =~= before + digits(n as nat, base as nat));
}

/// Appends `n` in decimal.
pub fn push_decimal(out: &mut String, n: u64)
    ensures
        final(out)@ == old(out)@ + decimal(n as nat),
{
    push_digits(out, n, 10);
}

/// `n` in decimal.
pub fn decimal_text(n: u64) -> (r: String)
    ensures
        r@ == decimal(n as nat),
{
    let mut out = String::new();
    push_decimal(&mut out, n);
    assert(out@ =~= decimal(n as nat));
    out
}

/// `n` in decimal, with a minus sign where it is negative.
pub fn signed_decimal_text(n: i64) -> (r: String)
    ensures
        r@ == signed_decimal(n as int),
{
    let mut out = String::new();
    if n < 0 {
        out.push('-');
        let m: u64 = if n == i64::MIN {
            0x8000_0000_0000_0000
        } else {
            (-n) as u64
        };
        push_decimal(&mut out, m);
    } else {
        push_decimal(&mut out, n as u64);
    }
    assert(out@ =~= signed_decimal(n as int));
    out
}

/// `n` in hexadecimal, in lower case.
pub fn hex_text(n: u64) -> (r: String)
    ensures
        r@ == hexadecimal(n as nat),
{
    let mut out = String::new();
    push_digits(&mut out, n, 16);
    assert(out@ =~= hexadecimal(n as nat));
    out
}

/// `n` in hexadecimal, in lower case, with zeros before it up to 16 digits.
pub fn hex16_text(n: u64) -> (r: String)
    ensures
        r@ == zero_padded(hexadecimal(n as nat), 16),
{
    let plain = hex_text(n);
    let v = chars_of(plain.as_str());
    let mut out = String::new();
    let mut k: usize = v.len();
    let ghost h = hexadecimal(n as nat);
    assert(out@ + h =~= h);
    while k < 16
        invariant
            v@ == h,
            v@.len() <= k,
            out@.len() + v@.len() == k,
            forall|i: int| 0 <= i < out@.len() ==> out@[i] == '0',
            zero_padded(out@ + h, 16) == zero_padded(h, 16),
        decreases 16 - k,
    {
        let ghost before = out@;
        out.push('0');
        assert(out@ + h =~= seq!['0'] + (before + h));
        k = k + 1;
    }
    push_text(&mut out, plain.as_str());
    out
}

/// Reads a number: digits behind at most one plus sign, at most `max`.
pub fn parse_number(s: &str, max: u64) -> (r: Option<u64>)
    ensures
        match r {
            Some(n) => parsed(s@, max as nat) == Some(n as nat),
            None => parsed(s@, max as nat) is None,
        },
{
    let v = chars_of(s);
    let start: usize = if v.len() > 0 && v[0] == '+' {
        1
    } else {
        0
    };
    let ghost d = without_plus(s@);
    assert(d =~= v@.skip(start as int));
    if start == v.len() {
        return None;
    }
    let mut n: u64 = 0;
    let mut i: usize = start;
    assert(d.take(0) =~= Seq::<char>::empty());
    while i < v.len()
        invariant
            start <= i <= v@.len(),
            start < v@.len(),
            d == v@.skip(start as int),
            d == without_plus(s@),
            n == decimal_value(d.take(i - start)),
            n <= max,
            forall|j: int| 0 <= j < i - start ==> text::is_digit(#[trigger] d[j]),
        decreases v@.len() - i,
    {
        let c = v[i];
        assert(d[i - start] == c);
        if !('0' <= c && c <= '9') {
            return None;
        }
        let x: u64 = (c as u64) - ('0' as u64);
        proof {
            assert(d.take(i - start + 1).drop_last() =~= d.take(i - start));
            assert(d.take(i - start + 1).last() == c);
            lemma_decimal_value_grows(d, i - start + 1);
        }
        let next: u128 = (n as u128) * 10 + (x as u128);
        if next > max as u128 {
            return None;
        }
        n = next as u64;
        i = i + 1;
    }
    assert(d.take(i - start) =~= d);
    Some(n)
}

/// The value of a hexadecimal digit.
pub open spec fn hex_digit_value(c: char) -> nat {
    if text::is_digit(c) {
        digit_value(c)
    } else {
        (10 + (c as u32) - ('a' as u32)) as nat
    }
}

/// The number that hexadecimal digits stand for.
pub open spec fn hex_value(s: Seq<char>) -> nat
    decreases s.len(),
{
    if s.len() == 0 {
        0
    } else {
        16 * hex_value(s.drop_last()) + hex_digit_value(s.last())
    }
}

/// The hexadecimal text of a number stands for the number, in digits and the
/// letters from `a` to `f`, and does not begin with a zero but for zero itself.
pub proof fn law_hexadecimal(n: nat)
    ensures
        hex_value(hexadecimal(n)) == n,
        hexadecimal(n).len() > 0,
        n > 0 ==> hexadecimal(n)[0] != '0',
        forall|i: int|
            0 <= i < hexadecimal(n).len() ==> text::is_digit(#[trigger] hexadecimal(n)[i]) || ('a'
                <= hexadecimal(n)[i] && hexadecimal(n)[i] <= 'f'),
    decreases n,
{
    let d = n % 16;
    let c = digit_char(d);
    if d < 10 {
        assert(c as u32 == 48 + d);
    } else {
        assert(c as u32 == 97 + d - 10);
    }
    assert(hex_digit_value(c) == d);
    if n < 16 {
        let s = seq![digit_char(n)];
        assert(s.drop_last() =~= Seq::empty());
        assert(hex_value(s.drop_last()) == 0);
        assert(hexadecimal(n) == s);
    } else {
        lemma_quotient_smaller(n, 16);
        law_hexadecimal(n / 16);
        let front = hexadecimal(n / 16);
        let s = front.push(c);
        assert(hexadecimal(n) == s);
        assert(s.drop_last() =~= front);
        assert(s[0] == front[0]);
        assert forall|i: int| 0 <= i < s.len() implies text::is_digit(#[trigger] s[i]) || ('a'
            <= s[i] && s[i] <= 'f') by {
            if i < front.len() {
                assert(s[i] == front[i]);
            }
        }
    }
}

/// Padding puts zeros before a text up to the width, and cuts nothing off.
pub proof fn law_zero_padded(s: Seq<char>, width: nat)
    ensures
        zero_padded(s, width).len() == if s.len() < width {
            width
        } else {
            s.len()
        },
        s.is_suffix_of(zero_padded(s, width)),
        forall|i: int|
            0 <= i < zero_padded(s, width).len() - s.len() ==> #[trigger] zero_padded(s, width)[i]
                == '0',
    decreases width - s.len(),
{
    if s.len() < width {
        let t = seq!['0'] + s;
        law_zero_padded(t, width);
        let r = zero_padded(t, width);
        let k = r.len() - t.len();
        assert(r.subrange(k, r.len() as int) =~= t);
        assert(r[k] == t[0]);
        assert forall|i: int| 0 <= i < s.len() implies s[i] == r[k + 1 + i] by {
            assert(t[i + 1] == s[i]);
            assert(r.subrange(k, r.len() as int)[i + 1] == r[k + 1 + i]);
        }
        assert(r.subrange(k + 1, r.len() as int) =~= s);
    } else {
        assert(s.subrange(0, s.len() as int) =~= s);
    }
}

/// A number is read from decimal digits, after one plus sign or none, and from
/// nothing else; the value grows tenfold with every digit.
pub proof fn law_parsed(s: Seq<char>, c: char, max: nat)
    ensures
        parsed(s, max) is Some ==> s.len() > 0 && (s[0] == '+' || text::is_digit(s[0])) && forall|
            i: int,
        |
            0 < i < s.len() ==> text::is_digit(#[trigger] s[i]),
        s.len() == 0 ==> parsed(s, max) is None,
        all_digits(s) && s.len() > 0 ==> parsed(seq!['+'] + s, max) == parsed(s, max),
        all_digits(s) && s.len() > 0 && text::is_digit(c) ==> (parsed(s.push(c), max) matches Some(
            n,
        ) ==> parsed(s, max) == Some((n / 10) as nat) && n % 10 == (c as u32) - ('0' as u32)),
{
    let plus = seq!['+'] + s;
    assert(plus.drop_first() =~= s);
    if s.len() > 0 && s[0] == '+' {
        let d = s.drop_first();
        if parsed(s, max) is Some {
            assert forall|i: int| 0 < i < s.len() implies text::is_digit(#[trigger] s[i]) by {
                assert(s[i] == d[i - 1]);
            }
        }
    }
    if all_digits(s) && s.len() > 0 && text::is_digit(c) {
        let t = s.push(c);
        assert(t[0] == s[0]);
        assert(text::is_digit(s[0]));
        assert(t.drop_last() =~= s);
        assert(48 <= c as u32 <= 57);
        assert forall|i: int| 0 <= i < t.len() implies text::is_digit(#[trigger] t[i]) by {
            if i < s.len() {
                assert(t[i] == s[i]);
            }
        }
        if let Some(n) = parsed(t, max) {
            assert(n == 10 * decimal_value(s) + digit_value(c));
        }
    }
}

/// A negative number is shown by a minus sign before its magnitude.
pub proof fn law_signed_decimal(n: nat)
    ensures
        signed_decimal(n as int) == decimal(n),
        n > 0 ==> signed_decimal(-n) == seq!['-'] + decimal(n),
{
}

proof fn lemma_leading_zero(s: Seq<char>)
    ensures
        decimal_value(seq!['0'] + s) == decimal_value(s),
    decreases s.len(),
{
    let t = seq!['0'] + s;
    if s.len() == 0 {
        assert(t.drop_last() =~= Seq::empty());
        assert(decimal_value(t.drop_last()) == 0);
        assert(t.last() == '0');
    } else {
        assert(t.drop_last() =~= seq!['0'] + s.drop_last());
        assert(t.last() == s.last());
        lemma_leading_zero(s.drop_last());
    }
}

/// Zeros before a number do not change it.
pub proof fn law_leading_zero(s: Seq<char>, max: nat)
    requires
        all_digits(s),
        s.len() > 0,
    ensures
        parsed(seq!['0'] + s, max) == parsed(s, max),
{
    let t = seq!['0'] + s;
    lemma_leading_zero(s);
    assert(text::is_digit(s[0]));
    assert forall|i: int| 0 <= i < t.len() implies text::is_digit(#[trigger] t[i]) by {
        if i > 0 {
            assert(t[i] == s[i - 1]);
        }
    }
}

} // verus!
