//! The 64-bit FNV-1a hash, from which identifiers and package signatures are
//! made.

use vstd::prelude::*;
use crate::numbers;
use crate::numbers::hex_text;

verus! {

/// The hash of no bytes at all.
pub const OFFSET_BASIS: u64 = 14695981039346656037;

/// The factor applied after each byte.
pub const PRIME: u64 = 1099511628211;

/// The hash after one more byte.
pub open spec fn mixed(hash: u64, byte: u8) -> u64 {
    (hash ^ (byte as u64)).wrapping_mul(PRIME)
}

/// The hash after more bytes.
pub open spec fn hashed(hash: u64, bytes: Seq<u8>) -> u64
    decreases bytes.len(),
{
    if bytes.len() == 0 {
        hash
    } else {
        mixed(hashed(hash, bytes.drop_last()), bytes.last())
    }
}

/// The identifier of a text: the hash of its UTF-8 form in hexadecimal.
pub open spec fn id_of(value: Seq<char>) -> Seq<char> {
    numbers::hexadecimal(hashed(OFFSET_BASIS, vstd::utf8::encode_utf8(value)) as nat)
}

/// The lowest `count` bytes of a number, the lowest first.
pub open spec fn little_endian(n: nat, count: nat) -> Seq<u8>
    decreases count,
{
    if count == 0 {
        Seq::empty()
    } else {
        seq![(n % 256) as u8] + little_endian(n / 256, (count - 1) as nat)
    }
}

/// Hashing in two steps is hashing the bytes of both.
pub proof fn law_hash_continues(hash: u64, a: Seq<u8>, b: Seq<u8>)
    ensures
        hashed(hashed(hash, a), b) == hashed(hash, a + b),
    decreases b.len(),
{
    if b.len() == 0 {
        assert(a + b =~= a);
    } else {
        law_hash_continues(hash, a, b.drop_last());
        assert((a + b).drop_last() =~= a + b.drop_last());
        assert((a + b).last() == b.last());
    }
}

/// Continues a hash with more bytes.
pub fn update_package_hash(hash: &mut u64, bytes: &[u8])
    ensures
        *final(hash) == hashed(*old(hash), bytes@),
{
    let ghost start = *hash;
    let mut i: usize = 0;
    while i < bytes.len()
        invariant
            i <= bytes@.len(),
            *hash == hashed(start, bytes@.take(i as int)),
        decreases bytes@.len() - i,
    {
        assert(bytes@.take(i + 1).drop_last() =~= bytes@.take(i as int));
        *hash = (*hash ^ (bytes[i] as u64)).wrapping_mul(PRIME);
        i = i + 1;
    }
    assert(bytes@.take(i as int) =~= bytes@);
}

/// The identifier of a text.
pub fn make_id(value: &str) -> (r: String)
    ensures
        r@ == id_of(value@),
{
    let mut hash: u64 = OFFSET_BASIS;
    update_package_hash(&mut hash, value.as_bytes());
    hex_text(hash)
}

/// The lowest `count` bytes of a number, the lowest first.
pub fn little_endian_bytes(n: u128, count: usize) -> (r: Vec<u8>)
    ensures
        r@ == little_endian(n as nat, count as nat),
{
    let mut out: Vec<u8> = Vec::new();
    let mut rest: u128 = n;
    let mut k: usize = count;
    assert(out@ + little_endian(n as nat, count as nat) =~= little_endian(n as nat, count as nat));
    while k > 0
        invariant
            out@ + little_endian(rest as nat, k as nat) == little_endian(n as nat, count as nat),
        decreases k,
    {
        let ghost before = out@;
        let b: u8 = (rest % 256) as u8;
        out.push(b);
        assert(out@ + little_endian((rest / 256) as nat, (k - 1) as nat) =~= before + (seq![b]
            + little_endian((rest / 256) as nat, (k - 1) as nat)));
        rest = rest / 256;
        k = k - 1;
    }
    assert(out@ + little_endian(rest as nat, 0) =~= out@);
    out
}

/// Each byte is mixed in by an exclusive or, and the result is multiplied by the
/// prime of the 64-bit FNV-1a hash; no bytes leave the hash as it is.
pub proof fn law_hash_of_byte(hash: u64, byte: u8)
    ensures
        hashed(hash, Seq::empty()) == hash,
        hashed(hash, seq![byte]) == ((hash ^ (byte as u64)) * 1099511628211) % 0x1_0000_0000_0000_0000,
{
    let one = seq![byte];
    assert(one.drop_last() =~= Seq::empty());
    assert(hashed(hash, one.drop_last()) == hash);
}

/// An identifier is the hash of the text's bytes, begun at the offset basis of
/// the 64-bit FNV-1a hash, as hexadecimal digits.
pub proof fn law_id(value: Seq<char>)
    ensures
        numbers::hex_value(id_of(value)) == hashed(
            14695981039346656037,
            vstd::utf8::encode_utf8(value),
        ),
{
    numbers::law_hexadecimal(hashed(OFFSET_BASIS, vstd::utf8::encode_utf8(value)) as nat);
}

/// The number that bytes stand for, the least significant one first.
pub open spec fn little_endian_value(bytes: Seq<u8>) -> nat
    decreases bytes.len(),
{
    if bytes.len() == 0 {
        0
    } else {
        bytes[0] as nat + 256 * little_endian_value(bytes.drop_first())
    }
}

/// A number that fits in `count` bytes is written in exactly `count` bytes that
/// stand for it.
pub proof fn law_little_endian(n: nat, count: nat)
    requires
        n < vstd::arithmetic::power::pow(256, count),
    ensures
        little_endian(n, count).len() == count,
        little_endian_value(little_endian(n, count)) == n,
    decreases count,
{
    reveal(vstd::arithmetic::power::pow);
    if count > 0 {
        let m = (count - 1) as nat;
        assert(n / 256 < vstd::arithmetic::power::pow(256, m)) by (nonlinear_arith)
            requires
                n < 256 * vstd::arithmetic::power::pow(256, m),
        ;
        law_little_endian(n / 256, m);
        let s = little_endian(n, count);
        assert(s.drop_first() =~= little_endian(n / 256, m));
    }
}

} // verus!
