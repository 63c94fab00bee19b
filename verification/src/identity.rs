//! Content identities: 64-bit FNV-1a fingerprints and their fixed-width
//! lowercase hexadecimal rendering.
use vstd::prelude::*;
use vstd::bytes::{spec_u64_to_le_bytes, u64_to_le_bytes};
use vstd::string::StringExecFns;
use vstd::utf8::encode_utf8;

verus! {

/// FNV-1a 64-bit offset basis.
pub const FNV_OFFSET_BASIS: u64 = 0xcbf2_9ce4_8422_2325;

/// FNV-1a 64-bit prime.
pub const FNV_PRIME: u64 = 0x0000_0100_0000_01b3;

/// One FNV-1a step: xor in the byte, then multiply modulo 2^64.
pub open spec fn fnv_step(hash: u64, byte: u8) -> u64 {
    (hash ^ (byte as u64)).wrapping_mul(FNV_PRIME)
}

/// FNV-1a state after hashing `bytes` from state `hash`.
pub open spec fn fnv_from(hash: u64, bytes: Seq<u8>) -> u64
    decreases bytes.len(),
{
    if bytes.len() == 0 {
        hash
    } else {
        fnv_step(fnv_from(hash, bytes.drop_last()), bytes.last())
    }
}

/// The FNV-1a 64-bit fingerprint of `bytes`.
pub open spec fn fnv1a(bytes: Seq<u8>) -> u64 {
    fnv_from(FNV_OFFSET_BASIS, bytes)
}

/// Hashing a concatenation is hashing its parts in turn.
pub proof fn lemma_fnv_concat(hash: u64, a: Seq<u8>, b: Seq<u8>)
    ensures
        fnv_from(hash, a + b) == fnv_from(fnv_from(hash, a), b),
    decreases b.len(),
{
    if b.len() == 0 {
        assert(a + b =~= a);
    } else {
        lemma_fnv_concat(hash, a, b.drop_last());
        assert((a + b).drop_last() =~= a + b.drop_last());
        assert((a + b).last() == b.last());
    }
}

/// Continue an FNV-1a hash over `bytes`.
pub fn fnv_update(hash: u64, bytes: &[u8]) -> (r: u64)
    ensures
        r == fnv_from(hash, bytes@),
{
    let mut h = hash;
    let mut k: usize = 0;
    while k < bytes.len()
        invariant
            k <= bytes.len(),
            h == fnv_from(hash, bytes@.take(k as int)),
        decreases bytes.len() - k,
    {
        assert(bytes@.take(k + 1).drop_last() =~= bytes@.take(k as int));
        h = (h ^ (bytes[k] as u64)).wrapping_mul(FNV_PRIME);
        k = k + 1;
    }
    assert(bytes@.take(k as int) =~= bytes@);
    h
}

/// The FNV-1a 64-bit fingerprint of `bytes`.
pub fn fingerprint_bytes(bytes: &[u8]) -> (r: u64)
    ensures
        r == fnv1a(bytes@),
{
    fnv_update(FNV_OFFSET_BASIS, bytes)
}

/// Lowercase hexadecimal digit of `d < 16`.
pub open spec fn hex_char(d: nat) -> char {
    if d < 10 {
        (48 + d) as char
    } else {
        (87 + d) as char
    }
}

/// The low `n` hexadecimal digits of `x`, most significant first.
pub open spec fn hex_digits(x: nat, n: nat) -> Seq<char>
    decreases n,
{
    if n == 0 {
        Seq::empty()
    } else {
        hex_digits(x / 16, (n - 1) as nat).push(hex_char(x % 16))
    }
}

/// Decimal digits of `x`, most significant first, without leading zeros.
pub open spec fn decimal_digits(x: nat) -> Seq<char>
    decreases x,
{
    if x < 10 {
        seq![(48 + x) as char]
    } else {
        decimal_digits(x / 10).push((48 + x % 10) as char)
    }
}

/// `String::push`: append one character.
#[verifier::external_body]
fn push_char(s: &mut String, c: char)
    ensures
        final(s)@ == old(s)@.push(c),
{
    s.push(c);
}

/// Append the low `n` hexadecimal digits of `x`.
fn push_hex(s: &mut String, x: u64, n: usize)
    ensures
        final(s)@ == old(s)@ + hex_digits(x as nat, n as nat),
    decreases n,
{
    if n == 0 {
        assert(old(s)@ + hex_digits(x as nat, 0) =~= old(s)@);
        return;
    }
    push_hex(s, x / 16, n - 1);
    let d = x % 16;
    let c = if d < 10 {
        (48 + d) as u8 as char
    } else {
        (87 + d) as u8 as char
    };
    assert(c == hex_char(d as nat));
    push_char(s, c);
    assert(old(s)@ + hex_digits(x as nat, n as nat) =~= old(s)@ + hex_digits((x / 16) as nat, (n - 1) as nat)
        + seq![hex_char(x as nat % 16)]);
}

/// Append the decimal digits of `x`.
fn push_decimal(s: &mut String, x: u64)
    ensures
        final(s)@ == old(s)@ + decimal_digits(x as nat),
    decreases x,
{
    if x >= 10 {
        push_decimal(s, x / 10);
    }
    let c = (48 + x % 10) as u8 as char;
    assert(c == (48 + x as nat % 10) as char);
    push_char(s, c);
    if x >= 10 {
        assert(old(s)@ + decimal_digits(x as nat) =~= old(s)@ + decimal_digits((x / 10) as nat) + seq![c]);
    } else {
        assert(old(s)@ + decimal_digits(x as nat) =~= old(s)@ + seq![c]);
    }
}

/// `prefix`, a hyphen, then the 16 lowercase hexadecimal digits of `hash`.
pub open spec fn hex_identity(prefix: Seq<char>, hash: u64) -> Seq<char> {
    prefix + seq!['-'] + hex_digits(hash as nat, 16)
}

/// Render `prefix-` followed by the 16 lowercase hexadecimal digits of `hash`.
pub fn hex_id(prefix: &str, hash: u64) -> (r: String)
    ensures
        r@ == hex_identity(prefix@, hash),
{
    let mut s = String::from_str(prefix);
    push_char(&mut s, '-');
    push_hex(&mut s, hash, 16);
    assert(s@ =~= hex_identity(prefix@, hash));
    s
}

/// Render `prefix` followed by the decimal digits of `x`.
pub fn decimal_id(prefix: &str, x: u64) -> (r: String)
    ensures
        r@ == prefix@ + decimal_digits(x as nat),
{
    let mut s = String::from_str(prefix);
    push_decimal(&mut s, x);
    s
}

/// The file-content hash label of `bytes`.
pub open spec fn byte_hash_text(bytes: Seq<u8>) -> Seq<char> {
    hex_identity("fnv1a64"@, fnv1a(bytes))
}

/// Content hash of a file: `fnv1a64-` and 16 lowercase hexadecimal digits.
pub fn byte_hash(bytes: &[u8]) -> (r: String)
    ensures
        r@ == byte_hash_text(bytes@),
{
    hex_id("fnv1a64", fingerprint_bytes(bytes))
}

/// Length-prefixed encoding of fields: each field's UTF-8 byte length as a
/// little-endian `u64`, then its bytes.
pub open spec fn binding_bytes(fields: Seq<&str>) -> Seq<u8>
    decreases fields.len(),
{
    if fields.len() == 0 {
        Seq::empty()
    } else {
        let b = encode_utf8(fields.last()@);
        binding_bytes(fields.drop_last()) + spec_u64_to_le_bytes(b.len() as u64) + b
    }
}

/// A stable identifier binding `fields`, unambiguous under any field contents.
pub fn stable_binding_id(prefix: &str, fields: &[&str]) -> (r: String)
    ensures
        r@ == hex_identity(prefix@, fnv1a(binding_bytes(fields@))),
{
    let mut h = FNV_OFFSET_BASIS;
    let mut k: usize = 0;
    while k < fields.len()
        invariant
            k <= fields.len(),
            h == fnv1a(binding_bytes(fields@.take(k as int))),
        decreases fields.len() - k,
    {
        let field = fields[k];
        let bytes = field.as_bytes();
        let len = u64_to_le_bytes(bytes.len() as u64);
        proof {
            assert(fields@.take(k + 1).drop_last() =~= fields@.take(k as int));
            assert(fields@.take(k + 1).last() == field);
            lemma_fnv_concat(FNV_OFFSET_BASIS, binding_bytes(fields@.take(k as int)), len@);
            lemma_fnv_concat(
                FNV_OFFSET_BASIS,
                binding_bytes(fields@.take(k as int)) + len@,
                bytes@,
            );
        }
        h = fnv_update(h, len.as_slice());
        h = fnv_update(h, bytes);
        k = k + 1;
    }
    assert(fields@.take(k as int) =~= fields@);
    hex_id(prefix, h)
}

} // verus!
