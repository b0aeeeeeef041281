//! Applicative functor application: the cache key under which the result
//! of applying a functor to an argument module is memoised, so that F(M)
//! along the same path is the same structure.

use vstd::prelude::*;
use vstd::utf8::encode_utf8;

use crate::digest::{blake3_digest, blake3_hash};

verus! {

/// Diagnostic number when the argument lacks a declaration the parameter
/// signature requires.
pub const M_SIG_MISSING_DECL: u16 = 301;

/// Diagnostic number when a binding's kind mismatches the signature.
pub const M_SIG_KIND_MISMATCH: u16 = 302;

/// Applicative path-equality cache key: the BLAKE3 digest of the functor's
/// parameter name, its body span and the argument's signature.
#[derive(Clone, Debug, PartialEq, Eq, Hash)]
pub struct ApplyKey(pub [u8; 32]);

/// Little-endian bytes of `x`.
pub open spec fn le_bytes_u32(x: u32) -> Seq<u8> {
    seq![
        (x % 256) as u8,
        ((x / 256) % 256) as u8,
        ((x / 65536) % 256) as u8,
        (x / 16777216) as u8,
    ]
}

/// The bytes an apply key digests: the parameter name's UTF-8 bytes, the
/// body span's file id, start and end (each 4 bytes, little-endian), and the
/// argument signature's text.
pub open spec fn apply_key_bytes(
    param_name: Seq<char>,
    file_id: u32,
    byte_start: u32,
    byte_end: u32,
    signature: Seq<char>,
) -> Seq<u8> {
    encode_utf8(param_name) + le_bytes_u32(file_id) + le_bytes_u32(byte_start) + le_bytes_u32(
        byte_end,
    ) + encode_utf8(signature)
}

/// Append the little-endian bytes of `x` to `out`.
fn push_le_u32(out: &mut Vec<u8>, x: u32)
    ensures
        final(out)@ == old(out)@ + le_bytes_u32(x),
{
    out.push((x % 256) as u8);
    out.push(((x / 256) % 256) as u8);
    out.push(((x / 65536) % 256) as u8);
    out.push((x / 16777216) as u8);
    assert(final(out)@ =~= old(out)@ + le_bytes_u32(x));
}

/// Append the UTF-8 bytes of `s` to `out`.
fn push_str_bytes(out: &mut Vec<u8>, s: &str)
    ensures
        final(out)@ == old(out)@ + encode_utf8(s@),
{
    let b = s.as_bytes();
    let mut k: usize = 0;
    while k < b.len()
        invariant
            k <= b@.len(),
            b@ == encode_utf8(s@),
            out@ == old(out)@ + b@.subrange(0, k as int),
        decreases b@.len() - k,
    {
        out.push(b[k]);
        assert(b@.subrange(0, k + 1) =~= b@.subrange(0, k as int).push(b@[k as int]));
        k = k + 1;
    }
    assert(b@.subrange(0, b@.len() as int) =~= b@);
}

/// The bytes an apply key digests (see [`apply_key_bytes`]).
pub fn apply_key_input(
    param_name: &str,
    file_id: u32,
    byte_start: u32,
    byte_end: u32,
    signature: &str,
) -> (r: Vec<u8>)
    ensures
        r@ == apply_key_bytes(param_name@, file_id, byte_start, byte_end, signature@),
{
    let mut out: Vec<u8> = Vec::new();
    push_str_bytes(&mut out, param_name);
    push_le_u32(&mut out, file_id);
    push_le_u32(&mut out, byte_start);
    push_le_u32(&mut out, byte_end);
    push_str_bytes(&mut out, signature);
    assert(out@ =~= apply_key_bytes(param_name@, file_id, byte_start, byte_end, signature@));
    out
}

/// The applicative cache key of a functor application: the BLAKE3 digest of
/// the parameter name, the functor body's span (file id, start, end) and
/// the argument's signature text.
pub fn compute_apply_key(
    param_name: &str,
    file_id: u32,
    byte_start: u32,
    byte_end: u32,
    signature: &str,
) -> (r: ApplyKey)
    ensures
        r.0@ == blake3_digest(apply_key_bytes(param_name@, file_id, byte_start, byte_end, signature@)),
{
    let input = apply_key_input(param_name, file_id, byte_start, byte_end, signature);
    ApplyKey(blake3_hash(input.as_slice()))
}

} // verus!
