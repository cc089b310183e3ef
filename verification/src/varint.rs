//! Base-128 varints as protobuf writes and reads them.
use vstd::prelude::*;

verus! {

/// The bytes of the varint encoding of `v`: seven bits per byte, least
/// significant group first, the high bit set on every byte but the last.
pub open spec fn varint_bytes(v: nat) -> Seq<u8>
    decreases v,
{
    if v < 128 {
        seq![v as u8]
    } else {
        seq![(v % 128 + 128) as u8] + varint_bytes(v / 128)
    }
}

/// Exclusive bound on the value that a varint can still contribute when its
/// decoding starts at byte index `k`: ten bytes at most, of which the tenth
/// carries a single bit.
pub open spec fn varint_cap(k: nat) -> nat
    decreases 9 - k,
{
    if k >= 9 {
        2
    } else {
        128 * varint_cap(k + 1)
    }
}

/// Decoding of a varint whose first byte in `s` is byte number `k` of the
/// varint. The value and the number of bytes read, or `None` when the input
/// ends too early, runs past ten bytes, or overflows 64 bits.
pub open spec fn varint_decode_at(s: Seq<u8>, k: nat) -> Option<(nat, nat)>
    decreases s.len(),
{
    if s.len() == 0 {
        None
    } else if s[0] < 128 {
        if k >= 9 && s[0] >= 2 {
            None
        } else {
            Some((s[0] as nat, 1))
        }
    } else if k >= 9 {
        None
    } else {
        match varint_decode_at(s.drop_first(), k + 1) {
            Some((v, n)) => Some(((s[0] - 128) as nat + 128 * v, n + 1)),
            None => None,
        }
    }
}

/// Decoding of the varint at the front of `s`.
pub open spec fn varint_decode(s: Seq<u8>) -> Option<(nat, nat)> {
    varint_decode_at(s, 0)
}

/// 2^64.
pub open spec fn two_pow_64() -> nat {
    0x1_0000_0000_0000_0000
}

pub proof fn lemma_varint_cap_values(k: nat)
    requires
        k <= 9,
    ensures
        varint_cap(k) >= 2,
        k < 9 ==> varint_cap(k) >= 256,
        varint_cap(0) == two_pow_64(),
    decreases 9 - k,
{
    reveal_with_fuel(varint_cap, 11);
    if k < 9 {
        lemma_varint_cap_values(k + 1);
    }
}

/// A decoded varint reads between one and ten bytes of its input, and its
/// value fits below the cap of its starting position.
pub proof fn lemma_varint_decode_bounds(s: Seq<u8>, k: nat)
    requires
        k <= 9,
    ensures
        varint_decode_at(s, k) matches Some((v, n)) ==> {
            &&& 1 <= n <= s.len()
            &&& n + k <= 10
            &&& v < varint_cap(k)
        },
    decreases s.len(),
{
    lemma_varint_cap_values(k);
    if s.len() > 0 && s[0] >= 128 && k < 9 {
        lemma_varint_decode_bounds(s.drop_first(), k + 1);
    }
}

/// Decoding the encoding of `v` followed by anything gives `v` back and
/// reads exactly the encoding.
pub proof fn lemma_varint_roundtrip_at(v: nat, k: nat, rest: Seq<u8>)
    requires
        k <= 9,
        v < varint_cap(k),
    ensures
        varint_decode_at(varint_bytes(v) + rest, k) == Some((v, varint_bytes(v).len())),
    decreases v,
{
    lemma_varint_cap_values(k);
    let s = varint_bytes(v) + rest;
    if v < 128 {
        assert(s[0] == v as u8);
    } else {
        assert(k < 9);
        assert(v / 128 < varint_cap(k + 1));
        lemma_varint_roundtrip_at(v / 128, k + 1, rest);
        assert(s.drop_first() =~= varint_bytes(v / 128) + rest);
        assert(s[0] == (v % 128 + 128) as u8);
    }
}

/// Decoding of a varint always yields a value below 2^64.
pub proof fn lemma_varint_decode_u64(s: Seq<u8>)
    ensures
        varint_decode(s) matches Some((v, n)) ==> v < two_pow_64() && 1 <= n <= s.len() && n <= 10,
{
    lemma_varint_decode_bounds(s, 0);
    lemma_varint_cap_values(0);
}

/// The varint encoding of any 64-bit value decodes back to it.
pub proof fn lemma_varint_roundtrip(v: u64, rest: Seq<u8>)
    ensures
        varint_decode(varint_bytes(v as nat) + rest) == Some((v as nat, varint_bytes(v as nat).len())),
        1 <= varint_bytes(v as nat).len() <= 10,
{
    lemma_varint_cap_values(0);
    lemma_varint_roundtrip_at(v as nat, 0, rest);
    lemma_varint_decode_bounds(varint_bytes(v as nat) + rest, 0);
}

/// The varint encoding of any value below 2^64 decodes back to it.
pub proof fn lemma_varint_roundtrip_nat(v: nat, rest: Seq<u8>)
    requires
        v < two_pow_64(),
    ensures
        varint_decode(varint_bytes(v) + rest) == Some((v, varint_bytes(v).len())),
        1 <= varint_bytes(v).len() <= 10,
{
    lemma_varint_roundtrip(v as u64, rest);
}

/// Calls `prost::encoding::encode_varint`, which appends to `out` the varint
/// bytes of `value` (LEB128, ten bytes at most).
#[verifier::external_body]
fn put_varint(value: u64, out: &mut Vec<u8>)
    ensures
        final(out)@ == old(out)@ + varint_bytes(value as nat),
{
    prost::encoding::encode_varint(value, out);
}

/// The error that prost's decoding functions report.
#[verifier::external_type_specification]
#[verifier::external_body]
pub struct ExProstDecodeError(prost::DecodeError);

/// Calls `prost::encoding::decode_varint` on `s` and returns the value read
/// and the number of bytes of `s` left after it; an error where prost reports
/// an invalid varint (input too short, more than ten bytes, or above
/// 2^64 - 1). Which error prost reports is left unsaid.
#[verifier::external_body]
fn take_varint(s: &[u8]) -> (res: Result<(u64, usize), prost::DecodeError>)
    ensures
        match varint_decode(s@) {
            Some((v, n)) => res == Ok::<(u64, usize), prost::DecodeError>((v as u64, (s@.len() - n) as usize)),
            None => res is Err,
        },
{
    let mut buf = s;
    match prost::encoding::decode_varint(&mut buf) {
        Ok(v) => Ok((v, buf.len())),
        Err(e) => Err(e),
    }
}

/// Appends the varint encoding of `value` to `out`.
pub fn write_varint(value: u64, out: &mut Vec<u8>)
    ensures
        final(out)@ == old(out)@ + varint_bytes(value as nat),
{
    put_varint(value, out);
}

/// Reads the varint at the front of `s`: its value and the number of bytes
/// it takes, exactly as `varint_decode` says.
pub fn read_varint(s: &[u8]) -> (res: Option<(u64, usize)>)
    ensures
        match varint_decode(s@) {
            Some((v, n)) => res == Some((v as u64, n as usize)) && v < two_pow_64() && 1 <= n <= s@.len(),
            None => res is None,
        },
{
    proof {
        lemma_varint_decode_u64(s@);
    }
    match take_varint(s) {
        Ok((v, rest)) => Some((v, s.len() - rest)),
        Err(_) => None,
    }
}

} // verus!
