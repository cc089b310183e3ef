//! Protobuf wire format: field keys, length-delimited payloads, strings and
//! the skipping of fields that a message does not know, with the behaviour of
//! prost's `decode_key`, `string::encode`, `string::merge` and `skip_field`.
//! Varints, and unknown fields of a message decoded at the top, go through
//! prost itself. A message nested in another (a card in a deck) cannot have
//! prost skip its unknown fields from here: the decoding context it then
//! takes, one nesting level down, can only be made inside prost, so those
//! are skipped by `skip_value` below.
use vstd::prelude::*;
use vstd::utf8::*;
use crate::varint::{varint_bytes, varint_decode, lemma_varint_decode_u64, read_varint, write_varint};

verus! {

/// Wire type of a varint field.
pub const WIRE_VARINT: u8 = 0;

/// Wire type of a length-delimited field (strings, nested messages).
pub const WIRE_LEN: u8 = 2;

/// Largest field number protobuf allows.
pub const MAX_TAG: u32 = 0x1fff_ffff;

/// Bytes of the key that opens field `tag` with wire type `wire_type`.
pub open spec fn key_bytes(tag: nat, wire_type: nat) -> Seq<u8> {
    varint_bytes(tag * 8 + wire_type)
}

/// Decoding of a field key at the front of `s`: field number, wire type and
/// length of the key. `None` where the key is not a varint, exceeds 32 bits,
/// names a wire type above 5, or names field 0.
pub open spec fn parse_key(s: Seq<u8>) -> Option<(nat, nat, nat)> {
    match varint_decode(s) {
        Some((k, n)) => if k > 0xffff_ffff || k % 8 > 5 || k / 8 == 0 {
            None
        } else {
            Some((k / 8, k % 8, n))
        },
        None => None,
    }
}

/// Decoding of a length prefix at the front of `s`: the length of the prefix
/// and the length of the payload after it, provided the payload is all there.
pub open spec fn parse_delimited(s: Seq<u8>) -> Option<(nat, nat)> {
    match varint_decode(s) {
        Some((len, n)) => if len > s.len() - n {
            None
        } else {
            Some((n, len))
        },
        None => None,
    }
}

/// Decoding of a string field's value (what follows its key) at the front of
/// `s`: the text and the number of bytes it takes. `None` where the wire type
/// is not length-delimited, the payload is cut short, or is not UTF-8.
pub open spec fn parse_string(wire_type: nat, s: Seq<u8>) -> Option<(Seq<char>, nat)> {
    if wire_type != 2 {
        None
    } else {
        match parse_delimited(s) {
            Some((h, len)) => {
                let b = s.subrange(h as int, (h + len) as int);
                if valid_utf8(b) {
                    Some((decode_utf8(b), h + len))
                } else {
                    None
                }
            },
            None => None,
        }
    }
}

/// Bytes of the string field `tag` holding `text`.
pub open spec fn string_field_bytes(tag: nat, text: Seq<char>) -> Seq<u8> {
    key_bytes(tag, 2) + varint_bytes(encode_utf8(text).len()) + encode_utf8(text)
}

/// Number of bytes taken by the value of an unknown field with the given wire
/// type and number at the front of `s`; `budget` is the nesting depth of
/// groups that decoding may still enter. `None` where the value is malformed
/// or cut short, for a stray end-group key, or when the budget is spent.
pub open spec fn skip_field(wire_type: nat, tag: nat, s: Seq<u8>, budget: nat) -> Option<nat>
    decreases s.len(), 1nat,
{
    if budget == 0 {
        None
    } else if wire_type == 0 {
        match varint_decode(s) {
            Some((_, n)) => Some(n),
            None => None,
        }
    } else if wire_type == 1 {
        if 8 <= s.len() {
            Some(8)
        } else {
            None
        }
    } else if wire_type == 2 {
        match parse_delimited(s) {
            Some((h, len)) => Some(h + len),
            None => None,
        }
    } else if wire_type == 3 {
        skip_group(tag, s, budget)
    } else if wire_type == 5 {
        if 4 <= s.len() {
            Some(4)
        } else {
            None
        }
    } else {
        None
    }
}

/// Number of bytes taken by the fields of a group with number `tag` up to and
/// including its end-group key, at the front of `s`.
pub open spec fn skip_group(tag: nat, s: Seq<u8>, budget: nat) -> Option<nat>
    decreases s.len(), 0nat,
{
    match parse_key(s) {
        None => None,
        Some((t, w, n)) => {
            proof {
                lemma_varint_decode_u64(s);
            }
            if w == 4 {
                if t == tag {
                    Some(n)
                } else {
                    None
                }
            } else {
                match skip_field(w, t, s.skip(n as int), (budget - 1) as nat) {
                    None => None,
                    Some(m) => if n + m <= s.len() {
                        match skip_group(tag, s.skip((n + m) as int), budget) {
                            None => None,
                            Some(q) => Some(n + m + q),
                        }
                    } else {
                        None
                    },
                }
            }
        },
    }
}

/// What `skip_field` and `skip_group` return never exceeds their input, so
/// the length check in `skip_group` never fails.
pub proof fn lemma_skip_bounds(wire_type: nat, tag: nat, s: Seq<u8>, budget: nat)
    ensures
        skip_field(wire_type, tag, s, budget) matches Some(m) ==> m <= s.len(),
        skip_group(tag, s, budget) matches Some(m) ==> 1 <= m <= s.len(),
    decreases s.len(),
{
    lemma_varint_decode_u64(s);
    if let Some((t, w, n)) = parse_key(s) {
        if w != 4 {
            lemma_skip_bounds(w, t, s.skip(n as int), (budget - 1) as nat);
            if let Some(m) = skip_field(w, t, s.skip(n as int), (budget - 1) as nat) {
                lemma_skip_bounds(wire_type, tag, s.skip((n + m) as int), budget);
            }
        }
    }
}

/// The error that `std::str::from_utf8` reports.
#[verifier::external_type_specification]
#[verifier::external_body]
pub struct ExUtf8Error(std::str::Utf8Error);

/// Calls `std::str::from_utf8`: the text that `bytes` encode where they are
/// well-formed UTF-8, an error otherwise (where the error points is left
/// unsaid).
#[verifier::external_body]
pub(crate) fn utf8_text(bytes: &[u8]) -> (res: Result<&str, std::str::Utf8Error>)
    ensures
        res is Ok <==> valid_utf8(bytes@),
        res matches Ok(t) ==> t@ == decode_utf8(bytes@),
{
    std::str::from_utf8(bytes)
}

/// Reads the key at the front of `s`.
pub fn read_key(s: &[u8]) -> (res: Option<(u32, u8, usize)>)
    ensures
        match parse_key(s@) {
            Some((t, w, n)) => res == Some((t as u32, w as u8, n as usize)) && 1 <= n <= s@.len(),
            None => res is None,
        },
{
    match read_varint(s) {
        None => None,
        Some((k, n)) => {
            if k > 0xffff_ffff || k % 8 > 5 || k / 8 == 0 {
                None
            } else {
                Some(((k / 8) as u32, (k % 8) as u8, n))
            }
        },
    }
}

/// Appends the key of field `tag` with wire type `wire_type`.
pub fn write_key(tag: u32, wire_type: u8, out: &mut Vec<u8>)
    requires
        1 <= tag <= MAX_TAG,
        wire_type <= 5,
    ensures
        final(out)@ == old(out)@ + key_bytes(tag as nat, wire_type as nat),
{
    write_varint(tag as u64 * 8 + wire_type as u64, out);
}

/// Reads a length prefix at the front of `s`.
pub fn read_delimited(s: &[u8]) -> (res: Option<(usize, usize)>)
    ensures
        match parse_delimited(s@) {
            Some((h, len)) => res matches Some((a, b)) && a == h && b == len && h + len <= s@.len(),
            None => res is None,
        },
{
    match read_varint(s) {
        None => None,
        Some((len, n)) => {
            if len > (s.len() - n) as u64 {
                None
            } else {
                Some((n, len as usize))
            }
        },
    }
}

/// Reads the value of a string field at the front of `s`.
pub fn read_string(wire_type: u8, s: &[u8]) -> (res: Option<(String, usize)>)
    ensures
        match parse_string(wire_type as nat, s@) {
            Some((text, n)) => res matches Some((t, m)) && t@ == text && m == n && n <= s@.len(),
            None => res is None,
        },
{
    if wire_type != WIRE_LEN {
        return None;
    }
    match read_delimited(s) {
        None => None,
        Some((h, len)) => {
            let total = s.len();
            assert(h + len <= total);
            let payload = vstd::slice::slice_subrange(s, h, h + len);
            match utf8_text(payload) {
                Err(_) => None,
                Ok(t) => Some((t.to_owned(), h + len)),
            }
        },
    }
}

/// Appends the string field `tag` holding `text`.
pub fn write_string_field(tag: u32, text: &str, out: &mut Vec<u8>)
    requires
        1 <= tag <= MAX_TAG,
    ensures
        final(out)@ == old(out)@ + string_field_bytes(tag as nat, text@),
{
    let bytes = text.as_bytes();
    write_key(tag, WIRE_LEN, out);
    write_varint(bytes.len() as u64, out);
    let ghost before = out@;
    out.extend_from_slice(bytes);
    assert(out@ =~= before + encode_utf8(text@));
}

/// Skips the value of a field that the message being decoded does not know,
/// with `budget` levels of group nesting still allowed; the number of bytes
/// skipped.
pub fn skip_value(wire_type: u8, tag: u32, s: &[u8], budget: u32) -> (res: Option<usize>)
    ensures
        match skip_field(wire_type as nat, tag as nat, s@, budget as nat) {
            Some(m) => res == Some(m as usize) && m <= s@.len(),
            None => res is None,
        },
    decreases s@.len(), 1nat,
{
    proof {
        lemma_skip_bounds(wire_type as nat, tag as nat, s@, budget as nat);
    }
    if budget == 0 {
        None
    } else if wire_type == 0 {
        match read_varint(s) {
            Some((_, n)) => Some(n),
            None => None,
        }
    } else if wire_type == 1 {
        if 8 <= s.len() {
            Some(8)
        } else {
            None
        }
    } else if wire_type == 2 {
        let total = s.len();
        match read_delimited(s) {
            Some((h, len)) => {
                assert(h + len <= total);
                Some(h + len)
            },
            None => None,
        }
    } else if wire_type == 3 {
        skip_group_fields(tag, s, budget)
    } else if wire_type == 5 {
        if 4 <= s.len() {
            Some(4)
        } else {
            None
        }
    } else {
        None
    }
}

/// Skips the fields of group `tag` up to and including its end-group key.
fn skip_group_fields(tag: u32, s: &[u8], budget: u32) -> (res: Option<usize>)
    requires
        budget >= 1,
    ensures
        match skip_group(tag as nat, s@, budget as nat) {
            Some(m) => res == Some(m as usize) && m <= s@.len(),
            None => res is None,
        },
    decreases s@.len(), 0nat,
{
    proof {
        lemma_skip_bounds(3, tag as nat, s@, budget as nat);
    }
    let mut pos: usize = 0;
    assert(s@.skip(0) =~= s@);
    loop
        invariant
            pos <= s@.len(),
            budget >= 1,
            skip_group(tag as nat, s@, budget as nat) == match skip_group(
                tag as nat,
                s@.skip(pos as int),
                budget as nat,
            ) {
                Some(q) => Some(pos as nat + q),
                None => None,
            },
        decreases s@.len() - pos,
    {
        let rest = vstd::slice::slice_subrange(s, pos, s.len());
        proof {
            lemma_skip_bounds(3, tag as nat, rest@, budget as nat);
        }
        match read_key(rest) {
            None => {
                return None;
            },
            Some((t, w, n)) => {
                if w == 4 {
                    if t == tag {
                        return Some(pos + n);
                    } else {
                        return None;
                    }
                }
                let after = vstd::slice::slice_subrange(rest, n, rest.len());
                match skip_value(w, t, after, budget - 1) {
                    None => {
                        return None;
                    },
                    Some(m) => {
                        assert(rest@.skip((n + m) as int) =~= s@.skip((pos + n + m) as int));
                        pos = pos + n + m;
                    },
                }
            },
        }
    }
}

/// How many bytes of `s` are left once prost's `skip_field` has skipped,
/// with a fresh decoding context (as a message decoded at the top gets), the
/// value of an unknown field with this wire type and number at the front of
/// `s`; `None` where it reports an error.
pub uninterp spec fn prost_skip_rest(wire_type: nat, tag: nat, s: Seq<u8>) -> Option<nat>;

/// Calls `prost::encoding::skip_field` on `s` with the wire type that
/// `WireType::try_from` gives and `DecodeContext::default()`. Claimed: the
/// bytes left are `prost_skip_rest` of the arguments, and never more than
/// were given, since skipping only advances the buffer.
#[verifier::external_body]
pub(crate) fn skip_top_level_field(wire_type: u8, tag: u32, s: &[u8]) -> (res: Option<usize>)
    ensures
        match res {
            Some(r) => prost_skip_rest(wire_type as nat, tag as nat, s@) == Some(r as nat) && r <= s@.len(),
            None => prost_skip_rest(wire_type as nat, tag as nat, s@) is None,
        },
{
    let wire = prost::encoding::WireType::try_from(wire_type as u64).ok()?;
    let mut buf = s;
    prost::encoding::skip_field(wire, tag, &mut buf, prost::encoding::DecodeContext::default()).ok()?;
    Some(buf.len())
}

} // verus!
