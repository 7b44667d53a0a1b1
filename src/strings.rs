use vstd::prelude::*;
use vstd::slice::slice_subrange;
use vstd::utf8::{decode_utf8, encode_utf8, valid_utf8};
use vstd::string::StringSliceAdditionalSpecFns;

use crate::header::{be_u16, to_u16};
use crate::types::DecodeError;

verus! {

/// The longest string, in bytes, that a two-byte length prefix can announce.
pub const MAX_STRING_BYTES: usize = 65535;

/// The length-prefixed string at the start of `s`: a big-endian 16-bit byte
/// count `n`, then `n` bytes of UTF-8. Gives the characters and the number of
/// bytes taken, prefix included.
pub open spec fn parse_string(s: Seq<u8>) -> Result<(Seq<char>, int), DecodeError> {
    if s.len() < 2 {
        Err(DecodeError::MalformedBody)
    } else {
        let n = be_u16(s[0], s[1]) as int;
        if s.len() < 2 + n {
            Err(DecodeError::MalformedBody)
        } else if !valid_utf8(s.subrange(2, 2 + n)) {
            Err(DecodeError::InvalidUtf8)
        } else {
            Ok((decode_utf8(s.subrange(2, 2 + n)), 2 + n))
        }
    }
}

/// The length-prefixed form of the characters `cs`.
pub open spec fn string_bytes(cs: Seq<char>) -> Seq<u8> {
    let b = encode_utf8(cs);
    seq![(b.len() / 256) as u8, (b.len() % 256) as u8] + b
}

/// Relies on `std::str::from_utf8`: it succeeds exactly on well-formed UTF-8,
/// and the string it gives holds the characters that the bytes encode.
#[verifier::external_body]
fn utf8_to_string(b: &[u8]) -> (r: Option<String>)
    ensures
        r is Some <==> valid_utf8(b@),
        r is Some ==> r->Some_0@ == decode_utf8(b@),
{
    match std::str::from_utf8(b) {
        Ok(s) => Some(s.to_string()),
        Err(_) => None,
    }
}

/// Reads the length-prefixed string that starts at `pos`; gives the string and
/// the position after it. Bytes that run out make `MalformedBody`, bytes that
/// are not UTF-8 make `InvalidUtf8`.
pub fn read_string(bytes: &[u8], pos: usize) -> (r: Result<(String, usize), DecodeError>)
    requires
        pos <= bytes@.len(),
    ensures
        match parse_string(bytes@.subrange(pos as int, bytes@.len() as int)) {
            Ok((cs, n)) => r is Ok && r->Ok_0.0@ == cs && r->Ok_0.1 == pos + n,
            Err(e) => r == Err::<(String, usize), DecodeError>(e),
        },
{
    let ghost s = bytes@.subrange(pos as int, bytes@.len() as int);
    if bytes.len() - pos < 2 {
        return Err(DecodeError::MalformedBody);
    }
    let n = to_u16(bytes[pos], bytes[pos + 1]) as usize;
    assert(s[0] == bytes@[pos as int] && s[1] == bytes@[pos + 1]);
    if bytes.len() - pos - 2 < n {
        return Err(DecodeError::MalformedBody);
    }
    let content = slice_subrange(bytes, pos + 2, pos + 2 + n);
    assert(content@ =~= s.subrange(2, 2 + n as int));
    match utf8_to_string(content) {
        Some(text) => Ok((text, pos + 2 + n)),
        None => Err(DecodeError::InvalidUtf8),
    }
}

/// Appends `b` to `out`.
pub fn append_bytes(out: &mut Vec<u8>, b: &[u8])
    ensures
        final(out)@ == old(out)@ + b@,
{
    let mut i: usize = 0;
    while i < b.len()
        invariant
            i <= b@.len(),
            out@ == old(out)@ + b@.take(i as int),
        decreases b@.len() - i,
    {
        out.push(b[i]);
        assert(b@.take(i + 1) =~= b@.take(i as int).push(b@[i as int]));
        i = i + 1;
    }
    assert(b@.take(i as int) =~= b@);
}

/// Appends the length-prefixed form of `s` to `out`.
pub fn write_string(out: &mut Vec<u8>, s: &String)
    requires
        encode_utf8(s@).len() <= MAX_STRING_BYTES,
    ensures
        final(out)@ == old(out)@ + string_bytes(s@),
{
    let b = s.as_str().as_bytes();
    let n = b.len();
    assert(b@ == encode_utf8(s@));
    out.push((n / 256) as u8);
    out.push((n % 256) as u8);
    append_bytes(out, b);
    assert(out@ =~= old(out)@ + string_bytes(s@));
}

/// Reading back the length-prefixed form of a string of at most 65535 bytes
/// gives the string, whatever follows it.
pub proof fn lemma_string_round_trip(cs: Seq<char>, rest: Seq<u8>)
    requires
        encode_utf8(cs).len() <= MAX_STRING_BYTES,
    ensures
        parse_string(string_bytes(cs) + rest) == Ok::<(Seq<char>, int), DecodeError>(
            (cs, string_bytes(cs).len() as int),
        ),
{
    broadcast use vstd::utf8::encode_utf8_valid_utf8, vstd::utf8::encode_utf8_decode_utf8;

    let b = encode_utf8(cs);
    let s = string_bytes(cs) + rest;
    let n = b.len() as int;
    assert(be_u16(s[0], s[1]) as int == n);
    assert(s.subrange(2, 2 + n) =~= b);
}

/// A string field whose announced bytes are all there but are not UTF-8 is
/// rejected as such, and so is a PUBLISH packet whose topic is such a field.
pub proof fn lemma_invalid_utf8_rejected(s: Seq<u8>, frame: Seq<u8>)
    ensures
        s.len() >= 2 && s.len() >= 2 + be_u16(s[0], s[1]) && !valid_utf8(
            s.subrange(2, 2 + be_u16(s[0], s[1]) as int),
        ) ==> parse_string(s) == Err::<(Seq<char>, int), DecodeError>(DecodeError::InvalidUtf8),
        ({
            let h = crate::header::parse_fixed_header(frame);
            h is Ok && h->Ok_0.packet_type is Publish && parse_string(h->Ok_0.payload)
                == Err::<(Seq<char>, int), DecodeError>(DecodeError::InvalidUtf8)
        }) ==> crate::decode::parse_packet(frame) == Err::<crate::types::PacketModel, DecodeError>(
            DecodeError::InvalidUtf8,
        ),
{
}

} // verus!
