use vstd::prelude::*;
use vstd::slice::{slice_subrange, slice_to_vec};

use crate::types::{
    packet_type_code, packet_type_of_code, qos_of_bits, matches_model, DecodeError, FixedHeader, FixedHeaderModel,
    PacketType, QoS,
};
use crate::vlq::{decode_vlq, vlq_field_len, vlq_overlong, vlq_value};

verus! {

/// The big-endian 16-bit integer of two bytes.
pub open spec fn be_u16(msb: u8, lsb: u8) -> u16 {
    (msb as int * 256 + lsb as int) as u16
}

/// Whether `flags`, the low nibble of the first byte, is structurally allowed
/// for packet type `t`: PUBLISH takes any nibble; PUBREL, SUBSCRIBE and
/// UNSUBSCRIBE take exactly 0b0010; every other type 0b0000.
pub open spec fn header_flags_valid(t: PacketType, flags: int) -> bool {
    match t {
        PacketType::Publish => true,
        PacketType::PubRel | PacketType::Subscribe | PacketType::Unsubscribe => flags == 2,
        _ => flags == 0,
    }
}

/// Whether the first byte `b` asks for a QoS that exists: QoS 3 is reserved.
pub open spec fn qos_known(b: int) -> bool {
    (b / 2) % 4 != 3
}

/// The fixed header of the frame `s`, with its body: the packet type and
/// flags of the first byte (the structural check, then the QoS, which must
/// not be the reserved 3), then the remaining-length field, which must end
/// by its fourth byte. The body is what
/// follows the field, up to the stated length and never past it; bytes beyond
/// that length belong to no part of the packet.
pub open spec fn parse_fixed_header(s: Seq<u8>) -> Result<FixedHeaderModel, DecodeError> {
    if s.len() < 2 {
        Err(DecodeError::IncompleteHeader)
    } else if packet_type_of_code(s[0] as int / 16) is Reserved {
        Err(DecodeError::InvalidPacketType)
    } else if !header_flags_valid(packet_type_of_code(s[0] as int / 16), s[0] as int % 16) {
        Err(DecodeError::InvalidHeaderFlags)
    } else if !qos_known(s[0] as int) {
        Err(DecodeError::InvalidHeaderFlags)
    } else {
        let field = s.subrange(1, s.len() as int);
        match vlq_field_len(field) {
            None => Err(DecodeError::IncompleteHeader),
            Some(_) if vlq_overlong(field) => Err(DecodeError::InvalidVlqEncoding),
            Some(k) => {
                let len = vlq_value(field.take(k as int));
                let end = if s.len() < 1 + k + len {
                    s.len() as int
                } else {
                    (1 + k + len) as int
                };
                Ok(
                    FixedHeaderModel {
                        packet_type: packet_type_of_code(s[0] as int / 16),
                        dup: (s[0] as int / 8) % 2 == 1,
                        qos: qos_of_bits(s[0] as int / 2),
                        retain: s[0] as int % 2 == 1,
                        remaining_bytes: len as u32,
                        payload: s.subrange(1 + k as int, end),
                    },
                )
            },
        }
    }
}

/// Each code from 1 to 14 names a packet type whose code it is; codes 0 and
/// 15 name `Reserved`, and a frame that starts with them is rejected as an
/// invalid packet type.
pub proof fn lemma_packet_type_codes(s: Seq<u8>, n: int)
    requires
        0 <= n < 16,
    ensures
        1 <= n <= 14 ==> !(packet_type_of_code(n) is Reserved) && packet_type_code(
            packet_type_of_code(n),
        ) == n,
        (n == 0 || n == 15) ==> packet_type_of_code(n) is Reserved,
        s.len() >= 2 && (s[0] as int / 16 == 0 || s[0] as int / 16 == 15) ==> parse_fixed_header(s)
            == Err::<FixedHeaderModel, DecodeError>(DecodeError::InvalidPacketType),
{
}

/// The big-endian 16-bit integer of two bytes.
pub fn to_u16(msb: u8, lsb: u8) -> (r: u16)
    ensures
        r == be_u16(msb, lsb),
{
    lsb as u16 + (msb as u16) * 256
}

/// The packet type named by the high nibble of `b`.
pub fn read_packet_type(b: u8) -> (r: PacketType)
    ensures
        r == packet_type_of_code(b as int / 16),
{
    let value: u8 = b >> 4;
    assert(value == b / 16) by (bit_vector)
        requires
            value == b >> 4,
    ;
    match value {
        1 => PacketType::Connect,
        2 => PacketType::ConnAck,
        3 => PacketType::Publish,
        4 => PacketType::PubAck,
        5 => PacketType::PubRec,
        6 => PacketType::PubRel,
        7 => PacketType::PubComp,
        8 => PacketType::Subscribe,
        9 => PacketType::SubAck,
        10 => PacketType::Unsubscribe,
        11 => PacketType::UnsubAck,
        12 => PacketType::PingReq,
        13 => PacketType::PingResp,
        14 => PacketType::Disconnect,
        _ => PacketType::Reserved,
    }
}

/// Whether the low nibble `input` of the first byte is allowed for `ptype`.
pub fn validate_header_flags(ptype: &PacketType, input: u8) -> (r: bool)
    ensures
        r == header_flags_valid(*ptype, input as int),
{
    match *ptype {
        PacketType::Publish => true,
        PacketType::PubRel | PacketType::Subscribe | PacketType::Unsubscribe => input == 0x02,
        _ => input == 0x00,
    }
}

/// Parses the fixed header at the start of `bytes` and takes its body: the
/// bytes after the remaining-length field, at most as many as it states.
pub fn read_header(bytes: &[u8]) -> (r: Result<FixedHeader, DecodeError>)
    ensures
        matches_model(r, parse_fixed_header(bytes@)),
{
    if bytes.len() < 2 {
        return Err(DecodeError::IncompleteHeader);
    }
    let byte_1 = bytes[0];
    let ptype = read_packet_type(byte_1);
    if ptype == PacketType::Reserved {
        return Err(DecodeError::InvalidPacketType);
    }
    let flags: u8 = byte_1 & 0x0F;
    assert(flags == byte_1 % 16) by (bit_vector)
        requires
            flags == byte_1 & 0x0F,
    ;
    if !validate_header_flags(&ptype, flags) {
        return Err(DecodeError::InvalidHeaderFlags);
    }
    if (byte_1 / 2) % 4 == 3 {
        return Err(DecodeError::InvalidHeaderFlags);
    }
    let dup = (byte_1 & 0x08) == 8;
    let retain = (byte_1 & 0x01) == 1;
    assert(((byte_1 & 0x08) == 8) == ((byte_1 / 8) % 2 == 1)) by (bit_vector);
    assert(((byte_1 & 0x01) == 1) == (byte_1 % 2 == 1)) by (bit_vector);
    assert(byte_1 >> 1u8 == byte_1 / 2) by (bit_vector);
    let qos = QoS::from_byte(byte_1, 1);
    let field = slice_subrange(bytes, 1, bytes.len());
    match decode_vlq(field) {
        Err(e) => Err(e),
        Ok((remaining_bytes, k)) => {
            if k == 4 && field[3] >= 128 {
                return Err(DecodeError::InvalidVlqEncoding);
            }
            let end = if bytes.len() - 1 - k < remaining_bytes as usize {
                bytes.len()
            } else {
                1 + k + remaining_bytes as usize
            };
            let body = slice_to_vec(slice_subrange(bytes, 1 + k, end));
            Ok(
                FixedHeader {
                    packet_type: ptype,
                    dup: dup,
                    qos: qos,
                    retain: retain,
                    remaining_bytes: remaining_bytes,
                    payload: body,
                },
            )
        },
    }
}

} // verus!
