use vstd::prelude::*;
use vstd::utf8::encode_utf8;

use crate::decode::parse_packet;
use crate::header::{be_u16, header_flags_valid, parse_fixed_header};
use crate::strings::{append_bytes, lemma_string_round_trip, string_bytes, write_string, MAX_STRING_BYTES};
use crate::types::{
    connack_code_byte, connack_code_of, packet_type_code, packet_type_of_code, qos_bits,
    qos_of_bits, ConnAckReturnCode, FixedHeaderModel, MqttPacket, PacketModel, PacketType, QoS,
    VariableHeader, VariableHeaderModel,
};
use crate::vlq::{encode_vlq, lemma_vlq_prefix, vlq_encoding, vlq_size, MAX_REMAINING_LENGTH};

verus! {

/// Why a packet could not be encoded.
#[derive(Debug, Clone, Copy, PartialEq, Eq, Structural)]
pub enum EncodeError {
    /// The packet type is `Reserved`.
    InvalidPacketType,
    /// The dup, QoS and retain bits are not allowed for the packet type.
    InvalidHeaderFlags,
    /// The variable header does not have the shape of the packet type.
    VariableHeaderMismatch,
    /// A CONNACK carries the `Reserved` return code, which has no byte.
    ReservedReturnCode,
    /// A string is longer than 65535 bytes.
    StringTooLong,
    /// The body is longer than the remaining-length field can state.
    PacketTooLarge,
    /// A CONNACK carries payload bytes; it has no payload.
    UnexpectedPayload,
    /// A PUBLISH of QoS `AtMostOnce` carries a packet id other than 0; at
    /// that QoS no packet id is sent.
    UnexpectedPacketId,
    /// A SUBSCRIBE, UNSUBSCRIBE or SUBACK payload would hold no entry.
    EmptyPayload,
    /// The fields of a CONNECT payload that are present do not match the
    /// flags that announce them.
    FieldsDisagreeWithFlags,
}

/// The low nibble of the first byte for the fixed header `h`.
pub open spec fn flags_nibble(h: FixedHeaderModel) -> int {
    (if h.dup {
        8int
    } else {
        0int
    }) + qos_bits(h.qos) * 2 + (if h.retain {
        1int
    } else {
        0int
    })
}

/// The two bytes of a 16-bit integer, most significant first.
pub open spec fn u16_bytes(v: u16) -> Seq<u8> {
    seq![(v / 256) as u8, (v % 256) as u8]
}

/// Whether the variable header `v` has the shape of packet type `t`.
pub open spec fn shape_matches(t: PacketType, v: VariableHeaderModel) -> bool {
    match t {
        PacketType::Connect => v is Connect,
        PacketType::ConnAck => v is ConnAck,
        PacketType::Publish => v is Publish,
        PacketType::PubAck
        | PacketType::PubRec
        | PacketType::PubRel
        | PacketType::PubComp
        | PacketType::Subscribe
        | PacketType::SubAck
        | PacketType::Unsubscribe
        | PacketType::UnsubAck => v is WithPacketId,
        _ => v is Empty,
    }
}

/// The bytes of the variable header `v` in a packet of QoS `qos`; a PUBLISH
/// carries its packet id only when the QoS is not `AtMostOnce`.
pub open spec fn variable_header_bytes(qos: QoS, v: VariableHeaderModel) -> Seq<u8> {
    match v {
        VariableHeaderModel::Empty => Seq::empty(),
        VariableHeaderModel::Connect(h) => string_bytes(h.protocol_name) + seq![
            h.protocol_level,
            h.flag_bits,
        ] + u16_bytes(h.keep_alive),
        VariableHeaderModel::ConnAck(h) => seq![h.flags, connack_code_byte(h.return_code)],
        VariableHeaderModel::Publish(h) => string_bytes(h.topic_name) + if qos is AtMostOnce {
            Seq::empty()
        } else {
            u16_bytes(h.packet_id)
        },
        VariableHeaderModel::WithPacketId(id) => u16_bytes(id),
    }
}

/// Whether every string of the variable header fits a two-byte length prefix.
pub open spec fn strings_fit(v: VariableHeaderModel) -> bool {
    match v {
        VariableHeaderModel::Connect(h) => encode_utf8(h.protocol_name).len() <= MAX_STRING_BYTES,
        VariableHeaderModel::Publish(h) => encode_utf8(h.topic_name).len() <= MAX_STRING_BYTES,
        _ => true,
    }
}

/// The body of packet `p`: its variable header, then its payload.
pub open spec fn body_bytes(p: PacketModel) -> Seq<u8> {
    variable_header_bytes(p.header.qos, p.var_header) + p.payload
}

/// The frame of packet `p`, or why it has none. The fixed header's own copy
/// of the body and its remaining length are not read: both follow from the
/// variable header and the payload.
pub open spec fn encode_spec(p: PacketModel) -> Result<Seq<u8>, EncodeError> {
    let h = p.header;
    if h.packet_type is Reserved {
        Err(EncodeError::InvalidPacketType)
    } else if !header_flags_valid(h.packet_type, flags_nibble(h)) || h.qos is Reserved {
        Err(EncodeError::InvalidHeaderFlags)
    } else if !shape_matches(h.packet_type, p.var_header) {
        Err(EncodeError::VariableHeaderMismatch)
    } else if p.var_header is ConnAck && p.var_header->ConnAck_0.return_code is Reserved {
        Err(EncodeError::ReservedReturnCode)
    } else if p.var_header is ConnAck && p.payload.len() != 0 {
        Err(EncodeError::UnexpectedPayload)
    } else if p.var_header is Publish && h.qos is AtMostOnce && p.var_header->Publish_0.packet_id
        != 0 {
        Err(EncodeError::UnexpectedPacketId)
    } else if !strings_fit(p.var_header) {
        Err(EncodeError::StringTooLong)
    } else if body_bytes(p).len() > MAX_REMAINING_LENGTH {
        Err(EncodeError::PacketTooLarge)
    } else {
        Ok(
            seq![(packet_type_code(h.packet_type) * 16 + flags_nibble(h)) as u8] + vlq_encoding(
                body_bytes(p).len(),
            ) + body_bytes(p),
        )
    }
}

/// The packet that decoding the frame of `p` gives: `p` with the fixed
/// header's copy of the body, and its length, taken from the encoding.
pub open spec fn decoded_form(p: PacketModel) -> PacketModel {
    PacketModel {
        header: FixedHeaderModel {
            packet_type: p.header.packet_type,
            dup: p.header.dup,
            qos: p.header.qos,
            retain: p.header.retain,
            remaining_bytes: body_bytes(p).len() as u32,
            payload: body_bytes(p),
        },
        var_header: p.var_header,
        payload: p.payload,
    }
}

/// Whether the fixed header of `p` holds its body and the body's length, as
/// the fixed header of every decoded packet does.
pub open spec fn consistent(p: PacketModel) -> bool {
    &&& p.header.payload == body_bytes(p)
    &&& p.header.remaining_bytes == body_bytes(p).len()
}

fn type_code(t: PacketType) -> (r: u8)
    ensures
        r == packet_type_code(t),
{
    match t {
        PacketType::Connect => 1,
        PacketType::ConnAck => 2,
        PacketType::Publish => 3,
        PacketType::PubAck => 4,
        PacketType::PubRec => 5,
        PacketType::PubRel => 6,
        PacketType::PubComp => 7,
        PacketType::Subscribe => 8,
        PacketType::SubAck => 9,
        PacketType::Unsubscribe => 10,
        PacketType::UnsubAck => 11,
        PacketType::PingReq => 12,
        PacketType::PingResp => 13,
        PacketType::Disconnect => 14,
        PacketType::Reserved => 0,
    }
}

pub(crate) fn qos_value(q: QoS) -> (r: u8)
    ensures
        r == qos_bits(q),
{
    match q {
        QoS::AtMostOnce => 0,
        QoS::AtLeastOnce => 1,
        QoS::ExactlyOnce => 2,
        QoS::Reserved => 3,
    }
}

fn push_u16(out: &mut Vec<u8>, v: u16)
    ensures
        final(out)@ == old(out)@ + u16_bytes(v),
{
    out.push((v / 256) as u8);
    out.push((v % 256) as u8);
    assert(out@ =~= old(out)@ + u16_bytes(v));
}

/// Encodes packet `p` into one frame: the first byte from the packet type and
/// the dup, QoS and retain bits, the remaining length, the variable header
/// and the payload.
pub fn encode_packet(p: &MqttPacket) -> (r: Result<Vec<u8>, EncodeError>)
    ensures
        match encode_spec(p@) {
            Ok(b) => r is Ok && r->Ok_0@ == b,
            Err(e) => r == Err::<Vec<u8>, EncodeError>(e),
        },
{
    let h = &p.header;
    if h.packet_type == PacketType::Reserved {
        return Err(EncodeError::InvalidPacketType);
    }
    let nibble: u8 = (if h.dup {
        8u8
    } else {
        0u8
    }) + qos_value(h.qos) * 2 + (if h.retain {
        1u8
    } else {
        0u8
    });
    let flags_ok = match h.packet_type {
        PacketType::Publish => true,
        PacketType::PubRel | PacketType::Subscribe | PacketType::Unsubscribe => nibble == 0x02,
        _ => nibble == 0x00,
    };
    if !flags_ok || h.qos == QoS::Reserved {
        return Err(EncodeError::InvalidHeaderFlags);
    }
    let shape_ok = match h.packet_type {
        PacketType::Connect => matches!(p.var_header, VariableHeader::Connect(_)),
        PacketType::ConnAck => matches!(p.var_header, VariableHeader::ConnAck(_)),
        PacketType::Publish => matches!(p.var_header, VariableHeader::Publish(_)),
        PacketType::PubAck
        | PacketType::PubRec
        | PacketType::PubRel
        | PacketType::PubComp
        | PacketType::Subscribe
        | PacketType::SubAck
        | PacketType::Unsubscribe
        | PacketType::UnsubAck => matches!(p.var_header, VariableHeader::WithPacketId(_)),
        _ => matches!(p.var_header, VariableHeader::Empty),
    };
    if !shape_ok {
        return Err(EncodeError::VariableHeaderMismatch);
    }
    let mut body: Vec<u8> = Vec::new();
    match &p.var_header {
        VariableHeader::Empty => {},
        VariableHeader::Connect(c) => {
            if c.protocol_name.as_str().as_bytes().len() > MAX_STRING_BYTES {
                return Err(EncodeError::StringTooLong);
            }
            write_string(&mut body, &c.protocol_name);
            body.push(c.protocol_level);
            body.push(c.flag_bits);
            push_u16(&mut body, c.keep_alive);
        },
        VariableHeader::ConnAck(c) => {
            if c.return_code == ConnAckReturnCode::Reserved {
                return Err(EncodeError::ReservedReturnCode);
            }
            if p.payload.len() != 0 {
                return Err(EncodeError::UnexpectedPayload);
            }
            body.push(c.flags);
            body.push(c.return_code.to_byte());
        },
        VariableHeader::Publish(c) => {
            if h.qos == QoS::AtMostOnce && c.packet_id != 0 {
                return Err(EncodeError::UnexpectedPacketId);
            }
            if c.topic_name.as_str().as_bytes().len() > MAX_STRING_BYTES {
                return Err(EncodeError::StringTooLong);
            }
            write_string(&mut body, &c.topic_name);
            if h.qos != QoS::AtMostOnce {
                push_u16(&mut body, c.packet_id);
            }
        },
        VariableHeader::WithPacketId(id) => {
            push_u16(&mut body, *id);
        },
    }
    assert(body@ == variable_header_bytes(p@.header.qos, p@.var_header)) by {
        match p@.var_header {
            VariableHeaderModel::Connect(c) => {
                assert(body@ =~= string_bytes(c.protocol_name) + seq![c.protocol_level, c.flag_bits]
                    + u16_bytes(c.keep_alive));
            },
            VariableHeaderModel::ConnAck(c) => {
                assert(body@ =~= seq![c.flags, connack_code_byte(c.return_code)]);
            },
            VariableHeaderModel::Publish(c) => {
                if !(p@.header.qos is AtMostOnce) {
                    assert(body@ =~= string_bytes(c.topic_name) + u16_bytes(c.packet_id));
                } else {
                    assert(body@ =~= string_bytes(c.topic_name) + Seq::<u8>::empty());
                }
            },
            _ => {},
        }
    }
    append_bytes(&mut body, p.payload.as_slice());
    if body.len() > MAX_REMAINING_LENGTH as usize {
        return Err(EncodeError::PacketTooLarge);
    }
    let first: u8 = type_code(h.packet_type) * 16 + nibble;
    let mut out: Vec<u8> = Vec::new();
    out.push(first);
    let field = encode_vlq(body.len() as u32);
    append_bytes(&mut out, field.as_slice());
    append_bytes(&mut out, body.as_slice());
    Ok(out)
}

proof fn lemma_u16_bytes(v: u16)
    ensures
        be_u16(u16_bytes(v)[0], u16_bytes(v)[1]) == v,
{
    assert(v == (v / 256) * 256 + v % 256);
}

proof fn lemma_first_byte(code: int, d: int, q: int, r: int)
    requires
        0 <= code < 16,
        0 <= d <= 1,
        0 <= q < 4,
        0 <= r <= 1,
    ensures
        ({
            let b = code * 16 + d * 8 + q * 2 + r;
            &&& b / 16 == code
            &&& b % 16 == d * 8 + q * 2 + r
            &&& (b / 8) % 2 == d
            &&& (b / 2) % 4 == q
            &&& b % 2 == r
        }),
{
    let b = code * 16 + d * 8 + q * 2 + r;
    assert(b / 16 == code) by (nonlinear_arith)
        requires b == code * 16 + d * 8 + q * 2 + r, 0 <= d * 8 + q * 2 + r < 16;
    assert(b / 8 == code * 2 + d) by (nonlinear_arith)
        requires b == code * 16 + d * 8 + q * 2 + r, 0 <= q * 2 + r < 8, 0 <= d <= 1;
    assert(b / 2 == code * 8 + d * 4 + q) by (nonlinear_arith)
        requires b == code * 16 + d * 8 + q * 2 + r, 0 <= r <= 1;
}

proof fn lemma_fixed_header_round_trip(p: PacketModel)
    requires
        encode_spec(p) is Ok,
    ensures
        parse_fixed_header(encode_spec(p)->Ok_0) == Ok::<FixedHeaderModel, crate::types::DecodeError>(
            decoded_form(p).header,
        ),
{
    let h = decoded_form(p).header;
    let s = encode_spec(p)->Ok_0;
    let body = body_bytes(p);
    let len = body.len();
    let code = packet_type_code(h.packet_type);
    let d: int = if h.dup { 1 } else { 0 };
    let r: int = if h.retain { 1 } else { 0 };
    let q = qos_bits(h.qos);
    lemma_first_byte(code, d, q, r);
    assert(s[0] as int == code * 16 + d * 8 + q * 2 + r);
    assert(packet_type_of_code(code) == h.packet_type);
    assert(qos_of_bits(q) == h.qos);
    lemma_vlq_prefix(len, body);
    let field = s.subrange(1, s.len() as int);
    assert(field =~= vlq_encoding(len) + body);
    let k = vlq_size(len);
    assert(s.subrange(1 + k as int, s.len() as int) =~= body);
    let m = parse_fixed_header(s)->Ok_0;
    assert(m =~= h);
}

proof fn lemma_variable_header_round_trip(p: PacketModel)
    requires
        encode_spec(p) is Ok,
    ensures
        crate::decode::parse_variable_header(decoded_form(p).header) == Ok::<
            (VariableHeaderModel, Seq<u8>),
            crate::types::DecodeError,
        >((p.var_header, p.payload)),
{
    let b = body_bytes(p);
    match p.var_header {
        VariableHeaderModel::Connect(c) => {
            let rest = seq![c.protocol_level, c.flag_bits] + u16_bytes(c.keep_alive) + p.payload;
            assert(b =~= string_bytes(c.protocol_name) + rest);
            lemma_string_round_trip(c.protocol_name, rest);
            let n = string_bytes(c.protocol_name).len() as int;
            lemma_u16_bytes(c.keep_alive);
            assert(b[n] == c.protocol_level);
            assert(b[n + 1] == c.flag_bits);
            assert(b[n + 2] == u16_bytes(c.keep_alive)[0]);
            assert(b[n + 3] == u16_bytes(c.keep_alive)[1]);
            assert(b.subrange(n + 4, b.len() as int) =~= p.payload);
        },
        VariableHeaderModel::ConnAck(c) => {
            assert(b =~= seq![c.flags, connack_code_byte(c.return_code)]);
            assert(connack_code_of(connack_code_byte(c.return_code)) == c.return_code);
            assert(p.payload =~= Seq::<u8>::empty());
        },
        VariableHeaderModel::Publish(c) => {
            let tail = if p.header.qos is AtMostOnce {
                Seq::<u8>::empty()
            } else {
                u16_bytes(c.packet_id)
            };
            let rest = tail + p.payload;
            assert(b =~= string_bytes(c.topic_name) + rest);
            lemma_string_round_trip(c.topic_name, rest);
            let n = string_bytes(c.topic_name).len() as int;
            lemma_u16_bytes(c.packet_id);
            if p.header.qos is AtMostOnce {
                assert(b.subrange(n, b.len() as int) =~= p.payload);
            } else {
                assert(b[n] == u16_bytes(c.packet_id)[0]);
                assert(b[n + 1] == u16_bytes(c.packet_id)[1]);
                assert(b.subrange(n + 2, b.len() as int) =~= p.payload);
            }
        },
        VariableHeaderModel::WithPacketId(id) => {
            lemma_u16_bytes(id);
            assert(b =~= u16_bytes(id) + p.payload);
            assert(b.subrange(2, b.len() as int) =~= p.payload);
        },
        VariableHeaderModel::Empty => {
            assert(b =~= p.payload);
        },
    }
}

/// Decoding the frame that encodes a packet gives the packet back, but for
/// the fixed header's own copy of the body and its length, which come from
/// the encoding.
pub proof fn lemma_decode_encode(p: PacketModel)
    requires
        encode_spec(p) is Ok,
    ensures
        parse_packet(encode_spec(p)->Ok_0) == Ok::<PacketModel, crate::types::DecodeError>(
            decoded_form(p),
        ),
{
    lemma_fixed_header_round_trip(p);
    lemma_variable_header_round_trip(p);
}

/// Decoding the frame that encodes a packet gives the packet back, for every
/// packet that encodes and whose fixed header holds its body and the body's
/// length.
pub proof fn lemma_packet_round_trip(p: PacketModel)
    requires
        encode_spec(p) is Ok,
        consistent(p),
    ensures
        parse_packet(encode_spec(p)->Ok_0) == Ok::<PacketModel, crate::types::DecodeError>(p),
{
    lemma_decode_encode(p);
    assert(decoded_form(p).header =~= p.header);
}

} // verus!
