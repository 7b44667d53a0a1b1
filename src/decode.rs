use vstd::prelude::*;
use vstd::slice::{slice_subrange, slice_to_vec};

use crate::header::{be_u16, parse_fixed_header, read_header, to_u16};
use crate::strings::{parse_string, read_string};
use crate::types::{
    connack_code_of, matches_model, ConnAckHeader, ConnAckReturnCode, ConnectHeader,
    ConnectHeaderModel, DecodeError, FixedHeader, FixedHeaderModel, MqttPacket, PacketModel,
    PacketType, PublishHeader, PublishHeaderModel, QoS, VariableHeader, VariableHeaderModel,
};

verus! {

/// The variable header of a packet with fixed header `h`, and the bytes of
/// the body that follow it. A header of the reserved type never yields a
/// packet.
pub open spec fn parse_variable_header(h: FixedHeaderModel) -> Result<
    (VariableHeaderModel, Seq<u8>),
    DecodeError,
> {
    let b = h.payload;
    match h.packet_type {
        PacketType::Connect => match parse_string(b) {
            Err(e) => Err(e),
            Ok((name, n)) => if b.len() < n + 4 {
                Err(DecodeError::MalformedBody)
            } else {
                Ok(
                    (
                        VariableHeaderModel::Connect(
                            ConnectHeaderModel {
                                protocol_name: name,
                                protocol_level: b[n],
                                flag_bits: b[n + 1],
                                keep_alive: be_u16(b[n + 2], b[n + 3]),
                            },
                        ),
                        b.subrange(n + 4, b.len() as int),
                    ),
                )
            },
        },
        PacketType::ConnAck => if b.len() != 2 {
            Err(DecodeError::MalformedBody)
        } else {
            Ok(
                (
                    VariableHeaderModel::ConnAck(
                        ConnAckHeader { flags: b[0], return_code: connack_code_of(b[1]) },
                    ),
                    Seq::empty(),
                ),
            )
        },
        PacketType::Publish => match parse_string(b) {
            Err(e) => Err(e),
            Ok((topic, n)) => if h.qos is AtMostOnce {
                Ok(
                    (
                        VariableHeaderModel::Publish(
                            PublishHeaderModel { topic_name: topic, packet_id: 0 },
                        ),
                        b.subrange(n, b.len() as int),
                    ),
                )
            } else if b.len() < n + 2 {
                Err(DecodeError::MalformedBody)
            } else {
                Ok(
                    (
                        VariableHeaderModel::Publish(
                            PublishHeaderModel { topic_name: topic, packet_id: be_u16(b[n], b[n + 1]) },
                        ),
                        b.subrange(n + 2, b.len() as int),
                    ),
                )
            },
        },
        PacketType::PubAck
        | PacketType::PubRec
        | PacketType::PubRel
        | PacketType::PubComp
        | PacketType::Subscribe
        | PacketType::SubAck
        | PacketType::Unsubscribe
        | PacketType::UnsubAck => if b.len() < 2 {
            Err(DecodeError::MalformedBody)
        } else {
            Ok((VariableHeaderModel::WithPacketId(be_u16(b[0], b[1])), b.subrange(2, b.len() as int)))
        },
        PacketType::PingReq | PacketType::PingResp | PacketType::Disconnect => Ok(
            (VariableHeaderModel::Empty, b),
        ),
        PacketType::Reserved => Err(DecodeError::InvalidPacketType),
    }
}

/// The packet whose fixed header and body are `h`.
pub open spec fn packet_of_header(h: FixedHeaderModel) -> Result<PacketModel, DecodeError> {
    match parse_variable_header(h) {
        Err(e) => Err(e),
        Ok((v, p)) => Ok(PacketModel { header: h, var_header: v, payload: p }),
    }
}

/// The packet that the frame `s` holds.
pub open spec fn parse_packet(s: Seq<u8>) -> Result<PacketModel, DecodeError> {
    match parse_fixed_header(s) {
        Err(e) => Err(e),
        Ok(h) => packet_of_header(h),
    }
}

/// Splits the body of `header` into the variable header of its packet type
/// and the payload that follows.
pub fn construct_packet(header: FixedHeader) -> (r: Result<MqttPacket, DecodeError>)
    ensures
        matches_model(r, packet_of_header(header@)),
{
    let ghost h = header@;
    let (var_header, payload) = {
        let b = header.payload.as_slice();
        let len = b.len();
        assert(b@.subrange(0, len as int) =~= b@);
        match header.packet_type {
            PacketType::Connect => {
                let (name, n) = match read_string(b, 0) {
                    Ok(x) => x,
                    Err(e) => {
                        return Err(e);
                    },
                };
                if len - n < 4 {
                    return Err(DecodeError::MalformedBody);
                }
                let vh = VariableHeader::Connect(
                    ConnectHeader {
                        protocol_name: name,
                        protocol_level: b[n],
                        flag_bits: b[n + 1],
                        keep_alive: to_u16(b[n + 2], b[n + 3]),
                    },
                );
                (vh, slice_to_vec(slice_subrange(b, n + 4, len)))
            },
            PacketType::ConnAck => {
                if len != 2 {
                    return Err(DecodeError::MalformedBody);
                }
                let vh = VariableHeader::ConnAck(
                    ConnAckHeader { flags: b[0], return_code: ConnAckReturnCode::from_byte(b[1]) },
                );
                (vh, Vec::new())
            },
            PacketType::Publish => {
                let (topic, n) = match read_string(b, 0) {
                    Ok(x) => x,
                    Err(e) => {
                        return Err(e);
                    },
                };
                if header.qos == QoS::AtMostOnce {
                    let vh = VariableHeader::Publish(PublishHeader { topic_name: topic, packet_id: 0 });
                    (vh, slice_to_vec(slice_subrange(b, n, len)))
                } else {
                    if len - n < 2 {
                        return Err(DecodeError::MalformedBody);
                    }
                    let vh = VariableHeader::Publish(
                        PublishHeader { topic_name: topic, packet_id: to_u16(b[n], b[n + 1]) },
                    );
                    (vh, slice_to_vec(slice_subrange(b, n + 2, len)))
                }
            },
            PacketType::PubAck
            | PacketType::PubRec
            | PacketType::PubRel
            | PacketType::PubComp
            | PacketType::Subscribe
            | PacketType::SubAck
            | PacketType::Unsubscribe
            | PacketType::UnsubAck => {
                if len < 2 {
                    return Err(DecodeError::MalformedBody);
                }
                (VariableHeader::WithPacketId(to_u16(b[0], b[1])), slice_to_vec(slice_subrange(b, 2, len)))
            },
            PacketType::PingReq | PacketType::PingResp | PacketType::Disconnect => (
                VariableHeader::Empty,
                slice_to_vec(b),
            ),
            PacketType::Reserved => {
                return Err(DecodeError::InvalidPacketType);
            },
        }
    };
    Ok(MqttPacket { header: header, var_header: var_header, payload: payload })
}

/// Decodes one complete frame into a packet.
pub fn read_packet(bytes: &[u8]) -> (r: Result<MqttPacket, DecodeError>)
    ensures
        matches_model(r, parse_packet(bytes@)),
{
    match read_header(bytes) {
        Ok(h) => construct_packet(h),
        Err(e) => Err(e),
    }
}

} // verus!
