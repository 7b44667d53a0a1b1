//! Codec for the control packets of an MQTT-style publish/subscribe protocol:
//! the variable-length "remaining length" integer, the fixed header, the
//! per-type variable headers and payloads, an encoder that inverts the decoder,
//! and an incremental frame assembler for byte streams.

pub mod assembler;
pub mod decode;
pub mod encode;
pub mod header;
pub mod payload;
pub mod payload_encode;
pub mod strings;
pub mod types;
pub mod vlq;

pub use assembler::{FrameAssembler, Progress};
pub use decode::{construct_packet, read_packet};
pub use encode::{encode_packet, EncodeError};
pub use payload_encode::{
    encode_connect_payload, encode_suback_payload, encode_subscribe_payload,
    encode_unsubscribe_payload,
};
pub use header::{read_header, read_packet_type, to_u16, validate_header_flags};
pub use strings::read_string;
pub use types::{
    ConnAckHeader, ConnAckReturnCode, ConnectHeader, ConnectPayload, DecodeError, FixedHeader,
    MqttPacket, PacketType, PublishHeader, QoS, SubAckPayload, SubAckReturnCode, SubscribePayload,
    UnsubscribePayload, VariableHeader,
};
pub use vlq::{decode_vlq, encode_vlq, MAX_REMAINING_LENGTH};
