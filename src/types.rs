use vstd::prelude::*;

verus! {

/// The kind of a control packet, taken from the high nibble of its first byte.
#[derive(Debug, Clone, Copy, PartialEq, Eq, Structural)]
pub enum PacketType {
    Connect,
    ConnAck,
    Publish,
    PubAck,
    PubRec,
    PubRel,
    PubComp,
    Subscribe,
    SubAck,
    Unsubscribe,
    UnsubAck,
    PingReq,
    PingResp,
    Disconnect,
    Reserved,
}

/// Delivery guarantee, carried on the wire in two bits.
#[derive(Debug, Clone, Copy, PartialEq, Eq, Structural)]
pub enum QoS {
    AtMostOnce,
    AtLeastOnce,
    ExactlyOnce,
    Reserved,
}

/// The packet type whose code is `n` (the high nibble of the first byte).
pub open spec fn packet_type_of_code(n: int) -> PacketType {
    if n == 1 {
        PacketType::Connect
    } else if n == 2 {
        PacketType::ConnAck
    } else if n == 3 {
        PacketType::Publish
    } else if n == 4 {
        PacketType::PubAck
    } else if n == 5 {
        PacketType::PubRec
    } else if n == 6 {
        PacketType::PubRel
    } else if n == 7 {
        PacketType::PubComp
    } else if n == 8 {
        PacketType::Subscribe
    } else if n == 9 {
        PacketType::SubAck
    } else if n == 10 {
        PacketType::Unsubscribe
    } else if n == 11 {
        PacketType::UnsubAck
    } else if n == 12 {
        PacketType::PingReq
    } else if n == 13 {
        PacketType::PingResp
    } else if n == 14 {
        PacketType::Disconnect
    } else {
        PacketType::Reserved
    }
}

/// The wire code of a packet type; `Reserved` stands for code 0.
pub open spec fn packet_type_code(t: PacketType) -> int {
    match t {
        PacketType::Connect => 1,
        PacketType::ConnAck => 2,
        PacketType::Publish => 3,
        PacketType::PubAck => 4,
        PacketType::PubRec => 5,
        PacketType::PubRel => 6,
        PacketType::PubComp => 7,
        PacketType::Subscribe => 8,
        PacketType::SubAck => 9,
        PacketType::Unsubscribe => 10,
        PacketType::UnsubAck => 11,
        PacketType::PingReq => 12,
        PacketType::PingResp => 13,
        PacketType::Disconnect => 14,
        PacketType::Reserved => 0,
    }
}

/// The QoS level whose two-bit value is `v % 4`.
pub open spec fn qos_of_bits(v: int) -> QoS {
    if v % 4 == 0 {
        QoS::AtMostOnce
    } else if v % 4 == 1 {
        QoS::AtLeastOnce
    } else if v % 4 == 2 {
        QoS::ExactlyOnce
    } else {
        QoS::Reserved
    }
}

/// The two-bit value of a QoS level.
pub open spec fn qos_bits(q: QoS) -> int {
    match q {
        QoS::AtMostOnce => 0,
        QoS::AtLeastOnce => 1,
        QoS::ExactlyOnce => 2,
        QoS::Reserved => 3,
    }
}

impl QoS {
    /// The QoS level held in bits `right_shift` and `right_shift + 1` of `byte`.
    pub fn from_byte(byte: u8, right_shift: u8) -> (r: QoS)
        requires
            right_shift < 7,
        ensures
            r == qos_of_bits((byte >> right_shift) as int),
    {
        let bits: u8 = (byte >> right_shift) & 0x03;
        assert(bits as int == (byte >> right_shift) as int % 4) by (bit_vector)
            requires
                bits == (byte >> right_shift) & 0x03,
        ;
        match bits {
            0 => QoS::AtMostOnce,
            1 => QoS::AtLeastOnce,
            2 => QoS::ExactlyOnce,
            _ => QoS::Reserved,
        }
    }
}


/// Why a byte sequence could not be decoded.
#[derive(Debug, Clone, Copy, PartialEq, Eq, Structural)]
pub enum DecodeError {
    /// The high nibble of the first byte is 0 or 15.
    InvalidPacketType,
    /// The low nibble of the first byte is not allowed for the packet type.
    InvalidHeaderFlags,
    /// The fourth byte of the remaining-length field still has its continuation bit set.
    InvalidVlqEncoding,
    /// The stream closed in the middle of a frame.
    TruncatedFrame,
    /// The bytes of a length-prefixed string are not valid UTF-8.
    InvalidUtf8,
    /// A CONNECT payload field that the flags require is absent or cut short.
    MissingRequiredField,
    /// A SUBSCRIBE, UNSUBSCRIBE or SUBACK payload holds no entry.
    EmptyPayload,
    /// A field of the body runs past the end of the body, or the body does not
    /// have the size that its packet type prescribes.
    MalformedBody,
    /// The buffer ends before the fixed header does: it holds fewer than two
    /// bytes, or ends inside the remaining-length field.
    IncompleteHeader,
    /// A payload was requested of a packet of another type.
    UnexpectedPacketType,
}

/// The variable header of a CONNECT packet.
#[derive(Debug, Clone, PartialEq)]
pub struct ConnectHeader {
    pub protocol_name: String,
    pub protocol_level: u8,
    pub flag_bits: u8,
    pub keep_alive: u16,
}

/// What a `ConnectHeader` holds, with the protocol name as characters.
pub struct ConnectHeaderModel {
    pub protocol_name: Seq<char>,
    pub protocol_level: u8,
    pub flag_bits: u8,
    pub keep_alive: u16,
}

impl View for ConnectHeader {
    type V = ConnectHeaderModel;

    open spec fn view(&self) -> ConnectHeaderModel {
        ConnectHeaderModel {
            protocol_name: self.protocol_name@,
            protocol_level: self.protocol_level,
            flag_bits: self.flag_bits,
            keep_alive: self.keep_alive,
        }
    }
}

/// Connect flag: a user name follows in the payload.
pub const USERNAME_FLAG: u8 = 0x80;

/// Connect flag: a password follows in the payload.
pub const PASSWORD_FLAG: u8 = 0x40;

/// Connect flag: the will message is to be retained.
pub const WILL_RETAIN_FLAG: u8 = 0x20;

/// Connect flag: a will topic and a will message follow in the payload.
pub const WILL_FLAG: u8 = 0x04;

/// Connect flag: the session starts clean.
pub const CLEAN_SESSION_FLAG: u8 = 0x02;

/// True when every bit of `mask` is set in `bits`.
pub open spec fn has_flag(bits: u8, mask: u8) -> bool {
    bits & mask == mask
}

impl ConnectHeader {
    pub fn get_flag(&self, mask: u8) -> (r: bool)
        ensures
            r == has_flag(self.flag_bits, mask),
    {
        (self.flag_bits & mask) == mask
    }

    pub fn has_username_flag(&self) -> (r: bool)
        ensures
            r == has_flag(self.flag_bits, USERNAME_FLAG),
    {
        self.get_flag(USERNAME_FLAG)
    }

    pub fn has_password_flag(&self) -> (r: bool)
        ensures
            r == has_flag(self.flag_bits, PASSWORD_FLAG),
    {
        self.get_flag(PASSWORD_FLAG)
    }

    pub fn will_retain(&self) -> (r: bool)
        ensures
            r == has_flag(self.flag_bits, WILL_RETAIN_FLAG),
    {
        self.get_flag(WILL_RETAIN_FLAG)
    }

    /// The QoS of the will message, held in bits 3 and 4 of the flags.
    pub fn will_qos(&self) -> (r: QoS)
        ensures
            r == qos_of_bits((self.flag_bits >> 3u8) as int),
    {
        QoS::from_byte(self.flag_bits, 3)
    }

    pub fn has_will_flag(&self) -> (r: bool)
        ensures
            r == has_flag(self.flag_bits, WILL_FLAG),
    {
        self.get_flag(WILL_FLAG)
    }

    pub fn clean_session(&self) -> (r: bool)
        ensures
            r == has_flag(self.flag_bits, CLEAN_SESSION_FLAG),
    {
        self.get_flag(CLEAN_SESSION_FLAG)
    }
}

/// The payload of a CONNECT packet; which optional fields are present is
/// dictated by the flags of its variable header.
#[derive(Debug, Clone, PartialEq)]
pub struct ConnectPayload {
    pub client_id: String,
    pub will_topic: Option<String>,
    pub will_message: Option<String>,
    pub username: Option<String>,
    pub password: Option<String>,
}

/// What a `ConnectPayload` holds, with each string as characters.
pub struct ConnectPayloadModel {
    pub client_id: Seq<char>,
    pub will_topic: Option<Seq<char>>,
    pub will_message: Option<Seq<char>>,
    pub username: Option<Seq<char>>,
    pub password: Option<Seq<char>>,
}

/// The characters of an optional string.
pub open spec fn opt_view(s: Option<String>) -> Option<Seq<char>> {
    match s {
        Some(x) => Some(x@),
        None => None,
    }
}

impl View for ConnectPayload {
    type V = ConnectPayloadModel;

    open spec fn view(&self) -> ConnectPayloadModel {
        ConnectPayloadModel {
            client_id: self.client_id@,
            will_topic: opt_view(self.will_topic),
            will_message: opt_view(self.will_message),
            username: opt_view(self.username),
            password: opt_view(self.password),
        }
    }
}

/// The answer of a server to a CONNECT packet.
#[derive(Debug, Clone, Copy, PartialEq, Eq, Structural)]
pub enum ConnAckReturnCode {
    Accepted,
    UnacceptableProtocol,
    IdentifierRejected,
    ServerUnavailable,
    BadAuth,
    NotAuthorized,
    Reserved,
}

/// The return code carried by byte `b`.
pub open spec fn connack_code_of(b: u8) -> ConnAckReturnCode {
    if b == 0 {
        ConnAckReturnCode::Accepted
    } else if b == 1 {
        ConnAckReturnCode::UnacceptableProtocol
    } else if b == 2 {
        ConnAckReturnCode::IdentifierRejected
    } else if b == 3 {
        ConnAckReturnCode::ServerUnavailable
    } else if b == 4 {
        ConnAckReturnCode::BadAuth
    } else if b == 5 {
        ConnAckReturnCode::NotAuthorized
    } else {
        ConnAckReturnCode::Reserved
    }
}

/// The byte of a return code other than `Reserved`.
pub open spec fn connack_code_byte(c: ConnAckReturnCode) -> u8 {
    match c {
        ConnAckReturnCode::Accepted => 0,
        ConnAckReturnCode::UnacceptableProtocol => 1,
        ConnAckReturnCode::IdentifierRejected => 2,
        ConnAckReturnCode::ServerUnavailable => 3,
        ConnAckReturnCode::BadAuth => 4,
        ConnAckReturnCode::NotAuthorized => 5,
        ConnAckReturnCode::Reserved => 0xff,
    }
}

impl ConnAckReturnCode {
    pub fn from_byte(value: u8) -> (r: ConnAckReturnCode)
        ensures
            r == connack_code_of(value),
    {
        match value {
            0 => ConnAckReturnCode::Accepted,
            1 => ConnAckReturnCode::UnacceptableProtocol,
            2 => ConnAckReturnCode::IdentifierRejected,
            3 => ConnAckReturnCode::ServerUnavailable,
            4 => ConnAckReturnCode::BadAuth,
            5 => ConnAckReturnCode::NotAuthorized,
            _ => ConnAckReturnCode::Reserved,
        }
    }

    /// The wire byte of the code; `Reserved` has none.
    pub fn to_byte(self) -> (r: u8)
        requires
            !(self is Reserved),
        ensures
            r == connack_code_byte(self),
    {
        match self {
            ConnAckReturnCode::Accepted => 0,
            ConnAckReturnCode::UnacceptableProtocol => 1,
            ConnAckReturnCode::IdentifierRejected => 2,
            ConnAckReturnCode::ServerUnavailable => 3,
            ConnAckReturnCode::BadAuth => 4,
            ConnAckReturnCode::NotAuthorized => 5,
            ConnAckReturnCode::Reserved => 0xff,
        }
    }
}

/// Each return code other than `Reserved` is read back from its own byte, and
/// each byte up to 5 is the byte of the code read from it.
pub proof fn lemma_connack_code_round_trip(c: ConnAckReturnCode, b: u8)
    ensures
        !(c is Reserved) ==> connack_code_of(connack_code_byte(c)) == c,
        b <= 5 ==> connack_code_byte(connack_code_of(b)) == b,
        connack_code_of(b) is Reserved <==> b > 5,
{
}

/// The variable header of a CONNACK packet.
#[derive(Debug, Clone, Copy, PartialEq, Eq, Structural)]
pub struct ConnAckHeader {
    pub flags: u8,
    pub return_code: ConnAckReturnCode,
}

impl ConnAckHeader {
    /// Bit 0 of the flags.
    pub fn session_present(&self) -> (r: bool)
        ensures
            r == (self.flags % 2 == 1),
    {
        let f = self.flags;
        assert((f & 0x01 == 0x01) == (f % 2 == 1)) by (bit_vector);
        self.flags & 0x01 == 0x01
    }
}

/// The variable header of a PUBLISH packet; `packet_id` is 0 when the QoS is
/// `AtMostOnce`.
#[derive(Debug, Clone, PartialEq)]
pub struct PublishHeader {
    pub topic_name: String,
    pub packet_id: u16,
}

/// What a `PublishHeader` holds, with the topic as characters.
pub struct PublishHeaderModel {
    pub topic_name: Seq<char>,
    pub packet_id: u16,
}

impl View for PublishHeader {
    type V = PublishHeaderModel;

    open spec fn view(&self) -> PublishHeaderModel {
        PublishHeaderModel { topic_name: self.topic_name@, packet_id: self.packet_id }
    }
}

/// The variable header of a packet; its shape is fixed by the packet type.
#[derive(Debug, Clone, PartialEq)]
pub enum VariableHeader {
    Empty,
    Connect(ConnectHeader),
    ConnAck(ConnAckHeader),
    Publish(PublishHeader),
    WithPacketId(u16),
}

/// What a `VariableHeader` holds, with each string as characters.
pub enum VariableHeaderModel {
    Empty,
    Connect(ConnectHeaderModel),
    ConnAck(ConnAckHeader),
    Publish(PublishHeaderModel),
    WithPacketId(u16),
}

impl View for VariableHeader {
    type V = VariableHeaderModel;

    open spec fn view(&self) -> VariableHeaderModel {
        match self {
            VariableHeader::Empty => VariableHeaderModel::Empty,
            VariableHeader::Connect(h) => VariableHeaderModel::Connect(h@),
            VariableHeader::ConnAck(h) => VariableHeaderModel::ConnAck(*h),
            VariableHeader::Publish(h) => VariableHeaderModel::Publish(h@),
            VariableHeader::WithPacketId(id) => VariableHeaderModel::WithPacketId(*id),
        }
    }
}

/// The fixed header of a packet together with its body, the `remaining_bytes`
/// bytes that follow the remaining-length field.
#[derive(Debug, Clone, PartialEq)]
pub struct FixedHeader {
    pub packet_type: PacketType,
    pub dup: bool,
    pub qos: QoS,
    pub retain: bool,
    pub remaining_bytes: u32,
    pub payload: Vec<u8>,
}

/// What a `FixedHeader` holds, with the body as a byte sequence.
pub struct FixedHeaderModel {
    pub packet_type: PacketType,
    pub dup: bool,
    pub qos: QoS,
    pub retain: bool,
    pub remaining_bytes: u32,
    pub payload: Seq<u8>,
}

impl View for FixedHeader {
    type V = FixedHeaderModel;

    open spec fn view(&self) -> FixedHeaderModel {
        FixedHeaderModel {
            packet_type: self.packet_type,
            dup: self.dup,
            qos: self.qos,
            retain: self.retain,
            remaining_bytes: self.remaining_bytes,
            payload: self.payload@,
        }
    }
}

/// A decoded packet: its fixed header, its variable header, and the bytes of
/// the body that follow the variable header.
#[derive(Debug, Clone, PartialEq)]
pub struct MqttPacket {
    pub header: FixedHeader,
    pub var_header: VariableHeader,
    pub payload: Vec<u8>,
}

/// What an `MqttPacket` holds.
pub struct PacketModel {
    pub header: FixedHeaderModel,
    pub var_header: VariableHeaderModel,
    pub payload: Seq<u8>,
}

impl View for MqttPacket {
    type V = PacketModel;

    open spec fn view(&self) -> PacketModel {
        PacketModel { header: self.header@, var_header: self.var_header@, payload: self.payload@ }
    }
}

/// The payload of a SUBSCRIBE packet: each topic filter with the QoS asked
/// for it. A filter appears at most once; a later request for the same filter
/// replaces an earlier one.
#[derive(Debug, Clone, PartialEq)]
pub struct SubscribePayload {
    pub packet_id: u16,
    pub filters: Vec<(String, QoS)>,
}

/// The map of a sequence of (filter, QoS) entries: a later entry for a filter
/// replaces an earlier one.
pub open spec fn entries_map(e: Seq<(Seq<char>, QoS)>) -> Map<Seq<char>, QoS>
    decreases e.len(),
{
    if e.len() == 0 {
        Map::empty()
    } else {
        entries_map(e.drop_last()).insert(e.last().0, e.last().1)
    }
}

/// No filter occurs twice among the entries.
pub open spec fn unique_filters(e: Seq<(Seq<char>, QoS)>) -> bool {
    forall|i: int, j: int| 0 <= i < j < e.len() ==> e[i].0 != e[j].0
}

/// The entries of a filter vector, with each filter as its characters.
pub open spec fn filter_entries(v: Seq<(String, QoS)>) -> Seq<(Seq<char>, QoS)> {
    v.map_values(|x: (String, QoS)| (x.0@, x.1))
}

/// What a `SubscribePayload` stands for: the QoS asked for each filter.
pub struct SubscribePayloadModel {
    pub packet_id: u16,
    pub filters: Map<Seq<char>, QoS>,
}

impl View for SubscribePayload {
    type V = SubscribePayloadModel;

    open spec fn view(&self) -> SubscribePayloadModel {
        SubscribePayloadModel { packet_id: self.packet_id, filters: entries_map(filter_entries(self.filters@)) }
    }
}

impl SubscribePayload {
    /// Each filter is held once.
    pub open spec fn wf(&self) -> bool {
        unique_filters(filter_entries(self.filters@))
    }
}

/// The answer of a server to one topic filter of a SUBSCRIBE packet.
#[derive(Debug, Clone, Copy, PartialEq, Eq, Structural)]
pub enum SubAckReturnCode {
    MaximumQoS0,
    MaximumQoS1,
    MaximumQoS2,
    Failure,
    Reserved,
}

/// The return code carried by byte `b`.
pub open spec fn suback_code_of(b: u8) -> SubAckReturnCode {
    if b == 0x00 {
        SubAckReturnCode::MaximumQoS0
    } else if b == 0x01 {
        SubAckReturnCode::MaximumQoS1
    } else if b == 0x02 {
        SubAckReturnCode::MaximumQoS2
    } else if b == 0x80 {
        SubAckReturnCode::Failure
    } else {
        SubAckReturnCode::Reserved
    }
}

/// The byte of a return code other than `Reserved`.
pub open spec fn suback_code_byte(c: SubAckReturnCode) -> u8 {
    match c {
        SubAckReturnCode::MaximumQoS0 => 0x00,
        SubAckReturnCode::MaximumQoS1 => 0x01,
        SubAckReturnCode::MaximumQoS2 => 0x02,
        SubAckReturnCode::Failure => 0x80,
        SubAckReturnCode::Reserved => 0xff,
    }
}

impl SubAckReturnCode {
    pub fn from_byte(value: u8) -> (r: SubAckReturnCode)
        ensures
            r == suback_code_of(value),
    {
        match value {
            0x00 => SubAckReturnCode::MaximumQoS0,
            0x01 => SubAckReturnCode::MaximumQoS1,
            0x02 => SubAckReturnCode::MaximumQoS2,
            0x80 => SubAckReturnCode::Failure,
            _ => SubAckReturnCode::Reserved,
        }
    }

    /// The wire byte of the code; `Reserved` has none.
    pub fn to_byte(self) -> (r: u8)
        requires
            !(self is Reserved),
        ensures
            r == suback_code_byte(self),
    {
        match self {
            SubAckReturnCode::MaximumQoS0 => 0x00,
            SubAckReturnCode::MaximumQoS1 => 0x01,
            SubAckReturnCode::MaximumQoS2 => 0x02,
            SubAckReturnCode::Failure => 0x80,
            SubAckReturnCode::Reserved => 0xff,
        }
    }
}

/// Each return code other than `Reserved` is read back from its own byte, and
/// the bytes 0, 1, 2 and 0x80 are the bytes of the codes read from them.
pub proof fn lemma_suback_code_round_trip(c: SubAckReturnCode, b: u8)
    ensures
        !(c is Reserved) ==> suback_code_of(suback_code_byte(c)) == c,
        (b <= 2 || b == 0x80) ==> suback_code_byte(suback_code_of(b)) == b,
        suback_code_of(b) is Reserved <==> !(b <= 2 || b == 0x80),
{
}

/// The payload of a SUBACK packet: one return code per requested filter, in
/// the order of the request.
#[derive(Debug, Clone, PartialEq, Eq)]
pub struct SubAckPayload {
    pub packet_id: u16,
    pub return_codes: Vec<SubAckReturnCode>,
}

/// What a `SubAckPayload` holds.
pub struct SubAckPayloadModel {
    pub packet_id: u16,
    pub return_codes: Seq<SubAckReturnCode>,
}

impl View for SubAckPayload {
    type V = SubAckPayloadModel;

    open spec fn view(&self) -> SubAckPayloadModel {
        SubAckPayloadModel { packet_id: self.packet_id, return_codes: self.return_codes@ }
    }
}

/// The payload of an UNSUBSCRIBE packet: the topic filters, in order.
#[derive(Debug, Clone, PartialEq, Eq)]
pub struct UnsubscribePayload {
    pub packet_id: u16,
    pub filters: Vec<String>,
}

/// What an `UnsubscribePayload` holds, with each filter as characters.
pub struct UnsubscribePayloadModel {
    pub packet_id: u16,
    pub filters: Seq<Seq<char>>,
}

impl View for UnsubscribePayload {
    type V = UnsubscribePayloadModel;

    open spec fn view(&self) -> UnsubscribePayloadModel {
        UnsubscribePayloadModel {
            packet_id: self.packet_id,
            filters: self.filters@.map_values(|f: String| f@),
        }
    }
}

/// `r` is the executable counterpart of the modelled result `m`: the same
/// error, or a value whose view is the modelled value.
pub open spec fn matches_model<T: View>(r: Result<T, DecodeError>, m: Result<T::V, DecodeError>) -> bool {
    match r {
        Ok(x) => m is Ok && x@ == m->Ok_0,
        Err(e) => m == Err::<T::V, DecodeError>(e),
    }
}

} // verus!
