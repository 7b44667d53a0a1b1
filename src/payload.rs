use vstd::prelude::*;

use crate::header::to_u16;
use crate::strings::{parse_string, read_string};
use crate::types::{
    entries_map, filter_entries, has_flag, matches_model, opt_view, qos_of_bits, suback_code_of,
    unique_filters, ConnectPayload, ConnectPayloadModel, DecodeError, MqttPacket, PacketModel,
    PacketType, QoS, SubAckPayload, SubAckPayloadModel, SubAckReturnCode, SubscribePayload,
    SubscribePayloadModel, UnsubscribePayload, UnsubscribePayloadModel, VariableHeader,
    VariableHeaderModel, PASSWORD_FLAG, USERNAME_FLAG, WILL_FLAG,
};

verus! {

/// The string field at `pos` of `s` when `present`, with the position after
/// it; a field that runs past the end of `s` is a missing required field.
#[verifier::opaque]
pub open spec fn optional_string_at(present: bool, s: Seq<u8>, pos: int) -> Result<
    (Option<Seq<char>>, int),
    DecodeError,
> {
    if !present {
        Ok((None, pos))
    } else {
        match parse_string(s.subrange(pos, s.len() as int)) {
            Err(DecodeError::MalformedBody) => Err(DecodeError::MissingRequiredField),
            Err(e) => Err(e),
            Ok((c, n)) => Ok((Some(c), pos + n)),
        }
    }
}

/// The characters of a field that is present, or none.
pub open spec fn some_chars(c: Option<Seq<char>>) -> Seq<char> {
    match c {
        Some(x) => x,
        None => Seq::empty(),
    }
}

/// The CONNECT payload `s` under connect flags `flags`: the client id, then
/// the will topic and will message if the will flag is set, then the user
/// name and the password if their flags are set.
pub open spec fn parse_connect_payload(flags: u8, s: Seq<u8>) -> Result<ConnectPayloadModel, DecodeError> {
    match optional_string_at(true, s, 0) {
        Err(e) => Err(e),
        Ok((cid, at_topic)) => match optional_string_at(has_flag(flags, WILL_FLAG), s, at_topic) {
            Err(e) => Err(e),
            Ok((wt, at_message)) => match optional_string_at(has_flag(flags, WILL_FLAG), s, at_message) {
                Err(e) => Err(e),
                Ok((wm, at_user)) => match optional_string_at(has_flag(flags, USERNAME_FLAG), s, at_user) {
                    Err(e) => Err(e),
                    Ok((u, at_pass)) => match optional_string_at(has_flag(flags, PASSWORD_FLAG), s, at_pass) {
                        Err(e) => Err(e),
                        Ok((pw, _)) => Ok(
                            ConnectPayloadModel {
                                client_id: some_chars(cid),
                                will_topic: wt,
                                will_message: wm,
                                username: u,
                                password: pw,
                            },
                        ),
                    },
                },
            },
        },
    }
}

/// The CONNECT payload of packet `p`.
pub open spec fn connect_payload_of(p: PacketModel) -> Result<ConnectPayloadModel, DecodeError> {
    match p.var_header {
        VariableHeaderModel::Connect(h) => if p.header.packet_type is Connect {
            parse_connect_payload(h.flag_bits, p.payload)
        } else {
            Err(DecodeError::UnexpectedPacketType)
        },
        _ => Err(DecodeError::UnexpectedPacketType),
    }
}

/// The (filter, QoS) entries of a SUBSCRIBE payload, in order: each a string
/// followed by one byte whose two low bits give the QoS.
pub open spec fn parse_subscriptions(s: Seq<u8>) -> Result<Seq<(Seq<char>, QoS)>, DecodeError>
    decreases s.len(),
{
    if s.len() == 0 {
        Ok(Seq::empty())
    } else {
        match parse_string(s) {
            Err(e) => Err(e),
            Ok((f, n)) => if s.len() < n + 1 {
                Err(DecodeError::MalformedBody)
            } else {
                match parse_subscriptions(s.subrange(n + 1, s.len() as int)) {
                    Err(e) => Err(e),
                    Ok(rest) => Ok(seq![(f, qos_of_bits(s[n] as int))] + rest),
                }
            },
        }
    }
}

/// The packet id of `p` when it is of type `t` and carries a packet id.
pub open spec fn packet_id_of(p: PacketModel, t: PacketType) -> Option<u16> {
    match p.var_header {
        VariableHeaderModel::WithPacketId(id) => if p.header.packet_type == t {
            Some(id)
        } else {
            None
        },
        _ => None,
    }
}

/// The SUBSCRIBE payload of packet `p`: a payload of fewer than two bytes
/// holds no entry; otherwise the entries must cover it exactly, a trailing
/// fragment being malformed; for a filter given twice the later QoS counts.
pub open spec fn subscribe_payload_of(p: PacketModel) -> Result<SubscribePayloadModel, DecodeError> {
    match packet_id_of(p, PacketType::Subscribe) {
        None => Err(DecodeError::UnexpectedPacketType),
        Some(id) => if p.payload.len() < 2 {
            Err(DecodeError::EmptyPayload)
        } else {
            match parse_subscriptions(p.payload) {
                Err(e) => Err(e),
                Ok(entries) => Ok(SubscribePayloadModel { packet_id: id, filters: entries_map(entries) }),
            }
        },
    }
}

/// The SUBACK payload of packet `p`: one return code per byte, at least one.
pub open spec fn suback_payload_of(p: PacketModel) -> Result<SubAckPayloadModel, DecodeError> {
    match packet_id_of(p, PacketType::SubAck) {
        None => Err(DecodeError::UnexpectedPacketType),
        Some(id) => if p.payload.len() == 0 {
            Err(DecodeError::EmptyPayload)
        } else {
            Ok(
                SubAckPayloadModel {
                    packet_id: id,
                    return_codes: p.payload.map_values(|b: u8| suback_code_of(b)),
                },
            )
        },
    }
}

/// The topic filters of an UNSUBSCRIBE payload, in order.
pub open spec fn parse_filters(s: Seq<u8>) -> Result<Seq<Seq<char>>, DecodeError>
    decreases s.len(),
{
    if s.len() == 0 {
        Ok(Seq::empty())
    } else {
        match parse_string(s) {
            Err(e) => Err(e),
            Ok((f, n)) => match parse_filters(s.subrange(n, s.len() as int)) {
                Err(e) => Err(e),
                Ok(rest) => Ok(seq![f] + rest),
            },
        }
    }
}

/// The UNSUBSCRIBE payload of packet `p`: a payload of fewer than two bytes
/// holds no filter; otherwise the filters must cover it exactly.
pub open spec fn unsubscribe_payload_of(p: PacketModel) -> Result<UnsubscribePayloadModel, DecodeError> {
    match packet_id_of(p, PacketType::Unsubscribe) {
        None => Err(DecodeError::UnexpectedPacketType),
        Some(id) => if p.payload.len() < 2 {
            Err(DecodeError::EmptyPayload)
        } else {
            match parse_filters(p.payload) {
                Err(e) => Err(e),
                Ok(filters) => Ok(UnsubscribePayloadModel { packet_id: id, filters: filters }),
            }
        },
    }
}

/// `done` followed by the entries of `r`, or the error of `r`.
pub open spec fn prepend<T>(done: Seq<T>, r: Result<Seq<T>, DecodeError>) -> Result<Seq<T>, DecodeError> {
    match r {
        Ok(rest) => Ok(done + rest),
        Err(e) => Err(e),
    }
}

/// A length-prefixed string whose announced bytes are all there but are not
/// UTF-8 is reported as `InvalidUtf8`, never as a missing field: in any
/// present field of a CONNECT payload, and as the first entry of a SUBSCRIBE
/// or UNSUBSCRIBE payload (later entries pass the error of their own field
/// on, as the parsers show).
pub proof fn lemma_invalid_utf8_in_payloads(s: Seq<u8>, pos: int, flags: u8)
    ensures
        0 <= pos <= s.len() && parse_string(s.subrange(pos, s.len() as int)) == Err::<
            (Seq<char>, int),
            DecodeError,
        >(DecodeError::InvalidUtf8) ==> optional_string_at(true, s, pos) == Err::<
            (Option<Seq<char>>, int),
            DecodeError,
        >(DecodeError::InvalidUtf8),
        parse_string(s) == Err::<(Seq<char>, int), DecodeError>(DecodeError::InvalidUtf8) ==> {
            &&& parse_connect_payload(flags, s) == Err::<ConnectPayloadModel, DecodeError>(
                DecodeError::InvalidUtf8,
            )
            &&& parse_subscriptions(s) == Err::<Seq<(Seq<char>, QoS)>, DecodeError>(
                DecodeError::InvalidUtf8,
            )
            &&& parse_filters(s) == Err::<Seq<Seq<char>>, DecodeError>(DecodeError::InvalidUtf8)
        },
{
    reveal(optional_string_at);
    assert(s.subrange(0, s.len() as int) =~= s);
}

fn read_optional_string(bytes: &[u8], pos: usize, present: bool) -> (r: Result<
    (Option<String>, usize),
    DecodeError,
>)
    requires
        pos <= bytes@.len(),
    ensures
        match optional_string_at(present, bytes@, pos as int) {
            Ok((c, q)) => r is Ok && opt_view(r->Ok_0.0) == c && r->Ok_0.1 == q && q <= bytes@.len(),
            Err(e) => r == Err::<(Option<String>, usize), DecodeError>(e),
        },
{
    reveal(optional_string_at);
    if !present {
        return Ok((None, pos));
    }
    match read_string(bytes, pos) {
        Ok((s, q)) => Ok((Some(s), q)),
        Err(DecodeError::MalformedBody) => Err(DecodeError::MissingRequiredField),
        Err(e) => Err(e),
    }
}

proof fn lemma_entries_map_update(e: Seq<(Seq<char>, QoS)>, i: int, q: QoS)
    requires
        unique_filters(e),
        0 <= i < e.len(),
    ensures
        entries_map(e.update(i, (e[i].0, q))) == entries_map(e).insert(e[i].0, q),
    decreases e.len(),
{
    let k = e[i].0;
    let u = e.update(i, (k, q));
    assert(u.drop_last() =~= if i == e.len() - 1 {
        e.drop_last()
    } else {
        e.drop_last().update(i, (k, q))
    });
    if i == e.len() - 1 {
        assert(entries_map(u) =~= entries_map(e).insert(k, q));
    } else {
        lemma_entries_map_update(e.drop_last(), i, q);
        assert(e.last().0 != k);
        assert(entries_map(u) =~= entries_map(e).insert(k, q));
    }
}

/// Adds filter `f` with QoS `q`, replacing the QoS of an equal filter.
fn insert_filter(filters: &mut Vec<(String, QoS)>, f: String, q: QoS)
    requires
        unique_filters(filter_entries(old(filters)@)),
    ensures
        unique_filters(filter_entries(final(filters)@)),
        entries_map(filter_entries(final(filters)@)) == entries_map(filter_entries(old(filters)@)).insert(
            f@,
            q,
        ),
{
    let ghost e = filter_entries(filters@);
    let mut i: usize = 0;
    while i < filters.len()
        invariant
            i <= filters@.len(),
            filters@ == old(filters)@,
            e == filter_entries(filters@),
            unique_filters(e),
            forall|j: int| 0 <= j < i ==> e[j].0 != f@,
        decreases filters@.len() - i,
    {
        if filters[i].0 == f {
            proof {
                lemma_entries_map_update(e, i as int, q);
            }
            filters[i] = (f, q);
            assert(filter_entries(filters@) =~= e.update(i as int, (e[i as int].0, q)));
            return;
        }
        i = i + 1;
    }
    let ghost k = f@;
    filters.push((f, q));
    assert(filter_entries(filters@) =~= e.push((k, q)));
    assert(e.push((k, q)).drop_last() =~= e);
}

impl MqttPacket {
    /// The payload of a CONNECT packet; the flags of its variable header say
    /// which optional fields must be there.
    pub fn get_connect_payload(self) -> (r: Result<ConnectPayload, DecodeError>)
        ensures
            matches_model(r, connect_payload_of(self@)),
    {
        let flags = match &self.var_header {
            VariableHeader::Connect(h) => h.flag_bits,
            _ => {
                return Err(DecodeError::UnexpectedPacketType);
            },
        };
        if self.header.packet_type != PacketType::Connect {
            return Err(DecodeError::UnexpectedPacketType);
        }
        let b = self.payload.as_slice();
        let will = (flags & WILL_FLAG) == WILL_FLAG;
        let user = (flags & USERNAME_FLAG) == USERNAME_FLAG;
        let pass = (flags & PASSWORD_FLAG) == PASSWORD_FLAG;
        let (client_id, at_topic) = match read_optional_string(b, 0, true) {
            Ok(x) => x,
            Err(e) => {
                return Err(e);
            },
        };
        let (will_topic, at_message) = match read_optional_string(b, at_topic, will) {
            Ok(x) => x,
            Err(e) => {
                return Err(e);
            },
        };
        let (will_message, at_user) = match read_optional_string(b, at_message, will) {
            Ok(x) => x,
            Err(e) => {
                return Err(e);
            },
        };
        let (username, at_pass) = match read_optional_string(b, at_user, user) {
            Ok(x) => x,
            Err(e) => {
                return Err(e);
            },
        };
        let (password, _) = match read_optional_string(b, at_pass, pass) {
            Ok(x) => x,
            Err(e) => {
                return Err(e);
            },
        };
        let client_id = match client_id {
            Some(c) => c,
            None => String::new(),
        };
        Ok(
            ConnectPayload {
                client_id: client_id,
                will_topic: will_topic,
                will_message: will_message,
                username: username,
                password: password,
            },
        )
    }

    /// The payload of a SUBSCRIBE packet: its filters with their QoS.
    pub fn get_subscribe_payload(self) -> (r: Result<SubscribePayload, DecodeError>)
        ensures
            matches_model(r, subscribe_payload_of(self@)),
            r is Ok ==> r->Ok_0.wf(),
    {
        let packet_id = match self.var_header {
            VariableHeader::WithPacketId(id) => id,
            _ => {
                return Err(DecodeError::UnexpectedPacketType);
            },
        };
        if self.header.packet_type != PacketType::Subscribe {
            return Err(DecodeError::UnexpectedPacketType);
        }
        let b = self.payload.as_slice();
        let len = b.len();
        if len < 2 {
            return Err(DecodeError::EmptyPayload);
        }
        let mut filters: Vec<(String, QoS)> = Vec::new();
        let mut pos: usize = 0;
        let ghost mut done: Seq<(Seq<char>, QoS)> = Seq::empty();
        assert(b@.subrange(0, len as int) =~= b@);
        while pos < len
            invariant
                pos <= len == b@.len(),
                len >= 2,
                b@ == self@.payload,
                packet_id_of(self@, PacketType::Subscribe) == Some(packet_id),
                prepend(done, parse_subscriptions(b@.subrange(pos as int, len as int)))
                    == parse_subscriptions(b@),
                unique_filters(filter_entries(filters@)),
                entries_map(filter_entries(filters@)) == entries_map(done),
            decreases len - pos,
        {
            let ghost sub = b@.subrange(pos as int, len as int);
            let (f, n) = match read_string(b, pos) {
                Ok(x) => x,
                Err(e) => {
                    assert(parse_subscriptions(sub) == Err::<Seq<(Seq<char>, QoS)>, DecodeError>(e));
                    return Err(e);
                },
            };
            if n >= len {
                assert(parse_subscriptions(sub) == Err::<Seq<(Seq<char>, QoS)>, DecodeError>(
                    DecodeError::MalformedBody,
                ));
                return Err(DecodeError::MalformedBody);
            }
            let byte = b[n];
            assert(byte >> 0u8 == byte) by (bit_vector);
            let q = QoS::from_byte(byte, 0);
            proof {
                let m = n - pos;
                assert(sub[m] == byte);
                assert(sub.subrange(m + 1, sub.len() as int) =~= b@.subrange(n + 1, len as int));
                let x = (f@, q);
                assert(done.push(x).drop_last() =~= done);
                match parse_subscriptions(b@.subrange(n + 1, len as int)) {
                    Ok(rest) => {
                        assert(done.push(x) + rest =~= done + (seq![x] + rest));
                    },
                    Err(_) => {},
                }
                done = done.push(x);
            }
            insert_filter(&mut filters, f, q);
            pos = n + 1;
        }
        assert(done + Seq::<(Seq<char>, QoS)>::empty() =~= done);
        Ok(SubscribePayload { packet_id: packet_id, filters: filters })
    }

    /// The payload of a SUBACK packet: one return code per byte.
    pub fn get_suback_payload(self) -> (r: Result<SubAckPayload, DecodeError>)
        ensures
            matches_model(r, suback_payload_of(self@)),
    {
        let packet_id = match self.var_header {
            VariableHeader::WithPacketId(id) => id,
            _ => {
                return Err(DecodeError::UnexpectedPacketType);
            },
        };
        if self.header.packet_type != PacketType::SubAck {
            return Err(DecodeError::UnexpectedPacketType);
        }
        let b = self.payload.as_slice();
        if b.len() == 0 {
            return Err(DecodeError::EmptyPayload);
        }
        let mut return_codes: Vec<SubAckReturnCode> = Vec::new();
        let mut i: usize = 0;
        while i < b.len()
            invariant
                i <= b@.len(),
                return_codes@ =~= b@.take(i as int).map_values(|x: u8| suback_code_of(x)),
            decreases b@.len() - i,
        {
            return_codes.push(SubAckReturnCode::from_byte(b[i]));
            i = i + 1;
        }
        assert(b@.take(i as int) =~= b@);
        Ok(SubAckPayload { packet_id: packet_id, return_codes: return_codes })
    }

    /// The payload of an UNSUBSCRIBE packet: its filters, in order.
    pub fn get_unsubscribe_payload(self) -> (r: Result<UnsubscribePayload, DecodeError>)
        ensures
            matches_model(r, unsubscribe_payload_of(self@)),
    {
        let packet_id = match self.var_header {
            VariableHeader::WithPacketId(id) => id,
            _ => {
                return Err(DecodeError::UnexpectedPacketType);
            },
        };
        if self.header.packet_type != PacketType::Unsubscribe {
            return Err(DecodeError::UnexpectedPacketType);
        }
        let b = self.payload.as_slice();
        let len = b.len();
        if len < 2 {
            return Err(DecodeError::EmptyPayload);
        }
        let mut filters: Vec<String> = Vec::new();
        let mut pos: usize = 0;
        assert(b@.subrange(0, len as int) =~= b@);
        while pos < len
            invariant
                pos <= len == b@.len(),
                len >= 2,
                b@ == self@.payload,
                packet_id_of(self@, PacketType::Unsubscribe) == Some(packet_id),
                prepend(filters@.map_values(|f: String| f@), parse_filters(b@.subrange(pos as int, len as int)))
                    == parse_filters(b@),
            decreases len - pos,
        {
            let ghost sub = b@.subrange(pos as int, len as int);
            let ghost before = filters@.map_values(|f: String| f@);
            let (f, n) = match read_string(b, pos) {
                Ok(x) => x,
                Err(e) => {
                    assert(parse_filters(sub) == Err::<Seq<Seq<char>>, DecodeError>(e));
                    return Err(e);
                },
            };
            let ghost fv = f@;
            filters.push(f);
            proof {
                let m = n - pos;
                assert(sub.subrange(m, sub.len() as int) =~= b@.subrange(n as int, len as int));
                assert(filters@.map_values(|f: String| f@) =~= before.push(fv));
                match parse_filters(b@.subrange(n as int, len as int)) {
                    Ok(rest) => {
                        assert(before.push(fv) + rest =~= before + (seq![fv] + rest));
                    },
                    Err(_) => {},
                }
            }
            pos = n;
        }
        assert(filters@.map_values(|f: String| f@) + Seq::<Seq<char>>::empty() =~= filters@.map_values(
            |f: String| f@,
        ));
        Ok(UnsubscribePayload { packet_id: packet_id, filters: filters })
    }
}

} // verus!
