use vstd::prelude::*;
use vstd::utf8::encode_utf8;

use crate::encode::{qos_value, EncodeError};
use crate::payload::{optional_string_at, parse_connect_payload, parse_filters, parse_subscriptions};
use crate::strings::{lemma_string_round_trip, string_bytes, write_string, MAX_STRING_BYTES};
use crate::types::{
    has_flag, opt_view, ConnectPayload, ConnectPayloadModel, PASSWORD_FLAG, USERNAME_FLAG, WILL_FLAG,
    filter_entries, qos_bits, qos_of_bits, suback_code_byte, suback_code_of, QoS, SubAckPayload,
    SubAckReturnCode, SubscribePayload, UnsubscribePayload,
};

verus! {

/// The bytes of one SUBSCRIBE entry: the filter, then the QoS byte.
pub open spec fn entry_bytes(x: (Seq<char>, QoS)) -> Seq<u8> {
    string_bytes(x.0) + seq![qos_bits(x.1) as u8]
}

/// The bytes of a sequence of SUBSCRIBE entries, in order.
pub open spec fn subscriptions_bytes(e: Seq<(Seq<char>, QoS)>) -> Seq<u8>
    decreases e.len(),
{
    if e.len() == 0 {
        Seq::empty()
    } else {
        subscriptions_bytes(e.drop_last()) + entry_bytes(e.last())
    }
}

/// The bytes of a sequence of topic filters, in order.
pub open spec fn filters_bytes(fs: Seq<Seq<char>>) -> Seq<u8>
    decreases fs.len(),
{
    if fs.len() == 0 {
        Seq::empty()
    } else {
        filters_bytes(fs.drop_last()) + string_bytes(fs.last())
    }
}

/// Every filter of the entries fits a two-byte length prefix.
pub open spec fn entries_fit(e: Seq<(Seq<char>, QoS)>) -> bool {
    forall|i: int| 0 <= i < e.len() ==> encode_utf8(#[trigger] e[i].0).len() <= MAX_STRING_BYTES
}

/// Every filter fits a two-byte length prefix.
pub open spec fn filters_fit(fs: Seq<Seq<char>>) -> bool {
    forall|i: int| 0 <= i < fs.len() ==> encode_utf8(#[trigger] fs[i]).len() <= MAX_STRING_BYTES
}

/// Encodes the entries of a SUBSCRIBE payload, each filter followed by its QoS.
pub fn encode_subscribe_payload(p: &SubscribePayload) -> (r: Result<Vec<u8>, EncodeError>)
    ensures
        ({
            let e = filter_entries(p.filters@);
            match r {
                Ok(b) => e.len() > 0 && entries_fit(e) && b@ == subscriptions_bytes(e),
                Err(err) => (err == EncodeError::EmptyPayload && e.len() == 0) || (err
                    == EncodeError::StringTooLong && e.len() > 0 && !entries_fit(e)),
            }
        }),
{
    let ghost e = filter_entries(p.filters@);
    if p.filters.len() == 0 {
        return Err(EncodeError::EmptyPayload);
    }
    let mut out: Vec<u8> = Vec::new();
    let mut i: usize = 0;
    while i < p.filters.len()
        invariant
            i <= p.filters@.len(),
            e == filter_entries(p.filters@),
            entries_fit(e.take(i as int)),
            out@ == subscriptions_bytes(e.take(i as int)),
        decreases p.filters@.len() - i,
    {
        let f = &p.filters[i].0;
        if f.as_str().as_bytes().len() > MAX_STRING_BYTES {
            assert(!entries_fit(e)) by {
                assert(encode_utf8(e[i as int].0).len() > MAX_STRING_BYTES);
            }
            return Err(EncodeError::StringTooLong);
        }
        write_string(&mut out, f);
        out.push(qos_value(p.filters[i].1));
        proof {
            let t = e.take(i + 1);
            assert(t.drop_last() =~= e.take(i as int));
            assert(t.last() == e[i as int]);
            assert(out@ =~= subscriptions_bytes(e.take(i as int)) + entry_bytes(e[i as int]));
            assert forall|j: int| 0 <= j < t.len() implies encode_utf8(#[trigger] t[j].0).len()
                <= MAX_STRING_BYTES by {
                if j < i {
                    assert(t[j] == e.take(i as int)[j]);
                }
            }
        }
        i = i + 1;
    }
    assert(e.take(i as int) =~= e);
    Ok(out)
}

/// Encodes the filters of an UNSUBSCRIBE payload.
pub fn encode_unsubscribe_payload(p: &UnsubscribePayload) -> (r: Result<Vec<u8>, EncodeError>)
    ensures
        ({
            let fs = p.filters@.map_values(|f: String| f@);
            match r {
                Ok(b) => fs.len() > 0 && filters_fit(fs) && b@ == filters_bytes(fs),
                Err(err) => (err == EncodeError::EmptyPayload && fs.len() == 0) || (err
                    == EncodeError::StringTooLong && fs.len() > 0 && !filters_fit(fs)),
            }
        }),
{
    let ghost fs = p.filters@.map_values(|f: String| f@);
    if p.filters.len() == 0 {
        return Err(EncodeError::EmptyPayload);
    }
    let mut out: Vec<u8> = Vec::new();
    let mut i: usize = 0;
    while i < p.filters.len()
        invariant
            i <= p.filters@.len(),
            fs == p.filters@.map_values(|f: String| f@),
            filters_fit(fs.take(i as int)),
            out@ == filters_bytes(fs.take(i as int)),
        decreases p.filters@.len() - i,
    {
        let f = &p.filters[i];
        if f.as_str().as_bytes().len() > MAX_STRING_BYTES {
            assert(!filters_fit(fs)) by {
                assert(encode_utf8(fs[i as int]).len() > MAX_STRING_BYTES);
            }
            return Err(EncodeError::StringTooLong);
        }
        write_string(&mut out, f);
        proof {
            let t = fs.take(i + 1);
            assert(t.drop_last() =~= fs.take(i as int));
            assert(t.last() == fs[i as int]);
            assert forall|j: int| 0 <= j < t.len() implies encode_utf8(#[trigger] t[j]).len()
                <= MAX_STRING_BYTES by {
                if j < i {
                    assert(t[j] == fs.take(i as int)[j]);
                }
            }
        }
        i = i + 1;
    }
    assert(fs.take(i as int) =~= fs);
    Ok(out)
}

/// Encodes the return codes of a SUBACK payload, one byte each.
pub fn encode_suback_payload(p: &SubAckPayload) -> (r: Result<Vec<u8>, EncodeError>)
    ensures
        match r {
            Ok(b) => p.return_codes@.len() > 0 && (forall|i: int|
                0 <= i < p.return_codes@.len() ==> !(#[trigger] p.return_codes@[i] is Reserved))
                && b@ == p.return_codes@.map_values(|c: SubAckReturnCode| suback_code_byte(c)),
            Err(err) => (err == EncodeError::EmptyPayload && p.return_codes@.len() == 0) || (err
                == EncodeError::ReservedReturnCode && p.return_codes@.len() > 0 && exists|i: int|
                0 <= i < p.return_codes@.len() && #[trigger] p.return_codes@[i] is Reserved),
        },
{
    if p.return_codes.len() == 0 {
        return Err(EncodeError::EmptyPayload);
    }
    let mut out: Vec<u8> = Vec::new();
    let mut i: usize = 0;
    while i < p.return_codes.len()
        invariant
            i <= p.return_codes@.len(),
            forall|j: int| 0 <= j < i ==> !(#[trigger] p.return_codes@[j] is Reserved),
            out@ =~= p.return_codes@.take(i as int).map_values(|c: SubAckReturnCode| suback_code_byte(c)),
        decreases p.return_codes@.len() - i,
    {
        let c = p.return_codes[i];
        if c == SubAckReturnCode::Reserved {
            return Err(EncodeError::ReservedReturnCode);
        }
        out.push(c.to_byte());
        i = i + 1;
    }
    assert(p.return_codes@.take(i as int) =~= p.return_codes@);
    Ok(out)
}

proof fn lemma_subscriptions_bytes_front(e: Seq<(Seq<char>, QoS)>)
    requires
        e.len() > 0,
    ensures
        subscriptions_bytes(e) == entry_bytes(e[0]) + subscriptions_bytes(e.drop_first()),
    decreases e.len(),
{
    if e.len() == 1 {
        assert(e.drop_last() =~= Seq::<(Seq<char>, QoS)>::empty());
        assert(e.drop_first() =~= Seq::<(Seq<char>, QoS)>::empty());
        assert(subscriptions_bytes(e.drop_last()) == Seq::<u8>::empty());
        assert(subscriptions_bytes(e.drop_first()) == Seq::<u8>::empty());
        assert(e.last() == e[0]);
        assert(subscriptions_bytes(e) =~= entry_bytes(e[0]) + Seq::<u8>::empty());
    } else {
        lemma_subscriptions_bytes_front(e.drop_last());
        assert(e.drop_last().drop_first() =~= e.drop_first().drop_last());
        assert(e.drop_last()[0] == e[0]);
        assert(e.drop_first().last() == e.last());
        assert(subscriptions_bytes(e) =~= entry_bytes(e[0]) + subscriptions_bytes(e.drop_first()));
    }
}

proof fn lemma_filters_bytes_front(fs: Seq<Seq<char>>)
    requires
        fs.len() > 0,
    ensures
        filters_bytes(fs) == string_bytes(fs[0]) + filters_bytes(fs.drop_first()),
    decreases fs.len(),
{
    if fs.len() == 1 {
        assert(fs.drop_last() =~= Seq::<Seq<char>>::empty());
        assert(fs.drop_first() =~= Seq::<Seq<char>>::empty());
        assert(filters_bytes(fs.drop_last()) == Seq::<u8>::empty());
        assert(filters_bytes(fs.drop_first()) == Seq::<u8>::empty());
        assert(fs.last() == fs[0]);
        assert(filters_bytes(fs) =~= string_bytes(fs[0]) + Seq::<u8>::empty());
    } else {
        lemma_filters_bytes_front(fs.drop_last());
        assert(fs.drop_last().drop_first() =~= fs.drop_first().drop_last());
        assert(fs.drop_last()[0] == fs[0]);
        assert(fs.drop_first().last() == fs.last());
        assert(filters_bytes(fs) =~= string_bytes(fs[0]) + filters_bytes(fs.drop_first()));
    }
}

/// Reading back the encoding of SUBSCRIBE entries gives the entries, in order.
pub proof fn lemma_subscriptions_round_trip(e: Seq<(Seq<char>, QoS)>)
    requires
        entries_fit(e),
    ensures
        parse_subscriptions(subscriptions_bytes(e)) == Ok::<
            Seq<(Seq<char>, QoS)>,
            crate::types::DecodeError,
        >(e),
    decreases e.len(),
{
    if e.len() == 0 {
        assert(subscriptions_bytes(e) =~= Seq::<u8>::empty());
        assert(e =~= Seq::<(Seq<char>, QoS)>::empty());
    } else {
        lemma_subscriptions_bytes_front(e);
        let rest = e.drop_first();
        assert(entries_fit(rest)) by {
            assert forall|i: int| 0 <= i < rest.len() implies encode_utf8(#[trigger] rest[i].0).len()
                <= MAX_STRING_BYTES by {
                assert(rest[i] == e[i + 1]);
            }
        }
        assert(encode_utf8(e[0].0).len() <= MAX_STRING_BYTES);
        lemma_subscriptions_round_trip(rest);
        let tail = seq![qos_bits(e[0].1) as u8] + subscriptions_bytes(rest);
        let s = subscriptions_bytes(e);
        assert(s =~= string_bytes(e[0].0) + tail);
        lemma_string_round_trip(e[0].0, tail);
        let n = string_bytes(e[0].0).len() as int;
        assert(s[n] == qos_bits(e[0].1) as u8);
        assert(qos_of_bits(qos_bits(e[0].1)) == e[0].1);
        assert(s.subrange(n + 1, s.len() as int) =~= subscriptions_bytes(rest));
        assert(seq![(e[0].0, qos_of_bits(s[n] as int))] + rest =~= e);
    }
}

/// Reading back the encoding of topic filters gives the filters, in order.
pub proof fn lemma_filters_round_trip(fs: Seq<Seq<char>>)
    requires
        filters_fit(fs),
    ensures
        parse_filters(filters_bytes(fs)) == Ok::<Seq<Seq<char>>, crate::types::DecodeError>(fs),
    decreases fs.len(),
{
    if fs.len() == 0 {
        assert(filters_bytes(fs) =~= Seq::<u8>::empty());
        assert(fs =~= Seq::<Seq<char>>::empty());
    } else {
        lemma_filters_bytes_front(fs);
        let rest = fs.drop_first();
        assert(filters_fit(rest)) by {
            assert forall|i: int| 0 <= i < rest.len() implies encode_utf8(#[trigger] rest[i]).len()
                <= MAX_STRING_BYTES by {
                assert(rest[i] == fs[i + 1]);
            }
        }
        assert(encode_utf8(fs[0]).len() <= MAX_STRING_BYTES);
        lemma_filters_round_trip(rest);
        let s = filters_bytes(fs);
        lemma_string_round_trip(fs[0], filters_bytes(rest));
        let n = string_bytes(fs[0]).len() as int;
        assert(s.subrange(n, s.len() as int) =~= filters_bytes(rest));
        assert(seq![fs[0]] + rest =~= fs);
    }
}

/// Reading back the bytes of return codes other than `Reserved` gives the
/// codes, in order.
pub proof fn lemma_suback_codes_round_trip(codes: Seq<SubAckReturnCode>)
    requires
        forall|i: int| 0 <= i < codes.len() ==> !(#[trigger] codes[i] is Reserved),
    ensures
        codes.map_values(|c: SubAckReturnCode| suback_code_byte(c)).map_values(
            |b: u8| suback_code_of(b),
        ) == codes,
{
    let b = codes.map_values(|c: SubAckReturnCode| suback_code_byte(c));
    let d = b.map_values(|x: u8| suback_code_of(x));
    assert forall|i: int| 0 <= i < codes.len() implies d[i] == codes[i] by {
        assert(!(codes[i] is Reserved));
    }
    assert(d =~= codes);
}

/// The bytes of an optional string field: nothing when it is absent.
#[verifier::opaque]
pub open spec fn opt_bytes(c: Option<Seq<char>>) -> Seq<u8> {
    match c {
        Some(x) => string_bytes(x),
        None => Seq::empty(),
    }
}

/// An optional string field is absent or fits a two-byte length prefix.
pub open spec fn opt_fits(c: Option<Seq<char>>) -> bool {
    c matches Some(x) ==> encode_utf8(x).len() <= MAX_STRING_BYTES
}

/// The bytes of a CONNECT payload: the client id, then each optional field
/// that is present, in the order will topic, will message, user name,
/// password.
pub open spec fn connect_payload_bytes(m: ConnectPayloadModel) -> Seq<u8> {
    string_bytes(m.client_id) + opt_bytes(m.will_topic) + opt_bytes(m.will_message) + opt_bytes(
        m.username,
    ) + opt_bytes(m.password)
}

/// The optional fields present are exactly those that `flags` announces.
pub open spec fn fields_match_flags(m: ConnectPayloadModel, flags: u8) -> bool {
    &&& (m.will_topic is Some <==> has_flag(flags, WILL_FLAG))
    &&& (m.will_message is Some <==> has_flag(flags, WILL_FLAG))
    &&& (m.username is Some <==> has_flag(flags, USERNAME_FLAG))
    &&& (m.password is Some <==> has_flag(flags, PASSWORD_FLAG))
}

/// Every string of the payload fits a two-byte length prefix.
pub open spec fn connect_fields_fit(m: ConnectPayloadModel) -> bool {
    &&& encode_utf8(m.client_id).len() <= MAX_STRING_BYTES
    &&& opt_fits(m.will_topic)
    &&& opt_fits(m.will_message)
    &&& opt_fits(m.username)
    &&& opt_fits(m.password)
}

fn opt_fits_exec(o: &Option<String>) -> (r: bool)
    ensures
        r == opt_fits(opt_view(*o)),
{
    match o {
        Some(s) => s.as_str().as_bytes().len() <= MAX_STRING_BYTES,
        None => true,
    }
}

fn write_opt(out: &mut Vec<u8>, o: &Option<String>)
    requires
        opt_fits(opt_view(*o)),
    ensures
        final(out)@ == old(out)@ + opt_bytes(opt_view(*o)),
{
    reveal(opt_bytes);
    match o {
        Some(s) => write_string(out, s),
        None => {
            assert(out@ =~= out@ + Seq::<u8>::empty());
        },
    }
}

/// Encodes a CONNECT payload whose present fields are those that the connect
/// flags `flag_bits` announce.
pub fn encode_connect_payload(p: &ConnectPayload, flag_bits: u8) -> (r: Result<Vec<u8>, EncodeError>)
    ensures
        match r {
            Ok(b) => fields_match_flags(p@, flag_bits) && connect_fields_fit(p@) && b@
                == connect_payload_bytes(p@),
            Err(e) => (e == EncodeError::FieldsDisagreeWithFlags && !fields_match_flags(p@, flag_bits))
                || (e == EncodeError::StringTooLong && fields_match_flags(p@, flag_bits)
                && !connect_fields_fit(p@)),
        },
{
    let will = (flag_bits & WILL_FLAG) == WILL_FLAG;
    let user = (flag_bits & USERNAME_FLAG) == USERNAME_FLAG;
    let pass = (flag_bits & PASSWORD_FLAG) == PASSWORD_FLAG;
    if p.will_topic.is_some() != will || p.will_message.is_some() != will || p.username.is_some()
        != user || p.password.is_some() != pass {
        return Err(EncodeError::FieldsDisagreeWithFlags);
    }
    if p.client_id.as_str().as_bytes().len() > MAX_STRING_BYTES || !opt_fits_exec(&p.will_topic)
        || !opt_fits_exec(&p.will_message) || !opt_fits_exec(&p.username) || !opt_fits_exec(
        &p.password,
    ) {
        return Err(EncodeError::StringTooLong);
    }
    let mut out: Vec<u8> = Vec::new();
    write_string(&mut out, &p.client_id);
    write_opt(&mut out, &p.will_topic);
    write_opt(&mut out, &p.will_message);
    write_opt(&mut out, &p.username);
    write_opt(&mut out, &p.password);
    assert(out@ =~= connect_payload_bytes(p@));
    Ok(out)
}

proof fn lemma_optional_round_trip(c: Option<Seq<char>>, present: bool, prefix: Seq<u8>, rest: Seq<u8>)
    requires
        c is Some <==> present,
        opt_fits(c),
    ensures
        optional_string_at(present, prefix + opt_bytes(c) + rest, prefix.len() as int) == Ok::<
            (Option<Seq<char>>, int),
            crate::types::DecodeError,
        >((c, (prefix.len() + opt_bytes(c).len()) as int)),
{
    reveal(opt_bytes);
    reveal(optional_string_at);
    let s = prefix + opt_bytes(c) + rest;
    assert(s.subrange(prefix.len() as int, s.len() as int) =~= opt_bytes(c) + rest);
    if let Some(x) = c {
        lemma_string_round_trip(x, rest);
    }
}

proof fn lemma_connect_fields_chain(
    flags: u8,
    s: Seq<u8>,
    m: ConnectPayloadModel,
    at_topic: int,
    at_message: int,
    at_user: int,
    at_pass: int,
    at_end: int,
)
    requires
        optional_string_at(true, s, 0) == Ok::<(Option<Seq<char>>, int), crate::types::DecodeError>(
            (Some(m.client_id), at_topic),
        ),
        optional_string_at(has_flag(flags, WILL_FLAG), s, at_topic) == Ok::<
            (Option<Seq<char>>, int),
            crate::types::DecodeError,
        >((m.will_topic, at_message)),
        optional_string_at(has_flag(flags, WILL_FLAG), s, at_message) == Ok::<
            (Option<Seq<char>>, int),
            crate::types::DecodeError,
        >((m.will_message, at_user)),
        optional_string_at(has_flag(flags, USERNAME_FLAG), s, at_user) == Ok::<
            (Option<Seq<char>>, int),
            crate::types::DecodeError,
        >((m.username, at_pass)),
        optional_string_at(has_flag(flags, PASSWORD_FLAG), s, at_pass) == Ok::<
            (Option<Seq<char>>, int),
            crate::types::DecodeError,
        >((m.password, at_end)),
    ensures
        parse_connect_payload(flags, s) == Ok::<ConnectPayloadModel, crate::types::DecodeError>(m),
{
}

/// Reading back the encoding of a CONNECT payload under flags that announce
/// exactly its present fields gives the payload.
pub proof fn lemma_connect_payload_round_trip(m: ConnectPayloadModel, flags: u8)
    requires
        fields_match_flags(m, flags),
        connect_fields_fit(m),
    ensures
        parse_connect_payload(flags, connect_payload_bytes(m)) == Ok::<
            ConnectPayloadModel,
            crate::types::DecodeError,
        >(m),
{
    let b0 = opt_bytes(Some(m.client_id));
    assert(b0 == string_bytes(m.client_id)) by {
        reveal(opt_bytes);
    }
    let b1 = opt_bytes(m.will_topic);
    let b2 = opt_bytes(m.will_message);
    let b3 = opt_bytes(m.username);
    let b4 = opt_bytes(m.password);
    let s = connect_payload_bytes(m);
    let e = Seq::<u8>::empty();
    assert(s == b0 + b1 + b2 + b3 + b4);
    assert(b0 + b1 + b2 + b3 + b4 =~= e + b0 + (b1 + b2 + b3 + b4));
    lemma_optional_round_trip(Some(m.client_id), true, e, b1 + b2 + b3 + b4);
    assert(b0 + b1 + b2 + b3 + b4 =~= b0 + b1 + (b2 + b3 + b4));
    lemma_optional_round_trip(m.will_topic, has_flag(flags, WILL_FLAG), b0, b2 + b3 + b4);
    assert(b0 + b1 + b2 + b3 + b4 =~= (b0 + b1) + b2 + (b3 + b4));
    lemma_optional_round_trip(m.will_message, has_flag(flags, WILL_FLAG), b0 + b1, b3 + b4);
    assert(b0 + b1 + b2 + b3 + b4 =~= (b0 + b1 + b2) + b3 + b4);
    lemma_optional_round_trip(m.username, has_flag(flags, USERNAME_FLAG), b0 + b1 + b2, b4);
    assert(b0 + b1 + b2 + b3 + b4 =~= (b0 + b1 + b2 + b3) + b4 + e);
    lemma_optional_round_trip(m.password, has_flag(flags, PASSWORD_FLAG), b0 + b1 + b2 + b3, e);
    lemma_connect_fields_chain(
        flags,
        s,
        m,
        b0.len() as int,
        (b0 + b1).len() as int,
        (b0 + b1 + b2).len() as int,
        (b0 + b1 + b2 + b3).len() as int,
        (b0 + b1 + b2 + b3 + b4).len() as int,
    );
}

} // verus!
