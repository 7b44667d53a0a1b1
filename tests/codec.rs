use mqtt_codec::{
    construct_packet, read_header, validate_header_flags, decode_vlq, encode_packet, encode_vlq, read_packet, read_string, ConnAckHeader,
    ConnAckReturnCode, ConnectHeader, DecodeError, EncodeError, FrameAssembler, MqttPacket,
    PacketType, Progress, PublishHeader, QoS, SubAckReturnCode, VariableHeader,
};

fn frame_round_trip(frame: &[u8]) -> MqttPacket {
    let packet = read_packet(frame).unwrap();
    let bytes = encode_packet(&packet).unwrap();
    assert_eq!(bytes, frame.to_vec());
    let again = read_packet(&bytes).unwrap();
    assert_eq!(again, packet);
    packet
}

#[test]
fn vlq_round_trip_values() {
    let cases: Vec<(u32, usize)> = vec![
        (0, 1),
        (64, 1),
        (127, 1),
        (128, 2),
        (321, 2),
        (16383, 2),
        (16384, 3),
        (2097151, 3),
        (2097152, 4),
        (268435455, 4),
    ];
    for (v, n) in cases {
        let bytes = encode_vlq(v);
        assert_eq!(bytes.len(), n);
        assert_eq!(decode_vlq(&bytes), Ok((v, n)));
    }
}

#[test]
fn vlq_exact_bytes() {
    assert_eq!(encode_vlq(0), vec![0x00]);
    assert_eq!(encode_vlq(321), vec![193, 2]);
    assert_eq!(encode_vlq(16384), vec![0x80, 0x80, 0x01]);
    assert_eq!(encode_vlq(268435455), vec![0xFF, 0xFF, 0xFF, 0x7F]);
}

#[test]
fn vlq_rejects_overlong_and_incomplete_fields() {
    // the decoder stops after four bytes; the frame parsers reject such a field
    assert_eq!(decode_vlq(&[0xFF, 0xFF, 0xFF, 0xFF]), Ok((268435455, 4)));
    assert_eq!(decode_vlq(&[0x80, 0x80, 0x80, 0x80]), Ok((0, 4)));
    assert_eq!(decode_vlq(&[0x81, 0x80, 0x80, 0x80, 0x01]), Ok((1, 4)));
    assert_eq!(read_packet(&[0x30, 0x80, 0x80, 0x80, 0x80]), Err(DecodeError::InvalidVlqEncoding));
    assert_eq!(decode_vlq(&[0x80]), Err(DecodeError::IncompleteHeader));
    assert_eq!(decode_vlq(&[]), Err(DecodeError::IncompleteHeader));
    assert_eq!(decode_vlq(&[0x05, 0xFF]), Ok((5, 1)));
}

#[test]
fn reserved_packet_types_are_rejected() {
    assert_eq!(read_packet(&[0x00, 0x00]), Err(DecodeError::InvalidPacketType));
    assert_eq!(read_packet(&[0xF0, 0x00]), Err(DecodeError::InvalidPacketType));
}

#[test]
fn every_valid_type_code_decodes_to_its_type() {
    let frames: Vec<(Vec<u8>, PacketType)> = vec![
        (vec![0x10, 0x0A, 0x00, 0x04, 0x4D, 0x51, 0x54, 0x54, 0x04, 0x02, 0x00, 0x05], PacketType::Connect),
        (vec![0x20, 0x02, 0x00, 0x00], PacketType::ConnAck),
        (vec![0x30, 0x02, 0x00, 0x00], PacketType::Publish),
        (vec![0x40, 0x02, 0x00, 0x01], PacketType::PubAck),
        (vec![0x50, 0x02, 0x00, 0x01], PacketType::PubRec),
        (vec![0x62, 0x02, 0x00, 0x01], PacketType::PubRel),
        (vec![0x70, 0x02, 0x00, 0x01], PacketType::PubComp),
        (vec![0x82, 0x02, 0x00, 0x01], PacketType::Subscribe),
        (vec![0x90, 0x02, 0x00, 0x01], PacketType::SubAck),
        (vec![0xA2, 0x02, 0x00, 0x01], PacketType::Unsubscribe),
        (vec![0xB0, 0x02, 0x00, 0x01], PacketType::UnsubAck),
        (vec![0xC0, 0x00], PacketType::PingReq),
        (vec![0xD0, 0x00], PacketType::PingResp),
        (vec![0xE0, 0x00], PacketType::Disconnect),
    ];
    for (frame, ptype) in frames {
        assert_eq!(read_packet(&frame).unwrap().header.packet_type, ptype);
    }
}

#[test]
fn header_flags_are_checked_per_type() {
    assert_eq!(read_packet(&[0x11, 0x00]), Err(DecodeError::InvalidHeaderFlags));
    assert_eq!(read_packet(&[0x80, 0x02, 0x00, 0x01]), Err(DecodeError::InvalidHeaderFlags));
    assert_eq!(read_packet(&[0x60, 0x02, 0x00, 0x01]), Err(DecodeError::InvalidHeaderFlags));
    assert_eq!(read_packet(&[0x36, 0x02, 0x00, 0x00]), Err(DecodeError::InvalidHeaderFlags));
    assert!(validate_header_flags(&PacketType::Publish, 0x06));
    assert!(validate_header_flags(&PacketType::Publish, 0x0F));
    assert!(!validate_header_flags(&PacketType::Subscribe, 0x00));
    let p = read_packet(&[0x3D, 0x04, 0x00, 0x00, 0x00, 0x07]).unwrap();
    assert_eq!(p.header.dup, true);
    assert_eq!(p.header.qos, QoS::ExactlyOnce);
    assert_eq!(p.header.retain, true);
}

#[test]
fn short_buffers_are_incomplete_headers() {
    assert_eq!(read_packet(&[0x10]), Err(DecodeError::IncompleteHeader));
    assert_eq!(read_packet(&[]), Err(DecodeError::IncompleteHeader));
    assert_eq!(read_packet(&[0x30, 0x80]), Err(DecodeError::IncompleteHeader));
    assert_eq!(read_packet(&[0x30, 0xFF, 0xFF, 0xFF, 0xFF]), Err(DecodeError::InvalidVlqEncoding));
}

#[test]
fn body_stops_at_declared_length() {
    // PUBACK with id 7 followed by the first byte of another packet
    let p = read_packet(&[0x40, 0x02, 0x00, 0x07, 0xC0]).unwrap();
    assert_eq!(p.header.payload, vec![0x00, 0x07]);
    assert_eq!(p.var_header, VariableHeader::WithPacketId(7));
    assert_eq!(p.payload, Vec::<u8>::new());
}

#[test]
fn malformed_bodies_are_rejected() {
    assert_eq!(read_packet(&[0x20, 0x01, 0x00]), Err(DecodeError::MalformedBody));
    assert_eq!(read_packet(&[0x20, 0x03, 0x00, 0x00, 0x00]), Err(DecodeError::MalformedBody));
    assert_eq!(read_packet(&[0x40, 0x01, 0x00]), Err(DecodeError::MalformedBody));
    // topic announces 5 bytes, only 2 follow
    assert_eq!(read_packet(&[0x30, 0x04, 0x00, 0x05, 0x61, 0x62]), Err(DecodeError::MalformedBody));
    // QoS 1 publish without room for its packet id
    assert_eq!(read_packet(&[0x32, 0x04, 0x00, 0x01, 0x61, 0x00]), Err(DecodeError::MalformedBody));
}

#[test]
fn invalid_utf8_in_strings_is_reported() {
    assert_eq!(read_packet(&[0x30, 0x04, 0x00, 0x02, 0xFF, 0xFE]), Err(DecodeError::InvalidUtf8));
    assert_eq!(read_string(&[0x00, 0x02, 0xC0, 0x80], 0).err(), Some(DecodeError::InvalidUtf8));
    assert_eq!(read_string(&[0x00, 0x03, 0xED, 0xA0, 0x80], 0).err(), Some(DecodeError::InvalidUtf8));
    let connect = vec![
        0x10, 0x0E, 0x00, 0x04, 0x4D, 0x51, 0x54, 0x54, 0x04, 0x02, 0x00, 0x05, 0x00, 0x02, 0xC3, 0x28,
    ];
    let packet = read_packet(&connect).unwrap();
    assert_eq!(packet.get_connect_payload(), Err(DecodeError::InvalidUtf8));
    let subscribe = vec![0x82, 0x06, 0x00, 0x01, 0x00, 0x01, 0x80, 0x00];
    let packet = read_packet(&subscribe).unwrap();
    assert_eq!(packet.get_subscribe_payload(), Err(DecodeError::InvalidUtf8));
}

#[test]
fn read_string_decodes_multibyte_utf8() {
    let bytes = vec![0x00, 0x00, 0x00, 0x05, 0x63, 0x61, 0x66, 0xC3, 0xA9, 0x21];
    let (s, next) = read_string(&bytes, 2).unwrap();
    assert_eq!(s, "café");
    assert_eq!(next, 9);
    let (empty, next) = read_string(&[0x00, 0x00], 0).unwrap();
    assert_eq!(empty, "");
    assert_eq!(next, 2);
    assert_eq!(read_string(&[0x00], 0).err(), Some(DecodeError::MalformedBody));
}

#[test]
fn connect_payload_with_all_fields() {
    // flags: username, password, will, clean session
    let data = vec![
        0x10, 0x1F, 0x00, 0x04, 0x4D, 0x51, 0x54, 0x54, 0x04, 0xC6, 0x00, 0x3C, 0x00, 0x01, 0x63,
        0x00, 0x01, 0x74, 0x00, 0x01, 0x6D, 0x00, 0x01, 0x75, 0x00, 0x02, 0x70, 0x77,
    ];
    let mut frame = data.clone();
    frame[1] = (data.len() - 2) as u8;
    let packet = read_packet(&frame).unwrap();
    match &packet.var_header {
        VariableHeader::Connect(h) => {
            assert!(h.has_username_flag());
            assert!(h.has_password_flag());
            assert!(h.has_will_flag());
            assert!(h.clean_session());
            assert!(!h.will_retain());
            assert_eq!(h.will_qos(), QoS::AtMostOnce);
            assert_eq!(h.keep_alive, 60);
        }
        _ => panic!(),
    }
    let p = packet.get_connect_payload().unwrap();
    assert_eq!(p.client_id, "c");
    assert_eq!(p.will_topic, Some("t".to_string()));
    assert_eq!(p.will_message, Some("m".to_string()));
    assert_eq!(p.username, Some("u".to_string()));
    assert_eq!(p.password, Some("pw".to_string()));
}

#[test]
fn connect_flag_accessors() {
    let h = ConnectHeader { protocol_name: "MQTT".to_string(), protocol_level: 4, flag_bits: 0xEE, keep_alive: 0 };
    assert!(h.has_username_flag());
    assert!(h.has_password_flag());
    assert!(h.will_retain());
    assert_eq!(h.will_qos(), QoS::AtLeastOnce);
    assert!(h.has_will_flag());
    assert!(h.clean_session());
    let h = ConnectHeader { protocol_name: String::new(), protocol_level: 4, flag_bits: 0x10, keep_alive: 0 };
    assert!(!h.has_username_flag());
    assert_eq!(h.will_qos(), QoS::ExactlyOnce);
    assert!(!h.clean_session());
}

#[test]
fn flagged_connect_fields_must_be_present() {
    // username flag set, but the payload ends after the client id
    let data = vec![
        0x10, 0x0F, 0x00, 0x04, 0x4D, 0x51, 0x54, 0x54, 0x04, 0x82, 0x00, 0x05, 0x00, 0x01, 0x63,
        0x00,
    ];
    let packet = read_packet(&data).unwrap();
    assert_eq!(packet.get_connect_payload(), Err(DecodeError::MissingRequiredField));
    // no client id at all
    let data = vec![0x10, 0x0A, 0x00, 0x04, 0x4D, 0x51, 0x54, 0x54, 0x04, 0x02, 0x00, 0x05];
    let packet = read_packet(&data).unwrap();
    assert_eq!(packet.get_connect_payload(), Err(DecodeError::MissingRequiredField));
}

#[test]
fn empty_payloads_are_rejected() {
    let p = read_packet(&[0x82, 0x02, 0x00, 0x01]).unwrap();
    assert_eq!(p.get_subscribe_payload(), Err(DecodeError::EmptyPayload));
    let p = read_packet(&[0x90, 0x02, 0x00, 0x01]).unwrap();
    assert_eq!(p.get_suback_payload(), Err(DecodeError::EmptyPayload));
    let p = read_packet(&[0xA2, 0x02, 0x00, 0x01]).unwrap();
    assert_eq!(p.get_unsubscribe_payload(), Err(DecodeError::EmptyPayload));
}

#[test]
fn payloads_shorter_than_an_entry_are_empty() {
    let p = read_packet(&[0x82, 0x03, 0x00, 0x01, 0x00]).unwrap();
    assert_eq!(p.get_subscribe_payload(), Err(DecodeError::EmptyPayload));
    let p = read_packet(&[0xA2, 0x03, 0x00, 0x01, 0x61]).unwrap();
    assert_eq!(p.get_unsubscribe_payload(), Err(DecodeError::EmptyPayload));
}

#[test]
fn reserved_header_never_makes_a_packet() {
    let mut header = read_header(&[0xC0, 0x00]).unwrap();
    header.packet_type = PacketType::Reserved;
    assert_eq!(construct_packet(header), Err(DecodeError::InvalidPacketType));
}

#[test]
fn trailing_fragments_are_malformed() {
    let p = read_packet(&[0x82, 0x07, 0x00, 0x01, 0x00, 0x01, 0x61, 0x01, 0x00]).unwrap();
    assert_eq!(p.get_subscribe_payload(), Err(DecodeError::MalformedBody));
    let p = read_packet(&[0x82, 0x05, 0x00, 0x01, 0x00, 0x01, 0x61]).unwrap();
    assert_eq!(p.get_subscribe_payload(), Err(DecodeError::MalformedBody));
    let p = read_packet(&[0xA2, 0x06, 0x00, 0x01, 0x00, 0x01, 0x61, 0x00]).unwrap();
    assert_eq!(p.get_unsubscribe_payload(), Err(DecodeError::MalformedBody));
}

#[test]
fn duplicate_subscribe_filters_overwrite() {
    let data = vec![
        0x82, 0x0E, 0x00, 0x05, 0x00, 0x01, 0x61, 0x00, 0x00, 0x01, 0x62, 0x02, 0x00, 0x01, 0x61,
        0x01,
    ];
    let p = read_packet(&data).unwrap().get_subscribe_payload().unwrap();
    assert_eq!(p.packet_id, 5);
    assert_eq!(
        p.filters,
        vec![("a".to_string(), QoS::AtLeastOnce), ("b".to_string(), QoS::ExactlyOnce)]
    );
}

#[test]
fn payload_of_another_type_is_refused() {
    let p = read_packet(&[0x20, 0x02, 0x00, 0x00]).unwrap();
    assert_eq!(p.clone().get_connect_payload(), Err(DecodeError::UnexpectedPacketType));
    assert_eq!(p.clone().get_subscribe_payload(), Err(DecodeError::UnexpectedPacketType));
    assert_eq!(p.clone().get_suback_payload(), Err(DecodeError::UnexpectedPacketType));
    assert_eq!(p.get_unsubscribe_payload(), Err(DecodeError::UnexpectedPacketType));
    let p = read_packet(&[0x90, 0x03, 0x00, 0x01, 0x00]).unwrap();
    assert_eq!(p.get_subscribe_payload(), Err(DecodeError::UnexpectedPacketType));
}

#[test]
fn suback_codes_follow_payload_order() {
    let p = read_packet(&[0x90, 0x06, 0x00, 0x09, 0x01, 0x80, 0x02, 0x05]).unwrap();
    let s = p.get_suback_payload().unwrap();
    assert_eq!(s.packet_id, 9);
    assert_eq!(
        s.return_codes,
        vec![
            SubAckReturnCode::MaximumQoS1,
            SubAckReturnCode::Failure,
            SubAckReturnCode::MaximumQoS2,
            SubAckReturnCode::Reserved
        ]
    );
}

#[test]
fn return_code_bytes() {
    assert_eq!(ConnAckReturnCode::from_byte(4), ConnAckReturnCode::BadAuth);
    assert_eq!(ConnAckReturnCode::from_byte(5), ConnAckReturnCode::NotAuthorized);
    assert_eq!(ConnAckReturnCode::from_byte(6), ConnAckReturnCode::Reserved);
    assert_eq!(ConnAckReturnCode::ServerUnavailable.to_byte(), 3);
    assert_eq!(ConnAckReturnCode::NotAuthorized.to_byte(), 5);
    assert_eq!(SubAckReturnCode::from_byte(0x80), SubAckReturnCode::Failure);
    assert_eq!(SubAckReturnCode::from_byte(0x03), SubAckReturnCode::Reserved);
    assert_eq!(SubAckReturnCode::Failure.to_byte(), 0x80);
    assert_eq!(SubAckReturnCode::MaximumQoS1.to_byte(), 0x01);
    assert_eq!(QoS::from_byte(0x06, 1), QoS::Reserved);
    assert_eq!(QoS::from_byte(0x02, 0), QoS::ExactlyOnce);
}

#[test]
fn connack_session_present_bit() {
    let p = read_packet(&[0x20, 0x02, 0x01, 0x05]).unwrap();
    match p.var_header {
        VariableHeader::ConnAck(h) => {
            assert!(h.session_present());
            assert_eq!(h.return_code, ConnAckReturnCode::NotAuthorized);
        }
        _ => panic!(),
    }
}

#[test]
fn every_packet_type_round_trips() {
    frame_round_trip(&[
        0x10, 0x10, 0x00, 0x04, 0x4D, 0x51, 0x54, 0x54, 0x04, 0x02, 0x00, 0x05, 0x00, 0x04, 0x70,
        0x61, 0x68, 0x6F,
    ]);
    frame_round_trip(&[0x20, 0x02, 0x01, 0x00]);
    frame_round_trip(&[0x31, 0x0A, 0x00, 0x03, 0x61, 0x2F, 0x62, 0x48, 0x65, 0x6C, 0x6C, 0x6F]);
    let p = frame_round_trip(&[
        0x3A, 0x0C, 0x00, 0x03, 0x61, 0x2F, 0x62, 0x00, 0x0A, 0x48, 0x65, 0x6C, 0x6C, 0x6F,
    ]);
    assert_eq!(p.header.qos, QoS::AtLeastOnce);
    frame_round_trip(&[0x40, 0x02, 0x00, 0x01]);
    frame_round_trip(&[0x50, 0x02, 0x01, 0x00]);
    frame_round_trip(&[0x62, 0x02, 0x00, 0x02]);
    frame_round_trip(&[0x70, 0x02, 0xFF, 0xFF]);
    frame_round_trip(&[
        0x82, 0x10, 0x00, 0x01, 0x00, 0x0B, 0x53, 0x61, 0x6D, 0x70, 0x6C, 0x65, 0x54, 0x6F, 0x70,
        0x69, 0x63, 0x00,
    ]);
    frame_round_trip(&[0x90, 0x04, 0x00, 0x01, 0x00, 0x02]);
    frame_round_trip(&[
        0xA2, 0x0F, 0x00, 0x01, 0x00, 0x0B, 0x53, 0x61, 0x6D, 0x70, 0x6C, 0x65, 0x54, 0x6F, 0x70,
        0x69, 0x63,
    ]);
    frame_round_trip(&[0xB0, 0x02, 0x00, 0x03]);
    frame_round_trip(&[0xC0, 0x00]);
    frame_round_trip(&[0xD0, 0x00]);
    frame_round_trip(&[0xE0, 0x00]);
}

#[test]
fn encodes_a_large_body_with_a_multibyte_length() {
    let read = read_packet(&[0x30, 0x05, 0x00, 0x01, 0x74, 0x00, 0x00]).unwrap();
    let mut packet = read.clone();
    packet.payload = vec![0x42; 200];
    let bytes = encode_packet(&packet).unwrap();
    assert_eq!(&bytes[0..3], &[0x30, 0xCB, 0x01]);
    assert_eq!(bytes.len(), 3 + 203);
    let back = read_packet(&bytes).unwrap();
    assert_eq!(back.payload, packet.payload);
    assert_eq!(back.var_header, read.var_header);
}

#[test]
fn encode_errors() {
    let base = read_packet(&[0x20, 0x02, 0x00, 0x00]).unwrap();

    let mut p = base.clone();
    p.header.packet_type = PacketType::Reserved;
    assert_eq!(encode_packet(&p), Err(EncodeError::InvalidPacketType));

    let mut p = base.clone();
    p.header.dup = true;
    assert_eq!(encode_packet(&p), Err(EncodeError::InvalidHeaderFlags));

    let mut p = base.clone();
    p.var_header = VariableHeader::WithPacketId(1);
    assert_eq!(encode_packet(&p), Err(EncodeError::VariableHeaderMismatch));

    let mut p = base.clone();
    p.var_header = VariableHeader::ConnAck(ConnAckHeader { flags: 0, return_code: ConnAckReturnCode::Reserved });
    assert_eq!(encode_packet(&p), Err(EncodeError::ReservedReturnCode));

    let mut p = read_packet(&[0x30, 0x03, 0x00, 0x01, 0x74]).unwrap();
    p.var_header = VariableHeader::Publish(PublishHeader { topic_name: "x".repeat(70000), packet_id: 0 });
    assert_eq!(encode_packet(&p), Err(EncodeError::StringTooLong));

    let mut p = base.clone();
    p.payload = vec![0x01];
    assert_eq!(encode_packet(&p), Err(EncodeError::UnexpectedPayload));

    let mut p = read_packet(&[0x30, 0x03, 0x00, 0x01, 0x74]).unwrap();
    p.var_header = VariableHeader::Publish(PublishHeader { topic_name: "t".to_string(), packet_id: 7 });
    assert_eq!(encode_packet(&p), Err(EncodeError::UnexpectedPacketId));

    let mut p = read_packet(&[0x30, 0x03, 0x00, 0x01, 0x74]).unwrap();
    p.header.qos = QoS::Reserved;
    assert_eq!(encode_packet(&p), Err(EncodeError::InvalidHeaderFlags));
}

#[test]
fn assembler_collects_one_frame_in_pieces() {
    let frame = vec![0x32, 0x09, 0x00, 0x03, 0x61, 0x2F, 0x62, 0x00, 0x0A, 0x48, 0x69];
    let mut framer = FrameAssembler::new();
    assert_eq!(framer.progress(), Ok(Progress::NeedBytes(1)));
    assert_eq!(framer.feed(&frame[0..1]), Ok(Progress::NeedBytes(1)));
    assert_eq!(framer.feed(&frame[1..2]), Ok(Progress::NeedBytes(9)));
    assert_eq!(framer.close(), Err(DecodeError::TruncatedFrame));
    assert_eq!(framer.feed(&frame[2..6]), Ok(Progress::NeedBytes(5)));
    assert_eq!(framer.feed(&frame[6..11]), Ok(Progress::FrameReady));
    let got = framer.take_frame();
    assert_eq!(got, frame);
    assert_eq!(framer.progress(), Ok(Progress::NeedBytes(1)));
    assert_eq!(framer.close(), Ok(()));
    let packet = read_packet(&got).unwrap();
    assert_eq!(packet.payload, vec![0x48, 0x69]);
}

#[test]
fn assembler_reads_multibyte_length_one_byte_at_a_time() {
    let mut framer = FrameAssembler::new();
    assert_eq!(framer.feed(&[0x30]), Ok(Progress::NeedBytes(1)));
    assert_eq!(framer.feed(&[0x80]), Ok(Progress::NeedBytes(1)));
    assert_eq!(framer.feed(&[0x01]), Ok(Progress::NeedBytes(128)));
    let mut framer = FrameAssembler::new();
    assert_eq!(framer.feed(&[0xC0]), Ok(Progress::NeedBytes(1)));
    assert_eq!(framer.feed(&[0x00]), Ok(Progress::FrameReady));
    assert_eq!(framer.take_frame(), vec![0xC0, 0x00]);
}

#[test]
fn assembler_rejects_bad_first_byte_and_overlong_length() {
    let mut framer = FrameAssembler::new();
    assert_eq!(framer.feed(&[0xF0]), Err(DecodeError::InvalidPacketType));
    let mut framer = FrameAssembler::new();
    assert_eq!(framer.feed(&[0x81]), Err(DecodeError::InvalidHeaderFlags));
    let mut framer = FrameAssembler::new();
    assert_eq!(framer.feed(&[0x30]), Ok(Progress::NeedBytes(1)));
    assert_eq!(framer.feed(&[0xFF]), Ok(Progress::NeedBytes(1)));
    assert_eq!(framer.feed(&[0xFF]), Ok(Progress::NeedBytes(1)));
    assert_eq!(framer.feed(&[0xFF]), Ok(Progress::NeedBytes(1)));
    assert_eq!(framer.feed(&[0xFF]), Err(DecodeError::InvalidVlqEncoding));
}
