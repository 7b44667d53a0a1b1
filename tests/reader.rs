use mqtt_codec::{
    decode_vlq, read_header, read_packet, read_packet_type, ConnAckReturnCode, PacketType, QoS,
    SubAckReturnCode, VariableHeader,
};

#[test]
fn reads_correct_packet_type() {
    let type_map = vec![
        (0x00, PacketType::Reserved),
        (0x10, PacketType::Connect),
        (0x20, PacketType::ConnAck),
        (0x30, PacketType::Publish),
        (0x40, PacketType::PubAck),
        (0x50, PacketType::PubRec),
        (0x60, PacketType::PubRel),
        (0x70, PacketType::PubComp),
        (0x80, PacketType::Subscribe),
        (0x90, PacketType::SubAck),
        (0xA0, PacketType::Unsubscribe),
        (0xB0, PacketType::UnsubAck),
        (0xC0, PacketType::PingReq),
        (0xD0, PacketType::PingResp),
        (0xE0, PacketType::Disconnect),
        (0xF0, PacketType::Reserved),
    ];
    for (byte, ptype) in type_map.iter() {
        assert_eq!(read_packet_type(*byte), *ptype);
    }
}

#[test]
fn reads_vlq() {
    assert_eq!(decode_vlq(&[0]), Ok((0, 1)));
    assert_eq!(decode_vlq(&[0x40]), Ok((64, 1)));
    assert_eq!(decode_vlq(&[0x7F]), Ok((127, 1)));
    assert_eq!(decode_vlq(&[0x80, 0x01]), Ok((128, 2)));
    assert_eq!(decode_vlq(&[193, 2]), Ok((321, 2)));
    assert_eq!(decode_vlq(&[0xFF, 0x7F]), Ok((16383, 2)));
    assert_eq!(decode_vlq(&[0x80, 0x80, 0x01]), Ok((16384, 3)));
    assert_eq!(decode_vlq(&[0xFF, 0xFF, 0x7F]), Ok((2097151, 3)));
    assert_eq!(decode_vlq(&[0x80, 0x80, 0x80, 0x01]), Ok((2097152, 4)));
    assert_eq!(decode_vlq(&[0xFF, 0xFF, 0xFF, 0x7F]), Ok((268435455, 4)));
}

#[test]
fn reads_header_without_qos() {
    let connect_command = vec![0x10, 0x25];
    let header = read_header(&connect_command).unwrap();
    assert_eq!(header.packet_type, PacketType::Connect);
    assert_eq!(header.remaining_bytes, 37);

    assert_eq!(header.dup, false);
    assert_eq!(header.qos, QoS::AtMostOnce);
    assert_eq!(header.retain, false);
}

#[test]
fn reads_header_with_qos() {
    let subscribe_command = vec![0x82, 0x10, 0x00, 0x01];
    let header = read_header(&subscribe_command).unwrap();
    assert_eq!(header.packet_type, PacketType::Subscribe);
    assert_eq!(header.remaining_bytes, 16);
    assert_eq!(header.dup, false);
    assert_eq!(header.qos, QoS::AtLeastOnce);
    assert_eq!(header.retain, false);
}

#[test]
fn reads_connect_packet() {
    // CONNECT, MsgLen = 18, protocol name = MQTT, protocol level = 4,
    // flags = 2, keep-alive: 5, client ID = "paho"
    let data = vec![
        0x10, 0x12, 0x00, 0x04, 0x4D, 0x51, 0x54, 0x54, 0x04, 0x02, 0x00, 0x05, 0x00, 0x04, 0x70,
        0x61, 0x68, 0x6f,
    ];
    let packet = read_packet(&data).unwrap();
    assert_eq!(packet.header.packet_type, PacketType::Connect);
    match packet.var_header.clone() {
        VariableHeader::Connect(h) => {
            assert_eq!(h.protocol_name, "MQTT");
            assert_eq!(h.protocol_level, 0x04);
            assert_eq!(h.flag_bits, 0x02);
            assert_eq!(h.clean_session(), true);
            assert_eq!(h.keep_alive, 5);
        }
        _ => panic!(),
    }
    let payload = packet.get_connect_payload();
    match payload {
        Ok(p) => {
            assert_eq!(p.client_id, "paho");
            assert_eq!(p.will_topic, Option::None);
            assert_eq!(p.will_message, Option::None);
            assert_eq!(p.username, Option::None);
            assert_eq!(p.password, Option::None);
        }
        Err(r) => panic!("{:?}", r),
    }
}

#[test]
fn reads_connack_packet() {
    // CONNACK, no session present, connection accepted
    let data = vec![0x20, 0x02, 0x00, 0x00];
    let packet = read_packet(&data).unwrap();
    assert_eq!(packet.header.packet_type, PacketType::ConnAck);
    match packet.var_header {
        VariableHeader::ConnAck(h) => {
            assert_eq!(h.session_present(), false);
            assert_eq!(h.return_code, ConnAckReturnCode::Accepted);
        }
        _ => panic!(),
    }
}

#[test]
fn reads_subscribe_packet() {
    // SUBSCRIBE, packet ID = 1, topic "SampleTopic", QoS = 0
    let data = vec![
        0x82, 0x10, 0x00, 0x01, 0x00, 0x0b, 0x53, 0x61, 0x6d, 0x70, 0x6c, 0x65, 0x54, 0x6f, 0x70,
        0x69, 0x63, 0x00,
    ];
    let packet = read_packet(&data).unwrap();
    let filters = vec![("SampleTopic".to_string(), QoS::AtMostOnce)];

    assert_eq!(packet.header.packet_type, PacketType::Subscribe);
    match packet.var_header.clone() {
        VariableHeader::WithPacketId(id) => assert_eq!(id, 1),
        _ => panic!(),
    }
    let payload = packet.get_subscribe_payload();
    match payload {
        Ok(p) => {
            assert_eq!(p.filters, filters);
            assert_eq!(p.packet_id, 1);
        }
        Err(r) => panic!("{:?}", r),
    }
}

#[test]
fn reads_suback_packet() {
    // SUBACK, packet ID 1, payload: QoS 0, QoS 2
    let data = vec![0x90, 0x04, 0x00, 0x01, 0x00, 0x02];
    let packet = read_packet(&data).unwrap();

    assert_eq!(packet.header.packet_type, PacketType::SubAck);
    match packet.var_header {
        VariableHeader::WithPacketId(packet_id) => assert_eq!(packet_id, 1),
        _ => panic!(),
    }
    let payload = packet.get_suback_payload();
    match payload {
        Ok(p) => {
            assert_eq!(
                p.return_codes,
                vec![SubAckReturnCode::MaximumQoS0, SubAckReturnCode::MaximumQoS2]
            );
            assert_eq!(p.packet_id, 1);
        }
        _ => panic!(),
    }
}

#[test]
fn reads_publish_packet_with_packet_id() {
    // PUBLISH, QoS = 1 (should have packet ID), topic: a/b, packet ID = 10, payload = Hello
    let data = vec![
        0x33, 0x30, 0x00, 0x03, 0x61, 0x2F, 0x62, 0x00, 0xA, 0x48, 0x65, 0x6C, 0x6C, 0x6F,
    ];
    let payload = data[9..].to_vec();
    let packet = read_packet(&data).unwrap();
    assert_eq!(packet.header.packet_type, PacketType::Publish);
    match packet.var_header {
        VariableHeader::Publish(h) => {
            assert_eq!(h.packet_id, 10);
            assert_eq!(h.topic_name, "a/b");
        }
        _ => panic!(),
    }
    assert_eq!(packet.payload, payload);
}

#[test]
fn reads_publish_packet_without_packet_id() {
    // PUBLISH, QoS = 0 (shouldn't have packet ID), topic: a/b, payload = Hello
    let data = vec![0x31, 0x30, 0x00, 0x03, 0x61, 0x2F, 0x62, 0x48, 0x65, 0x6C, 0x6C, 0x6F];
    let payload = data[7..].to_vec();
    let packet = read_packet(&data).unwrap();
    assert_eq!(packet.header.packet_type, PacketType::Publish);
    match packet.var_header {
        VariableHeader::Publish(h) => {
            assert_eq!(h.topic_name, "a/b");
        }
        _ => panic!(),
    }
    assert_eq!(packet.payload, payload);
}

#[test]
fn reads_packets_with_packetid_varheader() {
    // SUBACK, packet ID 1, payload 0x00
    let data = vec![0x90, 0x03, 0x00, 0x01, 0x00];
    let payload = data[4..].to_vec();
    let packet = read_packet(&data).unwrap();

    assert_eq!(packet.header.packet_type, PacketType::SubAck);
    match packet.var_header {
        VariableHeader::WithPacketId(packet_id) => assert_eq!(packet_id, 1),
        _ => panic!(),
    }
    assert_eq!(packet.payload, payload);
}

#[test]
fn reads_unsubscribe_packet() {
    // UNSUBSCRIBE, packet ID = 1, topic "SampleTopic"
    let data = vec![
        0xA2, 0x0F, 0x00, 0x01, 0x00, 0x0b, 0x53, 0x61, 0x6d, 0x70, 0x6c, 0x65, 0x54, 0x6f, 0x70,
        0x69, 0x63,
    ];
    let packet = read_packet(&data).unwrap();
    let filters = vec!["SampleTopic".to_string()];

    assert_eq!(packet.header.packet_type, PacketType::Unsubscribe);
    match packet.var_header.clone() {
        VariableHeader::WithPacketId(id) => assert_eq!(id, 1),
        _ => panic!(),
    }
    let payload = packet.get_unsubscribe_payload();
    match payload {
        Ok(p) => {
            assert_eq!(p.filters, filters);
            assert_eq!(p.packet_id, 1);
        }
        Err(r) => panic!("{:?}", r),
    }
}
