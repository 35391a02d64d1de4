use mqtr::error::{Error, ErrorKind, ReasonCode};
use mqtr::v5::connack::{ConnAck, ConnAckProperties};
use mqtr::v5::connect::{Connect, ConnectFlags, ConnectProperties, WillProperties};
use mqtr::v5::packet::Packet;
use mqtr::v5::property::{PropertyType, ValueKind};
use mqtr::v5::pubaclc::{PubARLC, Properties, ReasCode};
use mqtr::v5::publish::{Publish, PublishProperties};
use mqtr::v5::sample::{
    sample_connect, sample_filter_count, sample_flags, sample_nonzero_u16, sample_nonzero_u32,
    sample_user_props_count, sample_will_payload,
};
use mqtr::v5::sub::{
    RetainForwardRule, Subscribe, SubscribeFilter, SubscribeProperties, SubscriptionOpt,
};
use mqtr::v5::suback::SubAck;
use mqtr::v5::unsuback::UnsubAck;
use mqtr::v5::unsubscribe::UnSubscribe;
use mqtr::v5::disconnect::{Disconnect, DisconnectProperties};
use mqtr::v5::auth::{Auth, AuthProperties};
use mqtr::v5::{
    ClientID, FixedHeader, MqttProtocol, PacketType, PayloadFormat, QoS, TopicFilter, TopicName,
    VarU32,
};
use mqtr::wire::{
    decode_bytes, decode_string, decode_u16, decode_u32, decode_u8, decode_varu32, put_bytes,
    put_string, put_u16, put_u32, put_varu32,
};

fn varu32_bytes(v: u32) -> Vec<u8> {
    let mut data = Vec::new();
    put_varu32(&mut data, v).unwrap();
    data
}

fn malformed() -> Error {
    Error { kind: ErrorKind::MalformedPacket, code: ReasonCode::MalformedPacket }
}

fn protocol_error() -> Error {
    Error { kind: ErrorKind::ProtocolError, code: ReasonCode::ProtocolError }
}

fn client(name: &str) -> Connect {
    let mut c = Connect::default();
    c.payload.client_id = ClientID(name.to_string());
    c
}

#[test]
fn varu32_boundaries_round_trip() {
    let values: [u32; 8] = [0, 127, 128, 16383, 16384, 2097151, 2097152, 268435455];
    for v in values {
        let bytes = varu32_bytes(v);
        assert_eq!(decode_varu32(&bytes, 0), Ok((v, bytes.len())));
    }
    assert_eq!(varu32_bytes(0), vec![0x00]);
    assert_eq!(varu32_bytes(127), vec![0x7f]);
    assert_eq!(varu32_bytes(128), vec![0x80, 0x01]);
    assert_eq!(varu32_bytes(16383), vec![0xff, 0x7f]);
    assert_eq!(varu32_bytes(16384), vec![0x80, 0x80, 0x01]);
    assert_eq!(varu32_bytes(2097151), vec![0xff, 0xff, 0x7f]);
    assert_eq!(varu32_bytes(2097152), vec![0x80, 0x80, 0x80, 0x01]);
    assert_eq!(varu32_bytes(268435455), vec![0xff, 0xff, 0xff, 0x7f]);
}

#[test]
fn varu32_too_large_is_rejected_on_encode() {
    let mut data = vec![9u8];
    assert_eq!(put_varu32(&mut data, 268435456), Err(malformed()));
    assert_eq!(data, vec![9u8]);
}

#[test]
fn varu32_fifth_byte_is_malformed() {
    assert_eq!(decode_varu32(&[0x80, 0x80, 0x80, 0x80, 0x01], 0), Err(malformed()));
    assert_eq!(decode_varu32(&[0x80, 0x80], 0), Err(malformed()));
    assert_eq!(decode_varu32(&[], 0), Err(malformed()));
}

#[test]
fn varu32_long_spelling_is_read() {
    assert_eq!(decode_varu32(&[0x81, 0x00], 0), Ok((1, 2)));
    assert_eq!(decode_varu32(&[0x05, 0x81, 0x01], 1), Ok((129, 3)));
}

#[test]
fn fixed_width_integers() {
    let mut data = Vec::new();
    put_u16(&mut data, 0x1234);
    put_u32(&mut data, 0xdeadbeef);
    assert_eq!(data, vec![0x12, 0x34, 0xde, 0xad, 0xbe, 0xef]);
    assert_eq!(decode_u16(&data, 0), Ok((0x1234, 2)));
    assert_eq!(decode_u32(&data, 2), Ok((0xdeadbeef, 6)));
    assert_eq!(decode_u8(&data, 5), Ok((0xef, 6)));
    assert_eq!(decode_u8(&data, 6), Err(malformed()));
    assert_eq!(decode_u16(&data, 5), Err(malformed()));
    assert_eq!(decode_u32(&data, 3), Err(malformed()));
    assert_eq!(decode_u16(&data, usize::MAX), Err(malformed()));
}

#[test]
fn strings_and_binary_data() {
    let mut data = Vec::new();
    put_string(&mut data, "a/é").unwrap();
    assert_eq!(data, vec![0x00, 0x04, b'a', b'/', 0xc3, 0xa9]);
    assert_eq!(decode_string(&data, 0), Ok(("a/é".to_string(), 6)));
    assert_eq!(decode_bytes(&data, 0), Ok((vec![b'a', b'/', 0xc3, 0xa9], 6)));
    // a lone continuation byte is not UTF-8
    assert_eq!(decode_string(&[0x00, 0x01, 0x80], 0), Err(malformed()));
    // an overlong spelling of '/' is not UTF-8
    assert_eq!(decode_string(&[0x00, 0x02, 0xc0, 0xaf], 0), Err(malformed()));
    // the length runs past the end
    assert_eq!(decode_string(&[0x00, 0x03, b'a'], 0), Err(malformed()));
    assert_eq!(decode_bytes(&[0x00, 0x03, b'a'], 0), Err(malformed()));
}

#[test]
fn field_longer_than_65535_bytes_is_rejected_on_encode() {
    let long = vec![0u8; 65536];
    let mut data = Vec::new();
    assert_eq!(put_bytes(&mut data, &long), Err(malformed()));
    assert!(data.is_empty());
    let fits = vec![0u8; 65535];
    assert_eq!(put_bytes(&mut data, &fits), Ok(()));
    assert_eq!(data.len(), 65537);
    assert_eq!(&data[..2], &[0xff, 0xff]);
}

#[test]
fn fixed_header_flags() {
    let fh = FixedHeader::new(PacketType::Subscribe, VarU32(5)).unwrap();
    assert_eq!(fh.byte1, 0x82);
    assert_eq!(FixedHeader::new_subscribe(VarU32(5)), Ok(fh));
    assert_eq!(FixedHeader::new_pubrel(VarU32(2)).unwrap().byte1, 0x62);
    assert_eq!(FixedHeader::new(PacketType::Connect, VarU32(0)).unwrap().byte1, 0x10);
    assert_eq!(FixedHeader::new(PacketType::Connect, VarU32(268435456)), Err(malformed()));
    let publish = FixedHeader::new_publish(true, QoS::ExactlyOnce, true, VarU32(7)).unwrap();
    assert_eq!(publish.byte1, 0x3d);
    assert_eq!(publish.unwrap(), Ok((PacketType::Publish, true, QoS::ExactlyOnce, true)));
    assert_eq!(publish.validate(), Ok(()));
    // quality of service 3
    assert_eq!(FixedHeader { byte1: 0x36, remaining_len: VarU32(0) }.validate(), Err(malformed()));
    // reserved flags of a SUBSCRIBE
    assert_eq!(FixedHeader { byte1: 0x80, remaining_len: VarU32(0) }.validate(), Err(malformed()));
    // no packet type
    assert_eq!(FixedHeader { byte1: 0x00, remaining_len: VarU32(0) }.validate(), Err(malformed()));
    let mut data = Vec::new();
    fh.encode_into(&mut data).unwrap();
    assert_eq!(data, vec![0x82, 0x05]);
    assert_eq!(FixedHeader::decode(&data, 0), Ok((fh, 2)));
}

#[test]
fn connect_flags() {
    let flags = ConnectFlags::new(&[
        ConnectFlags(ConnectFlags::CLEAN_START),
        ConnectFlags(ConnectFlags::WILL_FLAG),
        ConnectFlags(ConnectFlags::WILL_QOS1),
        ConnectFlags(ConnectFlags::USERNAME),
    ]);
    assert_eq!(flags, ConnectFlags(0x4e));
    assert_eq!(flags.unwrap(), (true, true, QoS::AtLeastOnce, false));
    assert!(flags.is_will_flag());
    assert!(flags.is_username());
    assert!(!flags.is_password());
    assert_eq!(flags.validate(), Ok(()));
    assert_eq!(ConnectFlags(0x01).validate(), Err(malformed()));
    assert_eq!(ConnectFlags::new(&[]), ConnectFlags(0));
    assert_eq!(ConnectFlags::default(), ConnectFlags(0x02));
    assert_eq!(
        ConnectFlags(ConnectFlags::WILL_RETAIN | ConnectFlags::WILL_QOS2).unwrap(),
        (false, false, QoS::ExactlyOnce, true)
    );
    assert_eq!(ConnectFlags(0x02).encode(), Ok(vec![0x02]));
    assert_eq!(ConnectFlags(0x03).encode(), Err(malformed()));
    assert_eq!(ConnectFlags::decode(&[0x00, 0xc2], 1), Ok((ConnectFlags(0xc2), 2)));
    assert_eq!(ConnectFlags::decode(&[0x03], 0), Err(malformed()));
}

#[test]
fn connect_bytes_are_exact() {
    let mut c = client("c1");
    c.keep_alive = 60;
    let bytes = c.encode().unwrap();
    assert_eq!(
        bytes,
        vec![
            0x10, 0x0f, 0x00, 0x04, b'M', b'Q', b'T', b'T', 0x05, 0x02, 0x00, 0x3c, 0x00, 0x00,
            0x02, b'c', b'1',
        ]
    );
    assert_eq!(Connect::decode(&bytes), Ok((c, 17)));
}

#[test]
fn connect_default_round_trips() {
    let mut c = Connect::default();
    c.keep_alive = 60;
    assert_eq!(c.payload.client_id.0.len(), 36);
    let bytes = c.encode().unwrap();
    let (back, n) = Connect::decode(&bytes).unwrap();
    assert_eq!(n, bytes.len());
    assert_eq!(back, c);
    assert_eq!(back.protocol_name, "MQTT".to_string());
    assert_eq!(back.protocol_version, MqttProtocol::V5);
    assert_eq!(back.flags, ConnectFlags(ConnectFlags::CLEAN_START));
}

#[test]
fn connect_with_everything_round_trips() {
    let mut c = client("client-1");
    c.flags = ConnectFlags(0xee);
    c.keep_alive = 10;
    c.properties = Some(ConnectProperties {
        session_expiry_interval: Some(3600),
        receive_maximum: Some(2),
        max_packet_size: Some(1 << 20),
        topic_alias_max: Some(0),
        request_response_info: Some(true),
        request_problem_info: Some(false),
        authentication_method: Some("digest".to_string()),
        authentication_data: Some(vec![1, 2, 3]),
        user_properties: vec![
            ("k".to_string(), "v1".to_string()),
            ("k".to_string(), "v2".to_string()),
            ("a".to_string(), "".to_string()),
        ],
    });
    c.payload.will_properties = Some(WillProperties {
        will_delay_interval: Some(5),
        payload_format_indicator: PayloadFormat::Utf8,
        message_expiry_interval: Some(9),
        content_type: Some("text/plain".to_string()),
        response_topic: Some(TopicName("reply/to".to_string())),
        correlation_data: Some(vec![0xca, 0xfe]),
        user_properties: vec![("w".to_string(), "x".to_string())],
    });
    c.payload.will_topic = Some(TopicName("last/words".to_string()));
    c.payload.will_payload = Some("bye".as_bytes().to_vec());
    c.payload.username = Some("user".to_string());
    c.payload.password = Some(vec![0, 1, 2]);
    let bytes = c.encode().unwrap();
    let (back, n) = Connect::decode(&bytes).unwrap();
    assert_eq!(n, bytes.len());
    assert_eq!(back, c);
    // user properties keep their order
    assert_eq!(back.properties.unwrap().user_properties[1].1, "v2".to_string());
    // the same packet through the packet of any kind
    assert_eq!(Packet::decode(&bytes), Ok((Packet::Connect(c), n)));
}

#[test]
fn connect_reserved_flag_is_malformed() {
    let mut bytes = client("c").encode().unwrap();
    // the flags byte follows the fixed header, the protocol name and the version
    let at = 2 + 6 + 1;
    assert_eq!(bytes[at], 0x02);
    bytes[at] = 0x03;
    let err = Connect::decode(&bytes).unwrap_err();
    assert_eq!(err.kind, ErrorKind::MalformedPacket);
    assert_eq!(err.reason_byte(), 0x81);
    assert_eq!(Packet::decode(&bytes), Err(err));
}

#[test]
fn connect_rules() {
    let unsupported =
        Error { kind: ErrorKind::ProtocolError, code: ReasonCode::UnsupportedProtocolVersion };
    assert_eq!(unsupported.reason_byte(), 0x84);
    let mut c = client("c");
    c.protocol_name = "MQIsdp".to_string();
    assert_eq!(c.validate(), Err(unsupported));
    assert_eq!(c.encode(), Err(unsupported));
    let mut c = client("c");
    c.protocol_version = MqttProtocol::V4;
    assert_eq!(c.validate(), Err(unsupported));
    let mut c = client("c");
    c.flags = ConnectFlags(0x1a);
    assert_eq!(c.validate(), Err(malformed()));
    // will flag without a will
    let mut c = client("c");
    c.flags = ConnectFlags(0x06);
    assert_eq!(c.validate(), Err(protocol_error()));
    c.payload.will_topic = Some(TopicName("t".to_string()));
    assert_eq!(c.validate(), Err(protocol_error()));
    c.payload.will_properties = Some(WillProperties::default());
    assert_eq!(c.validate(), Err(protocol_error()));
    c.payload.will_payload = Some(vec![0xff]);
    assert_eq!(c.validate(), Ok(()));
    // a will payload that is declared to be text and is none
    c.payload.will_properties.as_mut().unwrap().payload_format_indicator = PayloadFormat::Utf8;
    assert_eq!(c.validate(), Err(malformed()));
    c.payload.will_payload = Some("ok".as_bytes().to_vec());
    assert_eq!(c.validate(), Ok(()));
    // a receive maximum of 0
    let mut c = client("c");
    c.properties = Some(ConnectProperties { receive_maximum: Some(0), ..ConnectProperties::default() });
    assert_eq!(c.validate(), Err(protocol_error()));
    assert_eq!(c.encode(), Err(protocol_error()));
}

#[test]
fn connect_unknown_version_on_the_wire() {
    let mut bytes = client("c").encode().unwrap();
    bytes[8] = 6;
    let err = Connect::decode(&bytes).unwrap_err();
    assert_eq!(err.kind, ErrorKind::ProtocolError);
    assert_eq!(err.code, ReasonCode::UnsupportedProtocolVersion);
}

#[test]
fn connect_properties_rules_on_the_wire() {
    // a section of 3 bytes: receive maximum 0
    assert_eq!(ConnectProperties::decode(&[0x03, 0x21, 0x00, 0x00], 0), Err(protocol_error()));
    // the same property twice
    assert_eq!(
        ConnectProperties::decode(&[0x06, 0x21, 0x00, 0x01, 0x21, 0x00, 0x02], 0),
        Err(protocol_error())
    );
    // a property of another packet
    assert_eq!(ConnectProperties::decode(&[0x02, 0x01, 0x01], 0), Err(protocol_error()));
    // a request flag of 2
    assert_eq!(ConnectProperties::decode(&[0x02, 0x19, 0x02], 0), Err(protocol_error()));
    // no such property
    assert_eq!(ConnectProperties::decode(&[0x02, 0x7f, 0x02], 0), Err(malformed()));
    // a property that runs past the end of its section
    assert_eq!(ConnectProperties::decode(&[0x02, 0x21, 0x00, 0x01], 0), Err(malformed()));
    // properties in another order than they are written in
    let (props, n) =
        ConnectProperties::decode(&[0x08, 0x22, 0x00, 0x07, 0x11, 0x00, 0x00, 0x00, 0x09], 0)
            .unwrap();
    assert_eq!(n, 9);
    assert_eq!(props.topic_alias_max, Some(7));
    assert_eq!(props.session_expiry_interval, Some(9));
    assert_eq!(
        props.encode(),
        Ok(vec![0x08, 0x11, 0x00, 0x00, 0x00, 0x09, 0x22, 0x00, 0x07])
    );
    assert_eq!(ConnectProperties::decode(&[0x00], 0), Ok((ConnectProperties::default(), 1)));
}

#[test]
fn connect_accessors() {
    let mut c = client("c");
    assert_eq!(c.receive_maximum(), 65535);
    assert_eq!(c.max_packet_size(1000), 1000);
    assert_eq!(c.session_expiry_interval(), None);
    assert_eq!(c.topic_alias_max(), None);
    let mut props = ConnectProperties::default();
    assert!(props.is_empty());
    assert_eq!(props.receive_maximum(), 65535);
    assert!(!props.request_response_info());
    assert!(props.request_problem_info());
    props.receive_maximum = Some(10);
    props.max_packet_size = Some(2000);
    props.session_expiry_interval = Some(7);
    props.topic_alias_max = Some(0);
    props.request_response_info = Some(true);
    props.request_problem_info = Some(false);
    assert!(!props.is_empty());
    assert_eq!(props.topic_alias_max(), None);
    assert!(props.request_response_info());
    assert!(!props.request_problem_info());
    assert_eq!(props.session_expiry_interval(), Some(7));
    props.topic_alias_max = Some(3);
    assert_eq!(props.topic_alias_max(), Some(3));
    c.properties = Some(props);
    assert_eq!(c.receive_maximum(), 10);
    assert_eq!(c.max_packet_size(1000), 2000);
    assert_eq!(c.session_expiry_interval(), Some(7));
    assert_eq!(c.topic_alias_max(), Some(3));
    let will = WillProperties::default();
    assert!(will.is_empty());
    assert!(!will.is_utf8());
    assert_eq!(will.will_delay_interval(), 0);
    assert_eq!(
        WillProperties { will_delay_interval: Some(4), ..WillProperties::default() }
            .will_delay_interval(),
        4
    );
}

#[test]
fn connect_normalize_drops_empty_properties() {
    let mut c = client("c");
    c.properties = Some(ConnectProperties::default());
    c.payload.will_properties = Some(WillProperties::default());
    let bytes = c.encode().unwrap();
    let (back, _) = Connect::decode(&bytes).unwrap();
    assert_ne!(back, c);
    c.normalize();
    assert_eq!(c.properties, None);
    assert_eq!(c.payload.will_properties, None);
    assert_eq!(back, c);
    let mut kept = client("c");
    kept.properties =
        Some(ConnectProperties { topic_alias_max: Some(1), ..ConnectProperties::default() });
    let before = kept.clone();
    kept.normalize();
    assert_eq!(kept, before);
}

#[test]
fn a_will_whose_properties_say_nothing_reads_back() {
    let mut c = client("c");
    c.flags = ConnectFlags(0x06);
    c.payload.will_properties = Some(WillProperties::default());
    c.payload.will_topic = Some(TopicName("t".to_string()));
    c.payload.will_payload = Some(vec![1]);
    let bytes = c.encode().unwrap();
    let canonical = vec![
        0x10, 0x15, 0x00, 0x04, b'M', b'Q', b'T', b'T', 0x05, 0x06, 0x00, 0x00, 0x00, 0x00, 0x01,
        b'c', 0x00, 0x00, 0x01, b't', 0x00, 0x01, 0x01,
    ];
    assert_eq!(bytes, canonical);
    assert_eq!(Connect::decode(&bytes), Ok((c.clone(), bytes.len())));
    // on the wire: will properties that say that the payload is binary
    let spelled = vec![
        0x10, 0x17, 0x00, 0x04, b'M', b'Q', b'T', b'T', 0x05, 0x06, 0x00, 0x00, 0x00, 0x00, 0x01,
        b'c', 0x02, 0x01, 0x00, 0x00, 0x01, b't', 0x00, 0x01, 0x01,
    ];
    let (read, n) = Connect::decode(&spelled).unwrap();
    assert_eq!(n, spelled.len());
    assert_eq!(read, c);
    assert_eq!(read.encode(), Ok(canonical));
    // a will without its properties is incomplete
    c.payload.will_properties = None;
    assert_eq!(c.validate(), Err(protocol_error()));
    assert_eq!(c.encode(), Err(protocol_error()));
}

#[test]
fn publish_properties_that_say_nothing_read_as_none() {
    // on the wire: properties that say that the payload is binary
    let spelled = vec![0x30, 0x08, 0x00, 0x01, b't', 0x02, 0x01, 0x00, b'h', b'i'];
    let (read, n) = Publish::decode(&spelled).unwrap();
    assert_eq!(n, spelled.len());
    assert_eq!(read, publish("t", QoS::AtMostOnce, None, b"hi"));
    let bytes = read.encode().unwrap();
    assert_eq!(bytes, vec![0x30, 0x06, 0x00, 0x01, b't', 0x00, b'h', b'i']);
    assert_eq!(Publish::decode(&bytes), Ok((read, bytes.len())));
    // properties that say something stay
    let spelled = vec![0x30, 0x08, 0x00, 0x01, b't', 0x02, 0x01, 0x01, b'h', b'i'];
    let (read, _) = Publish::decode(&spelled).unwrap();
    assert_eq!(
        read.properties,
        Some(PublishProperties {
            payload_format_indicator: PayloadFormat::Utf8,
            ..PublishProperties::default()
        })
    );
    assert_eq!(read.encode(), Ok(spelled));
}

#[test]
fn subscription_options() {
    let opt = SubscriptionOpt::new(RetainForwardRule::Never, true, false, QoS::AtLeastOnce);
    assert_eq!(opt, SubscriptionOpt(0x29));
    assert_eq!(opt.unwrap(), (RetainForwardRule::Never, true, false, QoS::AtLeastOnce));
    assert_eq!(opt.validate(), Ok(()));
    let opt = SubscriptionOpt::new(RetainForwardRule::OnNewSubscribe, false, true, QoS::ExactlyOnce);
    assert_eq!(opt, SubscriptionOpt(0x16));
    assert_eq!(opt.unwrap(), (RetainForwardRule::OnNewSubscribe, false, true, QoS::ExactlyOnce));
    assert_eq!(RetainForwardRule::try_from_u8(3), Err(malformed()));
    assert_eq!(RetainForwardRule::try_from_u8(0), Ok(RetainForwardRule::OnEverySubscribe));
    assert_eq!(RetainForwardRule::Never.to_u8(), 2);
}

fn filter(topic: &str, opt: u8) -> SubscribeFilter {
    SubscribeFilter { topic_filter: TopicFilter(topic.to_string()), opt: SubscriptionOpt(opt) }
}

#[test]
fn subscribe_round_trips() {
    let s = Subscribe {
        packet_id: 7,
        properties: Some(SubscribeProperties {
            subscription_id: Some(VarU32(300)),
            user_properties: vec![("a".to_string(), "b".to_string())],
        }),
        filters: vec![filter("foo/#", 0x01), filter("bar/+", 0x2e)],
    };
    let bytes = s.encode().unwrap();
    assert_eq!(bytes[0], 0x82);
    assert_eq!(Subscribe::decode(&bytes), Ok((s.clone(), bytes.len())));
    assert_eq!(Packet::decode(&bytes), Ok((Packet::Subscribe(s), bytes.len())));
    let plain = Subscribe { packet_id: 7, properties: None, filters: vec![filter("foo/#", 0x01)] };
    assert_eq!(
        plain.encode(),
        Ok(vec![0x82, 0x0b, 0x00, 0x07, 0x00, 0x00, 0x05, b'f', b'o', b'o', b'/', b'#', 0x01])
    );
}

#[test]
fn subscribe_rules() {
    let none = Subscribe { packet_id: 1, properties: None, filters: vec![] };
    assert_eq!(none.validate(), Err(protocol_error()));
    assert_eq!(none.encode(), Err(protocol_error()));
    let reserved = Subscribe { packet_id: 1, properties: None, filters: vec![filter("a", 0x40)] };
    assert_eq!(reserved.validate(), Err(malformed()));
    let retain3 = Subscribe { packet_id: 1, properties: None, filters: vec![filter("a", 0x30)] };
    assert_eq!(retain3.validate(), Err(malformed()));
    let qos3 = Subscribe {
        packet_id: 1,
        properties: None,
        filters: vec![filter("a", 0x00), filter("b", 0x03)],
    };
    assert_eq!(qos3.validate(), Err(malformed()));
    let zero_id = Subscribe {
        packet_id: 1,
        properties: Some(SubscribeProperties {
            subscription_id: Some(VarU32(0)),
            user_properties: vec![],
        }),
        filters: vec![filter("a", 0x00)],
    };
    assert_eq!(zero_id.validate(), Err(protocol_error()));
    // on the wire: no filter at all
    assert_eq!(Subscribe::decode(&[0x82, 0x03, 0x00, 0x01, 0x00]), Err(malformed()));
    // on the wire: retain handling 3
    assert_eq!(
        Subscribe::decode(&[0x82, 0x07, 0x00, 0x01, 0x00, 0x00, 0x01, b'a', 0x30]),
        Err(malformed())
    );
    // on the wire: a subscription identifier of 0
    assert_eq!(
        Subscribe::decode(&[0x82, 0x09, 0x00, 0x01, 0x02, 0x0b, 0x00, 0x00, 0x01, b'a', 0x00]),
        Err(protocol_error())
    );
    // on the wire: the packet is longer than the bytes
    assert_eq!(
        Subscribe::decode(&[0x82, 0x08, 0x00, 0x01, 0x00, 0x00, 0x01, b'a', 0x00]),
        Err(malformed())
    );
}

#[test]
fn subscribe_normalize() {
    let mut s = Subscribe {
        packet_id: 1,
        properties: Some(SubscribeProperties::default()),
        filters: vec![filter("a", 0)],
    };
    assert!(s.properties.as_ref().unwrap().is_empty());
    s.normalize();
    assert_eq!(s.properties, None);
}

fn ack(t: PacketType, id: u16, code: ReasCode) -> PubARLC {
    PubARLC { packet_type: t, packet_id: id, code, properties: None }
}

#[test]
fn puback_round_trips() {
    let p = ack(PacketType::PubAck, 1, ReasCode::NoMatchingSubscribers);
    let bytes = p.encode().unwrap();
    assert_eq!(bytes, vec![0x40, 0x04, 0x00, 0x01, 0x10, 0x00]);
    assert_eq!(PubARLC::decode(&bytes), Ok((p.clone(), 6)));
    assert_eq!(Packet::decode(&bytes), Ok((Packet::PubAck(p), 6)));
    let rel = PubARLC {
        packet_type: PacketType::PubRel,
        packet_id: 9,
        code: ReasCode::PacketIdNotFound,
        properties: Some(Properties {
            reason_string: Some("gone".to_string()),
            user_properties: vec![("k".to_string(), "v".to_string())],
        }),
    };
    let bytes = rel.encode().unwrap();
    assert_eq!(bytes[0], 0x62);
    assert_eq!(PubARLC::decode(&bytes), Ok((rel.clone(), bytes.len())));
    assert_eq!(Packet::decode(&bytes), Ok((Packet::PubRel(rel), bytes.len())));
}

#[test]
fn puback_short_forms() {
    assert_eq!(
        PubARLC::decode(&[0x40, 0x02, 0x00, 0x05]),
        Ok((ack(PacketType::PubAck, 5, ReasCode::Success), 4))
    );
    assert_eq!(
        PubARLC::decode(&[0x50, 0x03, 0x00, 0x05, 0x97]),
        Ok((ack(PacketType::PubRec, 5, ReasCode::QuotaExceeded), 5))
    );
    assert_eq!(
        PubARLC::decode(&[0x70, 0x04, 0x00, 0x05, 0x92, 0x00]),
        Ok((ack(PacketType::PubComp, 5, ReasCode::PacketIdNotFound), 6))
    );
}

#[test]
fn puback_rules() {
    // a PUBACK cannot say "packet identifier not found"
    assert_eq!(PubARLC::decode(&[0x40, 0x03, 0x00, 0x05, 0x92]), Err(protocol_error()));
    assert_eq!(ack(PacketType::PubRec, 1, ReasCode::PacketIdNotFound).encode(), Err(protocol_error()));
    // a PUBREL says nothing but "success" and "packet identifier not found"
    assert_eq!(PubARLC::decode(&[0x62, 0x03, 0x00, 0x05, 0x10]), Err(protocol_error()));
    assert_eq!(ack(PacketType::PubComp, 1, ReasCode::QuotaExceeded).validate(), Err(protocol_error()));
    // no such reason code
    assert_eq!(PubARLC::decode(&[0x40, 0x03, 0x00, 0x05, 0x01]), Err(malformed()));
    assert_eq!(ReasCode::try_from_u8(0x01), Err(malformed()));
    assert_eq!(ReasCode::try_from_u8(0x99), Ok(ReasCode::PayloadFormatInvalid));
    assert_eq!(ReasCode::default(), ReasCode::Success);
    // the flags of a PUBREL
    assert_eq!(PubARLC::decode(&[0x60, 0x02, 0x00, 0x05]), Err(malformed()));
    // not an acknowledgement of a PUBLISH
    assert_eq!(PubARLC::decode(&[0x10, 0x02, 0x00, 0x05]), Err(malformed()));
    let invalid = Error { kind: ErrorKind::InvalidInput, code: ReasonCode::UnspecifiedError };
    assert_eq!(ack(PacketType::Connect, 1, ReasCode::Success).encode(), Err(invalid));
    // an acknowledgement in the variant of another kind
    assert_eq!(Packet::PubRec(ack(PacketType::PubAck, 1, ReasCode::Success)).encode(), Err(invalid));
    // a property that an acknowledgement does not allow
    assert_eq!(
        PubARLC::decode(&[0x40, 0x07, 0x00, 0x05, 0x00, 0x03, 0x21, 0x00, 0x01]),
        Err(protocol_error())
    );
}

#[test]
fn reason_code_bytes() {
    let bytes: Vec<u8> = [
        ReasCode::Success,
        ReasCode::NoMatchingSubscribers,
        ReasCode::UnspecifiedError,
        ReasCode::ImplementationSpecificError,
        ReasCode::NotAuthorized,
        ReasCode::TopicNameInvalid,
        ReasCode::PacketIdentifierInUse,
        ReasCode::PacketIdNotFound,
        ReasCode::QuotaExceeded,
        ReasCode::PayloadFormatInvalid,
    ]
    .iter()
    .map(|c| c.to_u8())
    .collect();
    assert_eq!(bytes, vec![0x00, 0x10, 0x80, 0x83, 0x87, 0x90, 0x91, 0x92, 0x97, 0x99]);
    assert_eq!(ReasonCode::QuotaExceeded.to_u8(), 0x97);
    assert_eq!(ReasonCode::PacketTooLarge.to_u8(), 0x95);
}

fn publish(topic: &str, qos: QoS, id: Option<u16>, payload: &[u8]) -> Publish {
    Publish {
        retain: false,
        qos,
        duplicate: false,
        topic_name: TopicName(topic.to_string()),
        packet_id: id,
        properties: None,
        payload: if payload.is_empty() { None } else { Some(payload.to_vec()) },
    }
}

#[test]
fn publish_round_trips() {
    let p = publish("a/b", QoS::AtMostOnce, None, b"hi");
    let bytes = p.encode().unwrap();
    assert_eq!(bytes, vec![0x30, 0x08, 0x00, 0x03, b'a', b'/', b'b', 0x00, b'h', b'i']);
    assert_eq!(Publish::decode(&bytes), Ok((p, 10)));
    let mut p = publish("x/y", QoS::AtLeastOnce, Some(1), b"");
    p.retain = true;
    p.properties = Some(PublishProperties {
        payload_format_indicator: PayloadFormat::Utf8,
        message_expiry_interval: Some(30),
        topic_alias: Some(4),
        response_topic: Some(TopicName("r".to_string())),
        correlation_data: Some(vec![7]),
        subscription_id: Some(VarU32(128)),
        content_type: Some("t".to_string()),
        user_properties: vec![("u".to_string(), "v".to_string())],
    });
    p.payload = Some("text".as_bytes().to_vec());
    let bytes = p.encode().unwrap();
    assert_eq!(bytes[0], 0x33);
    assert_eq!(Publish::decode(&bytes), Ok((p.clone(), bytes.len())));
    assert_eq!(p.duplicate(), p);
    // bytes behind the packet are not read
    let mut longer = bytes.clone();
    longer.push(0xff);
    assert_eq!(Packet::decode(&longer), Ok((Packet::Publish(p), bytes.len())));
}

#[test]
fn publish_rules() {
    assert_eq!(publish("t", QoS::AtLeastOnce, None, b"").validate(), Err(protocol_error()));
    assert_eq!(publish("t", QoS::AtMostOnce, Some(1), b"").validate(), Err(protocol_error()));
    assert_eq!(publish("t", QoS::ExactlyOnce, Some(0), b"").validate(), Err(protocol_error()));
    let mut p = publish("t", QoS::AtMostOnce, None, &[0xff]);
    p.properties = Some(PublishProperties {
        payload_format_indicator: PayloadFormat::Utf8,
        ..PublishProperties::default()
    });
    let err = p.validate().unwrap_err();
    assert_eq!(err.kind, ErrorKind::ProtocolError);
    assert_eq!(err.reason_byte(), 0x99);
    p.properties = Some(PublishProperties { topic_alias: Some(0), ..PublishProperties::default() });
    assert_eq!(p.validate(), Err(protocol_error()));
    // on the wire: quality of service 1 without room for a packet identifier
    assert_eq!(Publish::decode(&[0x32, 0x03, 0x00, 0x01, b't']), Err(malformed()));
    // on the wire: the packet is longer than the bytes
    assert_eq!(Publish::decode(&[0x30, 0x05, 0x00, 0x01, b't', 0x00]), Err(malformed()));
}

#[test]
fn connack_round_trips() {
    let ok = ConnAck::new_success(false);
    assert_eq!(ok.encode(), Ok(vec![0x20, 0x03, 0x00, 0x00, 0x00]));
    assert_eq!(ConnAck::decode(&[0x20, 0x03, 0x00, 0x00, 0x00]), Ok((ok, 5)));
    let full = ConnAck {
        session_present: true,
        code: 0x00,
        properties: Some(ConnAckProperties {
            session_expiry_interval: Some(1),
            receive_maximum: Some(2),
            maximum_qos: Some(1),
            retain_available: Some(false),
            max_packet_size: Some(3),
            assigned_client_identifier: Some("id".to_string()),
            topic_alias_max: Some(4),
            reason_string: Some("ok".to_string()),
            wildcard_subscription_available: Some(true),
            subscription_identifiers_available: Some(true),
            shared_subscription_available: Some(false),
            server_keep_alive: Some(5),
            response_information: Some("info".to_string()),
            server_reference: Some("ref".to_string()),
            authentication_method: Some("m".to_string()),
            authentication_data: Some(vec![6]),
            user_properties: vec![("a".to_string(), "b".to_string())],
        }),
    };
    let bytes = full.encode().unwrap();
    assert_eq!(ConnAck::decode(&bytes), Ok((full.clone(), bytes.len())));
    assert_eq!(Packet::decode(&bytes), Ok((Packet::ConnAck(full), bytes.len())));
    // flags above 1, and a reason code that a CONNACK cannot carry
    assert_eq!(ConnAck::decode(&[0x20, 0x03, 0x02, 0x00, 0x00]), Err(malformed()));
    assert_eq!(ConnAck::decode(&[0x20, 0x03, 0x00, 0x01, 0x00]), Err(malformed()));
    assert_eq!(
        ConnAck { session_present: false, code: 0x10, properties: None }.encode(),
        Err(malformed())
    );
    // a maximum quality of service of 2
    assert_eq!(ConnAck::decode(&[0x20, 0x05, 0x00, 0x00, 0x02, 0x24, 0x02]), Err(protocol_error()));
}

#[test]
fn suback_and_unsuback_round_trip() {
    let s = SubAck { packet_id: 7, properties: None, return_codes: vec![0x01] };
    assert_eq!(s.encode(), Ok(vec![0x90, 0x04, 0x00, 0x07, 0x00, 0x01]));
    assert_eq!(SubAck::decode(&[0x90, 0x04, 0x00, 0x07, 0x00, 0x01]), Ok((s.clone(), 6)));
    assert_eq!(Packet::decode(&[0x90, 0x04, 0x00, 0x07, 0x00, 0x01]), Ok((Packet::SubAck(s), 6)));
    assert_eq!(
        SubAck { packet_id: 7, properties: None, return_codes: vec![] }.encode(),
        Err(protocol_error())
    );
    assert_eq!(
        SubAck { packet_id: 7, properties: None, return_codes: vec![0x00, 0x03] }.encode(),
        Err(malformed())
    );
    assert_eq!(SubAck::decode(&[0x90, 0x03, 0x00, 0x07, 0x00]), Err(protocol_error()));
    let u = UnsubAck {
        packet_id: 8,
        properties: Some(Properties {
            reason_string: Some("r".to_string()),
            user_properties: vec![],
        }),
        return_codes: vec![0x00, 0x11],
    };
    let bytes = u.encode().unwrap();
    assert_eq!(bytes[0], 0xb0);
    assert_eq!(UnsubAck::decode(&bytes), Ok((u.clone(), bytes.len())));
    assert_eq!(Packet::decode(&bytes), Ok((Packet::UnsubAck(u), bytes.len())));
    assert_eq!(UnsubAck::decode(&[0xb0, 0x04, 0x00, 0x07, 0x00, 0x01]), Err(malformed()));
}

#[test]
fn unsubscribe_round_trips() {
    let u = UnSubscribe {
        packet_id: 3,
        properties: None,
        filters: vec![TopicFilter("a/b".to_string()), TopicFilter("c".to_string())],
    };
    let bytes = u.encode().unwrap();
    assert_eq!(
        bytes,
        vec![0xa2, 0x0b, 0x00, 0x03, 0x00, 0x00, 0x03, b'a', b'/', b'b', 0x00, 0x01, b'c']
    );
    assert_eq!(UnSubscribe::decode(&bytes), Ok((u.clone(), 13)));
    assert_eq!(Packet::decode(&bytes), Ok((Packet::UnSubscribe(u), 13)));
    assert_eq!(
        UnSubscribe { packet_id: 3, properties: None, filters: vec![] }.encode(),
        Err(protocol_error())
    );
    assert_eq!(UnSubscribe::decode(&[0xa2, 0x03, 0x00, 0x03, 0x00]), Err(protocol_error()));
    assert_eq!(UnSubscribe::decode(&[0xa0, 0x03, 0x00, 0x03, 0x00]), Err(malformed()));
}

#[test]
fn disconnect_and_auth_round_trip() {
    let d = Disconnect {
        code: 0x8e,
        properties: Some(DisconnectProperties {
            session_expiry_interval: Some(0),
            reason_string: Some("taken over".to_string()),
            server_reference: None,
            user_properties: vec![],
        }),
    };
    let bytes = d.encode().unwrap();
    assert_eq!(bytes[0], 0xe0);
    assert_eq!(Disconnect::decode(&bytes), Ok((d.clone(), bytes.len())));
    assert_eq!(Packet::decode(&bytes), Ok((Packet::Disconnect(d), bytes.len())));
    assert_eq!(Disconnect::decode(&[0xe0, 0x00]), Ok((Disconnect { code: 0, properties: None }, 2)));
    assert_eq!(
        Disconnect::decode(&[0xe0, 0x01, 0x81]),
        Ok((Disconnect { code: 0x81, properties: None }, 3))
    );
    assert_eq!(Disconnect::decode(&[0xe0, 0x01, 0x01]), Err(malformed()));
    assert_eq!(Disconnect { code: 0, properties: None }.encode(), Ok(vec![0xe0, 0x02, 0x00, 0x00]));
    let a = Auth {
        code: 0x18,
        properties: Some(AuthProperties {
            authentication_method: Some("scram".to_string()),
            authentication_data: Some(vec![1, 2]),
            reason_string: None,
            user_properties: vec![("a".to_string(), "b".to_string())],
        }),
    };
    let bytes = a.encode().unwrap();
    assert_eq!(bytes[0], 0xf0);
    assert_eq!(Auth::decode(&bytes), Ok((a.clone(), bytes.len())));
    assert_eq!(Packet::decode(&bytes), Ok((Packet::Auth(a), bytes.len())));
    assert_eq!(Auth::decode(&[0xf0, 0x01, 0x01]), Err(malformed()));
}

#[test]
fn ping_packets() {
    assert_eq!(Packet::PingReq.encode(), Ok(vec![0xc0, 0x00]));
    assert_eq!(Packet::PingResp.encode(), Ok(vec![0xd0, 0x00]));
    assert_eq!(Packet::decode(&[0xc0, 0x00]), Ok((Packet::PingReq, 2)));
    assert_eq!(Packet::decode(&[0xd0, 0x00]), Ok((Packet::PingResp, 2)));
    assert_eq!(Packet::decode(&[0xc0, 0x01, 0x00]), Err(malformed()));
    assert_eq!(Packet::decode(&[0xc1, 0x00]), Err(malformed()));
    assert_eq!(Packet::decode(&[]), Err(malformed()));
    assert_eq!(Packet::decode(&[0x00, 0x00]), Err(malformed()));
    assert_eq!(Packet::PingReq.to_packet_type(), PacketType::PingReq);
}

#[test]
fn decode_then_encode_gives_the_canonical_form() {
    // a PUBACK in its short form and with a long spelling of its length
    let short = [0x40, 0x82, 0x00, 0x00, 0x05];
    let (p, n) = PubARLC::decode(&short).unwrap();
    assert_eq!(n, 5);
    let canonical = p.encode().unwrap();
    assert_eq!(canonical, vec![0x40, 0x04, 0x00, 0x05, 0x00, 0x00]);
    assert_eq!(PubARLC::decode(&canonical), Ok((p, 6)));
}

#[test]
fn samples_keep_the_rules() {
    let flags = sample_flags(true, true, QoS::ExactlyOnce, false, true, false);
    assert_eq!(flags, ConnectFlags(0x56));
    assert_eq!(sample_flags(false, false, QoS::AtMostOnce, true, false, true), ConnectFlags(0xa0));
    assert_eq!(sample_nonzero_u16(Some(0)), Some(1));
    assert_eq!(sample_nonzero_u16(Some(u16::MAX)), Some(u16::MAX));
    assert_eq!(sample_nonzero_u16(None), None);
    assert_eq!(sample_nonzero_u32(Some(41)), Some(42));
    assert_eq!(sample_nonzero_u32(Some(u32::MAX)), Some(u32::MAX));
    assert_eq!(sample_user_props_count(7), 3);
    assert_eq!(sample_filter_count(0), 1);
    assert_eq!(sample_filter_count(255), 32);
    let text = WillProperties {
        payload_format_indicator: PayloadFormat::Utf8,
        ..WillProperties::default()
    };
    assert_eq!(sample_will_payload(&text, vec![0xff]), "will-payload-as-utf8".as_bytes().to_vec());
    assert_eq!(sample_will_payload(&WillProperties::default(), vec![0xff]), vec![0xff]);
    let will = (text, TopicName("w".to_string()), "bye".as_bytes().to_vec());
    let c = sample_connect(
        flags,
        30,
        None,
        ClientID("c".to_string()),
        Some(will),
        "usern".to_string(),
        vec![1],
    );
    assert_eq!(c.validate(), Ok(()));
    assert_eq!(c.payload.username, Some("usern".to_string()));
    assert_eq!(c.payload.password, None);
    let bytes = c.encode().unwrap();
    assert_eq!(Connect::decode(&bytes), Ok((c, bytes.len())));
}

#[test]
fn property_identifiers_and_forms() {
    let table = [
        (PropertyType::PayloadFormatIndicator, 0x01, ValueKind::Byte),
        (PropertyType::MessageExpiryInterval, 0x02, ValueKind::FourByte),
        (PropertyType::ContentType, 0x03, ValueKind::Text),
        (PropertyType::ResponseTopic, 0x08, ValueKind::Text),
        (PropertyType::CorrelationData, 0x09, ValueKind::Binary),
        (PropertyType::SubscriptionIdentifier, 0x0b, ValueKind::VarInt),
        (PropertyType::SessionExpiryInterval, 0x11, ValueKind::FourByte),
        (PropertyType::AssignedClientIdentifier, 0x12, ValueKind::Text),
        (PropertyType::ServerKeepAlive, 0x13, ValueKind::TwoByte),
        (PropertyType::AuthenticationMethod, 0x15, ValueKind::Text),
        (PropertyType::AuthenticationData, 0x16, ValueKind::Binary),
        (PropertyType::RequestProblemInformation, 0x17, ValueKind::Byte),
        (PropertyType::WillDelayInterval, 0x18, ValueKind::FourByte),
        (PropertyType::RequestResponseInformation, 0x19, ValueKind::Byte),
        (PropertyType::ResponseInformation, 0x1a, ValueKind::Text),
        (PropertyType::ServerReference, 0x1c, ValueKind::Text),
        (PropertyType::ReasonString, 0x1f, ValueKind::Text),
        (PropertyType::ReceiveMaximum, 0x21, ValueKind::TwoByte),
        (PropertyType::TopicAliasMaximum, 0x22, ValueKind::TwoByte),
        (PropertyType::TopicAlias, 0x23, ValueKind::TwoByte),
        (PropertyType::MaximumQoS, 0x24, ValueKind::Byte),
        (PropertyType::RetainAvailable, 0x25, ValueKind::Byte),
        (PropertyType::UserProp, 0x26, ValueKind::TextPair),
        (PropertyType::MaximumPacketSize, 0x27, ValueKind::FourByte),
        (PropertyType::WildcardSubscriptionAvailable, 0x28, ValueKind::Byte),
        (PropertyType::SubscriptionIdentifierAvailable, 0x29, ValueKind::Byte),
        (PropertyType::SharedSubscriptionAvailable, 0x2a, ValueKind::Byte),
    ];
    for (t, id, kind) in table.into_iter() {
        assert_eq!(t.id(), id);
        assert_eq!(PropertyType::from_id(id as u32), Some(t));
        assert_eq!(t.kind(), kind);
    }
    let known: Vec<u32> = table.iter().map(|(_, id, _)| *id as u32).collect();
    for id in 0..300u32 {
        assert_eq!(PropertyType::from_id(id).is_some(), known.contains(&id));
    }
}
