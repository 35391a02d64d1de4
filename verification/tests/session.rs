use mqtr::broker::message::{Message, Subscription};
use mqtr::broker::session::{
    group_by_shard, ClientInp, ClientOut, InpEntry, PeerAck, Phase, Session, SessionState,
};
use mqtr::error::{Error, ErrorKind, ReasonCode};
use mqtr::v5::connack::ConnAck;
use mqtr::v5::connect::{Connect, ConnectProperties};
use mqtr::v5::packet::Packet;
use mqtr::v5::pubaclc::{PubARLC, ReasCode};
use mqtr::v5::publish::Publish;
use mqtr::v5::sub::{Subscribe, SubscribeFilter, SubscriptionOpt};
use mqtr::v5::suback::SubAck;
use mqtr::v5::{ClientID, PacketType, QoS, TopicFilter, TopicName};

fn publish(topic: &str, qos: QoS, id: Option<u16>) -> Publish {
    Publish {
        retain: false,
        qos,
        duplicate: false,
        topic_name: TopicName(topic.to_string()),
        packet_id: id,
        properties: None,
        payload: Some(vec![1, 2, 3]),
    }
}

fn subscription(client: &str, shard_id: u32, qos: QoS) -> Subscription {
    Subscription {
        topic_filter: TopicFilter("foo/#".to_string()),
        client_id: ClientID(client.to_string()),
        shard_id,
        subscription_id: None,
        qos,
        no_local: false,
        retain_as_published: false,
    }
}

fn session(name: &str, shard_id: u32, receive_maximum: u16) -> Session {
    Session::new(ClientID(name.to_string()), shard_id, receive_maximum, 100)
}

fn ack(t: PacketType, id: u16, code: ReasCode) -> PubARLC {
    PubARLC { packet_type: t, packet_id: id, code, properties: None }
}

fn quota_exceeded() -> Error {
    Error { kind: ErrorKind::ProtocolError, code: ReasonCode::QuotaExceeded }
}

fn packet_id_of(p: &Packet) -> Option<u16> {
    match p {
        Packet::Publish(p) => p.packet_id,
        _ => panic!("not a PUBLISH"),
    }
}

#[test]
fn connect_is_answered_with_success() {
    let mut sess = session("c", 0, 65535);
    assert_eq!(sess.state, SessionState::Accepting);
    assert_eq!(sess.as_client_id(), &ClientID("c".to_string()));
    assert_eq!(sess.to_shard_id(), 0);
    let mut connect = Connect::default();
    connect.keep_alive = 60;
    assert_eq!(sess.on_connect(&connect, false), Ok(()));
    assert_eq!(sess.state, SessionState::Active);
    let out = sess.out.flush();
    assert_eq!(out, vec![Packet::ConnAck(ConnAck { session_present: false, code: 0x00, properties: None })]);
    assert_eq!(out[0].encode(), Ok(vec![0x20, 0x03, 0x00, 0x00, 0x00]));
    assert_eq!(sess.out.receive_maximum, 65535);
    connect.properties =
        Some(ConnectProperties { receive_maximum: Some(2), ..ConnectProperties::default() });
    assert_eq!(sess.on_connect(&connect, true), Ok(()));
    assert_eq!(sess.out.receive_maximum, 2);
}

#[test]
fn qos0_goes_to_a_subscriber_on_a_peer_shard_without_acknowledgement() {
    let mut publisher = session("pub", 0, 10);
    let routing = publisher
        .publish_in(publish("a/b", QoS::AtMostOnce, None), vec![subscription("sub", 1, QoS::AtMostOnce)], 0)
        .unwrap();
    assert_eq!(routing.inp_seqno, 1);
    assert_eq!(routing.reply, None);
    assert_eq!(routing.routed.len(), 1);
    assert_eq!(routing.routed[0].dest, 1);
    assert!(publisher.inp.index.is_empty());
    let mut subscriber = session("sub", 1, 10);
    match &routing.routed[0].message {
        Message::Routed { src_client_id, src_shard_id, inp_seqno, packet_id, publish: p, subscriptions } => {
            assert_eq!(src_client_id, &ClientID("pub".to_string()));
            assert_eq!((*src_shard_id, *inp_seqno, *packet_id), (0, 1, None));
            assert_eq!(subscriptions, &vec![subscription("sub", 1, QoS::AtMostOnce)]);
            assert_eq!(subscriber.deliver(p.clone(), subscriptions[0].qos), Ok(1));
        },
        _ => panic!("not routed"),
    }
    assert_eq!(subscriber.out.flush(), vec![Packet::Publish(publish("a/b", QoS::AtMostOnce, None))]);
    assert!(subscriber.out.inflight.is_empty());
    assert!(subscriber.out.back_log.is_empty());
}

#[test]
fn qos1_without_subscribers_is_acknowledged_at_once() {
    let mut sess = session("pub", 0, 10);
    let routing = sess.publish_in(publish("x/y", QoS::AtLeastOnce, Some(1)), vec![], 0).unwrap();
    let reply = routing.reply.unwrap();
    assert_eq!(reply, Packet::PubAck(ack(PacketType::PubAck, 1, ReasCode::NoMatchingSubscribers)));
    assert_eq!(reply.encode(), Ok(vec![0x40, 0x04, 0x00, 0x01, 0x10, 0x00]));
    assert!(routing.routed.is_empty());
    assert!(sess.inp.index.is_empty());
    assert_eq!(sess.inp.seqno, 2);
    let routing = sess.publish_in(publish("x/y", QoS::ExactlyOnce, Some(1)), vec![], 0).unwrap();
    assert_eq!(
        routing.reply,
        Some(Packet::PubRec(ack(PacketType::PubRec, 1, ReasCode::NoMatchingSubscribers)))
    );
    let routing = sess.publish_in(publish("x/y", QoS::AtMostOnce, None), vec![], 0).unwrap();
    assert_eq!(routing.reply, None);
    assert_eq!(routing.inp_seqno, 3);
}

#[test]
fn subscribe_is_granted_and_deliveries_get_fresh_packet_ids() {
    let mut sess = session("sub", 1, 10);
    let sub = Subscribe {
        packet_id: 7,
        properties: None,
        filters: vec![SubscribeFilter {
            topic_filter: TopicFilter("foo/#".to_string()),
            opt: SubscriptionOpt(0x01),
        }],
    };
    assert_eq!(sess.on_subscribe(&sub), Ok(()));
    let out = sess.out.flush();
    assert_eq!(
        out,
        vec![Packet::SubAck(SubAck { packet_id: 7, properties: None, return_codes: vec![0x01] })]
    );
    assert_eq!(out[0].encode(), Ok(vec![0x90, 0x04, 0x00, 0x07, 0x00, 0x01]));
    // a PUBLISH of quality of service 2 to a subscription of quality of service 1
    sess.out.next_packet_id = 7;
    assert_eq!(sess.deliver(publish("foo/bar", QoS::ExactlyOnce, Some(99)), QoS::AtLeastOnce), Ok(1));
    assert_eq!(sess.deliver(publish("foo/baz", QoS::AtLeastOnce, Some(99)), QoS::AtLeastOnce), Ok(2));
    let out = sess.out.flush();
    assert_eq!(out[0], Packet::Publish(publish("foo/bar", QoS::AtLeastOnce, Some(7))));
    assert_eq!(out[1], Packet::Publish(publish("foo/baz", QoS::AtLeastOnce, Some(8))));
    assert_eq!(sess.out.next_packet_id, 9);
    // while 7 is in flight it is not given out again
    sess.out.next_packet_id = 7;
    assert_eq!(sess.deliver(publish("foo/3", QoS::AtLeastOnce, None), QoS::ExactlyOnce), Ok(3));
    assert_eq!(packet_id_of(&sess.out.flush()[0]), Some(9));
    // once it is acknowledged it is free again
    assert!(sess.out.on_puback(7));
    assert!(!sess.out.in_use(7));
    sess.out.next_packet_id = 7;
    assert_eq!(sess.deliver(publish("foo/4", QoS::AtLeastOnce, None), QoS::AtLeastOnce), Ok(4));
    assert_eq!(packet_id_of(&sess.out.flush()[0]), Some(7));
}

#[test]
fn no_more_in_flight_than_the_client_allows() {
    let mut out = ClientOut::new(2, 100);
    for n in 1..=5u64 {
        assert_eq!(out.queue_publish(publish("t", QoS::AtLeastOnce, None)), Ok(n));
    }
    let sent = out.flush();
    assert_eq!(sent.len(), 2);
    assert_eq!(packet_id_of(&sent[0]), Some(1));
    assert_eq!(packet_id_of(&sent[1]), Some(2));
    assert_eq!(out.inflight.len(), 2);
    assert_eq!(out.back_log.len(), 3);
    assert_eq!(out.inflight[0].out_seqno, 1);
    assert_eq!(out.inflight[1].out_seqno, 2);
    assert_eq!(out.inflight[0].phase, Phase::AwaitPubAck);
    // nothing more goes while the window is full
    assert_eq!(out.flush(), vec![]);
    assert_eq!(out.flush_one(), None);
    // an acknowledgement lets the third go
    assert!(out.on_puback(1));
    let sent = out.flush();
    assert_eq!(sent.len(), 1);
    assert_eq!(packet_id_of(&sent[0]), Some(3));
    assert_eq!(out.inflight.len(), 2);
    assert_eq!(out.inflight[1].out_seqno, 3);
    assert_eq!(out.back_log.len(), 2);
    // an acknowledgement for nothing changes nothing
    assert!(!out.on_puback(1));
    assert!(!out.on_pubcomp(2));
    assert_eq!(out.inflight.len(), 2);
}

#[test]
fn what_needs_no_window_passes_until_the_window_blocks() {
    let mut out = ClientOut::new(1, 100);
    out.queue_ack(Packet::PingResp).unwrap();
    out.queue_publish(publish("a", QoS::AtMostOnce, None)).unwrap();
    out.queue_publish(publish("b", QoS::AtLeastOnce, None)).unwrap();
    out.queue_publish(publish("c", QoS::AtLeastOnce, None)).unwrap();
    out.queue_ack(Packet::PingResp).unwrap();
    let sent = out.flush();
    assert_eq!(
        sent,
        vec![
            Packet::PingResp,
            Packet::Publish(publish("a", QoS::AtMostOnce, None)),
            Packet::Publish(publish("b", QoS::AtLeastOnce, Some(1))),
        ]
    );
    // order is kept: the acknowledgement behind the blocked PUBLISH waits with it
    assert_eq!(out.back_log.len(), 2);
    assert!(out.on_puback(1));
    assert_eq!(
        out.flush(),
        vec![Packet::Publish(publish("c", QoS::AtLeastOnce, Some(2))), Packet::PingResp]
    );
}

#[test]
fn quality_of_service_2_takes_four_steps() {
    let mut out = ClientOut::new(1, 100);
    out.queue_publish(publish("a", QoS::ExactlyOnce, None)).unwrap();
    assert_eq!(out.flush().len(), 1);
    assert_eq!(out.inflight[0].phase, Phase::AwaitPubRec);
    assert!(!out.on_puback(1));
    assert!(!out.on_pubcomp(1));
    assert_eq!(out.on_pubrec(1), ack(PacketType::PubRel, 1, ReasCode::Success));
    assert_eq!(out.inflight[0].phase, Phase::AwaitPubComp);
    assert_eq!(out.on_pubrec(1), ack(PacketType::PubRel, 1, ReasCode::PacketIdNotFound));
    assert_eq!(out.on_pubrec(5), ack(PacketType::PubRel, 5, ReasCode::PacketIdNotFound));
    assert_eq!(out.inflight.len(), 1);
    assert!(out.on_pubcomp(1));
    assert!(out.inflight.is_empty());
}

#[test]
fn a_full_backlog_disconnects_with_quota_exceeded() {
    let mut out = ClientOut::new(1, 2);
    assert_eq!(out.queue_ack(Packet::PingResp), Ok(()));
    assert_eq!(out.queue_publish(publish("a", QoS::AtMostOnce, None)), Ok(1));
    assert_eq!(out.queue_ack(Packet::PingResp), Err(quota_exceeded()));
    assert_eq!(out.queue_publish(publish("a", QoS::AtMostOnce, None)), Err(quota_exceeded()));
    assert_eq!(quota_exceeded().reason_byte(), 0x97);
    assert_eq!(out.seqno, 2);
    assert_eq!(out.back_log.len(), 2);
}

#[test]
fn packet_ids_roll_over_and_skip_zero() {
    let mut out = ClientOut::new(3, 100);
    out.next_packet_id = 65535;
    for _ in 0..3 {
        out.queue_publish(publish("t", QoS::AtLeastOnce, None)).unwrap();
    }
    let ids: Vec<Option<u16>> = out.flush().iter().map(packet_id_of).collect();
    assert_eq!(ids, vec![Some(65535), Some(1), Some(2)]);
    assert_eq!(out.next_packet_id, 3);
    assert_eq!(out.next_free_id(), Some(3));
    assert!(out.in_use(65535));
    assert!(!out.in_use(0));
}

#[test]
fn subscriptions_are_grouped_by_shard() {
    let groups = group_by_shard(vec![
        subscription("a", 2, QoS::AtMostOnce),
        subscription("b", 0, QoS::AtMostOnce),
        subscription("c", 2, QoS::AtLeastOnce),
        subscription("d", 1, QoS::AtMostOnce),
        subscription("e", 0, QoS::ExactlyOnce),
    ]);
    let shape: Vec<(u32, Vec<String>)> = groups
        .iter()
        .map(|g| (g.shard_id, g.subscriptions.iter().map(|s| s.client_id.0.clone()).collect()))
        .collect();
    assert_eq!(
        shape,
        vec![
            (2, vec!["a".to_string(), "c".to_string()]),
            (0, vec!["b".to_string(), "e".to_string()]),
            (1, vec!["d".to_string()]),
        ]
    );
    assert!(group_by_shard(vec![]).is_empty());
}

#[test]
fn sequence_numbers_that_a_peer_sees_rise() {
    let mut sess = session("pub", 0, 10);
    let mut seen_by: Vec<Vec<u64>> = vec![vec![], vec![], vec![]];
    let runs: Vec<Vec<u32>> = vec![vec![1, 2], vec![2], vec![], vec![1, 1, 2], vec![1]];
    for (k, shards) in runs.iter().enumerate() {
        let subs = shards.iter().map(|s| subscription("sub", *s, QoS::AtLeastOnce)).collect();
        let routing =
            sess.publish_in(publish("t", QoS::AtLeastOnce, Some((k + 1) as u16)), subs, 0).unwrap();
        assert_eq!(routing.inp_seqno, (k + 1) as u64);
        for r in routing.routed.iter() {
            match &r.message {
                Message::Routed { inp_seqno, packet_id, .. } => {
                    assert_eq!(*packet_id, Some((k + 1) as u16));
                    seen_by[r.dest as usize].push(*inp_seqno);
                },
                _ => panic!("not routed"),
            }
        }
    }
    assert_eq!(seen_by[1], vec![1, 4, 5]);
    assert_eq!(seen_by[2], vec![1, 2, 4]);
    // the PUBLISH without subscribers was acknowledged at once and is not booked
    let booked: Vec<u16> = sess.inp.index.iter().map(|e| e.packet_id).collect();
    assert_eq!(booked, vec![1, 2, 4, 5]);
}

#[test]
fn a_packet_id_that_still_waits_is_refused() {
    let mut sess = session("pub", 0, 10);
    let subs = vec![subscription("sub", 1, QoS::AtLeastOnce)];
    assert!(sess.publish_in(publish("t", QoS::AtLeastOnce, Some(5)), subs.clone(), 0).is_ok());
    let err = sess.publish_in(publish("t", QoS::AtLeastOnce, Some(5)), subs.clone(), 0).err();
    assert_eq!(
        err,
        Some(Error { kind: ErrorKind::ProtocolError, code: ReasonCode::PacketIdentifierInUse })
    );
    assert_eq!(err.unwrap().reason_byte(), 0x91);
    assert_eq!(sess.inp.seqno, 2);
    let err = sess.publish_in(publish("t", QoS::ExactlyOnce, Some(5)), vec![], 0).err();
    assert!(err.is_some());
    assert!(sess.inp.waits(5));
    assert!(!sess.inp.waits(6));
}

#[test]
fn a_publish_is_acknowledged_once_all_peers_have_acknowledged_it() {
    let mut inp = ClientInp::new();
    inp.book_peer(1, 0);
    inp.book_peer(2, 0);
    inp.book_peer(1, 5);
    assert_eq!(
        inp.peer_acks,
        vec![
            PeerAck { shard_id: 1, last_acked: 0, last_ack_time: 0 },
            PeerAck { shard_id: 2, last_acked: 0, last_ack_time: 0 },
        ]
    );
    assert_eq!(inp.record(&publish("t", QoS::AtLeastOnce, Some(10))), Ok(1));
    assert_eq!(inp.record(&publish("t", QoS::AtMostOnce, None)), Ok(2));
    assert_eq!(inp.record(&publish("t", QoS::ExactlyOnce, Some(11))), Ok(3));
    assert_eq!(inp.record(&publish("t", QoS::AtLeastOnce, Some(12))), Ok(4));
    assert_eq!(
        inp.index,
        vec![
            InpEntry { packet_id: 10, inp_seqno: 1, qos: QoS::AtLeastOnce },
            InpEntry { packet_id: 11, inp_seqno: 3, qos: QoS::ExactlyOnce },
            InpEntry { packet_id: 12, inp_seqno: 4, qos: QoS::AtLeastOnce },
        ]
    );
    assert_eq!(inp.lowest_acked(), 0);
    // one peer alone does not settle anything
    assert_eq!(inp.on_local_ack(1, 4, 7), vec![]);
    assert_eq!(inp.peer_acks[0], PeerAck { shard_id: 1, last_acked: 4, last_ack_time: 7 });
    assert_eq!(inp.index.len(), 3);
    // the other peer settles what both have acknowledged
    assert_eq!(
        inp.on_local_ack(2, 3, 8),
        vec![
            Packet::PubAck(ack(PacketType::PubAck, 10, ReasCode::Success)),
            Packet::PubRec(ack(PacketType::PubRec, 11, ReasCode::Success)),
        ]
    );
    assert_eq!(inp.lowest_acked(), 3);
    assert_eq!(inp.index, vec![InpEntry { packet_id: 12, inp_seqno: 4, qos: QoS::AtLeastOnce }]);
    // the same acknowledgement again, an older one, and one from a stranger: nothing more
    assert_eq!(inp.on_local_ack(2, 3, 9), vec![]);
    assert_eq!(inp.on_local_ack(2, 1, 9), vec![]);
    assert_eq!(inp.on_local_ack(9, 100, 9), vec![]);
    assert_eq!(inp.peer_acks[1], PeerAck { shard_id: 2, last_acked: 3, last_ack_time: 8 });
    assert_eq!(inp.index.len(), 1);
    assert_eq!(
        inp.on_local_ack(2, 9, 10),
        vec![Packet::PubAck(ack(PacketType::PubAck, 12, ReasCode::Success))]
    );
    assert!(inp.index.is_empty());
    assert_eq!(inp.on_local_ack(1, 9, 11), vec![]);
    // a peer that joins has acknowledged nothing
    inp.book_peer(3, 12);
    assert_eq!(inp.peer_acks[2], PeerAck { shard_id: 3, last_acked: 0, last_ack_time: 12 });
    assert_eq!(inp.lowest_acked(), 0);
}

#[test]
fn evict_takes_the_oldest_entries() {
    let mut inp = ClientInp::new();
    for id in 1..=4u16 {
        inp.record(&publish("t", QoS::AtLeastOnce, Some(id))).unwrap();
    }
    assert_eq!(inp.evict(0), vec![]);
    assert_eq!(inp.evict(2).len(), 2);
    assert_eq!(inp.index[0].inp_seqno, 3);
    assert_eq!(inp.evict(2), vec![]);
    assert_eq!(inp.evict(u64::MAX).len(), 2);
    assert!(inp.index.is_empty());
    // without peers nothing waits
    assert_eq!(ClientInp::new().lowest_acked(), u64::MAX);
}

#[test]
fn messages() {
    let p = publish("t", QoS::AtLeastOnce, Some(3));
    assert_eq!(Message::new_client_ack(Packet::PingResp), Message::ClientAck { packet: Packet::PingResp });
    assert_eq!(Message::new_packet(4, p.clone()), Message::Packet { out_seqno: 4, publish: p.clone() });
    let sess = session("me", 6, 1);
    let subs = vec![subscription("x", 1, QoS::AtMostOnce)];
    assert_eq!(
        Message::new_routed(&sess, 9, subs.clone(), p.clone()),
        Message::Routed {
            src_client_id: ClientID("me".to_string()),
            src_shard_id: 6,
            inp_seqno: 9,
            packet_id: Some(3),
            publish: p.clone(),
            subscriptions: subs,
        }
    );
    let mut m = Message::new_packet(4, p.clone());
    m.set_seqno(5, 77);
    assert_eq!(m, Message::Packet { out_seqno: 5, publish: publish("t", QoS::AtLeastOnce, Some(77)) });
    assert_eq!(m.into_packet(), Packet::Publish(publish("t", QoS::AtLeastOnce, Some(77))));
    assert_eq!(Message::new_client_ack(Packet::PingReq).into_packet(), Packet::PingReq);
}

#[test]
fn the_sessions_of_a_shard_count_together() {
    let mut a = session("a", 0, 10);
    let mut b = session("b", 0, 10);
    let subs = vec![subscription("s", 1, QoS::AtMostOnce)];
    let mut shard_seqno = 1;
    let mut seen = vec![];
    for (k, first) in [true, false, true, true, false].into_iter().enumerate() {
        let sess = if first { &mut a } else { &mut b };
        sess.inp.catch_up(shard_seqno);
        let routing = sess.publish_in(publish("t", QoS::AtLeastOnce, Some(k as u16 + 1)), subs.clone(), 0);
        seen.push(routing.unwrap().inp_seqno);
        shard_seqno = sess.inp.seqno;
    }
    assert_eq!(seen, vec![1, 2, 3, 4, 5]);
    // a counter that is ahead stays where it is
    a.inp.catch_up(2);
    assert_eq!(a.inp.seqno, 5);
    b.inp.catch_up(6);
    assert_eq!(b.inp.seqno, 6);
    // what the peer has delivered settles the entries of both
    assert_eq!(a.on_peer_ack(1, 3, 9), Ok(2));
    assert_eq!(b.on_peer_ack(1, 3, 9), Ok(1));
    assert_eq!(a.inp.index.len(), 1);
    assert_eq!(b.inp.index.len(), 1);
}
