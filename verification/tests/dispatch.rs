use mqtr::broker::message::{Message, Subscription};
use mqtr::broker::session::{Phase, Routed, Session, SessionState};
use mqtr::error::{Error, ErrorKind, ReasonCode};
use mqtr::v5::auth::Auth;
use mqtr::v5::connack::ConnAck;
use mqtr::v5::connect::{Connect, ConnectFlags, ConnectProperties};
use mqtr::v5::disconnect::Disconnect;
use mqtr::v5::packet::Packet;
use mqtr::v5::pubaclc::{PubARLC, ReasCode};
use mqtr::v5::publish::Publish;
use mqtr::v5::sub::{RetainForwardRule, Subscribe, SubscribeFilter, SubscriptionOpt};
use mqtr::v5::suback::SubAck;
use mqtr::v5::unsuback::UnsubAck;
use mqtr::v5::unsubscribe::UnSubscribe;
use mqtr::v5::{ClientID, PacketType, QoS, TopicFilter, TopicName};

fn a_publish(topic: &str, qos: QoS, id: Option<u16>) -> Publish {
    Publish {
        retain: false,
        qos,
        duplicate: false,
        topic_name: TopicName(topic.to_string()),
        packet_id: id,
        properties: None,
        payload: Some(vec![1, 2, 3]),
    }
}

fn a_subscription(client: &str, shard_id: u32, qos: QoS) -> Subscription {
    Subscription {
        topic_filter: TopicFilter("a/b".to_string()),
        client_id: ClientID(client.to_string()),
        shard_id,
        subscription_id: None,
        qos,
        no_local: false,
        retain_as_published: false,
    }
}

fn a_session(name: &str, shard_id: u32, back_log_cap: usize) -> Session {
    Session::new(ClientID(name.to_string()), shard_id, 10, back_log_cap)
}

fn an_ack(t: PacketType, id: u16, code: ReasCode) -> PubARLC {
    PubARLC { packet_type: t, packet_id: id, code, properties: None }
}

fn quota() -> Error {
    Error { kind: ErrorKind::ProtocolError, code: ReasonCode::QuotaExceeded }
}

fn protocol() -> Error {
    Error { kind: ErrorKind::ProtocolError, code: ReasonCode::ProtocolError }
}

fn nothing() -> Result<Vec<Routed>, Error> {
    Ok(vec![])
}

fn back_log_of(sess: &Session) -> Vec<Message> {
    sess.out.back_log.iter().cloned().collect()
}

#[test]
fn a_ping_is_answered() {
    let mut sess = a_session("c", 0, 2);
    assert!(sess.has_room());
    assert_eq!(sess.on_packet(Packet::PingReq, vec![], 0), nothing());
    assert_eq!(back_log_of(&sess), vec![Message::ClientAck { packet: Packet::PingResp }]);
    assert_eq!(sess.out.flush(), vec![Packet::PingResp]);
}

#[test]
fn a_publish_that_nobody_subscribes_to_is_answered_at_once() {
    let mut sess = a_session("pub", 0, 10);
    let pkt = Packet::Publish(a_publish("x/y", QoS::AtLeastOnce, Some(1)));
    assert_eq!(sess.on_packet(pkt, vec![], 0), nothing());
    let out = sess.out.flush();
    assert_eq!(
        out,
        vec![Packet::PubAck(an_ack(PacketType::PubAck, 1, ReasCode::NoMatchingSubscribers))]
    );
    assert_eq!(out[0].encode(), Ok(vec![0x40, 0x04, 0x00, 0x01, 0x10, 0x00]));
    assert_eq!(sess.inp.seqno, 2);
    assert!(sess.inp.index.is_empty());
    // at quality of service 0 nobody is owed an answer
    let pkt = Packet::Publish(a_publish("x/y", QoS::AtMostOnce, None));
    assert_eq!(sess.on_packet(pkt, vec![], 0), nothing());
    assert!(sess.out.back_log.is_empty());
    assert_eq!(sess.inp.seqno, 3);
}

#[test]
fn a_publish_with_subscribers_goes_to_their_shards() {
    let mut sess = a_session("pub", 0, 10);
    let subs = vec![
        a_subscription("s1", 1, QoS::AtLeastOnce),
        a_subscription("s2", 2, QoS::AtMostOnce),
        a_subscription("s3", 1, QoS::ExactlyOnce),
    ];
    let p = a_publish("a/b", QoS::AtLeastOnce, Some(5));
    let routed = sess.on_packet(Packet::Publish(p.clone()), subs.clone(), 0).unwrap();
    assert_eq!(routed.len(), 2);
    let want = |dest: u32, subscriptions: Vec<Subscription>| Routed {
        dest,
        message: Message::Routed {
            src_client_id: ClientID("pub".to_string()),
            src_shard_id: 0,
            inp_seqno: 1,
            packet_id: Some(5),
            publish: p.clone(),
            subscriptions,
        },
    };
    assert_eq!(routed[0], want(1, vec![subs[0].clone(), subs[2].clone()]));
    assert_eq!(routed[1], want(2, vec![subs[1].clone()]));
    // the publisher waits for its answer until the peers have acknowledged
    assert!(sess.out.back_log.is_empty());
    assert!(sess.inp.waits(5));
    // and may not use the packet identifier again until then
    let again = Packet::Publish(a_publish("a/b", QoS::AtLeastOnce, Some(5)));
    assert_eq!(
        sess.on_packet(again, subs, 0),
        Err(Error { kind: ErrorKind::ProtocolError, code: ReasonCode::PacketIdentifierInUse })
    );
    assert_eq!(sess.inp.seqno, 2);
}

#[test]
fn a_publish_that_breaks_the_rules_is_refused() {
    let mut sess = a_session("pub", 0, 10);
    let pkt = Packet::Publish(a_publish("a/b", QoS::AtLeastOnce, None));
    let before = (sess.inp.seqno, sess.out.back_log.len());
    assert!(sess.on_packet(pkt.clone(), vec![], 0).is_err());
    assert_eq!(Err(sess.on_packet(pkt.clone(), vec![], 0).unwrap_err()), pkt_validate(&pkt));
    assert_eq!((sess.inp.seqno, sess.out.back_log.len()), before);
}

fn pkt_validate(pkt: &Packet) -> Result<(), Error> {
    match pkt {
        Packet::Publish(p) => p.validate(),
        _ => Ok(()),
    }
}

#[test]
fn the_acknowledgements_of_the_client_end_its_deliveries() {
    let mut sess = a_session("sub", 0, 10);
    assert_eq!(sess.deliver(a_publish("a/b", QoS::AtLeastOnce, Some(9)), QoS::AtLeastOnce), Ok(1));
    assert_eq!(sess.deliver(a_publish("a/b", QoS::ExactlyOnce, Some(9)), QoS::ExactlyOnce), Ok(2));
    assert_eq!(sess.out.flush().len(), 2);
    let ids: Vec<(u16, Phase)> = sess.out.inflight.iter().map(|e| (e.packet_id, e.phase)).collect();
    assert_eq!(ids, vec![(1, Phase::AwaitPubAck), (2, Phase::AwaitPubRec)]);

    let puback = Packet::PubAck(an_ack(PacketType::PubAck, 1, ReasCode::Success));
    assert_eq!(sess.on_packet(puback.clone(), vec![], 0), nothing());
    assert_eq!(sess.out.inflight.len(), 1);
    // a second PUBACK finds nothing and changes nothing
    assert_eq!(sess.on_packet(puback, vec![], 0), nothing());
    assert_eq!(sess.out.inflight.len(), 1);
    assert!(sess.out.back_log.is_empty());

    let pubrec = Packet::PubRec(an_ack(PacketType::PubRec, 2, ReasCode::Success));
    assert_eq!(sess.on_packet(pubrec, vec![], 0), nothing());
    assert_eq!(sess.out.inflight[0].phase, Phase::AwaitPubComp);
    assert_eq!(
        sess.out.flush(),
        vec![Packet::PubRel(an_ack(PacketType::PubRel, 2, ReasCode::Success))]
    );
    let pubcomp = Packet::PubComp(an_ack(PacketType::PubComp, 2, ReasCode::Success));
    assert_eq!(sess.on_packet(pubcomp, vec![], 0), nothing());
    assert!(sess.out.inflight.is_empty());

    // a PUBREC for a delivery that is not in flight
    let pubrec = Packet::PubRec(an_ack(PacketType::PubRec, 77, ReasCode::Success));
    assert_eq!(sess.on_packet(pubrec, vec![], 0), nothing());
    assert_eq!(
        sess.out.flush(),
        vec![Packet::PubRel(an_ack(PacketType::PubRel, 77, ReasCode::PacketIdNotFound))]
    );
}

#[test]
fn a_pubrel_is_answered_with_a_pubcomp() {
    let mut sess = a_session("pub", 0, 10);
    let pubrel = Packet::PubRel(an_ack(PacketType::PubRel, 3, ReasCode::Success));
    assert_eq!(sess.on_packet(pubrel, vec![], 0), nothing());
    let out = sess.out.flush();
    assert_eq!(out, vec![Packet::PubComp(an_ack(PacketType::PubComp, 3, ReasCode::Success))]);
    assert_eq!(out[0].encode(), Ok(vec![0x70, 0x04, 0x00, 0x03, 0x00, 0x00]));
}

#[test]
fn a_subscribe_is_answered_with_what_it_asks_for() {
    let mut sess = a_session("sub", 0, 10);
    let filter = |name: &str, qos: QoS| SubscribeFilter {
        topic_filter: TopicFilter(name.to_string()),
        opt: SubscriptionOpt::new(RetainForwardRule::OnEverySubscribe, false, false, qos),
    };
    let sub = Subscribe {
        packet_id: 7,
        properties: None,
        filters: vec![filter("foo/#", QoS::AtLeastOnce), filter("bar", QoS::ExactlyOnce)],
    };
    assert_eq!(sess.on_packet(Packet::Subscribe(sub), vec![], 0), nothing());
    assert_eq!(
        sess.out.flush(),
        vec![Packet::SubAck(SubAck { packet_id: 7, properties: None, return_codes: vec![1, 2] })]
    );
    // a SUBSCRIBE without filters breaks the rules
    let empty = Subscribe { packet_id: 8, properties: None, filters: vec![] };
    assert_eq!(Err(sess.on_packet(Packet::Subscribe(empty.clone()), vec![], 0).unwrap_err()), empty.validate());
    assert!(sess.out.back_log.is_empty());
}

#[test]
fn an_unsubscribe_is_answered_with_success_for_each_filter() {
    let mut sess = a_session("sub", 0, 10);
    let unsub = UnSubscribe {
        packet_id: 11,
        properties: None,
        filters: vec![TopicFilter("foo/#".to_string()), TopicFilter("bar".to_string())],
    };
    assert_eq!(sess.on_packet(Packet::UnSubscribe(unsub), vec![], 0), nothing());
    let out = sess.out.flush();
    assert_eq!(
        out,
        vec![Packet::UnsubAck(UnsubAck { packet_id: 11, properties: None, return_codes: vec![0, 0] })]
    );
    assert!(out[0].encode().is_ok());
    let empty = UnSubscribe { packet_id: 12, properties: None, filters: vec![] };
    assert_eq!(sess.on_packet(Packet::UnSubscribe(empty), vec![], 0), Err(protocol()));
    assert!(sess.out.back_log.is_empty());
}

#[test]
fn a_disconnect_ends_the_connection() {
    let mut sess = a_session("c", 0, 10);
    let res = sess.on_packet(Packet::Disconnect(Disconnect { code: 0, properties: None }), vec![], 0);
    assert_eq!(res, Err(Error { kind: ErrorKind::Disconnected, code: ReasonCode::Success }));
    assert!(sess.out.back_log.is_empty());
    assert_eq!(sess.state, SessionState::Closed);
    assert!(sess.is_closed());
    // a session that is closed stays closed when its connection goes
    sess.on_connection_lost();
    assert_eq!(sess.state, SessionState::Closed);
}

#[test]
fn a_session_waits_for_its_client_to_come_back() {
    let mut sess = a_session("c", 0, 10);
    assert_eq!(sess.on_connect(&Connect::default(), false), Ok(()));
    assert_eq!(sess.deliver(a_publish("a/b", QoS::AtLeastOnce, None), QoS::AtLeastOnce), Ok(1));
    assert_eq!(sess.out.flush().len(), 2);
    sess.on_connection_lost();
    assert_eq!(sess.state, SessionState::Reconnecting);
    assert!(!sess.is_closed());
    assert_eq!(sess.out.inflight.len(), 1);
    // the client comes back and finds what was in flight
    let mut connect = Connect::default();
    connect.flags = ConnectFlags(0);
    let (mut sess, present) = Session::adopt_or_new(Some(sess), &connect, 0, 10);
    assert!(present);
    assert_eq!(sess.on_connect(&connect, present), Ok(()));
    assert_eq!(sess.state, SessionState::Active);
    assert_eq!(sess.out.inflight.len(), 1);
    assert_eq!(
        sess.out.flush(),
        vec![Packet::ConnAck(ConnAck { session_present: true, code: 0, properties: None })]
    );
    // a session that the client has ended is not taken up again
    let _ = sess.on_packet(Packet::Disconnect(Disconnect { code: 0, properties: None }), vec![], 0);
    let (sess, present) = Session::adopt_or_new(Some(sess), &connect, 0, 10);
    assert!(!present);
    assert_eq!(sess.state, SessionState::Accepting);
    assert!(sess.out.inflight.is_empty());
}

#[test]
fn what_only_a_broker_sends_is_a_protocol_error() {
    let mut sess = a_session("c", 0, 10);
    let pkts = vec![
        Packet::Connect(Connect::default()),
        Packet::ConnAck(ConnAck { session_present: false, code: 0, properties: None }),
        Packet::SubAck(SubAck { packet_id: 1, properties: None, return_codes: vec![0] }),
        Packet::UnsubAck(UnsubAck { packet_id: 1, properties: None, return_codes: vec![0] }),
        Packet::PingResp,
        Packet::Auth(Auth { code: 0, properties: None }),
    ];
    for pkt in pkts.into_iter() {
        assert_eq!(sess.on_packet(pkt, vec![], 0), Err(protocol()));
    }
    assert!(sess.out.back_log.is_empty());
    assert_eq!(sess.inp.seqno, 1);
}

#[test]
fn a_full_backlog_refuses_before_anything_changes() {
    let mut sess = a_session("c", 0, 1);
    assert_eq!(sess.deliver(a_publish("a/b", QoS::ExactlyOnce, None), QoS::ExactlyOnce), Ok(1));
    assert_eq!(sess.out.flush().len(), 1);
    assert_eq!(sess.on_packet(Packet::PingReq, vec![], 0), nothing());
    assert!(!sess.has_room());
    assert_eq!(sess.on_packet(Packet::PingReq, vec![], 0), Err(quota()));
    // the delivery does not move on while its PUBREL cannot be queued
    let pubrec = Packet::PubRec(an_ack(PacketType::PubRec, 1, ReasCode::Success));
    assert_eq!(sess.on_packet(pubrec, vec![], 0), Err(quota()));
    assert_eq!(sess.out.inflight[0].phase, Phase::AwaitPubRec);
    // nor is a PUBLISH taken in whose answer cannot be queued
    let pkt = Packet::Publish(a_publish("x/y", QoS::AtLeastOnce, Some(1)));
    assert_eq!(sess.on_packet(pkt, vec![], 0), Err(quota()));
    assert_eq!(sess.inp.seqno, 1);
    // one that is owed no answer yet is
    let pkt = Packet::Publish(a_publish("a/b", QoS::AtLeastOnce, Some(1)));
    assert_eq!(sess.on_packet(pkt, vec![a_subscription("s", 1, QoS::AtMostOnce)], 0).unwrap().len(), 1);
    assert_eq!(sess.inp.seqno, 2);
    assert_eq!(back_log_of(&sess), vec![Message::ClientAck { packet: Packet::PingResp }]);
}

#[test]
fn the_acknowledgements_of_the_peers_reach_the_publisher() {
    let mut sess = a_session("pub", 0, 2);
    let subs = vec![a_subscription("s1", 1, QoS::AtLeastOnce), a_subscription("s2", 2, QoS::AtLeastOnce)];
    for id in 1..=3u16 {
        let qos = if id == 2 { QoS::ExactlyOnce } else { QoS::AtLeastOnce };
        let pkt = Packet::Publish(a_publish("a/b", qos, Some(id)));
        assert_eq!(sess.on_packet(pkt, subs.clone(), 0).unwrap().len(), 2);
    }
    // one peer alone settles nothing
    assert_eq!(sess.on_peer_ack(1, 3, 5), Ok(0));
    assert!(sess.out.back_log.is_empty());
    // the other has seen the first two
    assert_eq!(sess.on_peer_ack(2, 2, 6), Ok(2));
    assert_eq!(
        sess.out.flush(),
        vec![
            Packet::PubAck(an_ack(PacketType::PubAck, 1, ReasCode::Success)),
            Packet::PubRec(an_ack(PacketType::PubRec, 2, ReasCode::Success)),
        ]
    );
    // the same acknowledgement again settles nothing more
    assert_eq!(sess.on_peer_ack(2, 2, 7), Ok(0));
    assert_eq!(sess.on_peer_ack(2, 3, 8), Ok(1));
    assert!(!sess.inp.waits(3));
}

#[test]
fn acknowledgements_that_the_backlog_does_not_take_disconnect_the_client() {
    let mut sess = a_session("pub", 0, 1);
    let subs = vec![a_subscription("s1", 1, QoS::AtLeastOnce)];
    for id in 1..=2u16 {
        let pkt = Packet::Publish(a_publish("a/b", QoS::AtLeastOnce, Some(id)));
        assert_eq!(sess.on_packet(pkt, subs.clone(), 0).unwrap().len(), 1);
    }
    assert_eq!(sess.on_peer_ack(1, 2, 5), Err(quota()));
    assert!(sess.out.back_log.is_empty());
}

#[test]
fn a_connection_adopts_its_session_unless_it_asks_for_a_clean_start() {
    let held = || {
        let mut old = a_session("c", 3, 10);
        assert_eq!(old.deliver(a_publish("a/b", QoS::AtLeastOnce, None), QoS::AtLeastOnce), Ok(1));
        old
    };
    let mut connect = Connect::default();
    connect.payload.client_id = ClientID("c".to_string());
    connect.flags = ConnectFlags(0);
    connect.properties =
        Some(ConnectProperties { receive_maximum: Some(4), ..ConnectProperties::default() });
    assert_eq!(connect.validate(), Ok(()));

    let (sess, present) = Session::adopt_or_new(Some(held()), &connect, 3, 50);
    assert!(present);
    assert_eq!(sess.out.seqno, 2);
    assert_eq!(sess.out.back_log.len(), 1);
    assert_eq!(sess.out.receive_maximum, 10);

    let (sess, present) = Session::adopt_or_new(None, &connect, 3, 50);
    assert!(!present);
    assert_eq!(sess.as_client_id(), &ClientID("c".to_string()));
    assert_eq!((sess.to_shard_id(), sess.state), (3, SessionState::Accepting));
    assert_eq!((sess.out.seqno, sess.inp.seqno), (1, 1));
    assert_eq!((sess.out.receive_maximum, sess.out.back_log_cap), (4, 50));

    connect.flags = ConnectFlags(0x02);
    let (sess, present) = Session::adopt_or_new(Some(held()), &connect, 3, 50);
    assert!(!present);
    assert_eq!(sess.out.seqno, 1);
    assert!(sess.out.back_log.is_empty());
}
