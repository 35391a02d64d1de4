use std::collections::VecDeque;
use std::sync::Arc;
use std::time::Duration;

use mqtr::broker::chan::{Offered, Polled};
use mqtr::broker::message::{after_offer, after_poll, msg_channel, reversed, Message};
use mqtr::broker::socket::{
    drain_deque, extend_deque, pkt_channel, Deadline, ReadStep, Sink, Source, Stats, WriteStep,
};
use mqtr::broker::QueueStatus;
use mqtr::error::{Error, ErrorKind, ReasonCode};
use mqtr::frame::{MQTTRead, MQTTWrite};
use mqtr::v5::connect::Connect;
use mqtr::v5::packet::Packet;
use mqtr::v5::pubaclc::{PubARLC, ReasCode};
use mqtr::v5::{ClientID, PacketType};

const WAKE: mio::Token = mio::Token(1);

fn waker() -> (mio::Poll, Arc<mio::Waker>) {
    let poll = mio::Poll::new().unwrap();
    let waker = Arc::new(mio::Waker::new(poll.registry(), WAKE).unwrap());
    (poll, waker)
}

/// How many wake-ups arrive within a tenth of a second.
fn wakes(poll: &mut mio::Poll) -> usize {
    let mut events = mio::Events::with_capacity(8);
    poll.poll(&mut events, Some(Duration::from_millis(100))).unwrap();
    events.iter().filter(|e| e.token() == WAKE).count()
}

fn local_ack(n: u64) -> Message {
    Message::LocalAck { shard_id: 1, last_acked: n }
}

fn puback(id: u16) -> Packet {
    Packet::PubAck(PubARLC {
        packet_type: PacketType::PubAck,
        packet_id: id,
        code: ReasCode::Success,
        properties: None,
    })
}

fn malformed() -> Error {
    Error { kind: ErrorKind::MalformedPacket, code: ReasonCode::MalformedPacket }
}

#[test]
fn reversed_turns_the_order_round() {
    assert_eq!(reversed(vec![1, 2, 3]), vec![3, 2, 1]);
    assert_eq!(reversed(Vec::<u8>::new()), Vec::<u8>::new());
}

#[test]
fn try_sends_hands_back_what_does_not_fit() {
    let (_poll, waker) = waker();
    let (mut tx, rx) = msg_channel(3, 2, waker);
    assert_eq!(tx.count(), 0);
    let status = tx.try_sends(vec![local_ack(1), local_ack(2), local_ack(3), local_ack(4)]);
    assert_eq!(status, QueueStatus::Block(vec![local_ack(3), local_ack(4)]));
    assert_eq!(tx.count(), 2);
    // the receiver takes a full batch
    assert_eq!(rx.try_recvs(), QueueStatus::Done(vec![local_ack(1), local_ack(2)]));
    // and then finds the queue drained
    assert_eq!(rx.try_recvs(), QueueStatus::Block(vec![]));
    let status = tx.try_sends(vec![local_ack(3)]);
    assert_eq!(status, QueueStatus::Done(vec![]));
    assert_eq!(tx.count(), 3);
    assert_eq!(rx.try_recvs(), QueueStatus::Block(vec![local_ack(3)]));
    assert_eq!(tx.try_sends(vec![]), QueueStatus::Done(vec![]));
    assert_eq!(tx.count(), 3);
}

#[test]
fn try_sends_to_a_receiver_that_is_gone() {
    let (_poll, waker) = waker();
    let (mut tx, rx) = msg_channel(3, 2, waker);
    drop(rx);
    let status = tx.try_sends(vec![local_ack(1), local_ack(2)]);
    assert_eq!(status, QueueStatus::Disconnected(vec![local_ack(1), local_ack(2)]));
    assert_eq!(tx.count(), 0);
}

#[test]
fn try_recvs_from_senders_that_are_gone() {
    let (_poll, waker) = waker();
    let (mut tx, rx) = msg_channel(3, 4, waker);
    assert_eq!(tx.try_sends(vec![local_ack(1)]), QueueStatus::Done(vec![]));
    drop(tx);
    assert_eq!(rx.try_recvs(), QueueStatus::Disconnected(vec![local_ack(1)]));
    assert_eq!(rx.try_recvs(), QueueStatus::Disconnected(vec![]));
}

#[test]
fn a_sender_that_has_sent_wakes_on_drop() {
    let (mut poll, waker) = waker();
    // the thread that polls keeps the waker alive
    let (mut tx, rx) = msg_channel(3, 4, Arc::clone(&waker));
    assert!(!tx.wakes_on_drop());
    let idle = tx.to_tx();
    drop(idle);
    assert_eq!(wakes(&mut poll), 0);
    let mut busy = tx.to_tx();
    assert_eq!(busy.count(), 0);
    assert_eq!(busy.try_sends(vec![local_ack(1), local_ack(2)]), QueueStatus::Done(vec![]));
    assert!(busy.wakes_on_drop());
    assert_eq!(busy.count(), 2);
    // each handle counts its own sends
    assert_eq!(tx.count(), 0);
    drop(busy);
    assert_eq!(wakes(&mut poll), 1);
    assert_eq!(wakes(&mut poll), 0);
    assert_eq!(tx.try_sends(vec![local_ack(3)]), QueueStatus::Done(vec![]));
    drop(tx);
    assert_eq!(wakes(&mut poll), 1);
    assert_eq!(
        rx.try_recvs(),
        QueueStatus::Disconnected(vec![local_ack(1), local_ack(2), local_ack(3)])
    );
}

#[test]
fn packet_queue() {
    let (mut poll, waker) = waker();
    let (mut tx, rx) = pkt_channel(0, 1, Arc::clone(&waker));
    let status = tx.try_sends("test", vec![puback(1), puback(2)]);
    assert_eq!(status, QueueStatus::Block(vec![puback(2)]));
    assert_eq!(tx.count(), 1);
    assert!(tx.wakes_on_drop());
    assert_eq!(rx.try_recvs("test"), QueueStatus::Done(vec![puback(1)]));
    assert_eq!(rx.try_recvs("test"), QueueStatus::Block(vec![]));
    drop(tx);
    assert_eq!(wakes(&mut poll), 1);
    assert_eq!(rx.try_recvs("test"), QueueStatus::Disconnected(vec![]));
}

#[test]
fn queue_status() {
    let mut status = QueueStatus::Block(vec![1, 2]);
    assert!(status.is_block());
    assert!(!status.is_ok());
    assert!(!status.is_disconnected());
    assert_eq!(status.take_values(), vec![1, 2]);
    assert_eq!(status, QueueStatus::Block(vec![]));
    assert!(QueueStatus::Done(vec![0u8]).is_ok());
    assert!(QueueStatus::Disconnected(vec![0u8]).is_disconnected());
}

#[test]
fn stats() {
    let mut stats = Stats::default();
    assert_eq!(stats.to_json(), "{ \"items\": 0, \"bytes\": 0 }".to_string());
    stats.update(&Stats { items: 12, bytes: 3405 });
    assert_eq!(stats, Stats { items: 12, bytes: 3405 });
    assert_eq!(stats.to_json(), "{ \"items\": 12, \"bytes\": 3405 }".to_string());
    let top = Stats { items: usize::MAX, bytes: 10 };
    assert_eq!(top.to_json(), format!("{{ \"items\": {}, \"bytes\": 10 }}", usize::MAX));
}

#[test]
fn deadline() {
    let mut d = Deadline::new();
    assert!(!d.elapsed(u64::MAX));
    d.arm(true, 100, 5);
    assert_eq!(d, Deadline { at: Some(105) });
    assert!(!d.elapsed(105));
    assert!(d.elapsed(106));
    // a deadline that runs is not moved
    d.arm(true, 200, 5);
    assert_eq!(d.at, Some(105));
    d.arm(false, 200, 5);
    assert_eq!(d.at, None);
    d.arm(true, u64::MAX - 1, 5);
    assert_eq!(d.at, Some(u64::MAX));
}

#[test]
fn deques() {
    let mut q: VecDeque<u8> = VecDeque::new();
    extend_deque(&mut q, vec![1, 2]);
    extend_deque(&mut q, vec![3]);
    assert_eq!(q, VecDeque::from(vec![1, 2, 3]));
    assert_eq!(drain_deque(&mut q), vec![1, 2, 3]);
    assert!(q.is_empty());
}

fn connect_bytes() -> (Connect, Vec<u8>) {
    let mut c = Connect::default();
    c.payload.client_id = ClientID("partial".to_string());
    c.keep_alive = 60;
    let bytes = c.encode().unwrap();
    (c, bytes)
}

#[test]
fn a_packet_fed_byte_by_byte_is_read_once_it_is_whole() {
    let (c, bytes) = connect_bytes();
    let mut pr = MQTTRead::new(1 << 20);
    for (k, b) in bytes.iter().enumerate() {
        assert!(!pr.is_fin());
        assert!(pr.want() >= 1);
        let (next, n) = pr.feed(&[*b]).unwrap();
        assert_eq!(n, 1);
        pr = next;
        assert_eq!(pr.is_fin(), k + 1 == bytes.len());
    }
    assert_eq!(pr.want(), 0);
    assert_eq!(pr.parse(), Ok(Packet::Connect(c)));
    assert_eq!(pr.reset(), MQTTRead::new(1 << 20));
}

#[test]
fn feeding_stops_where_the_packet_ends() {
    let (_, bytes) = connect_bytes();
    let mut both = bytes.clone();
    both.extend_from_slice(&[0xc0, 0x00]);
    let (pr, n) = MQTTRead::new(1 << 20).feed(&both).unwrap();
    assert_eq!(n, bytes.len());
    assert!(pr.is_fin());
    // a complete packet takes nothing more
    let (pr, n) = pr.feed(&[1, 2, 3]).unwrap();
    assert_eq!(n, 0);
    let (ping, n) = pr.reset().feed(&both[bytes.len()..]).unwrap();
    assert_eq!(n, 2);
    assert_eq!(ping.parse(), Ok(Packet::PingReq));
}

#[test]
fn read_states() {
    let pr = MQTTRead::new(100);
    assert_eq!(pr.want(), 1);
    let (pr, _) = pr.feed(&[0x30]).unwrap();
    assert_eq!(pr, MQTTRead::Header { data: vec![0x30], max_size: 100 });
    assert_eq!(pr.want(), 1);
    let (pr, _) = pr.feed(&[0x05, 0x00]).unwrap();
    assert_eq!(pr, MQTTRead::Remain { data: vec![0x30, 0x05, 0x00], need: 4, max_size: 100 });
    assert_eq!(pr.want(), 4);
    let (pr, n) = pr.feed(&[]).unwrap();
    assert_eq!(n, 0);
    let (pr, _) = pr.feed(&[0x01, b't', 0x00, b'x']).unwrap();
    assert_eq!(
        pr,
        MQTTRead::Fin { data: vec![0x30, 0x05, 0x00, 0x01, b't', 0x00, b'x'], max_size: 100 }
    );
}

#[test]
fn a_length_of_five_bytes_and_a_packet_too_large() {
    assert_eq!(MQTTRead::new(100).feed(&[0x30, 0x80, 0x80, 0x80, 0x80]), Err(malformed()));
    let too_large = Error { kind: ErrorKind::MalformedPacket, code: ReasonCode::PacketTooLarge };
    assert_eq!(too_large.reason_byte(), 0x95);
    assert_eq!(MQTTRead::new(100).feed(&[0x30, 0x65]), Err(too_large));
    let (pr, n) = MQTTRead::new(100).feed(&[0x30, 0x64]).unwrap();
    assert_eq!(n, 2);
    assert_eq!(pr.want(), 100);
}

#[test]
fn write_states() {
    let pw = MQTTWrite::new();
    assert!(pw.is_fin());
    assert_eq!(pw.to_write(), Vec::<u8>::new());
    let pw = pw.reset(&[1, 2, 3, 4]);
    assert_eq!(pw, MQTTWrite::Init { data: vec![1, 2, 3, 4] });
    let pw = pw.wrote(0);
    assert_eq!(pw.to_write(), vec![1, 2, 3, 4]);
    let pw = pw.wrote(1);
    assert_eq!(pw, MQTTWrite::Remain { data: vec![1, 2, 3, 4], start: 1 });
    let pw = pw.wrote(2);
    assert_eq!(pw.to_write(), vec![4]);
    assert!(!pw.is_fin());
    let pw = pw.wrote(1);
    assert!(pw.is_fin());
    assert!(MQTTWrite::new().reset(&[]).is_fin());
    assert!(MQTTWrite::new().reset(&[9]).wrote(1).is_fin());
}

fn source(size: usize) -> (mio::Poll, Source, mqtr::broker::socket::PktRx) {
    let (poll, waker) = waker();
    let (tx, rx) = pkt_channel(0, size, waker);
    let source = Source {
        pr: MQTTRead::new(1 << 20),
        timeout: Deadline::new(),
        session_tx: tx,
        packets: VecDeque::new(),
    };
    (poll, source, rx)
}

#[test]
fn a_partial_read_waits_until_its_deadline() {
    let (_poll, mut rd, _rx) = source(4);
    let (c, bytes) = connect_bytes();
    let (half, rest) = bytes.split_at(5);
    rd.pr = MQTTRead::new(1 << 20).feed(half).unwrap().0;
    assert!(!rd.read_elapsed(1000));
    // the first read that leaves the packet incomplete starts the deadline
    assert_eq!(rd.after_read(1000, 2), Ok(QueueStatus::Block(vec![])));
    assert_eq!(rd.timeout.at, Some(1002));
    assert_eq!(rd.after_read(1002, 2), Ok(QueueStatus::Block(vec![])));
    assert_eq!(rd.timeout.at, Some(1002));
    // the rest arrives in time
    let pr = std::mem::replace(&mut rd.pr, MQTTRead::new(0));
    rd.pr = pr.feed(rest).unwrap().0;
    assert_eq!(rd.after_read(1002, 2), Ok(QueueStatus::Done(vec![Packet::Connect(c)])));
    assert_eq!(rd.timeout.at, None);
    assert_eq!(rd.pr, MQTTRead::new(1 << 20));
}

#[test]
fn a_partial_read_that_takes_too_long_disconnects() {
    let (_poll, mut rd, _rx) = source(4);
    let (_, bytes) = connect_bytes();
    rd.pr = MQTTRead::new(1 << 20).feed(&bytes[..5]).unwrap().0;
    assert_eq!(rd.after_read(1000, 2), Ok(QueueStatus::Block(vec![])));
    assert!(rd.read_elapsed(1003));
    assert_eq!(rd.after_read(1003, 2), Ok(QueueStatus::Disconnected(vec![])));
    assert_eq!(rd.timeout.at, None);
    rd.set_read_timeout(true, 7, 3);
    assert_eq!(rd.timeout.at, Some(10));
    rd.set_read_timeout(false, 7, 3);
    assert_eq!(rd.timeout.at, None);
}

#[test]
fn a_packet_that_does_not_parse_is_an_error() {
    let (_poll, mut rd, _rx) = source(4);
    let (_, mut bytes) = connect_bytes();
    bytes[9] = 0x03;
    rd.pr = MQTTRead::new(1 << 20).feed(&bytes).unwrap().0;
    assert_eq!(rd.after_read(0, 1), Err(malformed()));
    assert_eq!(rd.pr, MQTTRead::new(1 << 20));
}

#[test]
fn reading_books_packets_and_decides() {
    let (_poll, mut rd, _rx) = source(4);
    assert_eq!(rd.on_read(QueueStatus::Done(vec![puback(1)]), 2), ReadStep::Continue);
    assert_eq!(rd.on_read(QueueStatus::Done(vec![puback(2)]), 2), ReadStep::Flush);
    assert_eq!(rd.packets.len(), 2);
    assert_eq!(rd.on_read(QueueStatus::Block(vec![]), 2), ReadStep::Flush);
    assert_eq!(rd.on_read(QueueStatus::Disconnected(vec![]), 2), ReadStep::Flush);
    rd.packets.clear();
    assert_eq!(rd.on_read(QueueStatus::Block(vec![]), 2), ReadStep::Flush);
    assert_eq!(rd.on_read(QueueStatus::Disconnected(vec![]), 2), ReadStep::Disconnected);
}

#[test]
fn send_upstream_keeps_what_the_shard_does_not_take() {
    let (mut poll, mut rd, rx) = source(2);
    rd.packets = VecDeque::from(vec![puback(1), puback(2), puback(3)]);
    assert_eq!(rd.send_upstream("test"), QueueStatus::Block(vec![]));
    assert_eq!(rd.packets, VecDeque::from(vec![puback(3)]));
    // the shard is woken, by the handle that sent
    assert_eq!(wakes(&mut poll), 1);
    assert_eq!(rx.try_recvs("test"), QueueStatus::Done(vec![puback(1), puback(2)]));
    assert_eq!(rd.send_upstream("test"), QueueStatus::Done(vec![]));
    assert!(rd.packets.is_empty());
    assert_eq!(wakes(&mut poll), 1);
    // nothing to send, nobody woken
    assert_eq!(rd.send_upstream("test"), QueueStatus::Done(vec![]));
    assert_eq!(wakes(&mut poll), 0);
    drop(rx);
    rd.packets = VecDeque::from(vec![puback(4)]);
    assert_eq!(rd.send_upstream("test"), QueueStatus::Disconnected(vec![]));
    assert_eq!(rd.packets, VecDeque::from(vec![puback(4)]));
}

fn sink(size: usize) -> (mqtr::broker::socket::PktTx, Sink) {
    let (_poll, waker) = waker();
    let (tx, rx) = pkt_channel(0, size, waker);
    let sink =
        Sink { pw: MQTTWrite::new(), timeout: Deadline::new(), miot_rx: rx, packets: VecDeque::new() };
    (tx, sink)
}

#[test]
fn a_packet_that_cannot_be_written_is_skipped() {
    let (_tx, mut wt) = sink(4);
    let bad = Packet::PubAck(PubARLC {
        packet_type: PacketType::PubAck,
        packet_id: 1,
        code: ReasCode::PacketIdNotFound,
        properties: None,
    });
    wt.packets = VecDeque::from(vec![bad.clone(), puback(2), bad, puback(3)]);
    let mut stats = Stats::default();
    assert_eq!(wt.next_blob(&mut stats), Some(vec![0x40, 0x04, 0x00, 0x02, 0x00, 0x00]));
    assert_eq!(stats, Stats { items: 0, bytes: 6 });
    assert_eq!(wt.packets.len(), 2);
    wt.load(&[0x40, 0x04, 0x00, 0x02, 0x00, 0x00], &mut stats);
    assert_eq!(stats, Stats { items: 1, bytes: 6 });
    assert_eq!(wt.pw.to_write().len(), 6);
    assert_eq!(wt.next_blob(&mut stats), Some(vec![0x40, 0x04, 0x00, 0x03, 0x00, 0x00]));
    assert_eq!(stats, Stats { items: 1, bytes: 12 });
    assert_eq!(wt.next_blob(&mut stats), None);
    assert_eq!(stats, Stats { items: 1, bytes: 12 });
    let mut full = Stats { items: usize::MAX, bytes: usize::MAX - 1 };
    wt.packets.push_back(puback(4));
    assert!(wt.next_blob(&mut full).is_some());
    wt.load(&[1], &mut full);
    assert_eq!(full, Stats { items: usize::MAX, bytes: usize::MAX });
}

#[test]
fn a_partial_write_waits_until_its_deadline() {
    let (_tx, mut wt) = sink(4);
    assert_eq!(wt.after_write(50, 3), QueueStatus::Done(vec![]));
    let mut stats = Stats::default();
    wt.load(&[1, 2, 3], &mut stats);
    assert_eq!(wt.after_write(50, 3), QueueStatus::Block(vec![]));
    assert_eq!(wt.timeout.at, Some(53));
    assert!(!wt.write_elapsed(53));
    wt.pw = std::mem::replace(&mut wt.pw, MQTTWrite::new()).wrote(2);
    assert_eq!(wt.after_write(53, 3), QueueStatus::Block(vec![]));
    assert!(wt.write_elapsed(54));
    assert_eq!(wt.after_write(54, 3), QueueStatus::Disconnected(vec![]));
    assert_eq!(wt.timeout.at, None);
    wt.pw = std::mem::replace(&mut wt.pw, MQTTWrite::new()).wrote(1);
    wt.set_write_timeout(true, 60, 3);
    assert_eq!(wt.after_write(64, 3), QueueStatus::Done(vec![]));
    assert_eq!(wt.timeout.at, None);
}

#[test]
fn writing_books_packets_and_decides() {
    let (mut tx, mut wt) = sink(2);
    assert_eq!(tx.try_sends("test", vec![puback(1), puback(2)]), QueueStatus::Done(vec![]));
    let status = wt.miot_rx.try_recvs("test");
    assert_eq!(wt.on_recv(status), WriteStep::Continue);
    assert_eq!(wt.packets, VecDeque::from(vec![puback(1), puback(2)]));
    let status = wt.miot_rx.try_recvs("test");
    assert_eq!(wt.on_recv(status), WriteStep::FlushAndStop);
    drop(tx);
    let status = wt.miot_rx.try_recvs("test");
    assert_eq!(wt.on_recv(status), WriteStep::Disconnected);
    assert_eq!(wt.packets.len(), 2);
}

#[test]
fn what_follows_the_answer_to_an_offer() {
    // what waits behind the value that was offered is held last first
    assert_eq!(after_offer(Offered::Taken, vec![3, 2]), Ok(vec![3, 2]));
    assert_eq!(after_offer(Offered::Full(1), vec![3, 2]), Err(QueueStatus::Block(vec![1, 2, 3])));
    assert_eq!(
        after_offer(Offered::Disconnected(1), vec![3, 2]),
        Err(QueueStatus::Disconnected(vec![1, 2, 3]))
    );
    assert_eq!(after_offer(Offered::Full(9), vec![]), Err(QueueStatus::Block(vec![9])));
    assert_eq!(after_offer(Offered::<u8>::Taken, vec![]), Ok(vec![]));
}

#[test]
fn what_follows_the_answer_to_a_poll() {
    assert_eq!(after_poll(vec![1], Polled::Item(2), 3), Ok(vec![1, 2]));
    assert_eq!(after_poll(vec![1, 2], Polled::Item(3), 3), Err(QueueStatus::Done(vec![1, 2, 3])));
    assert_eq!(after_poll(vec![], Polled::Item(7), 1), Err(QueueStatus::Done(vec![7])));
    assert_eq!(after_poll(vec![1], Polled::Empty, 3), Err(QueueStatus::Block(vec![1])));
    assert_eq!(
        after_poll(vec![1], Polled::Disconnected, 3),
        Err(QueueStatus::Disconnected(vec![1]))
    );
    assert_eq!(after_poll(Vec::<u8>::new(), Polled::Empty, 1), Err(QueueStatus::Block(vec![])));
}

#[test]
fn a_batch_size_of_nothing_takes_nothing() {
    let (_poll, waker) = waker();
    let (mut tx, _rx) = msg_channel(0, 4, Arc::clone(&waker));
    assert_eq!(tx.try_sends(vec![local_ack(1)]), QueueStatus::Done(vec![]));
    let (mut tx0, rx0) = msg_channel(0, 0, waker);
    assert_eq!(rx0.try_recvs(), QueueStatus::Done(vec![]));
    // nothing fits a queue that holds nothing
    assert_eq!(tx0.try_sends(vec![local_ack(1)]), QueueStatus::Block(vec![local_ack(1)]));
    assert_eq!(tx0.count(), 0);
    assert_eq!(tx0.try_sends(vec![]), QueueStatus::Done(vec![]));
}
