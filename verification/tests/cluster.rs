use mqtr::cluster::{
    after_drain, check_power_of_2, close_plan, partition, single_node_topology, Action, CloseStep,
    ClusterState, Config, ConfigNode, Control, Drain, MultiNode, Node, Phase, RequestKind,
    Response, SingleNode, Topology, DEFAULT_WEIGHT,
};
use mqtr::error::{Error, ErrorKind, ReasonCode};

fn config(num_shards: u32) -> Config {
    Config {
        name: "node".to_string(),
        num_shards,
        mqtt_pkt_batch_size: 16,
        sock_mqtt_read_timeout: 5,
        sock_mqtt_write_timeout: 5,
        mqtt_max_packet_size: 268435455,
        mqtt_receive_maximum: 65535,
    }
}

fn invalid_input() -> Error {
    Error { kind: ErrorKind::InvalidInput, code: ReasonCode::UnspecifiedError }
}

fn node(uuid: u128) -> Node {
    Node { uuid, path: "/tmp".to_string(), weight: 1, mqtt_address: "0.0.0.0:1883".to_string() }
}

#[test]
fn the_number_of_shards_is_a_power_of_two() {
    for n in [1u32, 2, 4, 8, 1024, 1 << 31] {
        assert!(check_power_of_2(n));
        assert_eq!(config(n).validate(), Ok(()));
    }
    for n in [0u32, 3, 6, 12, 1000, u32::MAX] {
        assert!(!check_power_of_2(n));
        assert_eq!(config(n).validate(), Err(invalid_input()));
    }
    assert_eq!(config(4).num_shards(), 4);
}

#[test]
fn partition_by_client_id() {
    // ((97 * 31 + 98) * 31 + 99) = 96354
    assert_eq!(partition("abc", 1 << 31), 96354);
    assert_eq!(partition("abc", 8), 96354 % 8);
    assert_eq!(partition("", 8), 0);
    assert_eq!(partition("anything", 1), 0);
    for name in ["a", "client-1", "client-2", "ünïcödé", "0123456789abcdef0123456789abcdef"] {
        let shard = partition(name, 16);
        assert!(shard < 16);
        assert_eq!(shard, partition(name, 16));
    }
}

#[test]
fn spawn_only_from_a_cluster_that_does_not_run() {
    assert_eq!(Control::new().phase, Phase::Init);
    assert_eq!(Control::new().check_spawn(), Ok(()));
    assert_eq!(Control { phase: Phase::Handle }.check_spawn(), Err(invalid_input()));
    assert_eq!(Control { phase: Phase::Main }.check_spawn(), Err(invalid_input()));
    assert_eq!(Control { phase: Phase::Tx }.check_spawn(), Ok(()));
    assert_eq!(Control { phase: Phase::Close }.check_spawn(), Ok(()));
    assert_eq!(Control { phase: Phase::Handle }.to_tx().phase, Phase::Tx);
    assert_eq!(Control { phase: Phase::Tx }.to_tx().phase, Phase::Tx);
}

#[test]
fn after_close_every_request_is_dropped() {
    let mut c = Control { phase: Phase::Main };
    assert_eq!(c.on_request(RequestKind::SetUp), Action::SetUp);
    assert_eq!(c.on_request(RequestKind::AddConnection), Action::AddConnection);
    assert_eq!(c.phase, Phase::Main);
    assert_eq!(c.on_request(RequestKind::Close), Action::CloseAll);
    assert_eq!(c.phase, Phase::Close);
    for req in [RequestKind::SetUp, RequestKind::AddConnection, RequestKind::Close] {
        assert_eq!(c.on_request(req), Action::Skip);
        assert_eq!(c.phase, Phase::Close);
    }
    assert_eq!(Response::Done, Response::Done);
}

#[test]
fn the_flusher_is_closed_last() {
    assert_eq!(
        close_plan(&vec![0, 1, 2, 3]),
        vec![
            CloseStep::Listener,
            CloseStep::Ticker,
            CloseStep::Shard(0),
            CloseStep::Shard(1),
            CloseStep::Shard(2),
            CloseStep::Shard(3),
            CloseStep::Flusher,
        ]
    );
    assert_eq!(
        close_plan(&vec![]),
        vec![CloseStep::Listener, CloseStep::Ticker, CloseStep::Flusher]
    );
}

#[test]
fn node_from_configuration() {
    let c = ConfigNode {
        uuid: Some("a1a2a3a4-b1b2-c1c2-d1d2-d3d4d5d6d7d8".to_string()),
        path: "/var/lib/node".to_string(),
        weight: None,
        mqtt_address: "127.0.0.1:1883".to_string(),
    };
    let n = Node::try_from_config(c.clone()).unwrap();
    assert_eq!(n.uuid(), 0xa1a2a3a4b1b2c1c2d1d2d3d4d5d6d7d8);
    assert_eq!(n.weight(), DEFAULT_WEIGHT);
    assert_eq!(n.path(), &"/var/lib/node".to_string());
    assert_eq!(n.mqtt_address, "127.0.0.1:1883".to_string());
    let weighted = Node::try_from_config(ConfigNode { weight: Some(7), ..c.clone() }).unwrap();
    assert_eq!(weighted.weight(), 7);
    // nodes are the same node when their identifiers are
    assert_eq!(weighted, n);
    let bad = ConfigNode { uuid: Some("not-a-uuid".to_string()), ..c.clone() };
    assert_eq!(Node::try_from_config(bad).unwrap_err(), invalid_input());
    let a = Node::try_from_config(ConfigNode { uuid: None, ..c.clone() }).unwrap();
    let b = Node::try_from_config(ConfigNode { uuid: None, ..c }).unwrap();
    assert_ne!(a, b);
}

#[test]
fn shards_in_node() {
    let topology = vec![
        Topology { shard: 0, master: node(1) },
        Topology { shard: 1, master: node(2) },
        Topology { shard: 2, master: node(1) },
        Topology { shard: 3, master: node(3) },
    ];
    let single = ClusterState::SingleNode {
        state: SingleNode { config: config(4), node: node(1), topology: topology.clone() },
    };
    assert_eq!(single.shards_in_node(1), vec![0, 2]);
    let stable = ClusterState::Stable {
        state: MultiNode { config: config(4), nodes: vec![node(1), node(2), node(3)], topology },
    };
    assert_eq!(stable.shards_in_node(1), vec![0, 2]);
    assert_eq!(stable.shards_in_node(2), vec![1]);
    assert_eq!(stable.shards_in_node(9), Vec::<u32>::new());
}

#[test]
fn uuid_as_text_and_back() {
    let text = mqtr::ident::uuid_text(0xa1a2a3a4b1b2c1c2d1d2d3d4d5d6d7d8);
    assert_eq!(text, "a1a2a3a4-b1b2-c1c2-d1d2-d3d4d5d6d7d8".to_string());
    assert_eq!(mqtr::ident::uuid_text(0), "00000000-0000-0000-0000-000000000000".to_string());
    assert_eq!(
        mqtr::ident::uuid_text(u128::MAX),
        "ffffffff-ffff-ffff-ffff-ffffffffffff".to_string()
    );
    let c = ConfigNode {
        uuid: Some(text),
        path: String::new(),
        weight: None,
        mqtt_address: String::new(),
    };
    assert_eq!(Node::try_from_config(c).unwrap().uuid(), 0xa1a2a3a4b1b2c1c2d1d2d3d4d5d6d7d8);
}

#[test]
fn one_node_is_the_master_of_all_its_shards() {
    let n = node(7);
    let topology = single_node_topology(&n, 4);
    assert_eq!(topology.len(), 4);
    for (k, t) in topology.iter().enumerate() {
        assert_eq!(t.shard as usize, k);
        assert_eq!(t.master, n);
        assert_eq!(t.master.path(), n.path());
        assert_eq!(t.master.mqtt_address, n.mqtt_address);
    }
    let state = ClusterState::SingleNode {
        state: SingleNode { config: config(4), node: n, topology },
    };
    assert_eq!(state.shards_in_node(7), vec![0, 1, 2, 3]);
    assert!(single_node_topology(&node(7), 0).is_empty());
}

#[test]
fn a_control_channel_is_drained_until_it_is_empty_or_gone() {
    assert_eq!(after_drain(false, false), Drain::Again);
    assert_eq!(after_drain(true, false), Drain::Done);
    assert_eq!(after_drain(false, true), Drain::Disconnected);
    assert_eq!(after_drain(true, true), Drain::Disconnected);
}
