//! The control plane of a node: what the cluster supervisor checks and
//! decides. The threads that it starts and joins are the application's.

use vstd::prelude::*;
use crate::error::{Error, invalid_input};
use crate::ident::{parse_uuid, random_uuid, uuid_of};
use crate::v5::publish::copy_string;
use crate::wire::str_bytes;

verus! {

/// The configuration that the core reads.
#[derive(Debug, Clone, PartialEq, Eq)]
pub struct Config {
    /// The name of the node.
    pub name: String,
    /// How many shards the node runs; a power of 2.
    pub num_shards: u32,
    /// How many packets one turn of reading or writing takes at most.
    pub mqtt_pkt_batch_size: u32,
    /// For how many seconds a packet may stay read in part.
    pub sock_mqtt_read_timeout: u32,
    /// For how many seconds a packet may stay written in part.
    pub sock_mqtt_write_timeout: u32,
    /// The largest remaining length that the node takes and writes.
    pub mqtt_max_packet_size: u32,
    /// The receive maximum of a client that names none.
    pub mqtt_receive_maximum: u16,
}

/// `n` is a power of 2.
pub open spec fn is_power_of_2(n: nat) -> bool
    decreases n,
{
    n == 1 || (n > 1 && n % 2 == 0 && is_power_of_2(n / 2))
}

/// The number of shards is one that a cluster can run on: a power of 2.
pub open spec fn shards_valid(num_shards: u32) -> bool {
    is_power_of_2(num_shards as nat)
}

/// Whether `n` is a power of 2.
pub fn check_power_of_2(n: u32) -> (b: bool)
    ensures
        b == is_power_of_2(n as nat),
{
    if n == 0 {
        return false;
    }
    let mut m: u32 = n;
    while m % 2 == 0
        invariant
            m >= 1,
            is_power_of_2(n as nat) == is_power_of_2(m as nat),
        decreases m,
    {
        m = m / 2;
    }
    m == 1
}

impl Config {
    pub fn num_shards(&self) -> (n: u32)
        ensures
            n == self.num_shards,
    {
        self.num_shards
    }

    /// Checks the configuration before anything is started: the number of
    /// shards is a power of 2, else the input is invalid.
    pub fn validate(&self) -> (res: Result<(), Error>)
        ensures
            res == if shards_valid(self.num_shards) {
                Ok::<(), Error>(())
            } else {
                Err::<(), Error>(invalid_input())
            },
    {
        if self.num_shards == 0 {
            Err(Error::invalid_input())
        } else if !check_power_of_2(self.num_shards) {
            Err(Error::invalid_input())
        } else {
            Ok(())
        }
    }
}

/// The hash of a client identifier, from which its shard follows.
pub open spec fn client_hash(id: Seq<u8>) -> u32
    decreases id.len(),
{
    if id.len() == 0 {
        0
    } else {
        ((client_hash(id.drop_last()) * 31 + id.last()) % 0x1_0000_0000) as u32
    }
}

/// The shard that hosts the session of the client `client_id` on a node with
/// `num_shards` shards.
pub fn partition(client_id: &str, num_shards: u32) -> (shard_id: u32)
    requires
        num_shards > 0,
    ensures
        shard_id < num_shards,
        shard_id == client_hash(str_bytes(client_id@)) % num_shards,
{
    let bytes = client_id.as_bytes();
    let mut h: u32 = 0;
    let mut k: usize = 0;
    while k < bytes.len()
        invariant
            k <= bytes@.len(),
            h == client_hash(bytes@.take(k as int)),
        decreases bytes@.len() - k,
    {
        proof {
            assert(bytes@.take(k + 1).drop_last() =~= bytes@.take(k as int));
        }
        h = ((h as u64 * 31 + bytes[k] as u64) % 0x1_0000_0000) as u32;
        k += 1;
    }
    assert(bytes@.take(bytes@.len() as int) =~= bytes@);
    h % num_shards
}

/// The identities under which the supervisor of a cluster exists.
#[derive(Clone, Copy, Debug, PartialEq, Eq, Structural)]
pub enum Phase {
    /// Made from a configuration, not started.
    Init,
    /// The handle that the application holds on a cluster that runs.
    Handle,
    /// A handle that only sends requests.
    Tx,
    /// The state of the thread that runs the cluster.
    Main,
    /// Closed.
    Close,
}

/// The requests that the supervisor takes.
#[derive(Clone, Copy, Debug, PartialEq, Eq, Structural)]
pub enum RequestKind {
    /// Hands over listener, ticker and shards, once they are started.
    SetUp,
    /// A client has connected and sent its CONNECT.
    AddConnection,
    /// Shut down.
    Close,
}

/// The answer to a request that went through.
#[derive(Clone, Copy, Debug, PartialEq, Eq, Structural)]
pub enum Response {
    Done,
}

/// What the supervisor does about a request.
#[derive(Clone, Copy, Debug, PartialEq, Eq, Structural)]
pub enum Action {
    /// Take over listener, ticker and shards.
    SetUp,
    /// Hand the connection to the shard of its client.
    AddConnection,
    /// Close everything, in the order of `close_plan`.
    CloseAll,
    /// Drop the request: the cluster is closed.
    Skip,
}

/// What is closed when a cluster shuts down.
#[derive(Clone, Copy, Debug, PartialEq, Eq, Structural)]
pub enum CloseStep {
    Listener,
    Ticker,
    Shard(u32),
    Flusher,
}

/// What the supervisor does about a request in a given phase, and the phase
/// that follows. While the cluster runs, each request is acted on, and
/// `Close` closes the cluster; once it is closed, every request is dropped.
pub open spec fn decide(phase: Phase, req: RequestKind) -> (Phase, Action) {
    if phase == Phase::Close {
        (Phase::Close, Action::Skip)
    } else {
        match req {
            RequestKind::SetUp => (phase, Action::SetUp),
            RequestKind::AddConnection => (phase, Action::AddConnection),
            RequestKind::Close => (Phase::Close, Action::CloseAll),
        }
    }
}

/// The state of the supervisor, as far as its decisions go.
#[derive(Clone, Copy, Debug, PartialEq, Eq, Structural)]
pub struct Control {
    pub phase: Phase,
}

impl Control {
    /// The supervisor of a cluster that has not been started.
    pub fn new() -> (c: Control)
        ensures
            c.phase == Phase::Init,
    {
        Control { phase: Phase::Init }
    }

    /// Whether the cluster may be started: not from the handle of one that
    /// runs, nor from its thread.
    pub fn check_spawn(&self) -> (res: Result<(), Error>)
        ensures
            res == if self.phase == Phase::Handle || self.phase == Phase::Main {
                Err::<(), Error>(invalid_input())
            } else {
                Ok::<(), Error>(())
            },
    {
        match self.phase {
            Phase::Handle | Phase::Main => Err(Error::invalid_input()),
            _ => Ok(()),
        }
    }

    /// A handle that only sends requests, made from the application's handle
    /// or from another such handle.
    pub fn to_tx(&self) -> (c: Control)
        requires
            self.phase == Phase::Handle || self.phase == Phase::Tx,
        ensures
            c.phase == Phase::Tx,
    {
        Control { phase: Phase::Tx }
    }

    /// What the thread of the cluster does about the request `req`.
    pub fn on_request(&mut self, req: RequestKind) -> (action: Action)
        requires
            old(self).phase == Phase::Main || old(self).phase == Phase::Close,
        ensures
            (final(self).phase, action) == decide(old(self).phase, req),
            final(self).phase == Phase::Main || final(self).phase == Phase::Close,
    {
        match self.phase {
            Phase::Close => Action::Skip,
            _ => match req {
                RequestKind::SetUp => Action::SetUp,
                RequestKind::AddConnection => Action::AddConnection,
                RequestKind::Close => {
                    self.phase = Phase::Close;
                    Action::CloseAll
                },
            },
        }
    }
}

/// What a thread does once it has taken a batch of requests off its control
/// channel.
#[derive(Clone, Copy, Debug, PartialEq, Eq, Structural)]
pub enum Drain {
    /// More requests may wait: take another batch.
    Again,
    /// The channel is empty: go back to the poller.
    Done,
    /// Every sender is gone: leave the loop.
    Disconnected,
}

/// What follows a batch of requests, after which the control channel was
/// `empty` or not, and `disconnected` or not: a channel whose senders are gone
/// ends the thread, whatever else holds; else the thread takes batches until
/// the channel is empty.
pub fn after_drain(empty: bool, disconnected: bool) -> (d: Drain)
    ensures
        d == if disconnected {
            Drain::Disconnected
        } else if empty {
            Drain::Done
        } else {
            Drain::Again
        },
{
    if disconnected {
        Drain::Disconnected
    } else if empty {
        Drain::Done
    } else {
        Drain::Again
    }
}

/// The phase after the requests `reqs` have been taken one after the other.
pub open spec fn phase_after(phase: Phase, reqs: Seq<RequestKind>) -> Phase
    decreases reqs.len(),
{
    if reqs.len() == 0 {
        phase
    } else {
        decide(phase_after(phase, reqs.drop_last()), reqs.last()).0
    }
}

/// After `Close` nothing more is accepted: whatever requests follow a
/// `Close`, the cluster stays closed and each of them is dropped.
pub proof fn law_closed_stays_closed(phase: Phase, before: Seq<RequestKind>, after: Seq<RequestKind>, req: RequestKind)
    ensures
        ({
            let closed = phase_after(phase, before.push(RequestKind::Close) + after);
            closed == Phase::Close && decide(closed, req) == (Phase::Close, Action::Skip)
        }),
    decreases after.len(),
{
    let head = before.push(RequestKind::Close);
    if after.len() == 0 {
        assert(head + after =~= head);
        assert(head.drop_last() =~= before);
    } else {
        law_closed_stays_closed(phase, before, after.drop_last(), req);
        assert((head + after).drop_last() =~= head + after.drop_last());
    }
}

/// The shards of `ids` as steps of closing, in order.
pub open spec fn shard_steps(ids: Seq<u32>) -> Seq<CloseStep> {
    Seq::new(ids.len(), |k: int| CloseStep::Shard(ids[k]))
}

/// The order in which a cluster closes: the listener, the ticker, the shards
/// in the order given, which is the order of their identifiers where `ids`
/// comes from the map of shards, and last the flusher, so that no shard runs
/// when the flusher ends.
pub fn close_plan(ids: &Vec<u32>) -> (plan: Vec<CloseStep>)
    ensures
        plan@ == seq![CloseStep::Listener, CloseStep::Ticker] + shard_steps(ids@) + seq![
            CloseStep::Flusher,
        ],
{
    let mut plan: Vec<CloseStep> = Vec::new();
    plan.push(CloseStep::Listener);
    plan.push(CloseStep::Ticker);
    let mut k: usize = 0;
    while k < ids.len()
        invariant
            k <= ids@.len(),
            plan@ == seq![CloseStep::Listener, CloseStep::Ticker] + shard_steps(ids@.take(k as int)),
        decreases ids@.len() - k,
    {
        plan.push(CloseStep::Shard(ids[k]));
        assert(plan@ =~= seq![CloseStep::Listener, CloseStep::Ticker] + shard_steps(
            ids@.take(k + 1),
        ));
        k += 1;
    }
    assert(ids@.take(ids@.len() as int) =~= ids@);
    plan.push(CloseStep::Flusher);
    plan
}

/// A node as the configuration describes it.
#[derive(Debug, Clone, PartialEq, Eq)]
pub struct ConfigNode {
    /// The UUID of the node, as text.
    pub uuid: Option<String>,
    /// Where the node keeps its files.
    pub path: String,
    pub weight: Option<u16>,
    /// The address on which the node listens for MQTT.
    pub mqtt_address: String,
}

/// Represents a Node in the cluster. `mqtt_address` is the socket address on
/// which the node is listening for MQTT.
#[derive(Debug, Clone)]
pub struct Node {
    /// Unique id of the node: the number of its UUID.
    pub uuid: u128,
    pub path: String,
    pub weight: u16,
    pub mqtt_address: String,
}

/// The weight of a node whose configuration names none.
pub const DEFAULT_WEIGHT: u16 = 1;

impl PartialEq for Node {
    /// Nodes are the same node when their UUIDs are the same.
    fn eq(&self, other: &Node) -> (b: bool) {
        self.uuid == other.uuid
    }
}

impl vstd::std_specs::cmp::PartialEqSpecImpl for Node {
    open spec fn obeys_eq_spec() -> bool {
        true
    }

    open spec fn eq_spec(&self, other: &Node) -> bool {
        self.uuid == other.uuid
    }
}

impl Eq for Node {

}

impl Node {
    /// The node that a configuration describes. A UUID that the configuration
    /// names must parse, else the input is invalid; without one the node gets
    /// a fresh random UUID. Without a weight the node gets the default weight.
    pub fn try_from_config(c: ConfigNode) -> (res: Result<Node, Error>)
        ensures
            match res {
                Ok(node) => {
                    &&& c.uuid matches Some(text) ==> uuid_of(text@) == Some(node.uuid)
                    &&& node.path == c.path
                    &&& node.mqtt_address == c.mqtt_address
                    &&& node.weight == match c.weight {
                        Some(w) => w,
                        None => DEFAULT_WEIGHT,
                    }
                },
                Err(e) => e == invalid_input() && c.uuid is Some && uuid_of(c.uuid->Some_0@) is None,
            },
    {
        let uuid = match &c.uuid {
            Some(text) => match parse_uuid(text.as_str()) {
                Some(u) => u,
                None => {
                    return Err(Error::invalid_input());
                },
            },
            None => random_uuid(),
        };
        let weight = match c.weight {
            Some(w) => w,
            None => DEFAULT_WEIGHT,
        };
        Ok(Node { uuid, path: c.path, weight, mqtt_address: c.mqtt_address })
    }

    pub fn uuid(&self) -> (u: u128)
        ensures
            u == self.uuid,
    {
        self.uuid
    }

    pub fn weight(&self) -> (w: u16)
        ensures
            w == self.weight,
    {
        self.weight
    }

    pub fn path(&self) -> (p: &String)
        ensures
            *p == self.path,
    {
        &self.path
    }
}

/// Which node is the master of a shard.
#[derive(Debug, Clone)]
pub struct Topology {
    pub shard: u32,
    pub master: Node,
}

/// A cluster of several nodes.
pub struct MultiNode {
    pub config: Config,
    pub nodes: Vec<Node>,
    /// The shards, each mapped to its node.
    pub topology: Vec<Topology>,
}

/// A cluster of one node.
pub struct SingleNode {
    pub config: Config,
    pub node: Node,
    pub topology: Vec<Topology>,
}

/// The state of the cluster as its nodes agree on it.
pub enum ClusterState {
    /// Cluster is single-node.
    SingleNode { state: SingleNode },
    /// Cluster is in the process of updating its nodes, and working out
    /// rebalance.
    Elastic { state: MultiNode },
    /// Cluster is stable.
    Stable { state: MultiNode },
}

/// The shards of `topology` whose master is the node `uuid`, in order.
pub open spec fn shards_of(topology: Seq<Topology>, uuid: u128) -> Seq<u32>
    decreases topology.len(),
{
    if topology.len() == 0 {
        Seq::empty()
    } else if topology.last().master.uuid == uuid {
        shards_of(topology.drop_last(), uuid).push(topology.last().shard)
    } else {
        shards_of(topology.drop_last(), uuid)
    }
}

/// The two values describe the same node.
pub open spec fn same_node(a: Node, b: Node) -> bool {
    &&& a.uuid == b.uuid
    &&& a.path@ == b.path@
    &&& a.weight == b.weight
    &&& a.mqtt_address@ == b.mqtt_address@
}

/// The shards of a node that runs `n` shards: the numbers below `n`, in order.
pub open spec fn all_shards(n: u32) -> Seq<u32> {
    Seq::new(n as nat, |k: int| k as u32)
}

/// The topology of a cluster of one node: that node is the master of each of
/// its `num_shards` shards.
pub fn single_node_topology(node: &Node, num_shards: u32) -> (topology: Vec<Topology>)
    ensures
        topology@.len() == num_shards,
        forall|k: int|
            0 <= k < num_shards ==> (#[trigger] topology@[k]).shard == k && same_node(
                topology@[k].master,
                *node,
            ),
        shards_of(topology@, node.uuid) == all_shards(num_shards),
{
    let mut topology: Vec<Topology> = Vec::new();
    let mut shard: u32 = 0;
    assert(shards_of(topology@, node.uuid) =~= all_shards(0));
    while shard < num_shards
        invariant
            shard <= num_shards,
            topology@.len() == shard,
            forall|k: int|
                0 <= k < shard ==> (#[trigger] topology@[k]).shard == k && same_node(
                    topology@[k].master,
                    *node,
                ),
            shards_of(topology@, node.uuid) == all_shards(shard),
        decreases num_shards - shard,
    {
        let ghost before = topology@;
        let master = Node {
            uuid: node.uuid,
            path: copy_string(&node.path),
            weight: node.weight,
            mqtt_address: copy_string(&node.mqtt_address),
        };
        topology.push(Topology { shard, master });
        proof {
            assert(topology@.drop_last() =~= before);
            assert(all_shards((shard + 1) as u32) =~= all_shards(shard).push(shard));
        }
        shard += 1;
    }
    topology
}

impl ClusterState {
    /// The topology that can be asked for the shards of the node `uuid`: that
    /// of a stable cluster, or that of a single node if `uuid` is that node.
    pub open spec fn topology_for(self, uuid: u128) -> Option<Seq<Topology>> {
        match self {
            ClusterState::SingleNode { state } => if state.node.uuid == uuid {
                Some(state.topology@)
            } else {
                None
            },
            ClusterState::Stable { state } => Some(state.topology@),
            ClusterState::Elastic { .. } => None,
        }
    }

    /// Return the list of shard-numbers that are hosted in the node `uuid`.
    pub fn shards_in_node(&self, uuid: u128) -> (shards: Vec<u32>)
        requires
            self.topology_for(uuid) is Some,
        ensures
            shards@ == shards_of(self.topology_for(uuid)->Some_0, uuid),
    {
        let topology = match self {
            ClusterState::SingleNode { state } => &state.topology,
            ClusterState::Stable { state } => &state.topology,
            ClusterState::Elastic { .. } => unreached(),
        };
        let mut shards: Vec<u32> = Vec::new();
        let mut k: usize = 0;
        while k < topology.len()
            invariant
                k <= topology@.len(),
                shards@ == shards_of(topology@.take(k as int), uuid),
            decreases topology@.len() - k,
        {
            proof {
                assert(topology@.take(k + 1).drop_last() =~= topology@.take(k as int));
            }
            if topology[k].master.uuid == uuid {
                shards.push(topology[k].shard);
            }
            k += 1;
        }
        assert(topology@.take(topology@.len() as int) =~= topology@);
        shards
    }
}

} // verus!
