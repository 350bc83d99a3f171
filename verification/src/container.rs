//! The container: it owns the configuration, the registry of running
//! instances, the signal sink, the shared peer-to-peer endpoint and the
//! handle on the spawned network helper, and drives load / start / stop /
//! shutdown transitions in dependency order.

use vstd::prelude::*;

use crate::config::{agent_ids, consistent, dna_ids, error_is_genuine, first_interface_with,
    instance_ids, lemma_first_interface_unique, Configuration, InterfaceConfiguration,
    StorageConfiguration};
use crate::context::{clone_string_vec, ep_eq, AgentId, ContextBuilder, LoggerSink, P2pEndpoint,
    StorageHandle};
use crate::dna::DnaLoader;
use crate::error::{ConfigError, ContainerError, InstanceError, Precondition};
use crate::instance::{registry_ids, Instance, Registry};
use crate::rpc::RpcRouter;
use crate::strutil::{seq_contains_str, str_eq, str_views, vec_contains_str};
use crate::topo;

verus! {

/// An asynchronous notification an instance emits into the container's
/// signal sink while it is constructed.
#[derive(Debug, PartialEq, Eq)]
pub enum Signal {
    InitApplication { instance_id: String },
    InitNetwork { instance_id: String },
}

/// What the container knows about the external network helper process it
/// owns: not spawned yet, running, or killed.
#[derive(Debug, Clone, Copy, PartialEq, Eq, Structural)]
pub enum NetworkChildState {
    NotSpawned,
    Running,
    Killed,
}

/// Everything the shell needs to spawn the network helper: the binary, its
/// working directory, and the environment values `MODE`, `WORK_DIR` and
/// `IPC_SOCKET`.
#[derive(Debug, PartialEq, Eq)]
pub struct SpawnCommand {
    pub program: String,
    pub work_dir: String,
    pub mode: String,
    pub ipc_socket: String,
}

/// The name the local-only mock endpoint is synthesized under when no
/// network is configured.
pub open spec fn mock_endpoint_name() -> Seq<char> {
    "container-mock"@
}

/// The endpoint the first load settles on: the helper's IPC binding (the
/// explicitly configured one wins over a spawned one) when a network is
/// configured, else the deterministic local-only mock.
pub open spec fn endpoint_for(
    c: Configuration,
    spawned_uri: Option<String>,
    ep: P2pEndpoint,
) -> bool {
    match c.network {
        Some(n) => ep matches P2pEndpoint::Ipc { uri, bootstrap_nodes } && bootstrap_nodes@
            == n.bootstrap_nodes@ && uri == (if n.explicit_ipc_uri is Some {
            n.explicit_ipc_uri
        } else {
            spawned_uri
        }),
        None => ep matches P2pEndpoint::Mock { name } && name@ == mock_endpoint_name(),
    }
}

/// `sig` is the signal trace of constructing the instances of `ord` in
/// order: one `InitApplication` and then one `InitNetwork` per instance.
pub open spec fn signal_trace_matches(sig: Seq<Signal>, ord: Seq<Seq<char>>) -> bool {
    &&& sig.len() == 2 * ord.len()
    &&& forall|i: int|
        0 <= i < ord.len() ==> ((#[trigger] sig[2 * i]) matches Signal::InitApplication {
            instance_id,
        } && instance_id@ == ord[i])
    &&& forall|i: int|
        0 <= i < ord.len() ==> ((#[trigger] sig[2 * i + 1]) matches Signal::InitNetwork {
            instance_id,
        } && instance_id@ == ord[i])
}

/// The agent identity `a` is the one configured under `agent_id`.
pub open spec fn agent_matches(c: Configuration, agent_id: Seq<char>, a: AgentId) -> bool {
    exists|j: int|
        0 <= j < c.agents@.len() && (#[trigger] c.agents@[j]).id@ == agent_id && a.nick@
            == c.agents@[j].name@ && a.key@ == c.agents@[j].public_address@
}

/// The storage handle materializes the configured storage descriptor.
pub open spec fn storage_matches(sc: StorageConfiguration, sh: StorageHandle) -> bool {
    match sc {
        StorageConfiguration::Memory => sh == StorageHandle::Memory,
        StorageConfiguration::File { path } => sh matches StorageHandle::File { path: p } && p@
            == path@,
    }
}

/// The logger sink the configuration selects for an instance: a channel
/// tagged with the instance id under the debug logger, else the null sink.
pub open spec fn logger_matches(c: Configuration, id: Seq<char>, l: LoggerSink) -> bool {
    if c.logger.logger_type@ == "debug"@ {
        l matches LoggerSink::Channel { instance_id } && instance_id@ == id
    } else {
        l == LoggerSink::Null
    }
}

/// Entry `k` of the call-table comes from a bridge whose caller is `id`.
pub open spec fn entry_from_bridge(
    c: Configuration,
    id: Seq<char>,
    table: Seq<crate::context::BridgeBinding>,
    k: int,
) -> bool {
    exists|bi: int|
        0 <= bi < c.bridges@.len() && (#[trigger] c.bridges@[bi]).caller_id@ == id
            && c.bridges@[bi].handle@ == table[k].handle@ && c.bridges@[bi].callee_id@
            == table[k].callee_id@
}

/// Bridge `bi` is bound somewhere in the call-table.
pub open spec fn bridge_bound(
    c: Configuration,
    table: Seq<crate::context::BridgeBinding>,
    bi: int,
) -> bool {
    exists|k: int|
        0 <= k < table.len() && (#[trigger] table[k]).handle@ == c.bridges@[bi].handle@
            && table[k].callee_id@ == c.bridges@[bi].callee_id@
}

/// The call-table holds a binding for exactly the bridges whose caller is
/// `id`: each entry comes from such a bridge, and each such bridge is bound.
pub open spec fn call_table_matches(
    c: Configuration,
    id: Seq<char>,
    table: Seq<crate::context::BridgeBinding>,
) -> bool {
    &&& forall|k: int| 0 <= k < table.len() ==> entry_from_bridge(c, id, table, k)
    &&& forall|bi: int|
        0 <= bi < c.bridges@.len() && (#[trigger] c.bridges@[bi]).caller_id@ == id
            ==> bridge_bound(c, table, bi)
}

/// The instance was built faithfully from its descriptor: identity, storage,
/// shared endpoint, logger, call-table and signal flag all as configured,
/// and not yet running.
pub open spec fn instance_built_right(
    c: Configuration,
    ep: P2pEndpoint,
    signals_attached: bool,
    inst: Instance,
) -> bool {
    exists|i: int|
        0 <= i < c.instances@.len() && (#[trigger] c.instances@[i]).id@ == inst.id@ && {
            &&& agent_matches(c, c.instances@[i].agent@, inst.context.agent)
            &&& storage_matches(c.instances@[i].storage, inst.context.storage)
            &&& ep_eq(inst.context.network, ep)
            &&& logger_matches(c, inst.id@, inst.context.logger)
            &&& call_table_matches(c, inst.id@, inst.context.call_table@)
            &&& inst.context.has_signals == signals_attached
            &&& !inst.running
        }
}

/// Main representation of the container: the instances it hosts, keyed by
/// id, behind the declarative configuration they were loaded from.
#[derive(Debug)]
pub struct Container {
    pub config: Configuration,
    pub registry: Registry,
    pub running_interfaces: Vec<String>,
    pub signals: Option<Vec<Signal>>,
    pub loaded: bool,
    pub p2p_endpoint: Option<P2pEndpoint>,
    pub network_child: NetworkChildState,
}

/// What `shutdown` leaves behind: an empty registry, everything else
/// untouched.
pub open spec fn shutdown_spec(pre: Container, post: Container) -> bool {
    &&& post.registry.items@ == Seq::<Instance>::empty()
    &&& post.config == pre.config
    &&& post.running_interfaces@ == pre.running_interfaces@
    &&& post.signals == pre.signals
    &&& post.loaded == pre.loaded
    &&& post.p2p_endpoint == pre.p2p_endpoint
    &&& post.network_child == pre.network_child
}

/// Law: a second `shutdown` is a no-op — it cannot change anything the
/// first one left behind.
pub proof fn lemma_shutdown_idempotent(a: Container, b: Container, c: Container)
    requires
        shutdown_spec(a, b),
        shutdown_spec(b, c),
    ensures
        c.registry.items@ == b.registry.items@,
        c.config == b.config,
        c.running_interfaces@ == b.running_interfaces@,
        c.signals == b.signals,
        c.loaded == b.loaded,
        c.p2p_endpoint == b.p2p_endpoint,
        c.network_child == b.network_child,
{
}

/// What `kill_network` does: the recorded kill handle is invoked exactly
/// when the helper runs, and the helper never runs afterwards.
pub open spec fn kill_spec(pre: Container, post: Container, did_kill: bool) -> bool {
    &&& did_kill == (pre.network_child is Running)
    &&& post.network_child == (if pre.network_child is NotSpawned {
        NetworkChildState::NotSpawned
    } else {
        NetworkChildState::Killed
    })
    &&& post.config == pre.config
    &&& post.registry == pre.registry
    &&& post.running_interfaces@ == pre.running_interfaces@
    &&& post.signals == pre.signals
    &&& post.loaded == pre.loaded
    &&& post.p2p_endpoint == pre.p2p_endpoint
}

/// Law: the helper is killed at most once — a second `kill_network` never
/// invokes the kill handle again.
pub proof fn lemma_killed_at_most_once(a: Container, b: Container, c: Container, d1: bool, d2: bool)
    requires
        kill_spec(a, b, d1),
        kill_spec(b, c, d2),
    ensures
        !d2,
{
}

impl Container {
    /// A fresh container around a configuration: nothing loaded, nothing
    /// running, no signal sink, no endpoint, no helper process.
    pub fn from_config(config: Configuration) -> (c: Container)
        ensures
            c.config == config,
            c.registry.items@ == Seq::<Instance>::empty(),
            c.running_interfaces@ == Seq::<String>::empty(),
            c.signals is None,
            !c.loaded,
            c.p2p_endpoint is None,
            c.network_child == NetworkChildState::NotSpawned,
    {
        let c = Container {
            config,
            registry: Registry::new(),
            running_interfaces: Vec::new(),
            signals: None,
            loaded: false,
            p2p_endpoint: None,
            network_child: NetworkChildState::NotSpawned,
        };
        proof {
            assert(c.registry.items@ =~= Seq::<Instance>::empty());
            assert(c.running_interfaces@ =~= Seq::<String>::empty());
        }
        c
    }

    /// Attach the container-wide signal sink. Legal only before the first
    /// successful load; afterwards it is a precondition violation.
    pub fn with_signal_channel(self) -> (r: Result<Container, ContainerError>)
        ensures
            self.loaded ==> (r matches Err(e) && e == (ContainerError::PreconditionViolation {
                what: Precondition::SignalChannelBeforeLoad,
            })),
            !self.loaded ==> (r matches Ok(c) && {
                &&& c.signals matches Some(buf) && buf@ == Seq::<Signal>::empty()
                &&& c.config == self.config
                &&& c.registry == self.registry
                &&& c.running_interfaces@ == self.running_interfaces@
                &&& !c.loaded
                &&& c.p2p_endpoint == self.p2p_endpoint
                &&& c.network_child == self.network_child
            }),
    {
        if self.loaded {
            return Err(ContainerError::PreconditionViolation {
                what: Precondition::SignalChannelBeforeLoad,
            });
        }
        let buf: Vec<Signal> = Vec::new();
        proof {
            assert(buf@ =~= Seq::<Signal>::empty());
        }
        Ok(Container { signals: Some(buf), ..self })
    }

    /// The configuration the container runs.
    pub fn config(&self) -> (r: &Configuration)
        ensures
            *r == self.config,
    {
        &self.config
    }

    /// The registry of running instances.
    pub fn instances(&self) -> (r: &Registry)
        ensures
            *r == self.registry,
    {
        &self.registry
    }

    /// Whether loading this configuration would have to spawn the network
    /// helper first: a network is configured without an explicit IPC
    /// endpoint, and no endpoint is cached yet.
    pub fn needs_network_spawn(&self) -> (r: bool)
        ensures
            r == (self.p2p_endpoint is None && (self.config.network matches Some(n)
                && n.explicit_ipc_uri is None)),
    {
        if self.p2p_endpoint.is_some() {
            return false;
        }
        match &self.config.network {
            Some(n) => n.explicit_ipc_uri.is_none(),
            None => false,
        }
    }

    /// The command line the shell must run to spawn the network helper, with
    /// the environment the helper expects; an ephemeral local IPC binding is
    /// requested. Fails when no network is configured.
    pub fn spawn_network_command(&self) -> (r: Result<SpawnCommand, ContainerError>)
        ensures
            r is Ok <==> self.config.network is Some,
            r matches Err(e) ==> e == ContainerError::NetworkNotConfigured,
            r matches Ok(cmd) ==> (self.config.network matches Some(n) && {
                &&& cmd.program@ == n.helper_path@
                &&& cmd.work_dir@ == n.work_dir@
                &&& cmd.mode@ == n.mode@
                &&& cmd.ipc_socket@ == "tcp://127.0.0.1:*"@
            }),
    {
        match &self.config.network {
            None => Err(ContainerError::NetworkNotConfigured),
            Some(n) => Ok(
                SpawnCommand {
                    program: n.helper_path.clone(),
                    work_dir: n.work_dir.clone(),
                    mode: n.mode.clone(),
                    ipc_socket: String::from_str("tcp://127.0.0.1:*"),
                },
            ),
        }
    }

    /// Note that the shell has spawned the helper: the container now owns
    /// the kill handle. The helper is spawned at most once per container
    /// lifetime, so a handle must not already be held.
    pub fn record_network_spawn(&mut self)
        requires
            old(self).network_child == NetworkChildState::NotSpawned,
        ensures
            final(self).network_child == NetworkChildState::Running,
            final(self).config == old(self).config,
            final(self).registry == old(self).registry,
            final(self).running_interfaces@ == old(self).running_interfaces@,
            final(self).signals == old(self).signals,
            final(self).loaded == old(self).loaded,
            final(self).p2p_endpoint == old(self).p2p_endpoint,
    {
        self.network_child = NetworkChildState::Running;
    }

    /// Invoke the recorded kill handle: exactly once, when the helper runs.
    /// Idempotent thereafter. Returns whether the shell must now kill the
    /// helper process.
    pub fn kill_network(&mut self) -> (did_kill: bool)
        ensures
            kill_spec(*old(self), *final(self), did_kill),
    {
        match self.network_child {
            NetworkChildState::Running => {
                self.network_child = NetworkChildState::Killed;
                true
            },
            NetworkChildState::Killed => false,
            NetworkChildState::NotSpawned => false,
        }
    }

    /// Stop every instance and clear the registry. Total and idempotent: a
    /// second call finds an empty registry and changes nothing.
    pub fn shutdown(&mut self) -> (r: Result<(), InstanceError>)
        ensures
            r is Ok,
            shutdown_spec(*old(self), *final(self)),
    {
        self.registry.stop_all();
        self.registry = Registry::new();
        Ok(())
    }

    /// Start every registered instance, in registry order. Aborts at the
    /// first fault; already-started instances remain started.
    pub fn start_all_instances(&mut self) -> (r: Result<(), InstanceError>)
        ensures
            final(self).registry.items@.len() == old(self).registry.items@.len(),
            r is Ok <==> forall|k: int|
                0 <= k < old(self).registry.items@.len() ==> !(#[trigger] old(self).registry.items@[k]).running,
            r is Ok ==> forall|k: int|
                0 <= k < final(self).registry.items@.len() ==> crate::instance::same_but_running(
                    old(self).registry.items@[k],
                    #[trigger] final(self).registry.items@[k],
                    true,
                ),
            r matches Err(e) ==> exists|p: int|
                {
                    &&& 0 <= p < old(self).registry.items@.len()
                    &&& (#[trigger] old(self).registry.items@[p]).running
                    &&& e matches InstanceError::InstanceAlreadyActive { instance_id }
                        && instance_id@ == old(self).registry.items@[p].id@
                    &&& forall|j: int|
                        0 <= j < p ==> !(#[trigger] old(self).registry.items@[j]).running
                            && crate::instance::same_but_running(
                            old(self).registry.items@[j],
                            final(self).registry.items@[j],
                            true,
                        )
                    &&& forall|j: int|
                        p <= j < old(self).registry.items@.len() ==> #[trigger] final(self).registry.items@[j] == old(self).registry.items@[j]
                },
            final(self).config == old(self).config,
            final(self).running_interfaces@ == old(self).running_interfaces@,
            final(self).signals == old(self).signals,
            final(self).loaded == old(self).loaded,
            final(self).p2p_endpoint == old(self).p2p_endpoint,
            final(self).network_child == old(self).network_child,
    {
        self.registry.start_all()
    }

    /// Stop every registered instance, in registry order. Total.
    pub fn stop_all_instances(&mut self) -> (r: Result<(), InstanceError>)
        ensures
            r is Ok,
            final(self).registry.items@.len() == old(self).registry.items@.len(),
            forall|k: int|
                0 <= k < final(self).registry.items@.len() ==> crate::instance::same_but_running(
                    old(self).registry.items@[k],
                    #[trigger] final(self).registry.items@[k],
                    false,
                ),
            final(self).config == old(self).config,
            final(self).running_interfaces@ == old(self).running_interfaces@,
            final(self).signals == old(self).signals,
            final(self).loaded == old(self).loaded,
            final(self).p2p_endpoint == old(self).p2p_endpoint,
            final(self).network_child == old(self).network_child,
    {
        self.registry.stop_all();
        Ok(())
    }
}

/// The endpoint an instance context carries agrees with the container: the
/// cached shared endpoint, or (before any load initialized one) the default
/// local-only mock.
pub open spec fn container_endpoint_matches(ct: Container, net: P2pEndpoint) -> bool {
    match ct.p2p_endpoint {
        Some(ep) => ep_eq(net, ep),
        None => net matches P2pEndpoint::Mock { name } && name@ == "container-default-mock"@,
    }
}

/// The instance was built faithfully from its descriptor, apart from the
/// endpoint: identity, storage, logger, call-table and signal flag all as
/// configured, and not yet running.
pub open spec fn instance_built_core(
    c: Configuration,
    signals_attached: bool,
    inst: Instance,
) -> bool {
    exists|i: int|
        0 <= i < c.instances@.len() && (#[trigger] c.instances@[i]).id@ == inst.id@ && {
            &&& agent_matches(c, c.instances@[i].agent@, inst.context.agent)
            &&& storage_matches(c.instances@[i].storage, inst.context.storage)
            &&& logger_matches(c, inst.id@, inst.context.logger)
            &&& call_table_matches(c, inst.id@, inst.context.call_table@)
            &&& inst.context.has_signals == signals_attached
            &&& !inst.running
        }
}

/// The failure shape of a module load: the named instance is configured,
/// and the blamed file is the one its module descriptor points at.
pub open spec fn load_failure_genuine(c: Configuration, iid: Seq<char>, cause: ConfigError) -> bool {
    cause matches ConfigError::DnaLoad { file } && exists|i: int, j: int|
        0 <= i < c.instances@.len() && 0 <= j < c.dnas@.len() && (#[trigger] c.instances@[i]).id@
            == iid && (#[trigger] c.dnas@[j]).id@ == c.instances@[i].dna@ && c.dnas@[j].file@
            == file@
}

/// The exposed ids of a router are the interface's list filtered by
/// registry membership.
pub open spec fn router_exposes(
    reg: Registry,
    listed: Seq<String>,
    exposed: Seq<String>,
) -> bool {
    &&& forall|k: int|
        0 <= k < exposed.len() ==> seq_contains_str(listed, (#[trigger] exposed[k])@)
            && registry_ids(reg).contains(exposed[k]@)
    &&& forall|j: int|
        0 <= j < listed.len() && registry_ids(reg).contains((#[trigger] listed[j])@)
            ==> seq_contains_str(exposed, listed[j]@)
}

/// `exposed` is exactly `listed` restricted to registered ids: same order,
/// same multiplicity, nothing else.
pub open spec fn filtered_by_registry(
    reg: Registry,
    listed: Seq<String>,
    exposed: Seq<String>,
) -> bool
    decreases listed.len(),
{
    if listed.len() == 0 {
        exposed.len() == 0
    } else if registry_ids(reg).contains(listed[0]@) {
        exposed.len() > 0 && exposed[0]@ == listed[0]@ && filtered_by_registry(
            reg,
            listed.skip(1),
            exposed.skip(1),
        )
    } else {
        filtered_by_registry(reg, listed.skip(1), exposed)
    }
}

/// Filtering one more registered id appends it to the exposure.
proof fn lemma_filtered_snoc_in(
    reg: Registry,
    listed: Seq<String>,
    exposed: Seq<String>,
    x: String,
    y: String,
)
    requires
        filtered_by_registry(reg, listed, exposed),
        registry_ids(reg).contains(x@),
        y@ == x@,
    ensures
        filtered_by_registry(reg, listed.push(x), exposed.push(y)),
    decreases listed.len(),
{
    if listed.len() == 0 {
        assert(exposed.len() == 0);
        assert(listed.push(x)[0] == x);
        assert(exposed.push(y)[0] == y);
        assert(listed.push(x).skip(1) =~= Seq::<String>::empty());
        assert(exposed.push(y).skip(1) =~= Seq::<String>::empty());
        assert(filtered_by_registry(reg, listed.push(x).skip(1), exposed.push(y).skip(1)));
    } else if registry_ids(reg).contains(listed[0]@) {
        lemma_filtered_snoc_in(reg, listed.skip(1), exposed.skip(1), x, y);
        assert(listed.push(x).skip(1) =~= listed.skip(1).push(x));
        assert(exposed.push(y).skip(1) =~= exposed.skip(1).push(y));
        assert(listed.push(x)[0] == listed[0]);
        assert(exposed.push(y)[0] == exposed[0]);
    } else {
        lemma_filtered_snoc_in(reg, listed.skip(1), exposed, x, y);
        assert(listed.push(x).skip(1) =~= listed.skip(1).push(x));
        assert(listed.push(x)[0] == listed[0]);
    }
}

/// Filtering one more unregistered id leaves the exposure as it is.
proof fn lemma_filtered_snoc_out(reg: Registry, listed: Seq<String>, exposed: Seq<String>, x: String)
    requires
        filtered_by_registry(reg, listed, exposed),
        !registry_ids(reg).contains(x@),
    ensures
        filtered_by_registry(reg, listed.push(x), exposed),
    decreases listed.len(),
{
    if listed.len() == 0 {
        assert(listed.push(x)[0] == x);
        assert(listed.push(x).skip(1) =~= Seq::<String>::empty());
        assert(filtered_by_registry(reg, listed.push(x).skip(1), exposed));
    } else if registry_ids(reg).contains(listed[0]@) {
        lemma_filtered_snoc_out(reg, listed.skip(1), exposed.skip(1), x);
        assert(listed.push(x).skip(1) =~= listed.skip(1).push(x));
        assert(listed.push(x)[0] == listed[0]);
    } else {
        lemma_filtered_snoc_out(reg, listed.skip(1), exposed, x);
        assert(listed.push(x).skip(1) =~= listed.skip(1).push(x));
        assert(listed.push(x)[0] == listed[0]);
    }
}

/// `exposed` is the router of the first interface configured under `rid` —
/// the declaration that wins when an id is resolved.
pub open spec fn router_for_interface(
    c: Configuration,
    reg: Registry,
    rid: Seq<char>,
    exposed: Seq<String>,
) -> bool {
    exists|i: int|
        #[trigger] first_interface_with(c, rid, i) && router_exposes(
            reg,
            c.interfaces@[i].instances@,
            exposed,
        )
}

/// As `router_for_interface`, with the winning declaration known to stand
/// before position `bound`.
pub open spec fn router_entry_ok(
    c: Configuration,
    reg: Registry,
    rid: Seq<char>,
    exposed: Seq<String>,
    bound: int,
) -> bool {
    exists|w: int|
        #[trigger] first_interface_with(c, rid, w) && w < bound && router_exposes(
            reg,
            c.interfaces@[w].instances@,
            exposed,
        )
}

/// Law: after a load, every call-table binding resolves inside the registry —
/// for each bridge the caller's table binds the handle to the callee's id,
/// and the registry holds the callee, strictly earlier in creation order.
/// `j` names the caller in the registry and `t` one of its bindings.
pub proof fn lemma_call_table_binding_resolves(
    c: Configuration,
    att: bool,
    reg: Registry,
    j: int,
    t: int,
)
    requires
        topo::topo_order_ok(c, registry_ids(reg)),
        forall|i: int|
            0 <= i < reg.items@.len() ==> instance_built_core(c, att, #[trigger] reg.items@[i]),
        0 <= j < reg.items@.len(),
        0 <= t < reg.items@[j].context.call_table@.len(),
    ensures
        exists|m: int|
            0 <= m < j && registry_ids(reg)[m]
                == reg.items@[j].context.call_table@[t].callee_id@,
{
    let inst = reg.items@[j];
    assert(instance_built_core(c, att, inst));
    let i = choose|i: int|
        0 <= i < c.instances@.len() && (#[trigger] c.instances@[i]).id@ == inst.id@ && {
            &&& agent_matches(c, c.instances@[i].agent@, inst.context.agent)
            &&& storage_matches(c.instances@[i].storage, inst.context.storage)
            &&& logger_matches(c, inst.id@, inst.context.logger)
            &&& call_table_matches(c, inst.id@, inst.context.call_table@)
            &&& inst.context.has_signals == att
            &&& !inst.running
        };
    assert(call_table_matches(c, inst.id@, inst.context.call_table@));
    assert(entry_from_bridge(c, inst.id@, inst.context.call_table@, t));
    let bi = choose|bi: int|
        0 <= bi < c.bridges@.len() && (#[trigger] c.bridges@[bi]).caller_id@ == inst.id@
            && c.bridges@[bi].handle@ == inst.context.call_table@[t].handle@
            && c.bridges@[bi].callee_id@ == inst.context.call_table@[t].callee_id@;
    assert(registry_ids(reg)[j] == inst.id@);
    let m = choose|m: int| 0 <= m < j && registry_ids(reg)[m] == c.bridges@[bi].callee_id@;
    assert(registry_ids(reg)[m] == reg.items@[j].context.call_table@[t].callee_id@);
}

/// Law: a registry in topological order names each declared instance exactly
/// once — the builder ran once per instance id, no more and no less.
pub proof fn lemma_each_instance_built_once(c: Configuration, reg: Registry)
    requires
        topo::topo_order_ok(c, registry_ids(reg)),
    ensures
        registry_ids(reg).no_duplicates(),
        forall|i: int|
            0 <= i < c.instances@.len() ==> registry_ids(reg).contains(
                #[trigger] instance_ids(c)[i],
            ),
        forall|k: int|
            0 <= k < registry_ids(reg).len() ==> instance_ids(c).contains(
                #[trigger] registry_ids(reg)[k],
            ),
{
}

/// Law: two successful loads of one configuration agree on the registry —
/// both registries hold exactly the declared instances, in one and the same
/// creation order, because both orders respect the bridges and break ties by
/// least id.
pub proof fn lemma_loads_agree_on_registry(c: Configuration, r1: Registry, r2: Registry)
    requires
        topo::topo_order_ok(c, registry_ids(r1)),
        topo::greedy_min(c, registry_ids(r1)),
        topo::topo_order_ok(c, registry_ids(r2)),
        topo::greedy_min(c, registry_ids(r2)),
    ensures
        registry_ids(r1) == registry_ids(r2),
{
    topo::lemma_topo_order_unique(c, registry_ids(r1), registry_ids(r2));
}

/// Law: the signal trace of a load keeps per-instance order — every
/// instance's `InitApplication` comes strictly before its `InitNetwork`.
pub proof fn lemma_signal_order_per_instance(sig: Seq<Signal>, ord: Seq<Seq<char>>, i: int)
    requires
        signal_trace_matches(sig, ord),
        0 <= i < ord.len(),
    ensures
        exists|p: int, q: int|
            0 <= p < q < sig.len() && ((#[trigger] sig[p]) matches Signal::InitApplication {
                instance_id,
            } && instance_id@ == ord[i]) && ((#[trigger] sig[q]) matches Signal::InitNetwork {
                instance_id,
            } && instance_id@ == ord[i]),
{
    assert(sig[2 * i] matches Signal::InitApplication { instance_id } && instance_id@ == ord[i]);
    assert(sig[2 * i + 1] matches Signal::InitNetwork { instance_id } && instance_id@ == ord[i]);
}

impl Container {
    /// Create one instance from its descriptor: rehydrate the agent
    /// identity, materialize storage, share the container endpoint, attach
    /// the configured logger and signal sink, bind one call-table entry per
    /// bridge the instance is the caller of, and load the module artifact.
    pub fn instantiate_from_config<L: DnaLoader>(&self, id: &str, loader: &mut L) -> (r: Result<
        Instance,
        ContainerError,
    >)
        ensures
            r matches Ok(inst) ==> {
                &&& consistent(self.config)
                &&& instance_ids(self.config).contains(id@)
                &&& inst.id@ == id@
                &&& instance_built_core(self.config, self.signals is Some, inst)
                &&& container_endpoint_matches(*self, inst.context.network)
            },
            r matches Err(e) ==> {
                ||| (e matches ContainerError::Config(ce) && !consistent(self.config)
                    && error_is_genuine(self.config, ce))
                ||| (e matches ContainerError::InstanceNotConfigured { id: i } && i@ == id@
                    && consistent(self.config) && !instance_ids(self.config).contains(id@))
                ||| (e matches ContainerError::Load { instance_id, cause } && instance_id@ == id@
                    && consistent(self.config) && instance_ids(self.config).contains(id@)
                    && load_failure_genuine(self.config, id@, cause))
            },
            !consistent(self.config) ==> r is Err,
            consistent(self.config) && !instance_ids(self.config).contains(id@) ==> (r matches Err(
                e,
            ) && e matches ContainerError::InstanceNotConfigured { .. }),
    {
        match self.config.check_consistency() {
            Err(e) => {
                return Err(ContainerError::Config(e));
            },
            Ok(_) => {},
        }
        let ic = match self.config.instance_by_id(id) {
            Some(x) => x,
            None => {
                return Err(ContainerError::InstanceNotConfigured { id: id.to_owned() });
            },
        };
        let ghost w = choose|w: int|
            0 <= w < self.config.instances@.len() && self.config.instances@[w] == *ic;
        let agent_config = match self.config.agent_by_id(ic.agent.as_str()) {
            Some(a) => a,
            None => {
                proof {
                    assert(agent_ids(self.config).contains(self.config.instances@[w].agent@));
                }
                unreached()
            },
        };
        let mut builder = ContextBuilder::new();
        builder = builder.with_agent(
            AgentId {
                nick: agent_config.name.clone(),
                key: agent_config.public_address.clone(),
            },
        );
        let ep = match &self.p2p_endpoint {
            Some(e) => e.duplicate(),
            None => P2pEndpoint::Mock { name: String::from_str("container-default-mock") },
        };
        builder = builder.with_network_config(ep);
        match &ic.storage {
            StorageConfiguration::File { path } => {
                builder = builder.with_file_storage(path.clone());
            },
            StorageConfiguration::Memory => {},
        }
        if str_eq(self.config.logger.logger_type.as_str(), "debug") {
            builder = builder.with_logger(id.to_owned());
        }
        let ghost fixed = builder;
        let bridge_positions = self.config.bridges_where_caller(id);
        let mut t: usize = 0;
        while t < bridge_positions.len()
            invariant
                t <= bridge_positions@.len(),
                builder == (ContextBuilder { call_table: builder.call_table, ..fixed }),
                builder.call_table@.len() == t,
                forall|k: int, m: int|
                    0 <= k < m < bridge_positions@.len() ==> bridge_positions@[k]
                        < bridge_positions@[m],
                forall|k: int|
                    0 <= k < bridge_positions@.len() ==> #[trigger] bridge_positions@[k]
                        < self.config.bridges@.len()
                        && self.config.bridges@[bridge_positions@[k] as int].caller_id@ == id@,
                forall|bi: int|
                    0 <= bi < self.config.bridges@.len() && (
                    #[trigger] self.config.bridges@[bi]).caller_id@ == id@ ==> exists|k: int|
                        0 <= k < bridge_positions@.len() && #[trigger] bridge_positions@[k] == bi,
                forall|k: int|
                    0 <= k < t ==> {
                        &&& (#[trigger] builder.call_table@[k]).handle@
                            == self.config.bridges@[bridge_positions@[k] as int].handle@
                        &&& builder.call_table@[k].callee_id@
                            == self.config.bridges@[bridge_positions@[k] as int].callee_id@
                    },
            decreases bridge_positions@.len() - t,
        {
            let pos = bridge_positions[t];
            let b = &self.config.bridges[pos];
            builder = builder.with_named_instance(b.handle.clone(), b.callee_id.clone());
            t += 1;
        }
        let ghost table0 = builder.call_table@;
        if self.signals.is_some() {
            builder = builder.with_signals();
        }
        let context = builder.spawn();
        proof {
            assert(context.call_table@ == table0);
        }
        let dna_config = match self.config.dna_by_id(ic.dna.as_str()) {
            Some(d) => d,
            None => {
                proof {
                    assert(dna_ids(self.config).contains(self.config.instances@[w].dna@));
                }
                unreached()
            },
        };
        let dna = match loader.load_dna(dna_config.file.as_str()) {
            Ok(d) => d,
            Err(_) => {
                let ghost jd = choose|jd: int|
                    0 <= jd < self.config.dnas@.len() && self.config.dnas@[jd] == *dna_config;
                return Err(ContainerError::Load {
                    instance_id: id.to_owned(),
                    cause: ConfigError::DnaLoad { file: dna_config.file.clone() },
                });
            },
        };
        let inst = Instance { id: id.to_owned(), dna, context, running: false };
        proof {
            assert forall|k: int|
                0 <= k < inst.context.call_table@.len() implies entry_from_bridge(
                self.config,
                inst.id@,
                inst.context.call_table@,
                k,
            ) by {
                let pos = bridge_positions@[k] as int;
                assert(0 <= pos < self.config.bridges@.len());
                assert(self.config.bridges@[pos].caller_id@ == id@);
                assert(table0[k].handle@ == self.config.bridges@[pos].handle@);
                assert(table0[k].callee_id@ == self.config.bridges@[pos].callee_id@);
                assert(inst.context.call_table@[k].handle@ == self.config.bridges@[pos].handle@);
            }
            assert forall|bi: int|
                0 <= bi < self.config.bridges@.len() && (
                #[trigger] self.config.bridges@[bi]).caller_id@ == inst.id@ implies bridge_bound(
                self.config,
                inst.context.call_table@,
                bi,
            ) by {
                let k = choose|k: int|
                    0 <= k < bridge_positions@.len() && #[trigger] bridge_positions@[k] == bi;
                assert((inst.context.call_table@[k]).handle@ == self.config.bridges@[bi].handle@);
                assert((inst.context.call_table@[k]).callee_id@
                    == self.config.bridges@[bi].callee_id@);
            }
            assert(call_table_matches(self.config, inst.id@, inst.context.call_table@));
            let aw = choose|aw: int|
                0 <= aw < self.config.agents@.len() && self.config.agents@[aw] == *agent_config;
            assert(agent_matches(self.config, self.config.instances@[w].agent@, inst.context.agent))
                by {
                assert((self.config.agents@[aw]).id@ == self.config.instances@[w].agent@);
            }
            assert(instance_built_core(self.config, self.signals is Some, inst)) by {
                assert((self.config.instances@[w]).id@ == inst.id@);
            }
        }
        Ok(inst)
    }

    /// Load the configuration: validate it, settle the shared endpoint on
    /// the first load (`spawned_ipc_uri` is the IPC binding of a helper the
    /// shell spawned, consulted only when the configuration demands one and
    /// names none), tear the old registry down, and build every instance in
    /// topological order — callees first. A build failure discards the
    /// partial registry. On success the registry holds each declared
    /// instance exactly once and, if a signal sink is attached, the sink has
    /// received one `InitApplication` and one `InitNetwork` per instance, in
    /// creation order.
    pub fn load_config<L: DnaLoader>(
        &mut self,
        loader: &mut L,
        spawned_ipc_uri: Option<String>,
    ) -> (r: Result<(), ContainerError>)
        ensures
            final(self).config == old(self).config,
            final(self).running_interfaces@ == old(self).running_interfaces@,
            final(self).network_child == old(self).network_child,
            old(self).p2p_endpoint is Some ==> final(self).p2p_endpoint == old(self).p2p_endpoint,
            !consistent(old(self).config) ==> final(self).p2p_endpoint == old(self).p2p_endpoint,
            (old(self).p2p_endpoint is None && consistent(old(self).config)) ==> (final(self).p2p_endpoint matches Some(ep) && endpoint_for(
                old(self).config,
                spawned_ipc_uri,
                ep,
            )),
            r is Ok <==> consistent(old(self).config) && !(r matches Err(_)),
            !consistent(old(self).config) ==> (r matches Err(e)
                && e matches ContainerError::Config(_)),
            r matches Err(e) ==> {
                ||| (e matches ContainerError::Config(ce) && !consistent(old(self).config)
                    && error_is_genuine(old(self).config, ce) && final(self).registry == old(self).registry)
                ||| (e matches ContainerError::Load { instance_id, cause } && consistent(
                    old(self).config,
                ) && load_failure_genuine(old(self).config, instance_id@, cause) && final(self).registry.items@ == Seq::<Instance>::empty())
            },
            r is Err ==> final(self).signals == old(self).signals && final(self).loaded == old(self).loaded,
            r is Ok ==> {
                &&& consistent(old(self).config)
                &&& final(self).loaded
                &&& final(self).p2p_endpoint is Some
                &&& topo::topo_order_ok(old(self).config, registry_ids(final(self).registry))
                &&& topo::greedy_min(old(self).config, registry_ids(final(self).registry))
                &&& forall|k: int|
                    0 <= k < final(self).registry.items@.len() ==> instance_built_core(
                        old(self).config,
                        old(self).signals is Some,
                        #[trigger] final(self).registry.items@[k],
                    ) && ep_eq(
                        final(self).registry.items@[k].context.network,
                        final(self).p2p_endpoint->Some_0,
                    )
                &&& (old(self).signals is None ==> final(self).signals is None)
                &&& (old(self).signals matches Some(b0) ==> (final(self).signals matches Some(nb)
                    && nb@.len() == b0@.len() + 2 * final(self).registry.items@.len()
                    && nb@.subrange(0, b0@.len() as int) == b0@ && signal_trace_matches(
                    nb@.skip(b0@.len() as int),
                    registry_ids(final(self).registry),
                )))
            },
    {
        let ghost su = spawned_ipc_uri;
        let order = match self.config.check_consistency() {
            Err(e) => {
                return Err(ContainerError::Config(e));
            },
            Ok(o) => o,
        };
        if self.p2p_endpoint.is_none() {
            let ep = match &self.config.network {
                Some(n) => {
                    let uri = match &n.explicit_ipc_uri {
                        Some(u) => Some(u.clone()),
                        None => spawned_ipc_uri,
                    };
                    P2pEndpoint::Ipc {
                        uri,
                        bootstrap_nodes: clone_string_vec(&n.bootstrap_nodes),
                    }
                },
                None => P2pEndpoint::Mock { name: String::from_str("container-mock") },
            };
            self.p2p_endpoint = Some(ep);
        }
        let _ = self.shutdown();
        let ghost cfg0 = self.config;
        let ghost p2p0 = self.p2p_endpoint;
        let ghost ep0 = p2p0->Some_0;
        let ghost sig0 = self.signals;
        let ghost ri0 = self.running_interfaces@;
        let ghost nc0 = self.network_child;
        let ghost ld0 = self.loaded;
        let ghost ordv = str_views(order@);
        let mut new_signals: Vec<Signal> = Vec::new();
        let mut k: usize = 0;
        while k < order.len()
            invariant
                k <= order@.len(),
                self.config == cfg0,
                cfg0 == old(self).config,
                self.p2p_endpoint == p2p0,
                p2p0 is Some,
                old(self).p2p_endpoint is Some ==> p2p0 == old(self).p2p_endpoint,
                old(self).p2p_endpoint is None ==> endpoint_for(cfg0, su, ep0),
                su == spawned_ipc_uri,
                ep0 == p2p0->Some_0,
                self.signals == sig0,
                sig0 == old(self).signals,
                self.running_interfaces@ == ri0,
                ri0 == old(self).running_interfaces@,
                self.network_child == nc0,
                nc0 == old(self).network_child,
                self.loaded == ld0,
                ld0 == old(self).loaded,
                consistent(cfg0),
                ordv == str_views(order@),
                topo::topo_order_ok(cfg0, ordv),
                topo::greedy_min(cfg0, ordv),
                self.registry.items@.len() == k,
                forall|j: int|
                    0 <= j < k ==> (#[trigger] self.registry.items@[j]).id@ == order@[j]@,
                forall|j: int|
                    0 <= j < k ==> instance_built_core(
                        cfg0,
                        sig0 is Some,
                        #[trigger] self.registry.items@[j],
                    ) && ep_eq(self.registry.items@[j].context.network, ep0),
                sig0 is Some ==> signal_trace_matches(
                    new_signals@,
                    ordv.subrange(0, k as int),
                ),
                sig0 is None ==> new_signals@.len() == 0,
            decreases order@.len() - k,
        {
            let id = &order[k];
            proof {
                assert(ordv[k as int] == order@[k as int]@);
                assert(instance_ids(cfg0).contains(ordv[k as int]));
            }
            let inst = match self.instantiate_from_config(id.as_str(), loader) {
                Ok(x) => x,
                Err(e) => {
                    self.registry = Registry::new();
                    proof {
                        assert(self.registry.items@ =~= Seq::<Instance>::empty());
                    }
                    return Err(e);
                },
            };
            if self.signals.is_some() {
                let ghost pre_sig = new_signals@;
                new_signals.push(Signal::InitApplication { instance_id: id.clone() });
                new_signals.push(Signal::InitNetwork { instance_id: id.clone() });
                proof {
                    let post = new_signals@;
                    assert forall|i: int|
                        0 <= i < k + 1 implies ((#[trigger] post[2 * i])
                        matches Signal::InitApplication { instance_id } && instance_id@
                        == ordv.subrange(0, k + 1)[i]) by {
                        if i < k {
                            assert(post[2 * i] == pre_sig[2 * i]);
                            assert(pre_sig[2 * i] matches Signal::InitApplication { instance_id }
                                && instance_id@ == ordv.subrange(0, k as int)[i]);
                        } else {
                            assert(post[2 * i] == post[post.len() - 2]);
                        }
                    }
                    assert forall|i: int|
                        0 <= i < k + 1 implies ((#[trigger] post[2 * i + 1])
                        matches Signal::InitNetwork { instance_id } && instance_id@
                        == ordv.subrange(0, k + 1)[i]) by {
                        if i < k {
                            assert(post[2 * i + 1] == pre_sig[2 * i + 1]);
                            assert(pre_sig[2 * i + 1] matches Signal::InitNetwork { instance_id }
                                && instance_id@ == ordv.subrange(0, k as int)[i]);
                        } else {
                            assert(post[2 * i + 1] == post[post.len() - 1]);
                        }
                    }
                }
            }
            self.registry.insert(inst);
            k += 1;
        }
        proof {
            assert(registry_ids(self.registry) =~= ordv);
        }
        if self.signals.is_some() {
            let mut buf = match self.signals.take() {
                Some(b) => b,
                None => unreached(),
            };
            let ghost pre = buf@;
            let ghost trace = new_signals@;
            buf.append(&mut new_signals);
            proof {
                assert(buf@.subrange(0, pre.len() as int) =~= pre);
                assert(buf@.skip(pre.len() as int) =~= trace);
            }
            self.signals = Some(buf);
        }
        self.loaded = true;
        Ok(())
    }

    /// The method router for one interface: it exposes the instances the
    /// interface lists, restricted to those the registry holds.
    pub fn make_interface_handler(&self, interface_config: &InterfaceConfiguration) -> (r:
        RpcRouter)
        ensures
            router_exposes(self.registry, interface_config.instances@, r.instances@),
            filtered_by_registry(self.registry, interface_config.instances@, r.instances@),
    {
        let mut exposed: Vec<String> = Vec::new();
        let ghost listed = interface_config.instances@;
        proof {
            assert(listed.subrange(0, 0) =~= Seq::<String>::empty());
            assert(filtered_by_registry(self.registry, listed.subrange(0, 0), exposed@));
        }
        let mut j: usize = 0;
        while j < interface_config.instances.len()
            invariant
                j <= interface_config.instances@.len(),
                listed == interface_config.instances@,
                filtered_by_registry(self.registry, listed.subrange(0, j as int), exposed@),
                forall|k: int|
                    0 <= k < exposed@.len() ==> seq_contains_str(
                        interface_config.instances@,
                        (#[trigger] exposed@[k])@,
                    ) && registry_ids(self.registry).contains(exposed@[k]@),
                forall|m: int|
                    0 <= m < j && registry_ids(self.registry).contains(
                        (#[trigger] interface_config.instances@[m])@,
                    ) ==> seq_contains_str(exposed@, interface_config.instances@[m]@),
            decreases interface_config.instances@.len() - j,
        {
            let present = self.registry.contains_id(interface_config.instances[j].as_str());
            proof {
                assert(listed.subrange(0, j + 1) =~= listed.subrange(0, j as int).push(
                    listed[j as int],
                ));
            }
            if present {
                let ghost pre = exposed@;
                exposed.push(interface_config.instances[j].clone());
                proof {
                    assert(exposed@[exposed@.len() - 1]@ == interface_config.instances@[j as int]@);
                    lemma_filtered_snoc_in(
                        self.registry,
                        listed.subrange(0, j as int),
                        pre,
                        listed[j as int],
                        exposed@[exposed@.len() - 1],
                    );
                    assert(exposed@ =~= pre.push(exposed@[exposed@.len() - 1]));
                    assert forall|m: int|
                        0 <= m < j + 1 && registry_ids(self.registry).contains(
                            (#[trigger] interface_config.instances@[m])@,
                        ) implies seq_contains_str(
                        exposed@,
                        interface_config.instances@[m]@,
                    ) by {
                        if m < j {
                            let w = choose|w: int|
                                0 <= w < pre.len() && pre[w]@ == interface_config.instances@[m]@;
                            assert(exposed@[w]@ == interface_config.instances@[m]@);
                        } else {
                            assert(exposed@[exposed@.len() - 1]@
                                == interface_config.instances@[m]@);
                        }
                    }
                }
            } else {
                proof {
                    lemma_filtered_snoc_out(
                        self.registry,
                        listed.subrange(0, j as int),
                        exposed@,
                        listed[j as int],
                    );
                }
            }
            j += 1;
        }
        proof {
            assert(listed.subrange(0, listed.len() as int) =~= listed);
        }
        RpcRouter { instances: exposed }
    }

    /// Start one interface: hand its router to a worker. An interface id
    /// that is already running is refused.
    pub fn start_interface(&mut self, interface_config: &InterfaceConfiguration) -> (r: Result<
        RpcRouter,
        ContainerError,
    >)
        ensures
            seq_contains_str(old(self).running_interfaces@, interface_config.id@) <==> r is Err,
            r matches Err(e) ==> (e matches ContainerError::InterfaceAlreadyRunning { id } && id@
                == interface_config.id@ && *final(self) == *old(self)),
            r matches Ok(router) ==> {
                &&& final(self).running_interfaces@ == old(self).running_interfaces@.push(
                    interface_config.id,
                )
                &&& router_exposes(
                    old(self).registry,
                    interface_config.instances@,
                    router.instances@,
                )
                &&& filtered_by_registry(
                    old(self).registry,
                    interface_config.instances@,
                    router.instances@,
                )
                &&& final(self).registry == old(self).registry
                &&& final(self).config == old(self).config
                &&& final(self).signals == old(self).signals
                &&& final(self).loaded == old(self).loaded
                &&& final(self).p2p_endpoint == old(self).p2p_endpoint
                &&& final(self).network_child == old(self).network_child
            },
    {
        if vec_contains_str(&self.running_interfaces, interface_config.id.as_str()) {
            return Err(ContainerError::InterfaceAlreadyRunning {
                id: interface_config.id.clone(),
            });
        }
        let router = self.make_interface_handler(interface_config);
        self.running_interfaces.push(interface_config.id.clone());
        proof {
            assert(self.running_interfaces@ =~= old(self).running_interfaces@.push(
                interface_config.id,
            ));
        }
        Ok(router)
    }

    /// Start the interface configured under `id` (the first declaration with
    /// that id). Unknown ids are refused.
    pub fn start_interface_by_id(&mut self, id: &str) -> (r: Result<RpcRouter, ContainerError>)
        ensures
            (r matches Err(ContainerError::InterfaceNotFound { .. })) <==> (!(
            exists|i: int|
                0 <= i < old(self).config.interfaces@.len() && (#[trigger] old(
                    self,
                ).config.interfaces@[i]).id@ == id@)),
            r matches Err(e) ==> *final(self) == *old(self) && (e matches
                ContainerError::InterfaceNotFound { .. } || e matches
                ContainerError::InterfaceAlreadyRunning { .. }),
            r matches Err(ContainerError::InterfaceNotFound { id: i }) ==> i@ == id@,
            r matches Err(ContainerError::InterfaceAlreadyRunning { id: i }) ==> i@ == id@
                && seq_contains_str(old(self).running_interfaces@, id@),
            r matches Ok(router) ==> {
                &&& !seq_contains_str(old(self).running_interfaces@, id@)
                &&& router_for_interface(
                    old(self).config,
                    old(self).registry,
                    id@,
                    router.instances@,
                )
                &&& final(self).running_interfaces@.len() == old(
                    self,
                ).running_interfaces@.len() + 1
                &&& final(self).running_interfaces@.subrange(
                    0,
                    old(self).running_interfaces@.len() as int,
                ) == old(self).running_interfaces@
                &&& final(self).running_interfaces@[old(self).running_interfaces@.len() as int]@
                    == id@
                &&& final(self).registry == old(self).registry
                &&& final(self).config == old(self).config
                &&& final(self).signals == old(self).signals
                &&& final(self).loaded == old(self).loaded
                &&& final(self).p2p_endpoint == old(self).p2p_endpoint
                &&& final(self).network_child == old(self).network_child
            },
    {
        let found = self.config.interface_by_id(id);
        if found.is_none() {
            return Err(ContainerError::InterfaceNotFound { id: id.to_owned() });
        }
        let iface = match found {
            Some(ic) => ic.duplicate(),
            None => unreached(),
        };
        let ghost wi = choose|wi: int|
            #[trigger] first_interface_with(self.config, id@, wi) && self.config.interfaces@[wi]
                == *(found->Some_0);
        proof {
            assert((self.config.interfaces@[wi]).id@ == id@);
            assert(self.config.interfaces@[wi].instances@ == iface.instances@);
            assert(iface.id@ == id@);
        }
        let r = self.start_interface(&iface);
        match r {
            Ok(router) => {
                proof {
                    assert(first_interface_with(old(self).config, id@, wi));
                    assert(router_exposes(
                        old(self).registry,
                        old(self).config.interfaces@[wi].instances@,
                        router.instances@,
                    ));
                    assert(self.running_interfaces@ == old(
                        self,
                    ).running_interfaces@.push(iface.id));
                    assert(self.running_interfaces@.subrange(
                        0,
                        old(self).running_interfaces@.len() as int,
                    ) =~= old(self).running_interfaces@);
                }
                Ok(router)
            },
            Err(e) => Err(e),
        }
    }

    /// Start a worker for every configured interface: one router per unique
    /// interface id (the first declaration wins), replacing whatever ran
    /// before.
    pub fn start_all_interfaces(&mut self) -> (routers: Vec<RpcRouter>)
        ensures
            final(self).running_interfaces@.len() == routers@.len(),
            str_views(final(self).running_interfaces@).no_duplicates(),
            forall|k: int|
                #![trigger routers@[k]]
                0 <= k < routers@.len() ==> router_for_interface(
                    old(self).config,
                    old(self).registry,
                    final(self).running_interfaces@[k]@,
                    routers@[k].instances@,
                ),
            forall|i: int|
                0 <= i < old(self).config.interfaces@.len() ==> seq_contains_str(
                    final(self).running_interfaces@,
                    (#[trigger] old(self).config.interfaces@[i]).id@,
                ),
            forall|k: int, m: int, ik: int, im: int|
                #![trigger first_interface_with(old(self).config, final(self).running_interfaces@[k]@, ik), first_interface_with(old(self).config, final(self).running_interfaces@[m]@, im)]
                0 <= k < m < final(self).running_interfaces@.len() && first_interface_with(
                    old(self).config,
                    final(self).running_interfaces@[k]@,
                    ik,
                ) && first_interface_with(
                    old(self).config,
                    final(self).running_interfaces@[m]@,
                    im,
                ) ==> ik < im,
            final(self).registry == old(self).registry,
            final(self).config == old(self).config,
            final(self).signals == old(self).signals,
            final(self).loaded == old(self).loaded,
            final(self).p2p_endpoint == old(self).p2p_endpoint,
            final(self).network_child == old(self).network_child,
    {
        self.running_interfaces = Vec::new();
        let mut routers: Vec<RpcRouter> = Vec::new();
        let mut i: usize = 0;
        while i < self.config.interfaces.len()
            invariant
                i <= self.config.interfaces@.len(),
                self.config == old(self).config,
                self.registry == old(self).registry,
                self.signals == old(self).signals,
                self.loaded == old(self).loaded,
                self.p2p_endpoint == old(self).p2p_endpoint,
                self.network_child == old(self).network_child,
                self.running_interfaces@.len() == routers@.len(),
                str_views(self.running_interfaces@).no_duplicates(),
                forall|k: int|
                    #![trigger routers@[k]]
                    0 <= k < routers@.len() ==> router_for_interface(
                        old(self).config,
                        old(self).registry,
                        self.running_interfaces@[k]@,
                        routers@[k].instances@,
                    ),
                forall|k: int|
                    #![trigger routers@[k]]
                    0 <= k < routers@.len() ==> router_entry_ok(
                        old(self).config,
                        old(self).registry,
                        self.running_interfaces@[k]@,
                        routers@[k].instances@,
                        i as int,
                    ),
                forall|k: int, m: int, ik: int, im: int|
                    #![trigger first_interface_with(old(self).config, self.running_interfaces@[k]@, ik), first_interface_with(old(self).config, self.running_interfaces@[m]@, im)]
                    0 <= k < m < self.running_interfaces@.len() && first_interface_with(
                        old(self).config,
                        self.running_interfaces@[k]@,
                        ik,
                    ) && first_interface_with(
                        old(self).config,
                        self.running_interfaces@[m]@,
                        im,
                    ) ==> ik < im,
                forall|w: int|
                    0 <= w < i ==> seq_contains_str(
                        self.running_interfaces@,
                        (#[trigger] self.config.interfaces@[w]).id@,
                    ),
            decreases self.config.interfaces@.len() - i,
        {
            let already = vec_contains_str(
                &self.running_interfaces,
                self.config.interfaces[i].id.as_str(),
            );
            if !already {
                let router = self.make_interface_handler(&self.config.interfaces[i]);
                let ghost pre_run = self.running_interfaces@;
                let ghost pre_routers = routers@;
                self.running_interfaces.push(self.config.interfaces[i].id.clone());
                routers.push(router);
                proof {
                    let n = self.running_interfaces@.len();
                    assert(self.running_interfaces@[n - 1]@
                        == self.config.interfaces@[i as int].id@);
                    assert(first_interface_with(
                        old(self).config,
                        self.running_interfaces@[n - 1]@,
                        i as int,
                    )) by {
                        assert forall|j: int|
                            0 <= j < i implies (#[trigger] old(self).config.interfaces@[j]).id@
                            != self.config.interfaces@[i as int].id@ by {
                            if old(self).config.interfaces@[j].id@
                                == self.config.interfaces@[i as int].id@ {
                                assert(seq_contains_str(
                                    pre_run,
                                    self.config.interfaces@[j].id@,
                                ));
                            }
                        }
                    }
                    assert(router_exposes(
                        old(self).registry,
                        old(self).config.interfaces@[i as int].instances@,
                        routers@[n - 1].instances@,
                    ));
                    assert forall|k: int|
                        #![trigger routers@[k]]
                        0 <= k < routers@.len() implies router_entry_ok(
                        old(self).config,
                        old(self).registry,
                        self.running_interfaces@[k]@,
                        routers@[k].instances@,
                        i + 1,
                    ) && router_for_interface(
                        old(self).config,
                        old(self).registry,
                        self.running_interfaces@[k]@,
                        routers@[k].instances@,
                    ) by {
                        if k < n - 1 {
                            assert(routers@[k] == pre_routers[k]);
                            assert(self.running_interfaces@[k] == pre_run[k]);
                            assert(router_entry_ok(
                                old(self).config,
                                old(self).registry,
                                pre_run[k]@,
                                pre_routers[k].instances@,
                                i as int,
                            ));
                            let w = choose|w: int|
                                #[trigger] first_interface_with(
                                    old(self).config,
                                    pre_run[k]@,
                                    w,
                                ) && w < i && router_exposes(
                                    old(self).registry,
                                    old(self).config.interfaces@[w].instances@,
                                    pre_routers[k].instances@,
                                );
                            assert(router_entry_ok(
                                old(self).config,
                                old(self).registry,
                                self.running_interfaces@[k]@,
                                routers@[k].instances@,
                                i + 1,
                            ));
                            assert(router_for_interface(
                                old(self).config,
                                old(self).registry,
                                self.running_interfaces@[k]@,
                                routers@[k].instances@,
                            ));
                        } else {
                            assert(first_interface_with(
                                old(self).config,
                                self.running_interfaces@[k]@,
                                i as int,
                            ));
                            assert(router_entry_ok(
                                old(self).config,
                                old(self).registry,
                                self.running_interfaces@[k]@,
                                routers@[k].instances@,
                                i + 1,
                            ));
                            assert(router_for_interface(
                                old(self).config,
                                old(self).registry,
                                self.running_interfaces@[k]@,
                                routers@[k].instances@,
                            ));
                        }
                    }
                    assert forall|k: int, m: int, ik: int, im: int|
                        0 <= k < m < self.running_interfaces@.len() && #[trigger]
                        first_interface_with(
                            old(self).config,
                            self.running_interfaces@[k]@,
                            ik,
                        ) && #[trigger] first_interface_with(
                            old(self).config,
                            self.running_interfaces@[m]@,
                            im,
                        ) implies ik < im by {
                        if m == n - 1 {
                            lemma_first_interface_unique(
                                old(self).config,
                                self.running_interfaces@[m]@,
                                im,
                                i as int,
                            );
                            assert(self.running_interfaces@[k] == pre_run[k]);
                            assert(router_entry_ok(
                                old(self).config,
                                old(self).registry,
                                pre_run[k]@,
                                pre_routers[k].instances@,
                                i as int,
                            ));
                            let w = choose|w: int|
                                #[trigger] first_interface_with(
                                    old(self).config,
                                    pre_run[k]@,
                                    w,
                                ) && w < i && router_exposes(
                                    old(self).registry,
                                    old(self).config.interfaces@[w].instances@,
                                    pre_routers[k].instances@,
                                );
                            lemma_first_interface_unique(
                                old(self).config,
                                self.running_interfaces@[k]@,
                                ik,
                                w,
                            );
                        } else {
                            assert(self.running_interfaces@[k] == pre_run[k]);
                            assert(self.running_interfaces@[m] == pre_run[m]);
                        }
                    }
                    assert forall|a: int, b: int|
                        0 <= a < b < n implies str_views(self.running_interfaces@)[a] != str_views(
                        self.running_interfaces@,
                    )[b] by {
                        if b == n - 1 {
                            assert(!seq_contains_str(pre_run, self.running_interfaces@[b]@));
                            assert(self.running_interfaces@[a] == pre_run[a]);
                        } else {
                            assert(str_views(pre_run)[a] != str_views(pre_run)[b]);
                        }
                    }
                    assert forall|w: int|
                        0 <= w < i + 1 implies seq_contains_str(
                        self.running_interfaces@,
                        (#[trigger] self.config.interfaces@[w]).id@,
                    ) by {
                        if w < i {
                            let x = choose|x: int|
                                0 <= x < pre_run.len() && pre_run[x]@
                                    == self.config.interfaces@[w].id@;
                            assert(self.running_interfaces@[x]@ == self.config.interfaces@[w].id@);
                        } else {
                            assert(self.running_interfaces@[n - 1]@
                                == self.config.interfaces@[w].id@);
                        }
                    }
                }
            } else {
                proof {
                    assert forall|w: int|
                        0 <= w < i + 1 implies seq_contains_str(
                        self.running_interfaces@,
                        (#[trigger] self.config.interfaces@[w]).id@,
                    ) by {}
                }
            }
            i += 1;
        }
        routers
    }

    /// Build a container around a configuration and load it at once, with no
    /// helper process spawned.
    pub fn try_from<L: DnaLoader>(config: Configuration, loader: &mut L) -> (r: Result<
        Container,
        ContainerError,
    >)
        ensures
            r matches Ok(c) ==> {
                &&& c.config == config
                &&& consistent(config)
                &&& c.loaded
                &&& topo::topo_order_ok(config, registry_ids(c.registry))
                &&& topo::greedy_min(config, registry_ids(c.registry))
                &&& (c.p2p_endpoint matches Some(ep) && endpoint_for(
                    config,
                    Option::<String>::None,
                    ep,
                ))
                &&& forall|k: int|
                    0 <= k < c.registry.items@.len() ==> instance_built_core(
                        config,
                        false,
                        #[trigger] c.registry.items@[k],
                    ) && ep_eq(
                        c.registry.items@[k].context.network,
                        c.p2p_endpoint->Some_0,
                    )
                &&& c.signals is None
                &&& c.running_interfaces@ == Seq::<String>::empty()
                &&& c.network_child == NetworkChildState::NotSpawned
            },
            r matches Err(e) ==> {
                ||| (e matches ContainerError::Config(ce) && !consistent(config)
                    && error_is_genuine(config, ce))
                ||| (e matches ContainerError::Load { instance_id, cause } && consistent(config)
                    && load_failure_genuine(config, instance_id@, cause))
            },
            !consistent(config) ==> r is Err,
    {
        let mut container = Container::from_config(config);
        match container.load_config(loader, None) {
            Ok(_) => Ok(container),
            Err(e) => Err(e),
        }
    }
}

} // verus!
