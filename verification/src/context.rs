//! The per-instance execution context: identity, storage handle, network
//! endpoint, logger sink, bridge call-table and signal flag, assembled
//! incrementally by the [`ContextBuilder`].

use vstd::prelude::*;

verus! {

/// An agent identity rehydrated from its configured textual form.
#[derive(Debug, Clone, PartialEq, Eq)]
pub struct AgentId {
    pub nick: String,
    pub key: String,
}

/// The container-wide peer-to-peer endpoint every instance shares: either
/// the IPC binding of the spawned helper (or an explicitly configured one),
/// or a local-only mock for containers without a network.
#[derive(Debug, PartialEq, Eq)]
pub enum P2pEndpoint {
    Ipc { uri: Option<String>, bootstrap_nodes: Vec<String> },
    Mock { name: String },
}

/// The storage an instance owns exclusively. For `File` the directory is
/// created (if missing) by the shell around the library.
#[derive(Debug, Clone, PartialEq, Eq)]
pub enum StorageHandle {
    Memory,
    File { path: String },
}

/// Where an instance's log lines go.
#[derive(Debug, Clone, PartialEq, Eq)]
pub enum LoggerSink {
    Null,
    Channel { instance_id: String },
}

/// One entry of the bridge call-table: the caller addresses the instance
/// registered under `callee_id` by the symbolic `handle`.
#[derive(Debug, Clone, PartialEq, Eq)]
pub struct BridgeBinding {
    pub handle: String,
    pub callee_id: String,
}

/// The immutable bundle an instance runs with.
#[derive(Debug, PartialEq, Eq)]
pub struct Context {
    pub agent: AgentId,
    pub storage: StorageHandle,
    pub network: P2pEndpoint,
    pub logger: LoggerSink,
    pub call_table: Vec<BridgeBinding>,
    pub has_signals: bool,
}

impl Context {
    /// Resolve a bridge handle to the callee instance id it is bound to in
    /// the call-table (the first binding, though the lifecycle manager never
    /// installs a handle twice).
    pub fn bridge_callee(&self, handle: &str) -> (r: Option<&String>)
        ensures
            r is Some <==> exists|k: int|
                0 <= k < self.call_table@.len() && (#[trigger] self.call_table@[k]).handle@
                    == handle@,
            r matches Some(callee) ==> exists|k: int|
                0 <= k < self.call_table@.len() && (#[trigger] self.call_table@[k]).handle@
                    == handle@ && self.call_table@[k].callee_id == *callee,
    {
        let mut k: usize = 0;
        while k < self.call_table.len()
            invariant
                k <= self.call_table@.len(),
                forall|j: int| 0 <= j < k ==> (#[trigger] self.call_table@[j]).handle@ != handle@,
            decreases self.call_table@.len() - k,
        {
            if crate::strutil::str_eq(self.call_table[k].handle.as_str(), handle) {
                return Some(&self.call_table[k].callee_id);
            }
            k += 1;
        }
        None
    }
}

/// A deep copy of a string vector, equal to the original.
pub fn clone_string_vec(v: &Vec<String>) -> (r: Vec<String>)
    ensures
        r@ == v@,
{
    let mut r: Vec<String> = Vec::new();
    let mut i: usize = 0;
    while i < v.len()
        invariant
            i <= v@.len(),
            r@.len() == i,
            forall|j: int| 0 <= j < i ==> r@[j] == v@[j],
        decreases v@.len() - i,
    {
        r.push(v[i].clone());
        i += 1;
    }
    proof {
        assert(r@ =~= v@);
    }
    r
}

/// The two endpoint values describe the same endpoint: same variant, same
/// uri and name, same bootstrap nodes.
pub open spec fn ep_eq(a: P2pEndpoint, b: P2pEndpoint) -> bool {
    match (a, b) {
        (
            P2pEndpoint::Ipc { uri: u1, bootstrap_nodes: b1 },
            P2pEndpoint::Ipc { uri: u2, bootstrap_nodes: b2 },
        ) => u1 == u2 && b1@ == b2@,
        (P2pEndpoint::Mock { name: n1 }, P2pEndpoint::Mock { name: n2 }) => n1 == n2,
        _ => false,
    }
}

impl P2pEndpoint {
    /// A deep copy that describes the same endpoint: every instance context
    /// carries the same shared endpoint.
    pub fn duplicate(&self) -> (r: P2pEndpoint)
        ensures
            ep_eq(r, *self),
    {
        match self {
            P2pEndpoint::Ipc { uri, bootstrap_nodes } => {
                let u = match uri {
                    Some(x) => Some(x.clone()),
                    None => None,
                };
                P2pEndpoint::Ipc { uri: u, bootstrap_nodes: clone_string_vec(bootstrap_nodes) }
            },
            P2pEndpoint::Mock { name } => P2pEndpoint::Mock { name: name.clone() },
        }
    }
}

/// Gathers the parts of a [`Context`]; `spawn` finalizes. Identity and
/// network endpoint must have been supplied by then; the other parts
/// default to memory storage, the null logger, an empty call-table and no
/// signal sink.
pub struct ContextBuilder {
    pub agent: Option<AgentId>,
    pub storage: StorageHandle,
    pub network: Option<P2pEndpoint>,
    pub logger: LoggerSink,
    pub call_table: Vec<BridgeBinding>,
    pub has_signals: bool,
}

impl ContextBuilder {
    /// An empty builder.
    pub fn new() -> (r: ContextBuilder)
        ensures
            r.agent is None,
            r.storage == StorageHandle::Memory,
            r.network is None,
            r.logger == LoggerSink::Null,
            r.call_table@ =~= Seq::<BridgeBinding>::empty(),
            !r.has_signals,
    {
        ContextBuilder {
            agent: None,
            storage: StorageHandle::Memory,
            network: None,
            logger: LoggerSink::Null,
            call_table: Vec::new(),
            has_signals: false,
        }
    }

    /// Supply the agent identity.
    pub fn with_agent(self, agent: AgentId) -> (r: ContextBuilder)
        ensures
            r == (ContextBuilder { agent: Some(agent), ..self }),
    {
        ContextBuilder { agent: Some(agent), ..self }
    }

    /// Supply the shared network endpoint.
    pub fn with_network_config(self, network: P2pEndpoint) -> (r: ContextBuilder)
        ensures
            r == (ContextBuilder { network: Some(network), ..self }),
    {
        ContextBuilder { network: Some(network), ..self }
    }

    /// Use file-backed storage rooted at `path`.
    pub fn with_file_storage(self, path: String) -> (r: ContextBuilder)
        ensures
            r == (ContextBuilder { storage: StorageHandle::File { path }, ..self }),
    {
        ContextBuilder { storage: StorageHandle::File { path }, ..self }
    }

    /// Route the instance's log lines to the container's channel logger.
    pub fn with_logger(self, instance_id: String) -> (r: ContextBuilder)
        ensures
            r == (ContextBuilder { logger: LoggerSink::Channel { instance_id }, ..self }),
    {
        ContextBuilder { logger: LoggerSink::Channel { instance_id }, ..self }
    }

    /// Bind `handle` to the instance registered under `callee_id` in the
    /// bridge call-table.
    pub fn with_named_instance(self, handle: String, callee_id: String) -> (r: ContextBuilder)
        ensures
            r.call_table@ == self.call_table@.push((BridgeBinding { handle, callee_id })),
            r == (ContextBuilder { call_table: r.call_table, ..self }),
    {
        let mut table = self.call_table;
        table.push(BridgeBinding { handle, callee_id });
        ContextBuilder { call_table: table, ..self }
    }

    /// Attach the container's signal sink.
    pub fn with_signals(self) -> (r: ContextBuilder)
        ensures
            r == (ContextBuilder { has_signals: true, ..self }),
    {
        ContextBuilder { has_signals: true, ..self }
    }

    /// Finalize: identity and network endpoint must be present.
    pub fn spawn(self) -> (r: Context)
        requires
            self.agent is Some,
            self.network is Some,
        ensures
            r == (Context {
                agent: self.agent->Some_0,
                storage: self.storage,
                network: self.network->Some_0,
                logger: self.logger,
                call_table: self.call_table,
                has_signals: self.has_signals,
            }),
    {
        let agent = match self.agent {
            Some(a) => a,
            None => unreached(),
        };
        let network = match self.network {
            Some(n) => n,
            None => unreached(),
        };
        Context {
            agent,
            storage: self.storage,
            network,
            logger: self.logger,
            call_table: self.call_table,
            has_signals: self.has_signals,
        }
    }
}

} // verus!
