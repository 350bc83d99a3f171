//! The declarative configuration document: agents, modules (DNAs), instances,
//! bridges and RPC interfaces, together with the validator that checks
//! reference integrity, id uniqueness and interface subsets.
//!
//! The bridge-acyclicity check and the topological ordering live in
//! [`crate::topo`]; [`Configuration::check_consistency`] runs all of it.

use vstd::prelude::*;

use crate::error::{ConfigError, IdKind};
use crate::strutil::{seq_contains_str, str_eq, str_views, vec_contains_str};
use crate::topo;

verus! {

/// An agent identity: immutable for the lifetime of the container.
#[derive(Debug, Clone, PartialEq, Eq)]
pub struct AgentConfiguration {
    pub id: String,
    pub name: String,
    pub public_address: String,
    pub key_file: String,
}

/// A declarative pointer to a bytecode module.
#[derive(Debug, Clone, PartialEq, Eq)]
pub struct DnaConfiguration {
    pub id: String,
    pub file: String,
    pub hash: String,
}

/// The storage backend an instance owns.
#[derive(Debug, Clone, PartialEq, Eq)]
pub enum StorageConfiguration {
    Memory,
    File { path: String },
}

/// A binding of a module to an agent plus storage.
#[derive(Debug, Clone, PartialEq, Eq)]
pub struct InstanceConfiguration {
    pub id: String,
    pub dna: String,
    pub agent: String,
    pub storage: StorageConfiguration,
}

/// A directed call link: the caller addresses the callee by `handle`.
#[derive(Debug, Clone, PartialEq, Eq)]
pub struct Bridge {
    pub caller_id: String,
    pub callee_id: String,
    pub handle: String,
}

/// The transport a configured interface runs on.
#[derive(Debug, Clone, PartialEq, Eq)]
pub enum InterfaceDriver {
    Websocket { port: u16 },
    Http { port: u16 },
}

/// A transport binding that exposes a subset of instances.
#[derive(Debug, Clone, PartialEq, Eq)]
pub struct InterfaceConfiguration {
    pub id: String,
    pub driver: InterfaceDriver,
    pub instances: Vec<String>,
}

/// The optional networking sidecar: where the helper binary lives and how to
/// run it.
#[derive(Debug, Clone, PartialEq, Eq)]
pub struct NetworkConfiguration {
    pub helper_path: String,
    pub mode: String,
    pub work_dir: String,
    pub explicit_ipc_uri: Option<String>,
    pub bootstrap_nodes: Vec<String>,
}

/// The container-wide logger selection.
#[derive(Debug, Clone, PartialEq, Eq)]
pub struct LoggerConfiguration {
    pub logger_type: String,
}

/// The whole declarative document. Immutable once accepted; re-loading
/// replaces it wholesale.
#[derive(Debug, Clone, PartialEq, Eq)]
pub struct Configuration {
    pub agents: Vec<AgentConfiguration>,
    pub dnas: Vec<DnaConfiguration>,
    pub instances: Vec<InstanceConfiguration>,
    pub bridges: Vec<Bridge>,
    pub interfaces: Vec<InterfaceConfiguration>,
    pub network: Option<NetworkConfiguration>,
    pub logger: LoggerConfiguration,
}

/// The declared agent ids, in declaration order.
pub open spec fn agent_ids(c: Configuration) -> Seq<Seq<char>> {
    Seq::new(c.agents@.len(), |i: int| c.agents@[i].id@)
}

/// The declared module ids, in declaration order.
pub open spec fn dna_ids(c: Configuration) -> Seq<Seq<char>> {
    Seq::new(c.dnas@.len(), |i: int| c.dnas@[i].id@)
}

/// The declared instance ids, in declaration order.
pub open spec fn instance_ids(c: Configuration) -> Seq<Seq<char>> {
    Seq::new(c.instances@.len(), |i: int| c.instances@[i].id@)
}

/// Agent, module and instance ids are each unique within their kind.
/// Interface ids may repeat: the collision surfaces when the second
/// interface is started, not at validation.
pub open spec fn ids_unique(c: Configuration) -> bool {
    &&& agent_ids(c).no_duplicates()
    &&& dna_ids(c).no_duplicates()
    &&& instance_ids(c).no_duplicates()
}

/// Every instance names a declared agent and a declared module.
pub open spec fn instance_refs_ok(c: Configuration) -> bool {
    forall|i: int| 0 <= i < c.instances@.len() ==> {
        &&& agent_ids(c).contains(#[trigger] c.instances@[i].agent@)
        &&& dna_ids(c).contains(c.instances@[i].dna@)
    }
}

/// Every bridge connects two distinct declared instances.
pub open spec fn bridge_refs_ok(c: Configuration) -> bool {
    forall|i: int| 0 <= i < c.bridges@.len() ==> {
        &&& instance_ids(c).contains(#[trigger] c.bridges@[i].caller_id@)
        &&& instance_ids(c).contains(c.bridges@[i].callee_id@)
        &&& c.bridges@[i].caller_id@ != c.bridges@[i].callee_id@
    }
}

/// Every interface exposes only declared instances.
pub open spec fn interface_refs_ok(c: Configuration) -> bool {
    forall|i: int, j: int|
        0 <= i < c.interfaces@.len() && 0 <= j < c.interfaces@[i].instances@.len()
            ==> instance_ids(c).contains(#[trigger] c.interfaces@[i].instances@[j]@)
}

/// `i` is the position of the first configured interface with id `rid`.
/// Interface ids may repeat; whenever one is resolved by id, this
/// declaration is the one that wins.
pub open spec fn first_interface_with(c: Configuration, rid: Seq<char>, i: int) -> bool {
    &&& 0 <= i < c.interfaces@.len()
    &&& c.interfaces@[i].id@ == rid
    &&& forall|j: int| 0 <= j < i ==> (#[trigger] c.interfaces@[j]).id@ != rid
}

/// At most one position is the first with a given id.
pub proof fn lemma_first_interface_unique(c: Configuration, rid: Seq<char>, i1: int, i2: int)
    requires
        first_interface_with(c, rid, i1),
        first_interface_with(c, rid, i2),
    ensures
        i1 == i2,
{
    if i1 < i2 {
        assert(c.interfaces@[i1].id@ != rid);
    }
    if i2 < i1 {
        assert(c.interfaces@[i2].id@ != rid);
    }
}

/// All the static checks: uniqueness, reference integrity, interface
/// subsets. Everything but acyclicity.
pub open spec fn statics_ok(c: Configuration) -> bool {
    &&& ids_unique(c)
    &&& instance_refs_ok(c)
    &&& bridge_refs_ok(c)
    &&& interface_refs_ok(c)
}

/// A configuration is consistent when the static checks pass and the bridge
/// graph admits a topological order of the instances.
pub open spec fn consistent(c: Configuration) -> bool {
    &&& statics_ok(c)
    &&& topo::has_topo_order(c)
}

/// Whether error `e` names a violation that the configuration really has.
pub open spec fn error_is_genuine(c: Configuration, e: ConfigError) -> bool {
    match e {
        ConfigError::DuplicateId { kind, id } => {
            match kind {
                IdKind::Agent => exists|i: int, j: int|
                    0 <= i < j < agent_ids(c).len() && agent_ids(c)[i] == agent_ids(c)[j]
                        && agent_ids(c)[j] == id@,
                IdKind::Dna => exists|i: int, j: int|
                    0 <= i < j < dna_ids(c).len() && dna_ids(c)[i] == dna_ids(c)[j]
                        && dna_ids(c)[j] == id@,
                IdKind::Instance => exists|i: int, j: int|
                    0 <= i < j < instance_ids(c).len() && instance_ids(c)[i]
                        == instance_ids(c)[j] && instance_ids(c)[j] == id@,
                IdKind::Interface => false,
            }
        },
        ConfigError::UnknownAgent { instance_id, agent_id } => exists|i: int|
            0 <= i < c.instances@.len() && (#[trigger] c.instances@[i]).id@ == instance_id@
                && c.instances@[i].agent@ == agent_id@ && !agent_ids(c).contains(agent_id@),
        ConfigError::UnknownDna { instance_id, dna_id } => exists|i: int|
            0 <= i < c.instances@.len() && (#[trigger] c.instances@[i]).id@ == instance_id@
                && c.instances@[i].dna@ == dna_id@ && !dna_ids(c).contains(dna_id@),
        ConfigError::UnknownBridgeInstance { caller_id, callee_id } => exists|i: int|
            0 <= i < c.bridges@.len() && (#[trigger] c.bridges@[i]).caller_id@ == caller_id@
                && c.bridges@[i].callee_id@ == callee_id@ && (!instance_ids(c).contains(
                caller_id@,
            ) || !instance_ids(c).contains(callee_id@)),
        ConfigError::SelfBridge { instance_id } => exists|i: int|
            0 <= i < c.bridges@.len() && (#[trigger] c.bridges@[i]).caller_id@ == instance_id@
                && c.bridges@[i].callee_id@ == instance_id@,
        ConfigError::UnknownInterfaceInstance { interface_id, instance_id } => exists|
            i: int,
            j: int,
        |
            0 <= i < c.interfaces@.len() && 0 <= j < c.interfaces@[i].instances@.len()
                && c.interfaces@[i].id@ == interface_id@ && (#[trigger] c.interfaces@[i].instances@[j]@)
                == instance_id@ && !instance_ids(c).contains(instance_id@),
        ConfigError::BridgeCycle { involved_ids } => {
            &&& involved_ids@.len() > 0
            &&& forall|k: int|
                0 <= k < involved_ids@.len() ==> instance_ids(c).contains(
                    #[trigger] involved_ids@[k]@,
                )
            &&& forall|k: int|
                0 <= k < involved_ids@.len() ==> !topo::emittable(c, #[trigger] involved_ids@[k]@)
            &&& forall|i: int|
                0 <= i < c.instances@.len() ==> topo::emittable(c, #[trigger] instance_ids(c)[i])
                    || seq_contains_str(involved_ids@, instance_ids(c)[i])
            &&& !topo::has_topo_order(c)
        },
        ConfigError::DnaLoad { .. } => false,
    }
}

impl Configuration {
    /// The declared instance ids as owned strings, in declaration order.
    pub fn instance_id_list(&self) -> (v: Vec<String>)
        ensures
            str_views(v@) == instance_ids(*self),
    {
        let mut v: Vec<String> = Vec::new();
        let mut i: usize = 0;
        while i < self.instances.len()
            invariant
                i <= self.instances@.len(),
                v@.len() == i,
                forall|j: int| 0 <= j < i ==> v@[j]@ == self.instances@[j].id@,
            decreases self.instances@.len() - i,
        {
            v.push(self.instances[i].id.clone());
            i += 1;
        }
        proof {
            assert(str_views(v@) =~= instance_ids(*self));
        }
        v
    }

    /// The declared agent ids as owned strings, in declaration order.
    pub fn agent_id_list(&self) -> (v: Vec<String>)
        ensures
            str_views(v@) == agent_ids(*self),
    {
        let mut v: Vec<String> = Vec::new();
        let mut i: usize = 0;
        while i < self.agents.len()
            invariant
                i <= self.agents@.len(),
                v@.len() == i,
                forall|j: int| 0 <= j < i ==> v@[j]@ == self.agents@[j].id@,
            decreases self.agents@.len() - i,
        {
            v.push(self.agents[i].id.clone());
            i += 1;
        }
        proof {
            assert(str_views(v@) =~= agent_ids(*self));
        }
        v
    }

    /// The declared module ids as owned strings, in declaration order.
    pub fn dna_id_list(&self) -> (v: Vec<String>)
        ensures
            str_views(v@) == dna_ids(*self),
    {
        let mut v: Vec<String> = Vec::new();
        let mut i: usize = 0;
        while i < self.dnas.len()
            invariant
                i <= self.dnas@.len(),
                v@.len() == i,
                forall|j: int| 0 <= j < i ==> v@[j]@ == self.dnas@[j].id@,
            decreases self.dnas@.len() - i,
        {
            v.push(self.dnas[i].id.clone());
            i += 1;
        }
        proof {
            assert(str_views(v@) =~= dna_ids(*self));
        }
        v
    }

    /// The first declared agent with this id.
    pub fn agent_by_id(&self, id: &str) -> (r: Option<&AgentConfiguration>)
        ensures
            r is Some <==> agent_ids(*self).contains(id@),
            r matches Some(a) ==> a.id@ == id@ && exists|i: int|
                0 <= i < self.agents@.len() && self.agents@[i] == *a,
    {
        let mut i: usize = 0;
        while i < self.agents.len()
            invariant
                i <= self.agents@.len(),
                forall|j: int| 0 <= j < i ==> agent_ids(*self)[j] != id@,
            decreases self.agents@.len() - i,
        {
            if str_eq(self.agents[i].id.as_str(), id) {
                proof {
                    assert(agent_ids(*self)[i as int] == id@);
                }
                return Some(&self.agents[i]);
            }
            i += 1;
        }
        None
    }

    /// The first declared module with this id.
    pub fn dna_by_id(&self, id: &str) -> (r: Option<&DnaConfiguration>)
        ensures
            r is Some <==> dna_ids(*self).contains(id@),
            r matches Some(d) ==> d.id@ == id@ && exists|i: int|
                0 <= i < self.dnas@.len() && self.dnas@[i] == *d,
    {
        let mut i: usize = 0;
        while i < self.dnas.len()
            invariant
                i <= self.dnas@.len(),
                forall|j: int| 0 <= j < i ==> dna_ids(*self)[j] != id@,
            decreases self.dnas@.len() - i,
        {
            if str_eq(self.dnas[i].id.as_str(), id) {
                proof {
                    assert(dna_ids(*self)[i as int] == id@);
                }
                return Some(&self.dnas[i]);
            }
            i += 1;
        }
        None
    }

    /// The first declared instance with this id.
    pub fn instance_by_id(&self, id: &str) -> (r: Option<&InstanceConfiguration>)
        ensures
            r is Some <==> instance_ids(*self).contains(id@),
            r matches Some(ic) ==> ic.id@ == id@ && exists|i: int|
                0 <= i < self.instances@.len() && self.instances@[i] == *ic,
    {
        let mut i: usize = 0;
        while i < self.instances.len()
            invariant
                i <= self.instances@.len(),
                forall|j: int| 0 <= j < i ==> instance_ids(*self)[j] != id@,
            decreases self.instances@.len() - i,
        {
            if str_eq(self.instances[i].id.as_str(), id) {
                proof {
                    assert(instance_ids(*self)[i as int] == id@);
                }
                return Some(&self.instances[i]);
            }
            i += 1;
        }
        None
    }

    /// The first configured interface with this id (interface ids may
    /// repeat; the first declaration wins, as it does when starting one).
    pub fn interface_by_id(&self, id: &str) -> (r: Option<&InterfaceConfiguration>)
        ensures
            r is Some <==> exists|i: int|
                0 <= i < self.interfaces@.len() && (#[trigger] self.interfaces@[i]).id@ == id@,
            r matches Some(ic) ==> ic.id@ == id@ && exists|i: int|
                #[trigger] first_interface_with(*self, id@, i) && self.interfaces@[i] == *ic,
    {
        let mut i: usize = 0;
        while i < self.interfaces.len()
            invariant
                i <= self.interfaces@.len(),
                forall|j: int| 0 <= j < i ==> (#[trigger] self.interfaces@[j]).id@ != id@,
            decreases self.interfaces@.len() - i,
        {
            if str_eq(self.interfaces[i].id.as_str(), id) {
                proof {
                    assert(first_interface_with(*self, id@, i as int));
                }
                return Some(&self.interfaces[i]);
            }
            i += 1;
        }
        None
    }

    /// The positions of all bridges whose caller is `id`, in declaration
    /// order.
    pub fn bridges_where_caller(&self, id: &str) -> (v: Vec<usize>)
        ensures
            forall|k: int, m: int| 0 <= k < m < v@.len() ==> v@[k] < v@[m],
            forall|k: int|
                0 <= k < v@.len() ==> #[trigger] v@[k] < self.bridges@.len()
                    && self.bridges@[v@[k] as int].caller_id@ == id@,
            forall|bi: int|
                0 <= bi < self.bridges@.len() && (#[trigger] self.bridges@[bi]).caller_id@ == id@
                    ==> exists|k: int| 0 <= k < v@.len() && #[trigger] v@[k] == bi,
    {
        let mut v: Vec<usize> = Vec::new();
        let mut i: usize = 0;
        while i < self.bridges.len()
            invariant
                i <= self.bridges@.len(),
                forall|k: int, m: int| 0 <= k < m < v@.len() ==> v@[k] < v@[m],
                forall|k: int| 0 <= k < v@.len() ==> #[trigger] v@[k] < i,
                forall|k: int|
                    0 <= k < v@.len() ==> self.bridges@[#[trigger] v@[k] as int].caller_id@ == id@,
                forall|bi: int|
                    0 <= bi < i && (#[trigger] self.bridges@[bi]).caller_id@ == id@ ==> exists|
                        k: int,
                    |
                        0 <= k < v@.len() && #[trigger] v@[k] == bi,
            decreases self.bridges@.len() - i,
        {
            if str_eq(self.bridges[i].caller_id.as_str(), id) {
                let ghost old_v = v@;
                v.push(i);
                proof {
                    assert(v@[v@.len() - 1] == i);
                    assert forall|bi: int|
                        0 <= bi < i + 1 && (#[trigger] self.bridges@[bi]).caller_id@
                            == id@ implies exists|k: int|
                        0 <= k < v@.len() && #[trigger] v@[k] == bi by {
                        if bi < i {
                            let w = choose|w: int| 0 <= w < old_v.len() && #[trigger] old_v[w] == bi;
                            assert(v@[w] == bi);
                        } else {
                            assert(v@[v@.len() - 1] == bi);
                        }
                    }
                }
            }
            i += 1;
        }
        v
    }
}

impl InterfaceConfiguration {
    /// A deep copy whose fields describe the same interface.
    pub fn duplicate(&self) -> (r: InterfaceConfiguration)
        ensures
            r.id == self.id,
            r.driver == self.driver,
            r.instances@ == self.instances@,
    {
        let driver = match &self.driver {
            InterfaceDriver::Websocket { port } => InterfaceDriver::Websocket { port: *port },
            InterfaceDriver::Http { port } => InterfaceDriver::Http { port: *port },
        };
        InterfaceConfiguration {
            id: self.id.clone(),
            driver,
            instances: crate::context::clone_string_vec(&self.instances),
        }
    }
}

/// The id repeated in `v`, if any: the first string that already occurred
/// earlier in the list.
fn first_duplicate(v: &Vec<String>) -> (r: Option<String>)
    ensures
        r is None <==> str_views(v@).no_duplicates(),
        r matches Some(id) ==> exists|i: int, j: int|
            0 <= i < j < v@.len() && v@[i]@ == v@[j]@ && v@[j]@ == id@,
{
    let mut j: usize = 1;
    if v.len() == 0 {
        return None;
    }
    while j < v.len()
        invariant
            1 <= j <= v@.len(),
            forall|a: int, b: int| 0 <= a < b < j ==> v@[a]@ != v@[b]@,
        decreases v@.len() - j,
    {
        let mut i: usize = 0;
        while i < j
            invariant
                i <= j < v@.len(),
                forall|a: int| 0 <= a < i ==> v@[a]@ != v@[j as int]@,
            decreases j - i,
        {
            if str_eq(v[i].as_str(), v[j].as_str()) {
                let id = v[j].clone();
                proof {
                    assert(str_views(v@)[i as int] == v@[i as int]@);
                    assert(str_views(v@)[j as int] == v@[j as int]@);
                    assert(!str_views(v@).no_duplicates());
                    assert(v@[i as int]@ == v@[j as int]@ && v@[j as int]@ == id@);
                }
                return Some(id);
            }
            i += 1;
        }
        j += 1;
    }
    proof {
        assert forall|a: int, b: int|
            0 <= a < b < str_views(v@).len() implies str_views(v@)[a] != str_views(v@)[b] by {
            assert(v@[a]@ != v@[b]@);
        };
    }
    None
}

impl Configuration {
    /// Validate the whole document and hand back the order in which
    /// instances must be created: every bridge's callee strictly before its
    /// caller, ties broken by lexicographic id.
    ///
    /// Succeeds exactly on consistent configurations. When the static checks
    /// pass but the bridge graph cannot be ordered, the error is
    /// `ConfigError::BridgeCycle`. Every reported error names a violation
    /// the document really has.
    pub fn check_consistency(&self) -> (r: Result<Vec<String>, ConfigError>)
        ensures
            r is Ok <==> consistent(*self),
            r matches Ok(order) ==> topo::topo_order_ok(*self, str_views(order@))
                && topo::greedy_min(*self, str_views(order@)),
            r matches Err(e) ==> error_is_genuine(*self, e),
            statics_ok(*self) && r is Err ==> r matches Err(ConfigError::BridgeCycle { .. }),
    {
        let agent_list = self.agent_id_list();
        if let Some(id) = first_duplicate(&agent_list) {
            proof {
                let (i, j) = choose|i: int, j: int|
                    0 <= i < j < agent_list@.len() && agent_list@[i]@ == agent_list@[j]@
                        && agent_list@[j]@ == id@;
                assert(str_views(agent_list@)[i] == agent_list@[i]@);
                assert(str_views(agent_list@)[j] == agent_list@[j]@);
            }
            return Err(ConfigError::DuplicateId { kind: IdKind::Agent, id });
        }
        let dna_list = self.dna_id_list();
        if let Some(id) = first_duplicate(&dna_list) {
            proof {
                let (i, j) = choose|i: int, j: int|
                    0 <= i < j < dna_list@.len() && dna_list@[i]@ == dna_list@[j]@
                        && dna_list@[j]@ == id@;
                assert(str_views(dna_list@)[i] == dna_list@[i]@);
                assert(str_views(dna_list@)[j] == dna_list@[j]@);
            }
            return Err(ConfigError::DuplicateId { kind: IdKind::Dna, id });
        }
        let instance_list = self.instance_id_list();
        if let Some(id) = first_duplicate(&instance_list) {
            proof {
                let (i, j) = choose|i: int, j: int|
                    0 <= i < j < instance_list@.len() && instance_list@[i]@ == instance_list@[j]@
                        && instance_list@[j]@ == id@;
                assert(str_views(instance_list@)[i] == instance_list@[i]@);
                assert(str_views(instance_list@)[j] == instance_list@[j]@);
            }
            return Err(ConfigError::DuplicateId { kind: IdKind::Instance, id });
        }
        let mut i: usize = 0;
        while i < self.instances.len()
            invariant
                i <= self.instances@.len(),
                forall|j: int|
                    0 <= j < i ==> agent_ids(*self).contains(#[trigger] self.instances@[j].agent@),
                forall|j: int|
                    0 <= j < i ==> dna_ids(*self).contains(#[trigger] self.instances@[j].dna@),
            decreases self.instances@.len() - i,
        {
            if self.agent_by_id(self.instances[i].agent.as_str()).is_none() {
                let instance_id = self.instances[i].id.clone();
                let agent_id = self.instances[i].agent.clone();
                proof {
                    assert(!agent_ids(*self).contains(self.instances@[i as int].agent@));
                    assert(!instance_refs_ok(*self));
                    assert((self.instances@[i as int]).id@ == instance_id@
                        && self.instances@[i as int].agent@ == agent_id@);
                }
                return Err(ConfigError::UnknownAgent { instance_id, agent_id });
            }
            if self.dna_by_id(self.instances[i].dna.as_str()).is_none() {
                let instance_id = self.instances[i].id.clone();
                let dna_id = self.instances[i].dna.clone();
                proof {
                    assert(!dna_ids(*self).contains(self.instances@[i as int].dna@));
                    assert(!instance_refs_ok(*self));
                    assert((self.instances@[i as int]).id@ == instance_id@
                        && self.instances@[i as int].dna@ == dna_id@);
                }
                return Err(ConfigError::UnknownDna { instance_id, dna_id });
            }
            proof {
                assert(agent_ids(*self).contains(self.instances@[i as int].agent@));
                assert(dna_ids(*self).contains(self.instances@[i as int].dna@));
            }
            i += 1;
        }
        let mut bi: usize = 0;
        while bi < self.bridges.len()
            invariant
                i <= self.instances@.len(),
                bi <= self.bridges@.len(),
                str_views(instance_list@) == instance_ids(*self),
                forall|j: int|
                    0 <= j < bi ==> instance_ids(*self).contains(
                        #[trigger] self.bridges@[j].caller_id@,
                    ),
                forall|j: int|
                    0 <= j < bi ==> instance_ids(*self).contains(
                        #[trigger] self.bridges@[j].callee_id@,
                    ),
                forall|j: int|
                    0 <= j < bi ==> (#[trigger] self.bridges@[j]).caller_id@
                        != self.bridges@[j].callee_id@,
            decreases self.bridges@.len() - bi,
        {
            let b = &self.bridges[bi];
            let caller_ok = vec_contains_str(&instance_list, b.caller_id.as_str());
            let callee_ok = vec_contains_str(&instance_list, b.callee_id.as_str());
            proof {
                crate::strutil::lemma_str_views_contains(instance_list@, b.caller_id@);
                crate::strutil::lemma_str_views_contains(instance_list@, b.callee_id@);
            }
            if !caller_ok || !callee_ok {
                let caller_id = b.caller_id.clone();
                let callee_id = b.callee_id.clone();
                proof {
                    assert(!instance_ids(*self).contains(self.bridges@[bi as int].caller_id@)
                        || !instance_ids(*self).contains(self.bridges@[bi as int].callee_id@));
                    assert(!bridge_refs_ok(*self));
                    assert((self.bridges@[bi as int]).caller_id@ == caller_id@
                        && self.bridges@[bi as int].callee_id@ == callee_id@);
                }
                return Err(ConfigError::UnknownBridgeInstance { caller_id, callee_id });
            }
            if str_eq(b.caller_id.as_str(), b.callee_id.as_str()) {
                let instance_id = b.caller_id.clone();
                proof {
                    assert((self.bridges@[bi as int]).caller_id@ == instance_id@
                        && self.bridges@[bi as int].callee_id@ == instance_id@);
                    assert(!bridge_refs_ok(*self));
                }
                return Err(ConfigError::SelfBridge { instance_id });
            }
            proof {
                assert(instance_ids(*self).contains(self.bridges@[bi as int].caller_id@));
                assert(instance_ids(*self).contains(self.bridges@[bi as int].callee_id@));
                assert(self.bridges@[bi as int].caller_id@ != self.bridges@[bi as int].callee_id@);
            }
            bi += 1;
        }
        let mut ii: usize = 0;
        while ii < self.interfaces.len()
            invariant
                ii <= self.interfaces@.len(),
                str_views(instance_list@) == instance_ids(*self),
                forall|j: int, k: int|
                    0 <= j < ii && 0 <= k < self.interfaces@[j].instances@.len()
                        ==> instance_ids(*self).contains(
                        #[trigger] self.interfaces@[j].instances@[k]@,
                    ),
            decreases self.interfaces@.len() - ii,
        {
            let iface = &self.interfaces[ii];
            let mut k: usize = 0;
            while k < iface.instances.len()
                invariant
                    ii < self.interfaces@.len(),
                    *iface == self.interfaces@[ii as int],
                    k <= iface.instances@.len(),
                    str_views(instance_list@) == instance_ids(*self),
                    forall|m: int|
                        0 <= m < k ==> instance_ids(*self).contains(
                            #[trigger] self.interfaces@[ii as int].instances@[m]@,
                        ),
                decreases iface.instances@.len() - k,
            {
                let present = vec_contains_str(&instance_list, iface.instances[k].as_str());
                proof {
                    crate::strutil::lemma_str_views_contains(
                        instance_list@,
                        iface.instances@[k as int]@,
                    );
                }
                if !present {
                    let interface_id = iface.id.clone();
                    let instance_id = iface.instances[k].clone();
                    proof {
                        assert(!instance_ids(*self).contains(
                            self.interfaces@[ii as int].instances@[k as int]@,
                        ));
                        assert(!interface_refs_ok(*self));
                        assert((self.interfaces@[ii as int]).id@ == interface_id@
                            && (self.interfaces@[ii as int].instances@[k as int]@)
                            == instance_id@);
                    }
                    return Err(ConfigError::UnknownInterfaceInstance {
                        interface_id,
                        instance_id,
                    });
                }
                proof {
                    assert(instance_ids(*self).contains(
                        self.interfaces@[ii as int].instances@[k as int]@,
                    ));
                }
                k += 1;
            }
            ii += 1;
        }
        topo::topo_sort(self)
    }
}

} // verus!
