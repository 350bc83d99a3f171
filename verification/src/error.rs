//! Error values of the container. Every error carries the identifiers it is
//! about as plain fields, so callers and contracts can speak of them exactly.

use vstd::prelude::*;

verus! {

/// A failure of the configuration validator.
#[derive(Debug, Clone, PartialEq, Eq)]
pub enum ConfigError {
    /// Two descriptors of the same kind share an id; `kind` names the kind.
    DuplicateId { kind: IdKind, id: String },
    /// An instance names an agent that is not declared.
    UnknownAgent { instance_id: String, agent_id: String },
    /// An instance names a module that is not declared.
    UnknownDna { instance_id: String, dna_id: String },
    /// A bridge endpoint names an instance that is not declared.
    UnknownBridgeInstance { caller_id: String, callee_id: String },
    /// A bridge whose caller and callee are the same instance.
    SelfBridge { instance_id: String },
    /// An interface exposes an instance that is not declared.
    UnknownInterfaceInstance { interface_id: String, instance_id: String },
    /// The bridge graph has a directed cycle; `involved_ids` are the
    /// instances that could not be ordered.
    BridgeCycle { involved_ids: Vec<String> },
    /// The module loader could not produce an artifact for this file.
    DnaLoad { file: String },
}

/// The kind of descriptor a duplicate id was found in.
#[derive(Debug, Clone, Copy, PartialEq, Eq, Structural)]
pub enum IdKind {
    Agent,
    Dna,
    Instance,
    Interface,
}

/// A runtime fault reported by an instance.
#[derive(Debug, Clone, PartialEq, Eq)]
pub enum InstanceError {
    /// `start` was issued to an instance that is already running.
    InstanceAlreadyActive { instance_id: String },
}

/// Any failure surfaced by the container itself.
#[derive(Debug, Clone, PartialEq, Eq)]
pub enum ContainerError {
    /// The configuration was rejected by the validator.
    Config(ConfigError),
    /// A specific instance could not be constructed during `load_config`.
    Load { instance_id: String, cause: ConfigError },
    /// The networking sidecar was asked for although no network is configured.
    NetworkNotConfigured,
    /// An instance id that the configuration does not declare.
    InstanceNotConfigured { id: String },
    /// An instance reported a fault during start or stop.
    Instance(InstanceError),
    /// An interface with this id is already running.
    InterfaceAlreadyRunning { id: String },
    /// No interface with this id is configured.
    InterfaceNotFound { id: String },
    /// The caller broke an ordering contract.
    PreconditionViolation { what: Precondition },
}

/// The ordering contracts a caller can break.
#[derive(Debug, Clone, Copy, PartialEq, Eq, Structural)]
pub enum Precondition {
    /// A signal sink may only be attached before the first successful load.
    SignalChannelBeforeLoad,
}

} // verus!
