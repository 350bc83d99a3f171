use container_api::config::{
    AgentConfiguration, Bridge, Configuration, DnaConfiguration, InstanceConfiguration,
    InterfaceConfiguration, InterfaceDriver, LoggerConfiguration, NetworkConfiguration,
    StorageConfiguration,
};
use container_api::container::{Container, NetworkChildState, Signal};
use container_api::dna::{Capability, Dna, DnaLoader};
use container_api::error::{ConfigError, ContainerError, Precondition};

fn agent(id: &str) -> AgentConfiguration {
    AgentConfiguration {
        id: id.to_string(),
        name: format!("Holo Tester {}", id),
        public_address: "HoloTester1-----------------------------------------------------------------------AAACZp4xHB".to_string(),
        key_file: "holo_tester.key".to_string(),
    }
}

fn dna_config(id: &str, file: &str) -> DnaConfiguration {
    DnaConfiguration { id: id.to_string(), file: file.to_string(), hash: "Qm328wyq38924y".to_string() }
}

fn instance(id: &str, dna_id: &str, agent_id: &str) -> InstanceConfiguration {
    InstanceConfiguration {
        id: id.to_string(),
        dna: dna_id.to_string(),
        agent: agent_id.to_string(),
        storage: StorageConfiguration::Memory,
    }
}

fn bridge(caller: &str, callee: &str, handle: &str) -> Bridge {
    Bridge { caller_id: caller.to_string(), callee_id: callee.to_string(), handle: handle.to_string() }
}

/// The test configuration: three agents, three modules, three instances,
/// two interfaces sharing one id, and three bridges.
fn test_configuration() -> Configuration {
    Configuration {
        agents: vec![agent("test-agent-1"), agent("test-agent-2"), agent("test-agent-3")],
        dnas: vec![
            dna_config("test-dna", "app_spec.hcpkg"),
            dna_config("bridge-callee", "bridge/callee.dna"),
            dna_config("bridge-caller", "bridge/caller.dna"),
        ],
        instances: vec![
            InstanceConfiguration {
                id: "test-instance-1".to_string(),
                dna: "bridge-callee".to_string(),
                agent: "test-agent-1".to_string(),
                storage: StorageConfiguration::Memory,
            },
            instance("test-instance-2", "test-dna", "test-agent-2"),
            instance("bridge-caller", "bridge-caller", "test-agent-3"),
        ],
        bridges: vec![
            bridge("test-instance-2", "test-instance-1", "DPKI"),
            bridge("bridge-caller", "test-instance-2", "happ-store"),
            bridge("bridge-caller", "test-instance-1", "test-callee"),
        ],
        interfaces: vec![
            InterfaceConfiguration {
                id: "test-interface".to_string(),
                driver: InterfaceDriver::Websocket { port: 8888 },
                instances: vec!["test-instance-1".to_string(), "test-instance-2".to_string()],
            },
            InterfaceConfiguration {
                id: "test-interface".to_string(),
                driver: InterfaceDriver::Http { port: 4000 },
                instances: vec!["test-instance-1".to_string(), "test-instance-2".to_string()],
            },
        ],
        network: None,
        logger: LoggerConfiguration { logger_type: "debug".to_string() },
    }
}

struct TestDnaLoader {
    fail_file: Option<String>,
}

impl DnaLoader for TestDnaLoader {
    fn load_dna(&mut self, file: &str) -> Result<Dna, ConfigError> {
        if let Some(f) = &self.fail_file {
            if f == file {
                return Err(ConfigError::DnaLoad { file: file.to_string() });
            }
        }
        Ok(Dna {
            name: "my dna".to_string(),
            uuid: "00000000-0000-0000-0000-000000000001".to_string(),
            capabilities: vec![Capability {
                name: "greeter".to_string(),
                functions: vec!["hello".to_string(), "call_bridge".to_string()],
            }],
        })
    }
}

fn test_loader() -> TestDnaLoader {
    TestDnaLoader { fail_file: None }
}

fn test_container() -> Container {
    let mut container = Container::from_config(test_configuration());
    let mut loader = test_loader();
    container.load_config(&mut loader, None).expect("test configuration must load");
    container
}

fn registry_id_vec(container: &Container) -> Vec<String> {
    container.instances().items.iter().map(|i| i.id.clone()).collect()
}

#[test]
fn test_container_load_config() {
    let mut container = test_container();
    assert_eq!(container.instances().len(), 3);

    container.start_all_instances().unwrap();
    container.start_all_interfaces();
    container.stop_all_instances().unwrap();
}

#[test]
fn test_container_try_from_configuration() {
    let config = test_configuration();
    let mut loader = TestDnaLoader { fail_file: Some("bridge/callee.dna".to_string()) };

    let maybe_container = Container::try_from(config, &mut loader);

    assert!(maybe_container.is_err());
    assert_eq!(
        maybe_container.err().unwrap(),
        ContainerError::Load {
            instance_id: "test-instance-1".to_string(),
            cause: ConfigError::DnaLoad { file: "bridge/callee.dna".to_string() },
        }
    );
}

#[test]
fn load_builds_in_topological_order() {
    let container = test_container();
    assert_eq!(
        registry_id_vec(&container),
        vec![
            "test-instance-1".to_string(),
            "test-instance-2".to_string(),
            "bridge-caller".to_string(),
        ]
    );
}

#[test]
fn load_twice_yields_identical_registry() {
    let mut container = test_container();
    let first = registry_id_vec(&container);
    let mut loader = test_loader();
    container.load_config(&mut loader, None).expect("second load must succeed");
    assert_eq!(registry_id_vec(&container), first);
    assert_eq!(container.instances().len(), 3);
}

#[test]
fn shutdown_twice_is_noop() {
    let mut container = test_container();
    assert_eq!(container.shutdown(), Ok(()));
    assert_eq!(container.instances().len(), 0);
    assert_eq!(container.shutdown(), Ok(()));
    assert_eq!(container.instances().len(), 0);
}

#[test]
fn signal_channel_after_load_is_precondition_violation() {
    let container = test_container();
    match container.with_signal_channel() {
        Err(ContainerError::PreconditionViolation { what }) => {
            assert_eq!(what, Precondition::SignalChannelBeforeLoad);
        }
        _ => panic!("attaching a signal sink after load must fail loudly"),
    }
}

#[test]
fn test_container_signal_handler() {
    let container = Container::from_config(test_configuration())
        .with_signal_channel()
        .expect("attaching before load is legal");
    let mut container = container;
    let mut loader = test_loader();
    container.load_config(&mut loader, None).expect("load must succeed");

    let signals = container.signals.as_ref().expect("sink must be attached");
    assert_eq!(signals.len(), 6);
    let expected_order =
        ["test-instance-1", "test-instance-2", "bridge-caller"];
    for (k, id) in expected_order.iter().enumerate() {
        assert_eq!(
            signals[2 * k],
            Signal::InitApplication { instance_id: id.to_string() }
        );
        assert_eq!(signals[2 * k + 1], Signal::InitNetwork { instance_id: id.to_string() });
    }
}

#[test]
fn second_interface_with_same_id_already_running() {
    let mut container = test_container();
    container.start_interface_by_id("test-interface").expect("first start must succeed");
    assert_eq!(container.running_interfaces, vec!["test-interface".to_string()]);
    let second = container.config().interfaces[1].clone();
    assert_eq!(
        container.start_interface(&second),
        Err(ContainerError::InterfaceAlreadyRunning { id: "test-interface".to_string() })
    );
    assert_eq!(container.running_interfaces, vec!["test-interface".to_string()]);
}

#[test]
fn first_declaration_wins_for_duplicate_interface_ids() {
    let mut config = test_configuration();
    config.interfaces[1].instances = vec!["test-instance-2".to_string()];
    let mut container = Container::from_config(config.clone());
    let mut loader = test_loader();
    container.load_config(&mut loader, None).expect("load must succeed");
    let routers = container.start_all_interfaces();
    assert_eq!(routers.len(), 1);
    assert_eq!(
        routers[0].instances,
        vec!["test-instance-1".to_string(), "test-instance-2".to_string()]
    );

    let mut by_id = Container::from_config(config);
    let mut loader = test_loader();
    by_id.load_config(&mut loader, None).expect("load must succeed");
    let router = by_id.start_interface_by_id("test-interface").expect("id is configured");
    assert_eq!(
        router.instances,
        vec!["test-instance-1".to_string(), "test-instance-2".to_string()]
    );
}

#[test]
fn exposure_keeps_listed_order_and_multiplicity() {
    let mut config = test_configuration();
    config.interfaces[0].instances = vec![
        "test-instance-2".to_string(),
        "test-instance-1".to_string(),
        "test-instance-2".to_string(),
    ];
    let mut container = Container::from_config(config);
    let mut loader = test_loader();
    container.load_config(&mut loader, None).expect("load must succeed");
    let router = container.make_interface_handler(&container.config().interfaces[0]);
    assert_eq!(
        router.instances,
        vec![
            "test-instance-2".to_string(),
            "test-instance-1".to_string(),
            "test-instance-2".to_string(),
        ]
    );

    let empty = Container::from_config(test_configuration());
    let router = empty.make_interface_handler(&empty.config().interfaces[0]);
    assert!(router.instances.is_empty());
}

#[test]
fn unknown_interface_not_found() {
    let mut container = test_container();
    assert_eq!(
        container.start_interface_by_id("ghost"),
        Err(ContainerError::InterfaceNotFound { id: "ghost".to_string() })
    );
}

#[test]
fn start_all_interfaces_dedupes_ids() {
    let mut container = test_container();
    let routers = container.start_all_interfaces();
    assert_eq!(routers.len(), 1);
    assert_eq!(container.running_interfaces, vec!["test-interface".to_string()]);
}

#[test]
fn network_helper_killed_at_most_once() {
    let mut container = Container::from_config(test_configuration());
    assert_eq!(container.network_child, NetworkChildState::NotSpawned);
    assert!(!container.kill_network());
    container.record_network_spawn();
    assert_eq!(container.network_child, NetworkChildState::Running);
    assert!(container.kill_network());
    assert!(!container.kill_network());
    assert_eq!(container.network_child, NetworkChildState::Killed);
}

#[test]
fn spawn_command_carries_helper_environment() {
    let mut config = test_configuration();
    config.network = Some(NetworkConfiguration {
        helper_path: "/opt/helper/bin/helper".to_string(),
        mode: "HACK_MODE".to_string(),
        work_dir: "/tmp/helper-work".to_string(),
        explicit_ipc_uri: None,
        bootstrap_nodes: vec!["node-one".to_string()],
    });
    let container = Container::from_config(config);
    assert!(container.needs_network_spawn());
    let cmd = container.spawn_network_command().expect("network is configured");
    assert_eq!(cmd.program, "/opt/helper/bin/helper");
    assert_eq!(cmd.work_dir, "/tmp/helper-work");
    assert_eq!(cmd.mode, "HACK_MODE");
    assert_eq!(cmd.ipc_socket, "tcp://127.0.0.1:*");
}

#[test]
fn spawn_command_without_network_refused() {
    let container = Container::from_config(test_configuration());
    assert!(!container.needs_network_spawn());
    assert_eq!(container.spawn_network_command(), Err(ContainerError::NetworkNotConfigured));
}

#[test]
fn explicit_ipc_uri_wins_over_spawned() {
    let mut config = test_configuration();
    config.network = Some(NetworkConfiguration {
        helper_path: "/opt/helper/bin/helper".to_string(),
        mode: "HACK_MODE".to_string(),
        work_dir: "/tmp/helper-work".to_string(),
        explicit_ipc_uri: Some("tcp://127.0.0.1:4444".to_string()),
        bootstrap_nodes: vec![],
    });
    let mut container = Container::from_config(config);
    assert!(!container.needs_network_spawn());
    let mut loader = test_loader();
    container
        .load_config(&mut loader, Some("tcp://127.0.0.1:9999".to_string()))
        .expect("load must succeed");
    match container.p2p_endpoint.as_ref().expect("endpoint settled on first load") {
        container_api::context::P2pEndpoint::Ipc { uri, .. } => {
            assert_eq!(uri.as_deref(), Some("tcp://127.0.0.1:4444"));
        }
        other => panic!("expected an IPC endpoint, got {:?}", other),
    }
}

#[test]
fn loaded_instances_start_stopped_and_share_state() {
    let mut container = test_container();
    for item in &container.instances().items {
        assert!(!item.running);
        assert!(item.context.has_signals == false);
    }
    container.start_all_instances().unwrap();
    for item in &container.instances().items {
        assert!(item.running);
    }
    assert_eq!(
        container.start_all_instances(),
        Err(container_api::error::InstanceError::InstanceAlreadyActive {
            instance_id: "test-instance-1".to_string()
        })
    );
}
