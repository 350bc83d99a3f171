use container_api::config::{
    AgentConfiguration, Bridge, Configuration, DnaConfiguration, InstanceConfiguration,
    InterfaceConfiguration, InterfaceDriver, LoggerConfiguration, StorageConfiguration,
};
use container_api::error::{ConfigError, IdKind};

fn agent(id: &str) -> AgentConfiguration {
    AgentConfiguration {
        id: id.to_string(),
        name: format!("Holo Tester {}", id),
        public_address: "HoloTester1-----------------------------------------------------------------------AAACZp4xHB".to_string(),
        key_file: "holo_tester.key".to_string(),
    }
}

fn dna(id: &str, file: &str) -> DnaConfiguration {
    DnaConfiguration { id: id.to_string(), file: file.to_string(), hash: "Qm328wyq38924y".to_string() }
}

fn instance(id: &str, dna_id: &str, agent_id: &str) -> InstanceConfiguration {
    InstanceConfiguration {
        id: id.to_string(),
        dna: dna_id.to_string(),
        agent: agent_id.to_string(),
        storage: StorageConfiguration::Memory,
    }
}

fn bridge(caller: &str, callee: &str, handle: &str) -> Bridge {
    Bridge { caller_id: caller.to_string(), callee_id: callee.to_string(), handle: handle.to_string() }
}

fn abc_config() -> Configuration {
    Configuration {
        agents: vec![agent("a1"), agent("a2"), agent("a3")],
        dnas: vec![dna("dna-a", "a.dna"), dna("dna-b", "b.dna"), dna("dna-c", "c.dna")],
        instances: vec![
            instance("A", "dna-a", "a1"),
            instance("B", "dna-b", "a2"),
            instance("C", "dna-c", "a3"),
        ],
        bridges: vec![
            bridge("B", "A", "DPKI"),
            bridge("C", "B", "happ-store"),
            bridge("C", "A", "test-callee"),
        ],
        interfaces: vec![],
        network: None,
        logger: LoggerConfiguration { logger_type: "simple".to_string() },
    }
}

fn order_of(config: &Configuration) -> Vec<String> {
    config.check_consistency().expect("configuration must be consistent")
}

#[test]
fn happy_topo_order() {
    let order = order_of(&abc_config());
    assert_eq!(order, vec!["A".to_string(), "B".to_string(), "C".to_string()]);
}

#[test]
fn topo_breaks_ties_lexicographically() {
    let mut config = abc_config();
    config.bridges = vec![];
    config.instances = vec![
        instance("zeta", "dna-a", "a1"),
        instance("alpha", "dna-b", "a2"),
        instance("mid", "dna-c", "a3"),
    ];
    let order = order_of(&config);
    assert_eq!(order, vec!["alpha".to_string(), "mid".to_string(), "zeta".to_string()]);
}

#[test]
fn bridge_cycle_rejected() {
    let mut config = abc_config();
    config.bridges.push(bridge("A", "C", "back-edge"));
    match config.check_consistency() {
        Err(ConfigError::BridgeCycle { involved_ids }) => {
            assert_eq!(involved_ids.len(), 3);
            assert!(involved_ids.contains(&"A".to_string()));
            assert!(involved_ids.contains(&"B".to_string()));
            assert!(involved_ids.contains(&"C".to_string()));
        }
        other => panic!("expected a bridge cycle, got {:?}", other),
    }
}

#[test]
fn bridge_unknown_callee_rejected() {
    let mut config = abc_config();
    config.bridges.push(bridge("A", "ghost", "nowhere"));
    assert_eq!(
        config.check_consistency(),
        Err(ConfigError::UnknownBridgeInstance {
            caller_id: "A".to_string(),
            callee_id: "ghost".to_string(),
        })
    );
}

#[test]
fn self_bridge_rejected() {
    let mut config = abc_config();
    config.bridges.push(bridge("A", "A", "selfie"));
    assert_eq!(
        config.check_consistency(),
        Err(ConfigError::SelfBridge { instance_id: "A".to_string() })
    );
}

#[test]
fn interface_unknown_instance_rejected() {
    let mut config = abc_config();
    config.interfaces.push(InterfaceConfiguration {
        id: "ws".to_string(),
        driver: InterfaceDriver::Websocket { port: 8888 },
        instances: vec!["A".to_string(), "ghost".to_string()],
    });
    assert_eq!(
        config.check_consistency(),
        Err(ConfigError::UnknownInterfaceInstance {
            interface_id: "ws".to_string(),
            instance_id: "ghost".to_string(),
        })
    );
}

#[test]
fn duplicate_instance_id_rejected() {
    let mut config = abc_config();
    config.instances.push(instance("A", "dna-a", "a1"));
    assert_eq!(
        config.check_consistency(),
        Err(ConfigError::DuplicateId { kind: IdKind::Instance, id: "A".to_string() })
    );
}

#[test]
fn unknown_agent_rejected() {
    let mut config = abc_config();
    config.instances.push(instance("D", "dna-a", "ghost-agent"));
    assert_eq!(
        config.check_consistency(),
        Err(ConfigError::UnknownAgent {
            instance_id: "D".to_string(),
            agent_id: "ghost-agent".to_string(),
        })
    );
}

#[test]
fn unknown_dna_rejected() {
    let mut config = abc_config();
    config.instances.push(instance("D", "ghost-dna", "a1"));
    assert_eq!(
        config.check_consistency(),
        Err(ConfigError::UnknownDna {
            instance_id: "D".to_string(),
            dna_id: "ghost-dna".to_string(),
        })
    );
}

#[test]
fn lookups_find_first_declaration() {
    let config = abc_config();
    assert_eq!(config.instance_by_id("B").map(|i| i.dna.clone()), Some("dna-b".to_string()));
    assert!(config.instance_by_id("ghost").is_none());
    assert_eq!(config.agent_by_id("a2").map(|a| a.id.clone()), Some("a2".to_string()));
    assert_eq!(config.dna_by_id("dna-c").map(|d| d.file.clone()), Some("c.dna".to_string()));
    let callers = config.bridges_where_caller("C");
    assert_eq!(callers, vec![1, 2]);
}
