use container_api::config::{
    AgentConfiguration, Bridge, Configuration, DnaConfiguration, InstanceConfiguration,
    InterfaceConfiguration, InterfaceDriver, LoggerConfiguration, StorageConfiguration,
};
use container_api::container::Container;
use container_api::dna::{Capability, Dna, DnaLoader};
use container_api::error::ConfigError;
use container_api::rpc::{call_outcome, RpcDispatch, RpcError};
use container_api::workflow::{
    get_entry_result_step, get_entry_result_workflow, get_entry_with_meta_workflow, CrudStatus,
    EntryWithMeta, GetEntryArgs, GetEntryOptions, LookupOutcome, StatusRequestKind,
};

fn agent(id: &str) -> AgentConfiguration {
    AgentConfiguration {
        id: id.to_string(),
        name: format!("Holo Tester {}", id),
        public_address: "HoloTester1-----------------------------------------------------------------------AAACZp4xHB".to_string(),
        key_file: "holo_tester.key".to_string(),
    }
}

fn test_configuration() -> Configuration {
    Configuration {
        agents: vec![agent("test-agent-1"), agent("test-agent-2"), agent("test-agent-3")],
        dnas: vec![
            DnaConfiguration {
                id: "test-dna".to_string(),
                file: "app_spec.hcpkg".to_string(),
                hash: "Qm328wyq38924y".to_string(),
            },
            DnaConfiguration {
                id: "bridge-callee".to_string(),
                file: "bridge/callee.dna".to_string(),
                hash: "Qm328wyq38924y".to_string(),
            },
            DnaConfiguration {
                id: "bridge-caller".to_string(),
                file: "bridge/caller.dna".to_string(),
                hash: "Qm328wyq38924y".to_string(),
            },
        ],
        instances: vec![
            InstanceConfiguration {
                id: "test-instance-1".to_string(),
                dna: "bridge-callee".to_string(),
                agent: "test-agent-1".to_string(),
                storage: StorageConfiguration::Memory,
            },
            InstanceConfiguration {
                id: "test-instance-2".to_string(),
                dna: "test-dna".to_string(),
                agent: "test-agent-2".to_string(),
                storage: StorageConfiguration::Memory,
            },
            InstanceConfiguration {
                id: "bridge-caller".to_string(),
                dna: "bridge-caller".to_string(),
                agent: "test-agent-3".to_string(),
                storage: StorageConfiguration::Memory,
            },
        ],
        bridges: vec![
            Bridge {
                caller_id: "test-instance-2".to_string(),
                callee_id: "test-instance-1".to_string(),
                handle: "DPKI".to_string(),
            },
            Bridge {
                caller_id: "bridge-caller".to_string(),
                callee_id: "test-instance-2".to_string(),
                handle: "happ-store".to_string(),
            },
            Bridge {
                caller_id: "bridge-caller".to_string(),
                callee_id: "test-instance-1".to_string(),
                handle: "test-callee".to_string(),
            },
        ],
        interfaces: vec![InterfaceConfiguration {
            id: "test-interface".to_string(),
            driver: InterfaceDriver::Websocket { port: 8888 },
            instances: vec!["test-instance-1".to_string(), "test-instance-2".to_string()],
        }],
        network: None,
        logger: LoggerConfiguration { logger_type: "debug".to_string() },
    }
}

struct TestDnaLoader;

impl DnaLoader for TestDnaLoader {
    fn load_dna(&mut self, _file: &str) -> Result<Dna, ConfigError> {
        Ok(Dna {
            name: "my dna".to_string(),
            uuid: "basic_bridge_call".to_string(),
            capabilities: vec![Capability {
                name: "greeter".to_string(),
                functions: vec!["hello".to_string(), "call_bridge".to_string()],
            }],
        })
    }
}

fn test_container() -> Container {
    let mut container = Container::from_config(test_configuration());
    let mut loader = TestDnaLoader;
    container.load_config(&mut loader, None).expect("test config must be sane");
    container
}

/// A stand-in for the bytecode engine: the callee's `hello` produces the
/// greeting; everything else is unknown.
fn run_module_function(dna: &Dna, capability: &str, function: &str) -> Result<String, String> {
    if !dna.declares(capability, function) {
        return Err(format!("function not declared: {}/{}", capability, function));
    }
    if function == "hello" {
        Ok("Holo World".to_string())
    } else {
        Err("no behaviour defined".to_string())
    }
}

#[test]
fn test_rpc_info_instances() {
    let container = test_container();
    let interface_config = &container.config().interfaces[0];
    let io = container.make_interface_handler(interface_config);

    match io.dispatch_method("info/instances") {
        RpcDispatch::InstanceList(ids) => {
            assert!(ids.contains(&"test-instance-1".to_string()));
            assert!(ids.contains(&"test-instance-2".to_string()));
            assert!(!ids.contains(&"bridge-caller".to_string()));
        }
        other => panic!("No response returned for info/instances: {:?}", other),
    }
}

#[test]
fn info_instances_renders_json_response() {
    let container = test_container();
    let io = container.make_interface_handler(&container.config().interfaces[0]);
    let response = io.info_instances_response("1");
    assert_eq!(
        response,
        "{\"jsonrpc\":\"2.0\",\"result\":[\"test-instance-1\",\"test-instance-2\"],\"id\":1}"
    );
    assert!(response.contains("test-instance-1"));
    assert!(response.contains("test-instance-2"));
    assert!(!response.contains("bridge-caller"));
}

#[test]
fn dispatch_routes_namespaced_methods() {
    let container = test_container();
    let io = container.make_interface_handler(&container.config().interfaces[0]);

    match io.dispatch_method("test-instance-1/greeter/hello") {
        RpcDispatch::CallForward { instance_id, capability, function } => {
            assert_eq!(instance_id, "test-instance-1");
            assert_eq!(capability, "greeter");
            assert_eq!(function, "hello");
        }
        other => panic!("expected a call forward, got {:?}", other),
    }
    assert_eq!(io.dispatch_method("bridge-caller/greeter/hello"), RpcDispatch::MethodNotFound);
    assert_eq!(io.dispatch_method("test-instance-1/hello"), RpcDispatch::MethodNotFound);
    assert_eq!(io.dispatch_method("no-slashes-here"), RpcDispatch::MethodNotFound);
    assert_eq!(io.dispatch_method("a/b/c/d"), RpcDispatch::MethodNotFound);
}

#[test]
fn basic_bridge_call_roundtrip() {
    let container = test_container();
    let caller = container
        .instances()
        .get("bridge-caller")
        .expect("Instances must be spawnable");
    assert!(caller.dna.declares("greeter", "call_bridge"));

    let callee_id = caller
        .context
        .bridge_callee("test-callee")
        .expect("bridge must be bound in the caller's call-table")
        .clone();
    assert_eq!(callee_id, "test-instance-1");

    let callee = container
        .instances()
        .get(&callee_id)
        .expect("callee must be registered before its caller");
    let result = run_module_function(&callee.dna, "greeter", "hello").unwrap();

    assert_eq!(result, "Holo World".to_string());
}

#[test]
fn instance_errors_map_to_internal_error() {
    assert_eq!(call_outcome(Ok("fine".to_string())), Ok("fine".to_string()));
    assert_eq!(
        call_outcome(Err("boom".to_string())),
        Err(RpcError::InternalError { message: "boom".to_string() })
    );
}

#[test]
fn entry_lookup_prefers_local() {
    let entry = EntryWithMeta {
        entry: "content".to_string(),
        crud_status: CrudStatus::Live,
        maybe_crud_link: None,
    };
    assert_eq!(
        get_entry_with_meta_workflow(Some(entry.clone())),
        LookupOutcome::Found(entry)
    );
    assert_eq!(get_entry_with_meta_workflow(None), LookupOutcome::FetchNetwork);
}

#[test]
fn entry_result_workflow_rejects_sources_and_header() {
    let args = GetEntryArgs {
        address: "addr-0".to_string(),
        options: GetEntryOptions {
            status_request: StatusRequestKind::Latest,
            sources: true,
            header: false,
        },
    };
    assert!(get_entry_result_workflow(&args).is_err());
}

#[test]
fn entry_result_workflow_follows_crud_links() {
    let args = GetEntryArgs {
        address: "addr-0".to_string(),
        options: GetEntryOptions {
            status_request: StatusRequestKind::All,
            sources: false,
            header: false,
        },
    };
    let st = get_entry_result_workflow(&args).unwrap();
    assert_eq!(st.next_address.as_deref(), Some("addr-0"));

    let first = EntryWithMeta {
        entry: "v1".to_string(),
        crud_status: CrudStatus::Modified,
        maybe_crud_link: Some("addr-1".to_string()),
    };
    let st = get_entry_result_step(st, Some(first));
    assert_eq!(st.next_address.as_deref(), Some("addr-1"));
    assert_eq!(st.result.entries.len(), 1);

    let second = EntryWithMeta {
        entry: "v2".to_string(),
        crud_status: CrudStatus::Live,
        maybe_crud_link: None,
    };
    let st = get_entry_result_step(st, Some(second));
    assert!(st.next_address.is_none());
    assert_eq!(st.result.entries.len(), 2);
    assert_eq!(st.result.entries[0].entry, "v1");
    assert_eq!(st.result.entries[1].entry, "v2");
}

#[test]
fn entry_result_workflow_latest_deleted_clears_history() {
    let args = GetEntryArgs {
        address: "addr-0".to_string(),
        options: GetEntryOptions {
            status_request: StatusRequestKind::Latest,
            sources: false,
            header: false,
        },
    };
    let st = get_entry_result_workflow(&args).unwrap();
    let live = EntryWithMeta {
        entry: "v1".to_string(),
        crud_status: CrudStatus::Live,
        maybe_crud_link: Some("addr-1".to_string()),
    };
    let st = get_entry_result_step(st, Some(live));
    assert_eq!(st.result.entries.len(), 1);
    assert_eq!(st.next_address.as_deref(), Some("addr-1"));

    let deleted = EntryWithMeta {
        entry: "v2".to_string(),
        crud_status: CrudStatus::Deleted,
        maybe_crud_link: None,
    };
    let st = get_entry_result_step(st, Some(deleted));
    assert!(st.next_address.is_none());
    assert_eq!(st.result.entries.len(), 0);
}

#[test]
fn entry_result_workflow_initial_stops_after_first() {
    let args = GetEntryArgs {
        address: "addr-0".to_string(),
        options: GetEntryOptions {
            status_request: StatusRequestKind::Initial,
            sources: false,
            header: false,
        },
    };
    let st = get_entry_result_workflow(&args).unwrap();
    let entry = EntryWithMeta {
        entry: "v1".to_string(),
        crud_status: CrudStatus::Live,
        maybe_crud_link: Some("addr-1".to_string()),
    };
    let st = get_entry_result_step(st, Some(entry));
    assert!(st.next_address.is_none());
    assert_eq!(st.result.entries.len(), 1);
}
