use base64::Engine;
use exex_examples::wasm_registry::{module_bytecode, Needed, RpcMessage, WasmRegistry};

fn install(name: &str) -> RpcMessage {
    RpcMessage::Install(name.to_string(), "AGFzbQEAAAA=".to_string())
}

#[test]
fn rpc_message_texts() {
    assert_eq!(install("hello").to_string(), "install hello with bytecode of length 12");
    assert_eq!(
        RpcMessage::Install("x".to_string(), "é".to_string()).to_string(),
        "install x with bytecode of length 2"
    );
    assert_eq!(RpcMessage::Start("hello".to_string()).to_string(), "start hello");
    assert_eq!(RpcMessage::Stop("hello".to_string()).to_string(), "stop hello");
}

#[test]
fn install_start_stop() {
    let mut reg = WasmRegistry::new();
    let start = RpcMessage::Start("hello".to_string());
    let stop = RpcMessage::Stop("hello".to_string());

    assert_eq!(reg.needs(&start), Needed::Nothing);
    assert_eq!(
        reg.handle_rpc_message(&start, Ok(())),
        Err("ExEx hello not installed".to_string())
    );

    assert_eq!(reg.needs(&install("hello")), Needed::Module);
    assert_eq!(reg.handle_rpc_message(&install("hello"), Ok(())), Ok(()));
    assert!(reg.is_installed("hello"));
    assert!(!reg.is_running("hello"));

    assert_eq!(reg.needs(&start), Needed::Instance);
    assert_eq!(reg.handle_rpc_message(&start, Ok(())), Ok(()));
    assert!(reg.is_running("hello"));
    assert_eq!(reg.running_names(), vec!["hello".to_string()]);

    assert_eq!(reg.needs(&stop), Needed::Nothing);
    assert_eq!(reg.handle_rpc_message(&stop, Ok(())), Ok(()));
    assert!(!reg.is_running("hello"));
    assert!(reg.is_installed("hello"));
    assert_eq!(
        reg.handle_rpc_message(&stop, Ok(())),
        Err("no running exex found for hello".to_string())
    );
}

#[test]
fn host_failures_are_reported_and_change_nothing() {
    let mut reg = WasmRegistry::new();
    assert_eq!(
        reg.handle_rpc_message(&install("bad"), Err("invalid wasm".to_string())),
        Err("failed to create module for bad: invalid wasm".to_string())
    );
    assert!(!reg.is_installed("bad"));

    assert_eq!(reg.handle_rpc_message(&install("ok"), Ok(())), Ok(()));
    assert_eq!(
        reg.handle_rpc_message(&RpcMessage::Start("ok".to_string()), Err("no memory".to_string())),
        Err("failed to create exex for ok: no memory".to_string())
    );
    assert!(!reg.is_running("ok"));
}

#[test]
fn names_are_held_once() {
    let mut reg = WasmRegistry::new();
    assert_eq!(reg.handle_rpc_message(&install("a"), Ok(())), Ok(()));
    assert_eq!(reg.handle_rpc_message(&install("a"), Ok(())), Ok(()));
    assert_eq!(reg.handle_rpc_message(&RpcMessage::Start("a".to_string()), Ok(())), Ok(()));
    assert_eq!(reg.handle_rpc_message(&RpcMessage::Start("a".to_string()), Ok(())), Ok(()));
    assert_eq!(reg.running_names(), vec!["a".to_string()]);
    assert_eq!(reg.handle_rpc_message(&RpcMessage::Stop("a".to_string()), Ok(())), Ok(()));
    assert!(reg.running_names().is_empty());
}

#[test]
fn install_requests_carry_base64_modules() {
    let module = vec![0x00u8, 0x61, 0x73, 0x6d, 0x01, 0x00, 0x00, 0x00];
    let install = RpcMessage::Install("hello".to_string(), base64::prelude::BASE64_STANDARD.encode(&module));
    assert_eq!(module_bytecode(&install), Some(Ok(module)));
    let broken = RpcMessage::Install("hello".to_string(), "not base64!".to_string());
    assert!(matches!(module_bytecode(&broken), Some(Err(_))));
    assert_eq!(module_bytecode(&RpcMessage::Start("hello".to_string())), None);
}
