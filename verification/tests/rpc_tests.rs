use lapce_plugin::IdAllocator;
use lapce_plugin::codec::PluginServerRpc;
use lapce_plugin::rpc::DocumentFilter;
use lapce_plugin::rpc::HostAction;
use lapce_plugin::rpc::LapcePlugin;
use lapce_plugin::rpc::MessageType;
use lapce_plugin::rpc::PluginServerRpcHandler;

#[test]
fn id_allocator_counts_from_zero_without_repeats() {
    let mut alloc = IdAllocator::new();
    let mut seen = Vec::new();
    for expected in 0u64..100 {
        let id = alloc.fetch_next();
        assert_eq!(id, expected);
        assert!(!seen.contains(&id));
        seen.push(id);
    }
}

fn lines_and_signals(actions: &[HostAction]) -> (Vec<String>, usize, usize) {
    let mut lines = Vec::new();
    let mut rpc_signals = 0;
    let mut stderr_signals = 0;
    for a in actions {
        match a {
            HostAction::WriteLine(l) => lines.push(l.clone()),
            HostAction::WriteErrLine(l) => lines.push(format!("err:{}", l)),
            HostAction::SignalRpc => rpc_signals += 1,
            HostAction::SignalStderr => stderr_signals += 1,
        }
    }
    (lines, rpc_signals, stderr_signals)
}

#[test]
fn log_message_emits_one_line_and_one_callout() {
    let mut handler = PluginServerRpcHandler::new();
    handler.window_log_message(MessageType::Error, String::from("x"));
    let actions = handler.take_actions();
    assert_eq!(actions.len(), 2);
    match &actions[0] {
        HostAction::WriteLine(line) => assert_eq!(
            line,
            "{\"jsonrpc\":\"2.0\",\"method\":\"window/logMessage\",\"params\":{\"typ\":1,\"message\":\"x\"}}"
        ),
        other => panic!("expected the encoded line first, got {:?}", other),
    }
    assert!(matches!(actions[1], HostAction::SignalRpc));
}

#[test]
fn show_message_carries_the_severity_code() {
    let mut handler = PluginServerRpcHandler::new();
    handler.window_show_message(MessageType::Warning, String::from("careful"));
    let actions = handler.take_actions();
    let (lines, rpc_signals, stderr_signals) = lines_and_signals(&actions);
    assert_eq!(
        lines,
        vec![String::from(
            "{\"jsonrpc\":\"2.0\",\"method\":\"window/showMessage\",\"params\":{\"typ\":2,\"message\":\"careful\"}}"
        )]
    );
    assert_eq!(rpc_signals, 1);
    assert_eq!(stderr_signals, 0);
}

#[test]
fn take_actions_drains_the_outbox() {
    let mut handler = PluginServerRpcHandler::new();
    handler.host_notification("m", "null");
    assert_eq!(handler.take_actions().len(), 2);
    assert_eq!(handler.take_actions().len(), 0);
}

#[test]
fn outbound_requests_use_fresh_increasing_ids() {
    let mut handler = PluginServerRpcHandler::new();
    handler.host_request("first", "null");
    handler.host_request("second", "{}");
    let actions = handler.take_actions();
    let (lines, rpc_signals, _) = lines_and_signals(&actions);
    assert_eq!(rpc_signals, 2);
    assert_eq!(lines[0], "{\"jsonrpc\":\"2.0\",\"id\":0,\"method\":\"first\",\"params\":null}");
    assert_eq!(lines[1], "{\"jsonrpc\":\"2.0\",\"id\":1,\"method\":\"second\",\"params\":{}}");
}

#[test]
fn stderr_emits_the_line_and_the_stderr_callout() {
    let mut handler = PluginServerRpcHandler::new();
    handler.stderr("boom");
    let actions = handler.take_actions();
    assert_eq!(actions.len(), 2);
    match &actions[0] {
        HostAction::WriteErrLine(line) => assert_eq!(line, "boom"),
        other => panic!("expected the error line first, got {:?}", other),
    }
    assert!(matches!(actions[1], HostAction::SignalStderr));
}

#[test]
fn start_lsp_builds_the_whole_payload() {
    let mut handler = PluginServerRpcHandler::new();
    handler.start_lsp(
        String::from("file:///plugin/bin/server"),
        vec![String::from("--stdio")],
        vec![DocumentFilter {
            language: Some(String::from("rust")),
            scheme: None,
            pattern: Some(String::from("**/*.rs")),
        }],
        None,
    );
    let actions = handler.take_actions();
    let (lines, rpc_signals, _) = lines_and_signals(&actions);
    assert_eq!(rpc_signals, 1);
    assert_eq!(
        lines,
        vec![String::from(
            "{\"jsonrpc\":\"2.0\",\"method\":\"startLspServer\",\"params\":{\"server_uri\":\"file:///plugin/bin/server\",\"server_args\":[\"--stdio\"],\"document_selector\":[{\"language\":\"rust\",\"pattern\":\"**/*.rs\"}],\"options\":null}}"
        )]
    );
}

#[test]
fn start_lsp_with_options_and_empty_lists() {
    let mut handler = PluginServerRpcHandler::new();
    handler.start_lsp(
        String::from("file:///s"),
        Vec::new(),
        Vec::new(),
        Some(String::from("{\"trace\":\"off\"}")),
    );
    let actions = handler.take_actions();
    let (lines, _, _) = lines_and_signals(&actions);
    assert_eq!(
        lines,
        vec![String::from(
            "{\"jsonrpc\":\"2.0\",\"method\":\"startLspServer\",\"params\":{\"server_uri\":\"file:///s\",\"server_args\":[],\"document_selector\":[],\"options\":{\"trace\":\"off\"}}}"
        )]
    );
}

#[derive(Default)]
struct RecordingPlugin {
    requests: Vec<(u64, String, String)>,
    notifications: Vec<(String, String)>,
}

impl LapcePlugin for RecordingPlugin {
    fn handle_request(
        &mut self,
        _rpc: &mut PluginServerRpcHandler,
        id: u64,
        method: String,
        params: String,
    ) {
        self.requests.push((id, method, params));
    }

    fn handle_notification(
        &mut self,
        rpc: &mut PluginServerRpcHandler,
        method: String,
        params: String,
    ) {
        if method == "ping" {
            rpc.host_notification("pong", &params);
        }
        self.notifications.push((method, params));
    }
}

#[test]
fn dispatch_routes_by_message_kind() {
    let mut handler = PluginServerRpcHandler::new();
    let mut plugin = RecordingPlugin::default();
    handler.dispatch(
        &mut plugin,
        PluginServerRpc::Request {
            id: 4,
            method: String::from("do"),
            params: String::from("null"),
        },
    );
    handler.dispatch(
        &mut plugin,
        PluginServerRpc::Notification { method: String::from("note"), params: String::from("1") },
    );
    assert_eq!(plugin.requests, vec![(4, String::from("do"), String::from("null"))]);
    assert_eq!(plugin.notifications, vec![(String::from("note"), String::from("1"))]);
}

#[test]
fn dispatch_line_decodes_then_routes() {
    let mut handler = PluginServerRpcHandler::new();
    let mut plugin = RecordingPlugin::default();
    let ok = handler.dispatch_line(
        &mut plugin,
        "{\"jsonrpc\":\"2.0\",\"id\":9,\"method\":\"run\",\"params\":[true]}",
    );
    assert!(ok.is_ok());
    assert_eq!(plugin.requests, vec![(9, String::from("run"), String::from("[true]"))]);
    let bad = handler.dispatch_line(&mut plugin, "nonsense");
    assert!(bad.is_err());
    assert_eq!(plugin.requests.len(), 1);
}

#[test]
fn mainloop_drains_queued_messages_in_order() {
    let mut handler = PluginServerRpcHandler::new();
    let mut plugin = RecordingPlugin::default();
    handler.enqueue(PluginServerRpc::Notification {
        method: String::from("a"),
        params: String::from("1"),
    });
    handler.enqueue(PluginServerRpc::Notification {
        method: String::from("b"),
        params: String::from("2"),
    });
    handler.mainloop(&mut plugin);
    assert_eq!(
        plugin.notifications,
        vec![(String::from("a"), String::from("1")), (String::from("b"), String::from("2"))]
    );
}

#[test]
fn a_handler_can_emit_messages_of_its_own() {
    let mut handler = PluginServerRpcHandler::new();
    let mut plugin = RecordingPlugin::default();
    handler.enqueue(PluginServerRpc::Notification {
        method: String::from("ping"),
        params: String::from("\"hi\""),
    });
    handler.mainloop(&mut plugin);
    let actions = handler.take_actions();
    let (lines, rpc_signals, _) = lines_and_signals(&actions);
    assert_eq!(rpc_signals, 1);
    assert_eq!(lines, vec![String::from(
        "{\"jsonrpc\":\"2.0\",\"method\":\"pong\",\"params\":\"hi\"}"
    )]);
}

#[test]
fn emitted_log_lines_parse_as_the_expected_object() {
    let mut handler = PluginServerRpcHandler::new();
    handler.window_log_message(MessageType::Info, String::from("ready"));
    let actions = handler.take_actions();
    let line = match &actions[0] {
        HostAction::WriteLine(l) => l.clone(),
        other => panic!("expected a line, got {:?}", other),
    };
    let v: serde_json::Value = serde_json::from_str(&line).expect("valid text");
    assert_eq!(v["method"].as_str(), Some("window/logMessage"));
    assert_eq!(v["params"]["typ"].as_u64(), Some(3));
    assert_eq!(v["params"]["message"].as_str(), Some("ready"));
}
