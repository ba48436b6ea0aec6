use rust_openai_chat::chat::tools_reply;
use rust_openai_chat::json::Json;
use rust_openai_chat::mcp::client::{
    decode_response, encode_message, tool_call_result, tools_from_response, McpClient, McpError,
    McpToolDescription,
};
use rust_openai_chat::mcp::config::{EnvVar, McpConfig, McpServerConfig};
use rust_openai_chat::mcp::host::{HostError, McpHost, Startup, StartupAction};

fn doc(t: &str) -> Json {
    tools_reply(t).ok().unwrap()
}

fn tool(name: &str, description: Option<&str>) -> McpToolDescription {
    McpToolDescription {
        name: name.to_string(),
        description: description.map(|d| d.to_string()),
        input_schema: Json::object1("type", Json::from_text("object")),
    }
}

#[test]
fn requests_number_their_ids() {
    let mut c = McpClient::new("files".to_string());
    assert_eq!(c.last_request_id(), 0);
    let init = c.initialize_request("0.1.0");
    assert_eq!(
        init.to_text(),
        r#"{"id":1,"jsonrpc":"2.0","method":"initialize","params":{"clientInfo":{"name":"rust-openai-chat","version":"0.1.0"},"protocolVersion":"2024-11-05"}}"#
    );
    let list = c.list_tools_request();
    assert_eq!(list.to_text(), r#"{"id":2,"jsonrpc":"2.0","method":"tools/list","params":{}}"#);
    let call = c.call_tool_request("read", Json::object1("path", Json::from_text("a.txt")));
    assert_eq!(
        call.to_text(),
        r#"{"id":3,"jsonrpc":"2.0","method":"tools/call","params":{"arguments":{"path":"a.txt"},"name":"read"}}"#
    );
    assert_eq!(c.last_request_id(), 3);
    assert_eq!(c.name, "files");
}

#[test]
fn messages_are_single_lines() {
    let v = Json::object1("text", Json::from_text("two\nlines"));
    let line = encode_message(&v);
    assert_eq!(line, "{\"text\":\"two\\nlines\"}\n");
    assert_eq!(line.matches('\n').count(), 1);
}

#[test]
fn response_outcomes() {
    assert!(matches!(decode_response(0, ""), Err(McpError::Closed)));
    assert!(matches!(decode_response(4, "nope"), Err(McpError::InvalidJson)));
    let e = decode_response(40, "{\"id\":1,\"error\":{\"code\":-32601,\"message\":\"no\"}}\n").err().unwrap();
    assert_eq!(e.message(), r#"MCP error: {"code":-32601,"message":"no"}"#);
    let ok = decode_response(30, "{\"id\":1,\"result\":{\"x\":1}}\n").ok().unwrap();
    assert_eq!(tool_call_result(&ok).to_text(), r#"{"x":1}"#);
    let none = decode_response(8, "{\"id\":1}").ok().unwrap();
    assert_eq!(tool_call_result(&none).to_text(), "null");
    assert_eq!(McpError::Closed.message(), "MCP server closed stdout");
    assert_eq!(McpError::InvalidJson.message(), "Invalid JSON-RPC line");
    assert_eq!(McpError::InvalidToolsList.message(), "Invalid tools/list response");
}

#[test]
fn tools_list_answer() {
    let resp = doc(
        r#"{"result":{"tools":[{"name":"read","description":"Read a file","inputSchema":{"type":"object","required":["path"]}},{"description":7},{"name":"w"}]}}"#,
    );
    let tools = tools_from_response(&resp).ok().unwrap();
    assert_eq!(tools.len(), 3);
    assert_eq!(tools[0].name, "read");
    assert_eq!(tools[0].description, Some("Read a file".to_string()));
    assert_eq!(tools[0].input_schema.to_text(), r#"{"required":["path"],"type":"object"}"#);
    assert_eq!(tools[1].name, "");
    assert_eq!(tools[1].description, None);
    assert_eq!(tools[2].input_schema.to_text(), r#"{"type":"object"}"#);
    assert!(matches!(tools_from_response(&doc(r#"{"result":{}}"#)), Err(McpError::InvalidToolsList)));
    assert!(matches!(tools_from_response(&doc(r#"{"result":{"tools":{}}}"#)), Err(McpError::InvalidToolsList)));
}

#[test]
fn host_routes_tools() {
    let mut h = McpHost::new();
    h.add_server("files");
    h.register_tools("files", vec![tool("read", Some("Read")), tool("write", None)]);
    assert!(h.has_server("files"));
    assert!(!h.has_server("ghost"));
    assert_eq!(h.route("read").ok(), Some("files".to_string()));
    assert!(matches!(h.route("missing"), Err(HostError::UnknownTool)));
    assert_eq!(HostError::UnknownTool.message(), "Unknown tool");
    assert_eq!(HostError::ServerNotFound.message(), "Server not found");
}

#[test]
fn later_tool_of_a_name_wins() {
    let mut h = McpHost::new();
    h.add_server("a");
    h.add_server("b");
    h.register_tools("a", vec![tool("t", Some("first")), tool("t", Some("second"))]);
    let defs: Vec<String> = h.tool_definitions().iter().map(|d| d.to_text()).collect();
    assert_eq!(
        defs,
        vec![r#"{"function":{"description":"second","name":"t","parameters":{"type":"object"}},"type":"function"}"#]
    );
    h.register_tools("b", vec![tool("t", None)]);
    assert_eq!(h.route("t").ok(), Some("b".to_string()));
    let defs: Vec<String> = h.tool_definitions().iter().map(|d| d.to_text()).collect();
    assert_eq!(
        defs,
        vec![r#"{"function":{"description":"","name":"t","parameters":{"type":"object"}},"type":"function"}"#]
    );
}

#[test]
fn config_values() {
    let cfg = McpConfig {
        servers: vec![McpServerConfig {
            name: "files".to_string(),
            command: "files-mcp-server".to_string(),
            args: vec!["--root".to_string(), ".".to_string()],
            env: vec![EnvVar { key: "RUST_LOG".to_string(), value: "info".to_string() }],
            cwd: Some(".".to_string()),
        }],
    };
    assert_eq!(cfg.servers[0].env[0].key, "RUST_LOG");
    assert_eq!(cfg.servers[0].cwd.as_deref(), Some("."));
}

#[test]
fn startup_takes_servers_in_turn() {
    let mut st = Startup::new(vec!["a".to_string(), "b".to_string(), "c".to_string()]);
    assert!(matches!(st.action(), StartupAction::Initialize(ref n) if n == "a"));
    st.initialized(true);
    assert!(matches!(st.action(), StartupAction::ListTools(ref n) if n == "a"));
    st.listed(Some(vec![tool("ta", None)]));
    assert!(matches!(st.action(), StartupAction::Initialize(ref n) if n == "b"));
    st.initialized(false);
    assert!(matches!(st.action(), StartupAction::Initialize(ref n) if n == "c"));
    st.initialized(true);
    assert!(matches!(st.action(), StartupAction::ListTools(ref n) if n == "c"));
    st.listed(None);
    assert!(matches!(st.action(), StartupAction::Finished));
    let h = st.finish();
    assert!(h.has_server("a") && h.has_server("b") && h.has_server("c"));
    assert_eq!(h.route("ta").ok(), Some("a".to_string()));
    assert_eq!(h.tool_definitions().len(), 1);
}

#[test]
fn startup_with_no_server() {
    let st = Startup::new(Vec::new());
    assert!(matches!(st.action(), StartupAction::Finished));
    assert!(st.finish().tool_definitions().is_empty());
}
