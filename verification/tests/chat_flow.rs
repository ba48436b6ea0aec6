use rust_openai_chat::chat::{
    chat_request, classify_input, first_choice_content, message, resolve_settings, tool_call,
    tool_result_message, tools_reply, AssistantTurn, ChatClient, ChatError, ChatMessage,
    ChatResponseBasic, ChoiceBasic, Conversation, InputCommand, RequestKind, SettingsError,
};
use rust_openai_chat::json::Json;

fn texts(c: &Conversation) -> Vec<String> {
    c.messages().iter().map(|m| m.to_text()).collect()
}

fn client() -> ChatClient {
    ChatClient::new(
        "https://r.openai.azure.com".to_string(),
        "k123".to_string(),
        "gpt-4".to_string(),
        "2025-01-01-preview".to_string(),
    )
}

#[test]
fn url_of_deployment() {
    assert_eq!(
        client().completions_url(),
        "https://r.openai.azure.com/openai/deployments/gpt-4/chat/completions?api-version=2025-01-01-preview"
    );
}

#[test]
fn headers_of_requests() {
    let h = client().request_headers(false);
    assert_eq!(
        h,
        vec![
            ("api-key".to_string(), "k123".to_string()),
            ("Content-Type".to_string(), "application/json".to_string())
        ]
    );
    let h = client().request_headers(true);
    assert_eq!(h.len(), 3);
    assert_eq!(h[2], ("Accept".to_string(), "text/event-stream".to_string()));
}

#[test]
fn request_body_plain() {
    let msgs = vec![message("user", "hi")];
    assert_eq!(
        chat_request(&msgs, None, false).to_text(),
        r#"{"messages":[{"content":"hi","role":"user"}],"max_tokens":1000,"temperature":0.7,"stream":false}"#
    );
    assert_eq!(
        chat_request(&msgs, None, true).to_text(),
        r#"{"messages":[{"content":"hi","role":"user"}],"max_tokens":1000,"temperature":0.7,"stream":true}"#
    );
}

#[test]
fn request_body_with_tools() {
    let msgs = vec![message("system", "s")];
    let tools = vec![Json::object1("type", Json::from_text("function"))];
    assert_eq!(
        chat_request(&msgs, Some(&tools), false).to_text(),
        r#"{"messages":[{"content":"s","role":"system"}],"max_tokens":1000,"temperature":0.7,"tools":[{"type":"function"}],"tool_choice":{"type":"auto"},"stream":false}"#
    );
}

#[test]
fn input_commands() {
    assert!(classify_input("quit") == InputCommand::Quit);
    assert!(classify_input("  EXIT \n") == InputCommand::Quit);
    assert!(classify_input("Clear") == InputCommand::Clear);
    assert!(classify_input("   ") == InputCommand::Skip);
    assert!(classify_input("") == InputCommand::Skip);
    assert!(classify_input("quit now") == InputCommand::Message);
    assert!(classify_input("hello") == InputCommand::Message);
}

#[test]
fn settings_from_arguments_first() {
    let c = resolve_settings(
        Some("e1".to_string()),
        Some("e2".to_string()),
        None,
        Some("k2".to_string()),
        "gpt-35-turbo".to_string(),
        Some("m-env".to_string()),
        "v1".to_string(),
    )
    .ok()
    .unwrap();
    assert_eq!(c.endpoint, "e1");
    assert_eq!(c.api_key, "k2");
    assert_eq!(c.model, "m-env");
    assert_eq!(c.api_version, "v1");
    let c = resolve_settings(
        Some("e1".to_string()),
        None,
        Some("k1".to_string()),
        None,
        "mine".to_string(),
        Some("m-env".to_string()),
        "v1".to_string(),
    )
    .ok()
    .unwrap();
    assert_eq!(c.model, "mine");
}

#[test]
fn settings_errors() {
    let r = resolve_settings(None, None, None, None, "m".to_string(), None, "v".to_string());
    assert!(matches!(r, Err(SettingsError::MissingEndpoint)));
    let r = resolve_settings(None, Some("e".to_string()), None, None, "m".to_string(), None, "v".to_string());
    assert!(matches!(r, Err(SettingsError::MissingApiKey)));
    assert_eq!(
        SettingsError::MissingApiKey.message(),
        "API key is required. Provide it via --api-key argument or OPENAI_API_KEY environment variable"
    );
    assert_eq!(
        SettingsError::MissingEndpoint.message(),
        "Azure OpenAI endpoint is required. Provide it via --endpoint argument or OPENAI_API_ENDPOINT environment variable"
    );
}

#[test]
fn conversation_turns() {
    let mut c = Conversation::new();
    assert_eq!(texts(&c), vec![r#"{"content":"You are a helpful assistant.","role":"system"}"#]);
    c.push_user("hi");
    c.push_assistant("hello");
    assert_eq!(texts(&c).len(), 3);
    assert_eq!(texts(&c)[2], r#"{"content":"hello","role":"assistant"}"#);
    c.clear();
    assert_eq!(texts(&c), vec![r#"{"content":"You are a helpful assistant.","role":"system"}"#]);
}

#[test]
fn failed_turn_is_taken_back() {
    let mut c = Conversation::new();
    c.push_user("a");
    c.push_assistant("b");
    let before = texts(&c);
    c.push_user("lost");
    c.pop();
    assert_eq!(texts(&c), before);
}

#[test]
fn first_choice() {
    let resp = ChatResponseBasic {
        choices: vec![ChoiceBasic {
            message: ChatMessage { role: "assistant".to_string(), content: "yes".to_string() },
        }],
    };
    assert_eq!(first_choice_content(&resp).ok(), Some("yes".to_string()));
    let empty = ChatResponseBasic { choices: vec![] };
    let e = first_choice_content(&empty).err().unwrap();
    assert_eq!(e.message(), "No response choices available");
}

#[test]
fn error_messages() {
    assert_eq!(ChatError::Send(RequestKind::Plain).message(), "Failed to send request to Azure OpenAI");
    assert_eq!(ChatError::Send(RequestKind::Stream).message(), "Failed to send request to Azure OpenAI (stream)");
    assert_eq!(ChatError::Send(RequestKind::Tools).message(), "Failed to send request to Azure OpenAI (tools)");
    assert_eq!(ChatError::Api("boom".to_string()).message(), "API request failed: boom");
    assert_eq!(ChatError::Parse(RequestKind::Plain).message(), "Failed to parse response from Azure OpenAI");
    assert_eq!(ChatError::Parse(RequestKind::Tools).message(), "Failed to parse tools response");
    assert_eq!(ChatError::StreamChunk.message(), "Failed reading stream chunk");
    assert_eq!(tools_reply("nope").err().unwrap().message(), "Failed to parse tools response");
}

#[test]
fn reply_with_tool_calls() {
    let resp = tools_reply(
        r#"{"choices":[{"message":{"role":"assistant","content":null,"tool_calls":[{"id":"c1","type":"function","function":{"name":"read","arguments":"{\"path\":\"a\"}"}},{"id":"c2","function":{"name":"w","arguments":"not json"}}]}}]}"#,
    )
    .ok()
    .unwrap();
    let mut c = Conversation::new();
    let turn = c.take_reply(&resp);
    assert_eq!(texts(&c).len(), 2);
    match turn {
        AssistantTurn::ToolCalls(calls) => {
            assert_eq!(calls.len(), 2);
            assert_eq!(calls[0].id, "c1");
            assert_eq!(calls[0].name, "read");
            assert_eq!(calls[0].arguments.to_text(), r#"{"path":"a"}"#);
            assert_eq!(calls[1].arguments.to_text(), r#"{"raw":"not json"}"#);
        }
        AssistantTurn::Reply(_) => panic!("expected tool calls"),
    }
}

#[test]
fn reply_with_text() {
    let resp = tools_reply(r#"{"choices":[{"message":{"role":"assistant","content":"done"}}]}"#).ok().unwrap();
    let mut c = Conversation::new();
    match c.take_reply(&resp) {
        AssistantTurn::Reply(t) => assert_eq!(t, "done"),
        AssistantTurn::ToolCalls(_) => panic!("expected text"),
    }
    assert_eq!(texts(&c)[1], r#"{"content":"done","role":"assistant"}"#);
    let none = tools_reply(r#"{"choices":[]}"#).ok().unwrap();
    let mut d = Conversation::new();
    match d.take_reply(&none) {
        AssistantTurn::Reply(t) => assert_eq!(t, ""),
        AssistantTurn::ToolCalls(_) => panic!("expected text"),
    }
    assert_eq!(texts(&d)[1], "null");
}

#[test]
fn tool_call_defaults() {
    let tc = tool_call(&Json::object(Vec::new()));
    assert_eq!(tc.id, "");
    assert_eq!(tc.name, "");
    assert_eq!(tc.arguments.to_text(), "{}");
}

#[test]
fn tool_results_go_back_as_text() {
    let m = tool_result_message("c1", Some(Json::object1("ok", Json::Bool(true))));
    assert_eq!(m.to_text(), r#"{"content":"{\"ok\":true}","role":"tool","tool_call_id":"c1"}"#);
    let f = tool_result_message("c2", None);
    assert_eq!(
        f.to_text(),
        r#"{"content":"{\"error\":\"tool call failed\"}","role":"tool","tool_call_id":"c2"}"#
    );
    let mut c = Conversation::new();
    c.push_tool_result("c3", None);
    assert_eq!(
        texts(&c)[1],
        r#"{"content":"{\"error\":\"tool call failed\"}","role":"tool","tool_call_id":"c3"}"#
    );
}
