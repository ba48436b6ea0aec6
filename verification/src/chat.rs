use vstd::prelude::*;

use crate::json::{
    clone_all, data_as_str, data_at_index, data_at_key, data_get_key, items_data, json_text,
    lemma_items_data, opt_data, parse_json, parsed_json, Json, JsonData,
};
use crate::text::{chars_of, eq_ignore_ascii_case, text_eq_ignore_ascii_case, trim, trim_end_at, trim_start_at};

verus! {

/// The settings of the chat service: where it is, the key, the deployment
/// and the API version.
pub struct ChatClient {
    pub endpoint: String,
    pub api_key: String,
    pub model: String,
    pub api_version: String,
}

/// The chat completions URL of a deployment.
pub open spec fn completions_url_of(endpoint: Seq<char>, model: Seq<char>, api_version: Seq<char>) -> Seq<char> {
    endpoint + "/openai/deployments/"@ + model + "/chat/completions?api-version="@ + api_version
}

/// The headers of a request: the key, the JSON content type, and for a
/// streamed request the event-stream `Accept`.
pub open spec fn request_headers_of(api_key: Seq<char>, streaming: bool) -> Seq<(Seq<char>, Seq<char>)> {
    let base = seq![("api-key"@, api_key), ("Content-Type"@, "application/json"@)];
    if streaming {
        base.push(("Accept"@, "text/event-stream"@))
    } else {
        base
    }
}

impl ChatClient {
    pub fn new(endpoint: String, api_key: String, model: String, api_version: String) -> (r: Self)
        ensures
            r.endpoint == endpoint,
            r.api_key == api_key,
            r.model == model,
            r.api_version == api_version,
    {
        ChatClient { endpoint, api_key, model, api_version }
    }

    /// `{endpoint}/openai/deployments/{model}/chat/completions?api-version={api_version}`.
    pub fn completions_url(&self) -> (r: String)
        ensures
            r@ == completions_url_of(self.endpoint@, self.model@, self.api_version@),
    {
        let mut url = self.endpoint.clone();
        url.append("/openai/deployments/");
        url.append(self.model.as_str());
        url.append("/chat/completions?api-version=");
        url.append(self.api_version.as_str());
        url
    }

    /// The headers that a request carries, in order.
    pub fn request_headers(&self, streaming: bool) -> (r: Vec<(String, String)>)
        ensures
            r@.len() == request_headers_of(self.api_key@, streaming).len(),
            forall|i: int|
                0 <= i < r@.len() ==> (#[trigger] r@[i].0@, r@[i].1@) == request_headers_of(
                    self.api_key@,
                    streaming,
                )[i],
    {
        let mut h: Vec<(String, String)> = Vec::new();
        h.push(("api-key".to_owned(), self.api_key.clone()));
        h.push(("Content-Type".to_owned(), "application/json".to_owned()));
        if streaming {
            h.push(("Accept".to_owned(), "text/event-stream".to_owned()));
        }
        h
    }
}

/// `{"type":"auto"}`: let the model choose whether to call tools.
pub open spec fn tool_choice_auto() -> JsonData {
    JsonData::Object(seq![("type"@, JsonData::Str("auto"@))])
}

/// The body of a chat completions request: the messages, at most 1000
/// tokens, temperature 0.7, the tools (with the automatic tool choice) where
/// there are tools, and whether to stream.
pub open spec fn chat_request_data(
    messages: Seq<JsonData>,
    tools: Option<Seq<JsonData>>,
    stream: bool,
) -> JsonData {
    let base = seq![
        ("messages"@, JsonData::Array(messages)),
        ("max_tokens"@, JsonData::Number("1000"@)),
        ("temperature"@, JsonData::Number("0.7"@)),
    ];
    let with_tools = match tools {
        Some(ts) => base + seq![("tools"@, JsonData::Array(ts)), ("tool_choice"@, tool_choice_auto())],
        None => base,
    };
    JsonData::Object(with_tools.push(("stream"@, JsonData::Bool(stream))))
}

/// The body of a chat completions request.
pub fn chat_request(messages: &Vec<Json>, tools: Option<&Vec<Json>>, stream: bool) -> (r: Json)
    ensures
        r@ == chat_request_data(
            items_data(messages@),
            match tools {
                Some(ts) => Some(items_data(ts@)),
                None => None,
            },
            stream,
        ),
{
    let mut entries: Vec<(String, Json)> = Vec::new();
    entries.push(("messages".to_owned(), Json::array(clone_all(messages))));
    entries.push(("max_tokens".to_owned(), Json::Number("1000".to_owned())));
    entries.push(("temperature".to_owned(), Json::Number("0.7".to_owned())));
    match tools {
        Some(ts) => {
            entries.push(("tools".to_owned(), Json::array(clone_all(ts))));
            entries.push(("tool_choice".to_owned(), Json::object1("type", Json::from_text("auto"))));
        },
        None => {},
    }
    entries.push(("stream".to_owned(), Json::Bool(stream)));
    let ghost ts_data = match tools {
        Some(ts) => Some(items_data(ts@)),
        None => None::<Seq<JsonData>>,
    };
    proof {
        crate::json::lemma_entries_data(entries@);
        assert(crate::json::entries_data(entries@) =~= match chat_request_data(
            items_data(messages@),
            ts_data,
            stream,
        ) {
            JsonData::Object(es) => es,
            _ => Seq::empty(),
        });
    }
    Json::object(entries)
}

} // verus!

verus! {

/// A message of the conversation as the service returns it.
#[derive(Clone, Debug)]
pub struct ChatMessage {
    pub role: String,
    pub content: String,
}

/// One choice of a reply.
pub struct ChoiceBasic {
    pub message: ChatMessage,
}

/// A reply of the service (without streaming and tools).
pub struct ChatResponseBasic {
    pub choices: Vec<ChoiceBasic>,
}

/// Which request went wrong.
#[derive(PartialEq, Eq, Structural)]
pub enum RequestKind {
    /// A plain request.
    Plain,
    /// A streamed request.
    Stream,
    /// A request with tools.
    Tools,
}

/// Why a chat request gave no answer.
pub enum ChatError {
    /// The request could not be sent.
    Send(RequestKind),
    /// The service answered with a failure status; its body text.
    Api(String),
    /// The reply was not what was expected.
    Parse(RequestKind),
    /// The reply held no choice.
    NoChoices,
    /// A chunk of the stream could not be read.
    StreamChunk,
}

/// The text that reports an error.
pub open spec fn chat_error_text(e: ChatError) -> Seq<char> {
    match e {
        ChatError::Send(RequestKind::Plain) => "Failed to send request to Azure OpenAI"@,
        ChatError::Send(RequestKind::Stream) => "Failed to send request to Azure OpenAI (stream)"@,
        ChatError::Send(RequestKind::Tools) => "Failed to send request to Azure OpenAI (tools)"@,
        ChatError::Api(text) => "API request failed: "@ + text@,
        ChatError::Parse(RequestKind::Tools) => "Failed to parse tools response"@,
        ChatError::Parse(_) => "Failed to parse response from Azure OpenAI"@,
        ChatError::NoChoices => "No response choices available"@,
        ChatError::StreamChunk => "Failed reading stream chunk"@,
    }
}

impl ChatError {
    /// The text that reports the error.
    pub fn message(&self) -> (r: String)
        ensures
            r@ == chat_error_text(*self),
    {
        match self {
            ChatError::Send(RequestKind::Plain) => "Failed to send request to Azure OpenAI".to_owned(),
            ChatError::Send(RequestKind::Stream) => "Failed to send request to Azure OpenAI (stream)".to_owned(),
            ChatError::Send(RequestKind::Tools) => "Failed to send request to Azure OpenAI (tools)".to_owned(),
            ChatError::Api(text) => {
                let mut s = "API request failed: ".to_owned();
                s.append(text.as_str());
                s
            },
            ChatError::Parse(RequestKind::Tools) => "Failed to parse tools response".to_owned(),
            ChatError::Parse(_) => "Failed to parse response from Azure OpenAI".to_owned(),
            ChatError::NoChoices => "No response choices available".to_owned(),
            ChatError::StreamChunk => "Failed reading stream chunk".to_owned(),
        }
    }
}

/// The content of the first choice of a reply; `NoChoices` where there is
/// none.
pub fn first_choice_content(resp: &ChatResponseBasic) -> (r: Result<String, ChatError>)
    ensures
        resp.choices@.len() == 0 ==> r matches Err(ChatError::NoChoices),
        resp.choices@.len() > 0 ==> (r matches Ok(s) && s@ == resp.choices@[0].message.content@),
{
    if resp.choices.len() == 0 {
        Err(ChatError::NoChoices)
    } else {
        Ok(resp.choices[0].message.content.clone())
    }
}

/// The document of a reply to a request with tools; `Parse(Tools)` where the
/// body is no JSON.
pub fn tools_reply(body: &str) -> (r: Result<Json, ChatError>)
    ensures
        match parsed_json(body@) {
            Some(d) => (r matches Ok(v) && v@ == d),
            None => r matches Err(ChatError::Parse(RequestKind::Tools)),
        },
{
    match parse_json(body) {
        Some(v) => Ok(v),
        None => Err(ChatError::Parse(RequestKind::Tools)),
    }
}

} // verus!

verus! {

/// A message `{"content": content, "role": role}` (keys in order).
pub open spec fn message_data(role: Seq<char>, content: Seq<char>) -> JsonData {
    JsonData::Object(seq![("content"@, JsonData::Str(content)), ("role"@, JsonData::Str(role))])
}

/// The message that opens every conversation.
pub open spec fn system_message_data() -> JsonData {
    message_data("system"@, "You are a helpful assistant."@)
}

/// A message of a role.
pub fn message(role: &str, content: &str) -> (r: Json)
    ensures
        r@ == message_data(role@, content@),
{
    Json::object2("content", Json::from_text(content), "role", Json::from_text(role))
}

/// The history of a chat: the system message, then the turns.
pub struct Conversation {
    messages: Vec<Json>,
}

impl View for Conversation {
    type V = Seq<JsonData>;

    closed spec fn view(&self) -> Seq<JsonData> {
        items_data(self.messages@)
    }
}

impl Conversation {
    /// A conversation that holds only the system message.
    pub fn new() -> (r: Conversation)
        ensures
            r@ == seq![system_message_data()],
    {
        let mut messages: Vec<Json> = Vec::new();
        messages.push(message("system", "You are a helpful assistant."));
        proof {
            lemma_items_data(messages@);
            assert(items_data(messages@) =~= seq![system_message_data()]);
        }
        Conversation { messages }
    }

    /// Forget the turns: only the system message stays.
    pub fn clear(&mut self)
        ensures
            final(self)@ == seq![system_message_data()],
    {
        *self = Conversation::new();
    }

    /// Append a message of the user.
    pub fn push_user(&mut self, content: &str)
        ensures
            final(self)@ == old(self)@.push(message_data("user"@, content@)),
    {
        let m = message("user", content);
        self.messages.push(m);
        proof {
            assert(self.messages@.drop_last() =~= old(self).messages@);
        }
    }

    /// Append a reply of the assistant.
    pub fn push_assistant(&mut self, content: &str)
        ensures
            final(self)@ == old(self)@.push(message_data("assistant"@, content@)),
    {
        let m = message("assistant", content);
        self.messages.push(m);
        proof {
            assert(self.messages@.drop_last() =~= old(self).messages@);
        }
    }

    /// Take back the last message (as after a failed request).
    pub fn pop(&mut self)
        ensures
            old(self)@.len() > 0 ==> final(self)@ == old(self)@.drop_last(),
            old(self)@.len() == 0 ==> final(self)@ == old(self)@,
    {
        proof {
            lemma_items_data(self.messages@);
        }
        let _ = self.messages.pop();
    }

    /// Append a message.
    pub fn push(&mut self, m: Json)
        ensures
            final(self)@ == old(self)@.push(m@),
    {
        self.messages.push(m);
        proof {
            assert(self.messages@.drop_last() =~= old(self).messages@);
        }
    }

    /// A copy of the conversation.
    pub fn copy(&self) -> (r: Conversation)
        ensures
            r@ == self@,
    {
        Conversation { messages: clone_all(&self.messages) }
    }

    /// Append the message of the first choice of a reply (`null` where there
    /// is none) and say what it asks for.
    pub fn take_reply(&mut self, resp: &Json) -> (r: AssistantTurn)
        ensures
            final(self)@ == old(self)@.push(reply_message_data(resp@)),
            turn_view(r) == turn_data(reply_message_data(resp@)),
    {
        let m = reply_message(resp);
        let turn = assistant_turn(&m);
        self.push(m);
        turn
    }

    /// Append the message that hands a tool's result (or its failure) back
    /// to the model.
    pub fn push_tool_result(&mut self, id: &str, result: Option<Json>)
        ensures
            final(self)@ == old(self)@.push(tool_result_message_data(id@, opt_data(result))),
    {
        let m = tool_result_message(id, result);
        self.push(m);
    }

    /// The messages, in order.
    pub fn messages(&self) -> (r: &Vec<Json>)
        ensures
            items_data(r@) == self@,
    {
        &self.messages
    }
}

/// Taking back the message of a failed turn leaves the history as it was
/// before the turn: `pop` undoes `push_user`.
pub proof fn lemma_failed_turn_restores(history: Seq<JsonData>, content: Seq<char>)
    ensures
        history.push(message_data("user"@, content)).len() > 0,
        history.push(message_data("user"@, content)).drop_last() == history,
{
    assert(history.push(message_data("user"@, content)).drop_last() =~= history);
}

} // verus!

verus! {

/// What a line of user input asks for.
#[derive(PartialEq, Eq, Structural)]
pub enum InputCommand {
    /// `quit` or `exit`: end the chat.
    Quit,
    /// `clear`: forget the conversation.
    Clear,
    /// A blank line: ask again.
    Skip,
    /// Anything else: a message for the assistant.
    Message,
}

/// What a line of input asks for: the trimmed line, in lower case, is
/// compared with the commands (lower case of the input can give `quit`,
/// `exit` or `clear` only from ASCII letters, so ASCII case is what counts).
pub open spec fn input_command(s: Seq<char>) -> InputCommand {
    let t = trim(s);
    if eq_ignore_ascii_case(t, "quit"@) || eq_ignore_ascii_case(t, "exit"@) {
        InputCommand::Quit
    } else if eq_ignore_ascii_case(t, "clear"@) {
        InputCommand::Clear
    } else if t.len() == 0 {
        InputCommand::Skip
    } else {
        InputCommand::Message
    }
}

/// What a line of user input asks for.
pub fn classify_input(input: &str) -> (r: InputCommand)
    ensures
        r == input_command(input@),
{
    let cs = chars_of(input);
    let e = trim_end_at(cs.as_slice(), 0, cs.len());
    let b = trim_start_at(cs.as_slice(), 0, e);
    proof {
        assert(cs@.subrange(0, cs@.len() as int) =~= cs@);
    }
    let t = vstd::slice::slice_subrange(cs.as_slice(), b, e);
    let quit = chars_of("quit");
    let exit = chars_of("exit");
    let clear = chars_of("clear");
    if text_eq_ignore_ascii_case(t, quit.as_slice()) || text_eq_ignore_ascii_case(t, exit.as_slice()) {
        InputCommand::Quit
    } else if text_eq_ignore_ascii_case(t, clear.as_slice()) {
        InputCommand::Clear
    } else if t.len() == 0 {
        InputCommand::Skip
    } else {
        InputCommand::Message
    }
}

/// The deployment that the chat uses unless told otherwise.
pub open spec fn default_model() -> Seq<char> {
    "gpt-35-turbo"@
}

/// Why the chat cannot start.
#[derive(PartialEq, Eq, Structural)]
pub enum SettingsError {
    /// Neither `--endpoint` nor `OPENAI_API_ENDPOINT` gives the endpoint.
    MissingEndpoint,
    /// Neither `--api-key` nor `OPENAI_API_KEY` gives the key.
    MissingApiKey,
}

impl SettingsError {
    /// The text that reports the error.
    pub fn message(&self) -> (r: String)
        ensures
            r@ == match *self {
                SettingsError::MissingEndpoint => "Azure OpenAI endpoint is required. Provide it via --endpoint argument or OPENAI_API_ENDPOINT environment variable"@,
                SettingsError::MissingApiKey => "API key is required. Provide it via --api-key argument or OPENAI_API_KEY environment variable"@,
            },
    {
        match self {
            SettingsError::MissingEndpoint => "Azure OpenAI endpoint is required. Provide it via --endpoint argument or OPENAI_API_ENDPOINT environment variable".to_owned(),
            SettingsError::MissingApiKey => "API key is required. Provide it via --api-key argument or OPENAI_API_KEY environment variable".to_owned(),
        }
    }
}

/// The first of two optional texts that is there.
pub open spec fn first_given(a: Option<String>, b: Option<String>) -> Option<String> {
    match a {
        Some(x) => Some(x),
        None => b,
    }
}

/// The deployment: the given one, except that the default gives way to the
/// environment's `OPENAI_API_MODEL` where it is set.
pub open spec fn resolved_model(model: Seq<char>, env_model: Option<Seq<char>>) -> Seq<char> {
    if model == default_model() {
        match env_model {
            Some(m) => m,
            None => model,
        }
    } else {
        model
    }
}

/// Which deployment the chat uses: the given one where the environment names
/// none; a given name other than the default always; and the environment's
/// name only in place of the default.
pub proof fn lemma_model_choice(model: Seq<char>, env_model: Option<Seq<char>>)
    ensures
        env_model is None ==> resolved_model(model, env_model) == model,
        model != default_model() ==> resolved_model(model, env_model) == model,
        model == default_model() ==> (env_model matches Some(m) ==> resolved_model(model, env_model) == m),
        resolved_model(model, env_model) == model || env_model == Some(resolved_model(model, env_model)),
{
}

/// The settings of the chat from the command line and the environment: the
/// command line first; the endpoint and the key are required, in this order.
pub fn resolve_settings(
    endpoint: Option<String>,
    env_endpoint: Option<String>,
    api_key: Option<String>,
    env_api_key: Option<String>,
    model: String,
    env_model: Option<String>,
    api_version: String,
) -> (r: Result<ChatClient, SettingsError>)
    ensures
        first_given(endpoint, env_endpoint) is None ==> r == Err::<ChatClient, SettingsError>(
            SettingsError::MissingEndpoint,
        ),
        first_given(endpoint, env_endpoint) is Some && first_given(api_key, env_api_key) is None
            ==> r == Err::<ChatClient, SettingsError>(SettingsError::MissingApiKey),
        first_given(endpoint, env_endpoint) is Some && first_given(api_key, env_api_key) is Some
            ==> (r matches Ok(c) && c.endpoint == first_given(endpoint, env_endpoint)->0
            && c.api_key == first_given(api_key, env_api_key)->0 && c.model@ == resolved_model(
            model@,
            match env_model {
                Some(m) => Some(m@),
                None => None,
            },
        ) && c.api_version == api_version),
{
    let endpoint = match endpoint {
        Some(e) => e,
        None => match env_endpoint {
            Some(e) => e,
            None => return Err(SettingsError::MissingEndpoint),
        },
    };
    let api_key = match api_key {
        Some(k) => k,
        None => match env_api_key {
            Some(k) => k,
            None => return Err(SettingsError::MissingApiKey),
        },
    };
    let default = "gpt-35-turbo".to_owned();
    let model = if model == default {
        match env_model {
            Some(m) => m,
            None => model,
        }
    } else {
        model
    };
    Ok(ChatClient::new(endpoint, api_key, model, api_version))
}

} // verus!

verus! {

/// The text of a string document, or `dflt` for any other document.
pub open spec fn str_or(d: JsonData, dflt: Seq<char>) -> Seq<char> {
    match data_as_str(d) {
        Some(s) => s,
        None => dflt,
    }
}

/// `resp["choices"][0]["message"]`: the message of the first choice, `null`
/// where there is none.
pub open spec fn reply_message_data(resp: JsonData) -> JsonData {
    data_at_key(data_at_index(data_at_key(resp, "choices"@), 0), "message"@)
}

/// The arguments of a tool call: the document that the text holds, or
/// `{"raw": text}` where it holds none.
pub open spec fn call_arguments_data(args: Seq<char>) -> JsonData {
    match parsed_json(args) {
        Some(d) => d,
        None => JsonData::Object(seq![("raw"@, JsonData::Str(args))]),
    }
}

/// A tool call as the model asks for it: its id (or empty), the function's
/// name (or empty) and the arguments (from the text, `{}` where there is none).
pub open spec fn tool_call_data(tc: JsonData) -> (Seq<char>, Seq<char>, JsonData) {
    let f = data_at_key(tc, "function"@);
    (
        str_or(data_at_key(tc, "id"@), Seq::empty()),
        str_or(data_at_key(f, "name"@), Seq::empty()),
        call_arguments_data(str_or(data_at_key(f, "arguments"@), "{}"@)),
    )
}

/// What the assistant's message asks for.
pub enum TurnData {
    /// Calls of tools, in order.
    Calls(Seq<(Seq<char>, Seq<char>, JsonData)>),
    /// The final text.
    Reply(Seq<char>),
}

/// What the assistant's message asks for: the calls where it has an array
/// `tool_calls`; otherwise its text `content` (or empty).
pub open spec fn turn_data(msg: JsonData) -> TurnData {
    match data_get_key(msg, "tool_calls"@) {
        Some(JsonData::Array(tcs)) => TurnData::Calls(tcs.map_values(|tc: JsonData| tool_call_data(tc))),
        _ => TurnData::Reply(
            match data_get_key(msg, "content"@) {
                Some(c) => str_or(c, Seq::empty()),
                None => Seq::empty(),
            },
        ),
    }
}

/// A call of a tool that the model asks for.
pub struct ToolCall {
    pub id: String,
    pub name: String,
    pub arguments: Json,
}

/// What the assistant's message asks for.
pub enum AssistantTurn {
    ToolCalls(Vec<ToolCall>),
    Reply(String),
}

/// The model of a turn.
pub open spec fn turn_view(t: AssistantTurn) -> TurnData {
    match t {
        AssistantTurn::ToolCalls(calls) => TurnData::Calls(
            calls@.map_values(|c: ToolCall| (c.id@, c.name@, c.arguments@)),
        ),
        AssistantTurn::Reply(s) => TurnData::Reply(s@),
    }
}

/// The text of the member `key` of a document, or `dflt`.
fn member_text(d: Option<&Json>, key: &str, dflt: &str) -> (r: String)
    ensures
        r@ == str_or(
            data_at_key(
                match d {
                    Some(j) => j@,
                    None => JsonData::Null,
                },
                key@,
            ),
            dflt@,
        ),
{
    match d {
        Some(j) => match j.get_key(key) {
            Some(x) => match x.as_str() {
                Some(s) => s.clone(),
                None => dflt.to_owned(),
            },
            None => dflt.to_owned(),
        },
        None => dflt.to_owned(),
    }
}

/// The message of the first choice of a reply, `null` where there is none.
pub fn reply_message(resp: &Json) -> (r: Json)
    ensures
        r@ == reply_message_data(resp@),
{
    match resp.get_key("choices") {
        Some(choices) => match choices.get_index(0) {
            Some(first) => match first.get_key("message") {
                Some(m) => m.deep_clone(),
                None => Json::Null,
            },
            None => Json::Null,
        },
        None => Json::Null,
    }
}

/// The arguments of a tool call from their text.
pub fn call_arguments(args: &str) -> (r: Json)
    ensures
        r@ == call_arguments_data(args@),
{
    match parse_json(args) {
        Some(v) => v,
        None => Json::object1("raw", Json::from_text(args)),
    }
}

/// A tool call that the model asks for.
pub fn tool_call(tc: &Json) -> (r: ToolCall)
    ensures
        (r.id@, r.name@, r.arguments@) == tool_call_data(tc@),
{
    proof {
        reveal_strlit("");
    }
    let id = member_text(Some(tc), "id", "");
    let f = tc.get_key("function");
    let name = member_text(f, "name", "");
    let args = member_text(f, "arguments", "{}");
    let arguments = call_arguments(args.as_str());
    ToolCall { id, name, arguments }
}

/// What the assistant's message asks for: tool calls, or the final text.
pub fn assistant_turn(message: &Json) -> (r: AssistantTurn)
    ensures
        turn_view(r) == turn_data(message@),
{
    proof {
        reveal_strlit("");
    }
    match message.get_key("tool_calls") {
        Some(tcs) => match tcs.as_array() {
            Some(items) => {
                proof {
                    lemma_items_data(items@);
                }
                let mut calls: Vec<ToolCall> = Vec::new();
                let mut i: usize = 0;
                while i < items.len()
                    invariant
                        i <= items@.len(),
                        calls@.len() == i,
                        forall|k: int|
                            0 <= k < i ==> (#[trigger] calls@[k].id@, calls@[k].name@, calls@[k].arguments@)
                                == tool_call_data(items@[k]@),
                    decreases items.len() - i,
                {
                    let c = tool_call(&items[i]);
                    calls.push(c);
                    i += 1;
                }
                proof {
                    let xs = items_data(items@);
                    assert(calls@.map_values(|c: ToolCall| (c.id@, c.name@, c.arguments@)) =~= xs.map_values(
                        |tc: JsonData| tool_call_data(tc),
                    ));
                }
                AssistantTurn::ToolCalls(calls)
            },
            None => {
                let content = member_text(Some(message), "content", "");
                proof {
                    assert(content@ =~= match data_get_key(message@, "content"@) {
                        Some(c) => str_or(c, Seq::empty()),
                        None => Seq::empty(),
                    });
                }
                AssistantTurn::Reply(content)
            },
        },
        None => {
            let content = member_text(Some(message), "content", "");
            proof {
                assert(content@ =~= match data_get_key(message@, "content"@) {
                    Some(c) => str_or(c, Seq::empty()),
                    None => Seq::empty(),
                });
            }
            AssistantTurn::Reply(content)
        },
    }
}

/// The document that reports a failed tool call.
pub open spec fn tool_failure_data() -> JsonData {
    JsonData::Object(seq![("error"@, JsonData::Str("tool call failed"@))])
}

/// The message that hands a tool's result back to the model: the result's
/// JSON text (the failure document where the call failed), the role `tool`
/// and the call's id.
pub open spec fn tool_result_message_data(id: Seq<char>, result: Option<JsonData>) -> JsonData {
    let r = match result {
        Some(d) => d,
        None => tool_failure_data(),
    };
    JsonData::Object(
        seq![
            ("content"@, JsonData::Str(json_text(r))),
            ("role"@, JsonData::Str("tool"@)),
            ("tool_call_id"@, JsonData::Str(id)),
        ],
    )
}

/// The message that hands a tool's result back to the model.
pub fn tool_result_message(id: &str, result: Option<Json>) -> (r: Json)
    ensures
        r@ == tool_result_message_data(id@, opt_data(result)),
{
    let res = match result {
        Some(v) => v,
        None => Json::object1("error", Json::from_text("tool call failed")),
    };
    let text = res.to_text();
    Json::object3(
        "content",
        Json::Str(text),
        "role",
        Json::from_text("tool"),
        "tool_call_id",
        Json::from_text(id),
    )
}

} // verus!
