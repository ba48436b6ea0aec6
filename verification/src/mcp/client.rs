use vstd::prelude::*;

use crate::json::{
    data_as_str, data_at_key, data_get_key, items_data, json_text, lemma_items_data, parse_json,
    parsed_json, Json, JsonData,
};
use crate::text::{decimal, decimal_text};

verus! {

/// A tool that an MCP server offers.
#[derive(Debug)]
pub struct McpToolDescription {
    pub name: String,
    pub description: Option<String>,
    pub input_schema: Json,
}

/// The model of a tool description.
pub struct ToolData {
    pub name: Seq<char>,
    pub description: Option<Seq<char>>,
    pub input_schema: JsonData,
}

impl View for McpToolDescription {
    type V = ToolData;

    open spec fn view(&self) -> ToolData {
        ToolData {
            name: self.name@,
            description: match self.description {
                Some(d) => Some(d@),
                None => None,
            },
            input_schema: self.input_schema@,
        }
    }
}

impl McpToolDescription {
    /// A copy of the description.
    pub fn copy(&self) -> (r: McpToolDescription)
        ensures
            r@ == self@,
    {
        McpToolDescription {
            name: self.name.clone(),
            description: match &self.description {
                Some(d) => Some(d.clone()),
                None => None,
            },
            input_schema: self.input_schema.deep_clone(),
        }
    }
}

/// A JSON-RPC request: `{"id": id, "jsonrpc": "2.0", "method": method, "params": params}`.
pub open spec fn rpc_request_data(id: nat, method: Seq<char>, params: JsonData) -> JsonData {
    JsonData::Object(
        seq![
            ("id"@, JsonData::Number(decimal(id))),
            ("jsonrpc"@, JsonData::Str("2.0"@)),
            ("method"@, JsonData::Str(method)),
            ("params"@, params),
        ],
    )
}

/// The parameters of `initialize`: who the client is and which protocol it
/// speaks.
pub open spec fn initialize_params_data(client_version: Seq<char>) -> JsonData {
    JsonData::Object(
        seq![
            (
                "clientInfo"@,
                JsonData::Object(
                    seq![
                        ("name"@, JsonData::Str("rust-openai-chat"@)),
                        ("version"@, JsonData::Str(client_version)),
                    ],
                ),
            ),
            ("protocolVersion"@, JsonData::Str("2024-11-05"@)),
        ],
    )
}

/// The parameters of `tools/call`: the arguments and the tool's name.
pub open spec fn call_params_data(name: Seq<char>, args: JsonData) -> JsonData {
    JsonData::Object(seq![("arguments"@, args), ("name"@, JsonData::Str(name))])
}

/// The JSON-RPC side of a connection to an MCP server: its name and the ids
/// of its requests.
pub struct McpClient {
    pub name: String,
    id_counter: u64,
}

impl McpClient {
    /// The id of the last request (0 before the first one).
    pub closed spec fn last_id(&self) -> nat {
        self.id_counter as nat
    }

    /// The ids of the requests so far, in the order in which they were made.
    pub open spec fn sent_ids(&self) -> Seq<nat> {
        Seq::new(self.last_id(), |i: int| (i + 1) as nat)
    }

    /// The name of the server.
    pub closed spec fn server_name(&self) -> Seq<char> {
        self.name@
    }

    /// A connection that has sent nothing yet.
    pub fn new(name: String) -> (r: McpClient)
        ensures
            r.server_name() == name@,
            r.last_id() == 0,
            r.sent_ids() == Seq::<nat>::empty(),
    {
        McpClient { name, id_counter: 0 }
    }

    /// The id of the last request (0 before the first one).
    pub fn last_request_id(&self) -> (r: u64)
        ensures
            r == self.last_id(),
    {
        self.id_counter
    }

    /// The id of the next request.
    fn next_id(&mut self) -> (r: u64)
        requires
            old(self).last_id() < u64::MAX,
        ensures
            r == old(self).last_id() + 1,
            final(self).last_id() == r,
            final(self).server_name() == old(self).server_name(),
    {
        self.id_counter += 1;
        self.id_counter
    }

    /// A request with the next id.
    fn request(&mut self, method: &str, params: Json) -> (r: Json)
        requires
            old(self).last_id() < u64::MAX,
        ensures
            final(self).last_id() == old(self).last_id() + 1,
            final(self).server_name() == old(self).server_name(),
            final(self).sent_ids() == old(self).sent_ids().push(final(self).last_id()),
            r@ == rpc_request_data(final(self).last_id(), method@, params@),
    {
        let id = self.next_id();
        proof {
            assert(self.sent_ids() =~= old(self).sent_ids().push(self.last_id()));
        }
        let id_text = decimal_text(id);
        let entries = vec![
            ("id".to_owned(), Json::Number(id_text)),
            ("jsonrpc".to_owned(), Json::from_text("2.0")),
            ("method".to_owned(), Json::from_text(method)),
            ("params".to_owned(), params),
        ];
        proof {
            crate::json::lemma_entries_data(entries@);
            assert(crate::json::entries_data(entries@) =~= match rpc_request_data(
                self.last_id(),
                method@,
                params@,
            ) {
                JsonData::Object(es) => es,
                _ => Seq::empty(),
            });
        }
        Json::object(entries)
    }

    /// The `initialize` request, with the next id.
    pub fn initialize_request(&mut self, client_version: &str) -> (r: Json)
        requires
            old(self).last_id() < u64::MAX,
        ensures
            final(self).last_id() == old(self).last_id() + 1,
            final(self).server_name() == old(self).server_name(),
            final(self).sent_ids() == old(self).sent_ids().push(final(self).last_id()),
            r@ == rpc_request_data(
                final(self).last_id(),
                "initialize"@,
                initialize_params_data(client_version@),
            ),
    {
        let info = Json::object2(
            "name",
            Json::from_text("rust-openai-chat"),
            "version",
            Json::from_text(client_version),
        );
        let params = Json::object2("clientInfo", info, "protocolVersion", Json::from_text("2024-11-05"));
        self.request("initialize", params)
    }

    /// The `tools/list` request, with the next id.
    pub fn list_tools_request(&mut self) -> (r: Json)
        requires
            old(self).last_id() < u64::MAX,
        ensures
            final(self).last_id() == old(self).last_id() + 1,
            final(self).server_name() == old(self).server_name(),
            final(self).sent_ids() == old(self).sent_ids().push(final(self).last_id()),
            r@ == rpc_request_data(
                final(self).last_id(),
                "tools/list"@,
                JsonData::Object(Seq::empty()),
            ),
    {
        let params = Json::object(Vec::new());
        proof {
            assert(crate::json::entries_data(Seq::<(String, Json)>::empty()) =~= Seq::empty());
        }
        self.request("tools/list", params)
    }

    /// The `tools/call` request for a tool with its arguments, with the next id.
    pub fn call_tool_request(&mut self, name: &str, args: Json) -> (r: Json)
        requires
            old(self).last_id() < u64::MAX,
        ensures
            final(self).last_id() == old(self).last_id() + 1,
            final(self).server_name() == old(self).server_name(),
            final(self).sent_ids() == old(self).sent_ids().push(final(self).last_id()),
            r@ == rpc_request_data(final(self).last_id(), "tools/call"@, call_params_data(name@, args@)),
    {
        let params = Json::object2("arguments", args, "name", Json::from_text(name));
        self.request("tools/call", params)
    }
}

} // verus!

verus! {

/// Why an exchange with an MCP server failed.
pub enum McpError {
    /// The server closed its output.
    Closed,
    /// The line was no JSON.
    InvalidJson,
    /// The server answered with an error; its JSON text.
    Rpc(String),
    /// The answer to `tools/list` held no list of tools.
    InvalidToolsList,
}

/// The text that reports an error.
pub open spec fn mcp_error_text(e: McpError) -> Seq<char> {
    match e {
        McpError::Closed => "MCP server closed stdout"@,
        McpError::InvalidJson => "Invalid JSON-RPC line"@,
        McpError::Rpc(text) => "MCP error: "@ + text@,
        McpError::InvalidToolsList => "Invalid tools/list response"@,
    }
}

impl McpError {
    /// The text that reports the error.
    pub fn message(&self) -> (r: String)
        ensures
            r@ == mcp_error_text(*self),
    {
        match self {
            McpError::Closed => "MCP server closed stdout".to_owned(),
            McpError::InvalidJson => "Invalid JSON-RPC line".to_owned(),
            McpError::Rpc(text) => {
                let mut s = "MCP error: ".to_owned();
                s.append(text.as_str());
                s
            },
            McpError::InvalidToolsList => "Invalid tools/list response".to_owned(),
        }
    }
}

/// The line that carries a message to the server: its JSON text and a
/// line feed.
pub fn encode_message(v: &Json) -> (r: String)
    ensures
        r@ == json_text(v@).push('\n'),
{
    let mut s = v.to_text();
    s.append("\n");
    proof {
        reveal_strlit("\n");
        assert(s@ =~= json_text(v@).push('\n'));
    }
    s
}

/// What a line read from the server gives: nothing read means the server
/// closed its output; the line must hold JSON; a member `error` makes it a
/// failure that carries the error's JSON text.
pub open spec fn response_outcome(bytes_read: nat, line: Seq<char>) -> Result<JsonData, Seq<char>> {
    if bytes_read == 0 {
        Err(mcp_error_text(McpError::Closed))
    } else {
        match parsed_json(line) {
            None => Err(mcp_error_text(McpError::InvalidJson)),
            Some(v) => match data_get_key(v, "error"@) {
                Some(e) => Err("MCP error: "@ + json_text(e)),
                None => Ok(v),
            },
        }
    }
}

/// The model of a decoded response.
pub open spec fn response_view(r: Result<Json, McpError>) -> Result<JsonData, Seq<char>> {
    match r {
        Ok(v) => Ok(v@),
        Err(e) => Err(mcp_error_text(e)),
    }
}

/// The response in a line read from the server (`bytes_read` bytes).
pub fn decode_response(bytes_read: usize, line: &str) -> (r: Result<Json, McpError>)
    ensures
        response_view(r) == response_outcome(bytes_read as nat, line@),
        bytes_read == 0 ==> r matches Err(McpError::Closed),
{
    if bytes_read == 0 {
        return Err(McpError::Closed);
    }
    match parse_json(line) {
        None => Err(McpError::InvalidJson),
        Some(v) => {
            let err = match v.get_key("error") {
                Some(e) => Some(e.to_text()),
                None => None,
            };
            match err {
                Some(text) => Err(McpError::Rpc(text)),
                None => Ok(v),
            }
        },
    }
}

/// A tool as a `tools/list` answer describes it: the name (or empty), the
/// description where it is a string, and the input schema (`{"type":"object"}`
/// where there is none).
pub open spec fn tool_desc_data(t: JsonData) -> ToolData {
    ToolData {
        name: match data_as_str(data_at_key(t, "name"@)) {
            Some(s) => s,
            None => Seq::empty(),
        },
        description: match data_get_key(t, "description"@) {
            Some(d) => data_as_str(d),
            None => None,
        },
        input_schema: match data_get_key(t, "inputSchema"@) {
            Some(s) => s,
            None => JsonData::Object(seq![("type"@, JsonData::Str("object"@))]),
        },
    }
}

/// A listed tool is described as the server wrote it: the name is the
/// `name` member where that is a string (empty otherwise); the description is
/// `Some(s)` exactly when there is a `description` member that is the string
/// `s`, and `None` otherwise; the input schema is the `inputSchema` member
/// where there is one, and `{"type":"object"}` where there is none.
pub proof fn lemma_tool_desc_members(t: JsonData)
    ensures
        data_get_key(t, "name"@) matches Some(JsonData::Str(s)) ==> tool_desc_data(t).name == s,
        !(data_get_key(t, "name"@) matches Some(JsonData::Str(_))) ==> tool_desc_data(t).name == Seq::<char>::empty(),
        data_get_key(t, "description"@) matches Some(JsonData::Str(s)) ==> tool_desc_data(t).description == Some(s),
        !(data_get_key(t, "description"@) matches Some(JsonData::Str(_))) ==> tool_desc_data(t).description is None,
        data_get_key(t, "inputSchema"@) matches Some(x) ==> tool_desc_data(t).input_schema == x,
        data_get_key(t, "inputSchema"@) is None ==> tool_desc_data(t).input_schema == JsonData::Object(
            seq![("type"@, JsonData::Str("object"@))],
        ),
{
}

/// `resp["result"]["tools"]` where it is an array.
pub open spec fn listed_tools(resp: JsonData) -> Option<Seq<JsonData>> {
    match data_at_key(data_at_key(resp, "result"@), "tools"@) {
        JsonData::Array(ts) => Some(ts),
        _ => None,
    }
}

/// The tools that a `tools/list` answer lists, in order.
pub fn tools_from_response(resp: &Json) -> (r: Result<Vec<McpToolDescription>, McpError>)
    ensures
        match listed_tools(resp@) {
            None => r matches Err(McpError::InvalidToolsList),
            Some(ts) => (r matches Ok(v) && v@.len() == ts.len() && forall|i: int|
                0 <= i < ts.len() ==> #[trigger] v@[i]@ == tool_desc_data(ts[i])),
        },
{
    proof {
        reveal_strlit("");
    }
    let tools = match resp.get_key("result") {
        Some(res) => match res.get_key("tools") {
            Some(t) => t,
            None => return Err(McpError::InvalidToolsList),
        },
        None => return Err(McpError::InvalidToolsList),
    };
    let items = match tools.as_array() {
        Some(items) => items,
        None => return Err(McpError::InvalidToolsList),
    };
    proof {
        lemma_items_data(items@);
    }
    let ghost ts = items_data(items@);
    let mut out: Vec<McpToolDescription> = Vec::new();
    let mut i: usize = 0;
    while i < items.len()
        invariant
            i <= items@.len(),
            ts == items_data(items@),
            ts.len() == items@.len(),
            forall|k: int| 0 <= k < items@.len() ==> #[trigger] ts[k] == items@[k]@,
            out@.len() == i,
            forall|k: int| 0 <= k < i ==> #[trigger] out@[k]@ == tool_desc_data(ts[k]),
        decreases items.len() - i,
    {
        let t = &items[i];
        let name = match t.get_key("name") {
            Some(n) => match n.as_str() {
                Some(s) => s.clone(),
                None => "".to_owned(),
            },
            None => "".to_owned(),
        };
        let description = match t.get_key("description") {
            Some(d) => match d.as_str() {
                Some(s) => Some(s.clone()),
                None => None,
            },
            None => None,
        };
        let input_schema = match t.get_key("inputSchema") {
            Some(s) => s.deep_clone(),
            None => Json::object1("type", Json::from_text("object")),
        };
        let desc = McpToolDescription { name, description, input_schema };
        proof {
            reveal_strlit("");
            assert(desc@.name =~= tool_desc_data(ts[i as int]).name);
        }
        out.push(desc);
        i += 1;
    }
    Ok(out)
}

/// `resp["result"]`: what a tool call gave, `null` where there is nothing.
pub fn tool_call_result(resp: &Json) -> (r: Json)
    ensures
        r@ == data_at_key(resp@, "result"@),
{
    match resp.get_key("result") {
        Some(v) => v.deep_clone(),
        None => Json::Null,
    }
}

} // verus!

verus! {

/// The ids that one client sends are 1, 2, 3, ... in the order of its
/// requests: after `k` requests they are exactly `1..=k`, each larger than
/// every one before it, so none repeats.
pub proof fn lemma_ids_count_up(c: McpClient)
    ensures
        c.sent_ids().len() == c.last_id(),
        forall|i: int| 0 <= i < c.sent_ids().len() ==> #[trigger] c.sent_ids()[i] == i + 1,
        forall|i: int, j: int|
            0 <= i < j < c.sent_ids().len() ==> #[trigger] c.sent_ids()[i] < #[trigger] c.sent_ids()[j],
{
}

/// A run of requests from a new client: `cs[0]` is the client as `new` gives
/// it, and each later state follows the one before by one request (each
/// request builder adds one to the last id).  After `k` requests the last id
/// is `k` and the ids sent are `1, 2, ..., k`.
pub proof fn lemma_ids_of_run(cs: Seq<McpClient>)
    requires
        cs.len() > 0,
        cs[0].last_id() == 0,
        forall|i: int| 1 <= i < cs.len() ==> #[trigger] cs[i].last_id() == cs[i - 1].last_id() + 1,
    ensures
        cs.last().last_id() == cs.len() - 1,
        cs.last().sent_ids() == Seq::new((cs.len() - 1) as nat, |i: int| (i + 1) as nat),
    decreases cs.len(),
{
    if cs.len() > 1 {
        let p = cs.drop_last();
        assert forall|i: int| 1 <= i < p.len() implies #[trigger] p[i].last_id() == p[i - 1].last_id() + 1 by {
            assert(p[i] == cs[i] && p[i - 1] == cs[i - 1]);
        }
        lemma_ids_of_run(p);
        assert(cs[cs.len() - 1].last_id() == cs[cs.len() - 2].last_id() + 1);
    }
    assert(cs.last().sent_ids() =~= Seq::new((cs.len() - 1) as nat, |i: int| (i + 1) as nat));
}

/// The `id` member of a request is the decimal numeral of its id: digits
/// only, without a leading zero, reading back as the id.
pub proof fn lemma_request_id_reads_back(id: nat, method: Seq<char>, params: JsonData)
    ensures
        data_get_key(rpc_request_data(id, method, params), "id"@) == Some(JsonData::Number(decimal(id))),
        crate::text::all_digits(decimal(id)),
        crate::text::numeral_value(decimal(id)) == id,
        decimal(id)[0] == '0' ==> id == 0,
{
    crate::text::lemma_decimal_reads_back(id);
}

/// A message whose numbers have no line feed goes to the server as exactly
/// one line: the line feed at its end is its only one.
pub proof fn lemma_message_one_line(v: JsonData)
    requires
        crate::json::numbers_one_line(v),
    ensures
        json_text(v).push('\n').last() == '\n',
        forall|i: int|
            0 <= i < json_text(v).push('\n').len() - 1 ==> json_text(v).push('\n')[i] != '\n',
{
    crate::json::lemma_text_one_line(v);
    assert forall|i: int| 0 <= i < json_text(v).push('\n').len() - 1 implies json_text(v).push(
        '\n',
    )[i] != '\n' by {
        assert(json_text(v).push('\n')[i] == json_text(v)[i]);
    }
}

proof fn lemma_decimal_digits(n: nat)
    ensures
        !decimal(n).contains('\n'),
    decreases n,
{
    if n >= 10 {
        lemma_decimal_digits(n / 10);
        let d = decimal(n / 10);
        let c = crate::text::digit_char((n % 10) as int);
        assert forall|i: int| 0 <= i < d.push(c).len() implies d.push(c)[i] != '\n' by {
            if i < d.len() {
                assert(d.push(c)[i] == d[i]);
            }
        }
    } else {
        assert(decimal(n)[0] != '\n');
    }
}

/// A request whose parameters have no number with a line feed goes to the
/// server as exactly one line.
pub proof fn lemma_request_one_line(id: nat, method: Seq<char>, params: JsonData)
    requires
        crate::json::numbers_one_line(params),
    ensures
        crate::json::numbers_one_line(rpc_request_data(id, method, params)),
        forall|i: int|
            0 <= i < json_text(rpc_request_data(id, method, params)).push('\n').len() - 1
                ==> json_text(rpc_request_data(id, method, params)).push('\n')[i] != '\n',
{
    lemma_decimal_digits(id);
    let es = seq![
        ("id"@, JsonData::Number(decimal(id))),
        ("jsonrpc"@, JsonData::Str("2.0"@)),
        ("method"@, JsonData::Str(method)),
        ("params"@, params),
    ];
    assert(es.drop_last().drop_last().drop_last().drop_last() =~= Seq::<(Seq<char>, JsonData)>::empty());
    assert(crate::json::entries_one_line(es.drop_last().drop_last().drop_last().drop_last()));
    assert(es.drop_last().drop_last().drop_last() =~= seq![es[0]]);
    assert(crate::json::numbers_one_line(es[0].1));
    assert(crate::json::entries_one_line(es.drop_last().drop_last().drop_last()));
    assert(es.drop_last().drop_last() =~= seq![es[0], es[1]]);
    assert(es.drop_last().drop_last().last() == es[1]);
    assert(es.drop_last().last() == es[2]);
    assert(es.last() == es[3]);
    assert(crate::json::numbers_one_line(es[1].1));
    assert(crate::json::numbers_one_line(es[2].1));
    assert(crate::json::numbers_one_line(es[3].1));
    assert(crate::json::entries_one_line(es.drop_last().drop_last()));
    assert(crate::json::entries_one_line(es.drop_last()));
    assert(crate::json::entries_one_line(es));
    lemma_message_one_line(rpc_request_data(id, method, params));
}

} // verus!
