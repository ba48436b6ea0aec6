use vstd::prelude::*;

use crate::json::{data_at_key, data_get_key, Json, JsonData};
use crate::mcp::client::{McpToolDescription, ToolData};

verus! {

/// Keys that occur once each.
pub open spec fn keys_unique<K, V>(s: Seq<(K, V)>) -> bool {
    forall|i: int, j: int| 0 <= i < j < s.len() ==> s[i].0 != s[j].0
}

/// The map of a list of entries: each entry, in order, sets its key.
pub open spec fn entries_map<K, V>(s: Seq<(K, V)>) -> Map<K, V>
    decreases s.len(),
{
    if s.len() == 0 {
        Map::empty()
    } else {
        entries_map(s.drop_last()).insert(s.last().0, s.last().1)
    }
}

/// A key is in the map of distinct entries where an entry has it, with that
/// entry's value.
proof fn lemma_entries_map_index<K, V>(s: Seq<(K, V)>, k: K)
    requires
        keys_unique(s),
    ensures
        entries_map(s).contains_key(k) <==> exists|i: int| 0 <= i < s.len() && s[i].0 == k,
        forall|i: int| 0 <= i < s.len() && s[i].0 == k ==> entries_map(s)[k] == s[i].1,
    decreases s.len(),
{
    if s.len() > 0 {
        let p = s.drop_last();
        assert(keys_unique(p));
        lemma_entries_map_index(p, k);
        if entries_map(s).contains_key(k) && k != s.last().0 {
            let i = choose|i: int| 0 <= i < p.len() && p[i].0 == k;
            assert(s[i].0 == k);
        }
        if exists|i: int| 0 <= i < s.len() && s[i].0 == k {
            let i = choose|i: int| 0 <= i < s.len() && s[i].0 == k;
            if i < p.len() {
                assert(p[i].0 == k);
            }
        }
        assert forall|i: int| 0 <= i < s.len() && s[i].0 == k implies entries_map(s)[k] == s[i].1 by {
            if i < p.len() {
                assert(p[i].0 == k);
                assert(s.last().0 != k);
            }
        }
    }
}

/// Setting the value of an entry is inserting into the map.
proof fn lemma_entries_map_update<K, V>(s: Seq<(K, V)>, i: int, v: V)
    requires
        keys_unique(s),
        0 <= i < s.len(),
    ensures
        keys_unique(s.update(i, (s[i].0, v))),
        entries_map(s.update(i, (s[i].0, v))) == entries_map(s).insert(s[i].0, v),
    decreases s.len(),
{
    let k = s[i].0;
    let t = s.update(i, (k, v));
    assert(keys_unique(t));
    if i == s.len() - 1 {
        assert(t.drop_last() =~= s.drop_last());
        assert(entries_map(t) =~= entries_map(s).insert(k, v));
    } else {
        let p = s.drop_last();
        lemma_entries_map_update(p, i, v);
        assert(t.drop_last() =~= p.update(i, (k, v)));
        assert(s.last().0 != k);
        assert(entries_map(t) =~= entries_map(s).insert(k, v));
    }
}

/// Appending an entry with a new key is inserting into the map.
proof fn lemma_entries_map_push<K, V>(s: Seq<(K, V)>, k: K, v: V)
    requires
        keys_unique(s),
        forall|i: int| 0 <= i < s.len() ==> s[i].0 != k,
    ensures
        keys_unique(s.push((k, v))),
        entries_map(s.push((k, v))) == entries_map(s).insert(k, v),
{
    let t = s.push((k, v));
    assert(t.drop_last() =~= s);
    assert forall|i: int, j: int| 0 <= i < j < t.len() implies t[i].0 != t[j].0 by {
        if j == s.len() {
            assert(t[i].0 == s[i].0);
        } else {
            assert(t[i].0 == s[i].0 && t[j].0 == s[j].0);
        }
    }
}

} // verus!

verus! {

/// A tool entry: the tool's name, the server that offers it and its
/// description.
pub open spec fn tool_entry_view(e: (String, String, McpToolDescription)) -> (Seq<char>, (Seq<char>, ToolData)) {
    (e.0@, (e.1@, e.2@))
}

/// The views of tool entries, in order.
pub open spec fn tool_entries(s: Seq<(String, String, McpToolDescription)>) -> Seq<(Seq<char>, (Seq<char>, ToolData))> {
    s.map_values(|e: (String, String, McpToolDescription)| tool_entry_view(e))
}

/// The entries with `(k, v)` set: in the place of the entry with key `k`
/// where there is one, at the end otherwise.
pub open spec fn upsert<K, V>(s: Seq<(K, V)>, k: K, v: V) -> Seq<(K, V)> {
    if exists|i: int| 0 <= i < s.len() && s[i].0 == k {
        let i = choose|i: int| 0 <= i < s.len() && s[i].0 == k;
        s.update(i, (k, v))
    } else {
        s.push((k, v))
    }
}

/// The tool entries after registering a list from a server, one after the
/// other: a tool keeps the place of the first of its name.
pub open spec fn register_list(
    l: Seq<(Seq<char>, (Seq<char>, ToolData))>,
    server: Seq<char>,
    list: Seq<ToolData>,
) -> Seq<(Seq<char>, (Seq<char>, ToolData))>
    decreases list.len(),
{
    if list.len() == 0 {
        l
    } else {
        upsert(register_list(l, server, list.drop_last()), list.last().name, (server, list.last()))
    }
}

/// The tools after registering a list from a server, one after the other: a
/// later tool of the same name takes the place of an earlier one.
pub open spec fn register_all(
    m: Map<Seq<char>, (Seq<char>, ToolData)>,
    server: Seq<char>,
    list: Seq<ToolData>,
) -> Map<Seq<char>, (Seq<char>, ToolData)>
    decreases list.len(),
{
    if list.len() == 0 {
        m
    } else {
        register_all(m, server, list.drop_last()).insert(list.last().name, (server, list.last()))
    }
}

/// The last tool of the list with the given name.
pub open spec fn last_named(list: Seq<ToolData>, name: Seq<char>) -> Option<ToolData>
    decreases list.len(),
{
    if list.len() == 0 {
        None
    } else if list.last().name == name {
        Some(list.last())
    } else {
        last_named(list.drop_last(), name)
    }
}

/// After a server's list is registered, a tool name that the list holds
/// belongs to that server, with the last description of that name in the
/// list; every other name keeps what it had.
pub proof fn lemma_register_all_lookup(
    m: Map<Seq<char>, (Seq<char>, ToolData)>,
    server: Seq<char>,
    list: Seq<ToolData>,
    name: Seq<char>,
)
    ensures
        last_named(list, name) matches Some(t) ==> register_all(m, server, list).contains_key(name)
            && register_all(m, server, list)[name] == (server, t),
        last_named(list, name) is None ==> (register_all(m, server, list).contains_key(name)
            <==> m.contains_key(name)) && register_all(m, server, list)[name] == m[name],
    decreases list.len(),
{
    if list.len() > 0 {
        lemma_register_all_lookup(m, server, list.drop_last(), name);
    }
}

/// What the chat model is told of a tool: `{"description", "name",
/// "parameters"}`, with an empty description where the tool has none.
pub open spec fn tool_function_data(t: ToolData) -> JsonData {
    JsonData::Object(
        seq![
            (
                "description"@,
                JsonData::Str(
                    match t.description {
                        Some(d) => d,
                        None => Seq::empty(),
                    },
                ),
            ),
            ("name"@, JsonData::Str(t.name)),
            ("parameters"@, t.input_schema),
        ],
    )
}

/// The definition of a tool for the chat model:
/// `{"function": {..}, "type": "function"}`.
pub open spec fn tool_definition_data(t: ToolData) -> JsonData {
    JsonData::Object(seq![("function"@, tool_function_data(t)), ("type"@, JsonData::Str("function"@))])
}

/// The definition of a tool tells the model the tool as it was described:
/// `type` is `"function"`, and under `function` the `name` is the tool's name,
/// the `description` its description (empty where it has none) and the
/// `parameters` its input schema, unchanged.
pub proof fn lemma_tool_definition_members(t: ToolData)
    ensures
        data_get_key(tool_definition_data(t), "type"@) == Some(JsonData::Str("function"@)),
        data_get_key(data_at_key(tool_definition_data(t), "function"@), "name"@) == Some(JsonData::Str(t.name)),
        data_get_key(data_at_key(tool_definition_data(t), "function"@), "parameters"@) == Some(t.input_schema),
        t.description matches Some(s) ==> data_get_key(data_at_key(tool_definition_data(t), "function"@), "description"@)
            == Some(JsonData::Str(s)),
        t.description is None ==> data_get_key(data_at_key(tool_definition_data(t), "function"@), "description"@)
            == Some(JsonData::Str(Seq::empty())),
{
    reveal_strlit("function");
    reveal_strlit("type");
    reveal_strlit("description");
    reveal_strlit("name");
    reveal_strlit("parameters");
    let def = tool_definition_data(t);
    let des = def->Object_0;
    assert(des[0].0 =~= "function"@);
    assert(des[0].0 != "type"@) by {
        assert(des[0].0.len() != "type"@.len());
    }
    assert(des.drop_first()[0].0 =~= "type"@);
    assert(crate::json::entries_lookup(des.drop_first(), "type"@) == Some(des.drop_first()[0].1));
    assert(crate::json::entries_lookup(des, "type"@) == Some(des.drop_first()[0].1));
    let f = tool_function_data(t);
    assert(data_at_key(def, "function"@) == f);
    let fs = f->Object_0;
    assert(fs[0].0 != "name"@) by {
        assert(fs[0].0.len() != "name"@.len());
    }
    assert(fs[0].0 != "parameters"@) by {
        assert(fs[0].0.len() != "parameters"@.len());
    }
    assert(fs[0].0 =~= "description"@);
    let f1 = fs.drop_first();
    assert(f1[0].0 =~= "name"@);
    assert(crate::json::entries_lookup(f1, "name"@) == Some(f1[0].1));
    assert(crate::json::entries_lookup(fs, "name"@) == Some(f1[0].1));
    assert(f1[0].0 != "parameters"@) by {
        assert(f1[0].0.len() != "parameters"@.len());
    }
    let f2 = f1.drop_first();
    assert(f2[0].0 =~= "parameters"@);
    assert(crate::json::entries_lookup(f2, "parameters"@) == Some(f2[0].1));
    assert(crate::json::entries_lookup(f1, "parameters"@) == Some(f2[0].1));
    assert(crate::json::entries_lookup(fs, "parameters"@) == Some(f2[0].1));
    assert(crate::json::entries_lookup(fs, "description"@) == Some(fs[0].1));
}

/// Why a tool cannot be called.
#[derive(PartialEq, Eq, Structural)]
pub enum HostError {
    /// No server offers the tool.
    UnknownTool,
    /// The server of the tool is not connected.
    ServerNotFound,
}

impl HostError {
    /// The text that reports the error.
    pub fn message(&self) -> (r: String)
        ensures
            r@ == match *self {
                HostError::UnknownTool => "Unknown tool"@,
                HostError::ServerNotFound => "Server not found"@,
            },
    {
        match self {
            HostError::UnknownTool => "Unknown tool".to_owned(),
            HostError::ServerNotFound => "Server not found".to_owned(),
        }
    }
}

/// The MCP servers that are connected and the tools that they offer.
pub struct McpHost {
    servers: Vec<String>,
    tools: Vec<(String, String, McpToolDescription)>,
}

impl McpHost {
    /// The names of the connected servers.
    pub closed spec fn servers(&self) -> Set<Seq<char>> {
        Set::new(|n: Seq<char>| exists|i: int| 0 <= i < self.servers@.len() && self.servers@[i]@ == n)
    }

    /// The tools, in the order in which they were first registered.
    pub closed spec fn tool_list(&self) -> Seq<(Seq<char>, (Seq<char>, ToolData))> {
        tool_entries(self.tools@)
    }

    /// Each tool's name, with its server and description.
    pub open spec fn tool_map(&self) -> Map<Seq<char>, (Seq<char>, ToolData)> {
        entries_map(self.tool_list())
    }

    /// Every tool is offered by a connected server.
    pub open spec fn tools_served(&self) -> bool {
        forall|i: int| 0 <= i < self.tool_list().len() ==> #[trigger] self.servers().contains(self.tool_list()[i].1.0)
    }

    /// Every tool is listed under the name of its description.
    pub open spec fn tools_named(&self) -> bool {
        forall|i: int| 0 <= i < self.tool_list().len() ==> #[trigger] self.tool_list()[i].0 == self.tool_list()[i].1.1.name
    }

    /// A tool of each name at most once, each under its description's name
    /// and offered by a connected server.
    #[verifier::type_invariant]
    spec fn consistent(self) -> bool {
        &&& keys_unique(self.tool_list())
        &&& self.tools_served()
        &&& self.tools_named()
    }

    /// Whether a server of this name is connected.
    pub fn has_server(&self, name: &str) -> (r: bool)
        ensures
            r == self.servers().contains(name@),
    {
        let n = name.to_owned();
        let mut i: usize = 0;
        while i < self.servers.len()
            invariant
                i <= self.servers@.len(),
                n@ == name@,
                forall|j: int| 0 <= j < i ==> self.servers@[j]@ != name@,
            decreases self.servers.len() - i,
        {
            if self.servers[i] == n {
                proof {
                    assert(self.servers@[i as int]@ == name@);
                }
                return true;
            }
            i += 1;
        }
        proof {
            if self.servers().contains(name@) {
                let j = choose|j: int| 0 <= j < self.servers@.len() && self.servers@[j]@ == name@;
                assert(self.servers@[j]@ != name@);
            }
        }
        false
    }

    /// No server and no tool.
    pub fn new() -> (r: McpHost)
        ensures
            r.servers() == Set::<Seq<char>>::empty(),
            r.tool_map() == Map::<Seq<char>, (Seq<char>, ToolData)>::empty(),
            r.tool_list() == Seq::<(Seq<char>, (Seq<char>, ToolData))>::empty(),
            r.tools_served(),
            r.tools_named(),
    {
        let servers: Vec<String> = Vec::new();
        let tools: Vec<(String, String, McpToolDescription)> = Vec::new();
        proof {
            assert(tool_entries(tools@) =~= Seq::<(Seq<char>, (Seq<char>, ToolData))>::empty());
        }
        let r = McpHost { servers, tools };
        proof {
            assert(r.servers() =~= Set::<Seq<char>>::empty());
        }
        r
    }

    /// A server is connected.
    pub fn add_server(&mut self, name: &str)
        ensures
            final(self).servers() == old(self).servers().insert(name@),
            final(self).tool_list() == old(self).tool_list(),
            final(self).tools_served(),
            final(self).tools_named(),
    {
        proof {
            use_type_invariant(&*self);
        }
        let n = name.to_owned();
        let mut i: usize = 0;
        while i < self.servers.len()
            invariant
                i <= self.servers@.len(),
                n@ == name@,
                self.tools == old(self).tools,
                self.servers == old(self).servers,
                keys_unique(self.tool_list()),
                self.tools_served(),
                self.tools_named(),
                forall|j: int| 0 <= j < i ==> self.servers@[j]@ != n@,
            decreases self.servers.len() - i,
        {
            if self.servers[i] == n {
                proof {
                    assert(self.servers().insert(name@) =~= self.servers());
                }
                return;
            }
            i += 1;
        }
        let ghost before = self.servers();
        let ghost l = self.tool_list();
        let mut tools: Vec<(String, String, McpToolDescription)> = Vec::new();
        proof {
            assert(tool_entries(tools@) =~= Seq::<(Seq<char>, (Seq<char>, ToolData))>::empty());
        }
        std::mem::swap(&mut tools, &mut self.tools);
        let mut servers: Vec<String> = Vec::new();
        std::mem::swap(&mut servers, &mut self.servers);
        servers.push(n);
        self.servers = servers;
        proof {
            assert forall|x: Seq<char>| #[trigger] self.servers().contains(x) <==> before.insert(name@).contains(x) by {
                if before.contains(x) {
                    let j = choose|j: int| 0 <= j < old(self).servers@.len() && old(self).servers@[j]@ == x;
                    assert(self.servers@[j]@ == x);
                }
                if self.servers().contains(x) && x != name@ {
                    let j = choose|j: int| 0 <= j < self.servers@.len() && self.servers@[j]@ == x;
                    assert(j < old(self).servers@.len());
                    assert(old(self).servers@[j]@ == x);
                }
                if x == name@ {
                    assert(self.servers@[self.servers@.len() - 1]@ == x);
                }
            }
            assert(self.servers() =~= before.insert(name@));
            assert forall|i: int| 0 <= i < l.len() implies #[trigger] self.servers().contains(l[i].1.0) by {
                assert(before.contains(l[i].1.0));
            }
            assert(forall|i: int| 0 <= i < l.len() ==> #[trigger] l[i].0 == l[i].1.1.name);
        }
        self.tools = tools;
    }

    /// Register one tool of a server.
    fn insert_tool(&mut self, server: &str, desc: McpToolDescription)
        requires
            old(self).servers().contains(server@),
        ensures
            final(self).servers() == old(self).servers(),
            final(self).tool_list() == upsert(old(self).tool_list(), desc@.name, (server@, desc@)),
            final(self).tool_map() == old(self).tool_map().insert(desc@.name, (server@, desc@)),
    {
        proof {
            use_type_invariant(&*self);
        }
        let key = desc.name.clone();
        let ghost dv = desc@;
        let entry = (key.clone(), server.to_owned(), desc);
        let ghost ev = tool_entry_view(entry);
        assert(ev == (dv.name, (server@, dv)));
        let ghost l = self.tool_list();
        let mut tools: Vec<(String, String, McpToolDescription)> = Vec::new();
        proof {
            assert(tool_entries(tools@) =~= Seq::<(Seq<char>, (Seq<char>, ToolData))>::empty());
        }
        std::mem::swap(&mut tools, &mut self.tools);
        let mut i: usize = 0;
        while i < tools.len()
            invariant
                i <= tools@.len(),
                l == tool_entries(tools@),
                l == old(self).tool_list(),
                keys_unique(l),
                forall|j: int| 0 <= j < l.len() ==> #[trigger] self.servers().contains(l[j].1.0),
                forall|j: int| 0 <= j < l.len() ==> #[trigger] l[j].0 == l[j].1.1.name,
                self.servers().contains(server@),
                self.servers == old(self).servers,
                key@ == ev.0,
                ev == tool_entry_view(entry),
                ev == (dv.name, (server@, dv)),
                dv == desc@,
                forall|j: int| 0 <= j < i ==> tools@[j].0@ != key@,
            decreases tools.len() - i,
        {
            if tools[i].0 == key {
                let ghost before = tools@;
                proof {
                    assert(l[i as int] == tool_entry_view(before[i as int]));
                }
                tools.set(i, entry);
                proof {
                    assert(l[i as int].0 == ev.0);
                    assert forall|j: int| 0 <= j < l.len() implies #[trigger] tool_entries(tools@)[j]
                        == l.update(i as int, (l[i as int].0, ev.1))[j] by {
                        assert(tool_entries(tools@)[j] == tool_entry_view(tools@[j]));
                        assert(l[j] == tool_entry_view(before[j]));
                    }
                    lemma_entries_map_update(l, i as int, ev.1);
                    assert(tool_entries(tools@) =~= l.update(i as int, (l[i as int].0, ev.1)));
                    let c = choose|c: int| 0 <= c < l.len() && l[c].0 == ev.0;
                    assert(c == i);
                    let n = tool_entries(tools@);
                    assert forall|j: int| 0 <= j < n.len() implies #[trigger] self.servers().contains(n[j].1.0)
                        && n[j].0 == n[j].1.1.name by {
                        if j != i {
                            assert(n[j] == l[j]);
                        }
                    }
                }
                self.tools = tools;
                return;
            }
            i += 1;
        }
        let ghost before = tools@;
        proof {
            assert forall|j: int| 0 <= j < l.len() implies l[j].0 != ev.0 by {
                assert(l[j] == tool_entry_view(before[j]));
            }
            assert(!exists|j: int| 0 <= j < l.len() && l[j].0 == ev.0);
            lemma_entries_map_push(l, ev.0, ev.1);
        }
        tools.push(entry);
        proof {
            assert forall|j: int| 0 <= j < l.len() + 1 implies #[trigger] tool_entries(tools@)[j] == l.push(ev)[j] by {
                assert(tool_entries(tools@)[j] == tool_entry_view(tools@[j]));
                if j < l.len() {
                    assert(l[j] == tool_entry_view(before[j]));
                }
            }
            assert(tool_entries(tools@) =~= l.push(ev));
            let n = tool_entries(tools@);
            assert forall|j: int| 0 <= j < n.len() implies #[trigger] self.servers().contains(n[j].1.0)
                && n[j].0 == n[j].1.1.name by {
                if j < l.len() {
                    assert(n[j] == l[j]);
                }
            }
        }
        self.tools = tools;
    }

    /// Register the tools that a server lists, one after the other: a later
    /// tool of the same name takes the place of an earlier one.
    pub fn register_tools(&mut self, server: &str, list: Vec<McpToolDescription>)
        requires
            old(self).servers().contains(server@),
        ensures
            final(self).tools_served(),
            final(self).tools_named(),
            final(self).servers() == old(self).servers(),
            final(self).tool_list() == register_list(
                old(self).tool_list(),
                server@,
                list@.map_values(|t: McpToolDescription| t@),
            ),
            final(self).tool_map() == register_all(
                old(self).tool_map(),
                server@,
                list@.map_values(|t: McpToolDescription| t@),
            ),
    {
        let ghost views = list@.map_values(|t: McpToolDescription| t@);
        let mut i: usize = 0;
        while i < list.len()
            invariant
                i <= list@.len(),
                views == list@.map_values(|t: McpToolDescription| t@),
                self.servers() == old(self).servers(),
                old(self).servers().contains(server@),
                self.tool_list() == register_list(old(self).tool_list(), server@, views.take(i as int)),
                self.tool_map() == register_all(old(self).tool_map(), server@, views.take(i as int)),
            decreases list.len() - i,
        {
            let d = list[i].copy();
            self.insert_tool(server, d);
            proof {
                assert(views.take(i + 1).drop_last() =~= views.take(i as int));
            }
            i += 1;
        }
        proof {
            assert(views.take(i as int) =~= views);
            use_type_invariant(&*self);
        }
    }

    /// The server of a tool: `UnknownTool` where no server offers it.  Every
    /// tool's server is connected, so the server of a known tool is always
    /// found (`ServerNotFound` never comes).
    pub fn route(&self, tool: &str) -> (r: Result<String, HostError>)
        ensures
            !self.tool_map().contains_key(tool@) ==> r == Err::<String, HostError>(HostError::UnknownTool),
            self.tool_map().contains_key(tool@) ==> self.servers().contains(self.tool_map()[tool@].0),
            self.tool_map().contains_key(tool@) ==> (r matches Ok(s) && s@ == self.tool_map()[tool@].0),
    {
        proof {
            use_type_invariant(self);
        }
        let key = tool.to_owned();
        proof {
            lemma_entries_map_index(self.tool_list(), tool@);
        }
        let mut i: usize = 0;
        while i < self.tools.len()
            invariant
                i <= self.tools@.len(),
                key@ == tool@,
                keys_unique(self.tool_list()),
                self.tools_served(),
                forall|j: int| 0 <= j < i ==> self.tools@[j].0@ != key@,
            decreases self.tools.len() - i,
        {
            if self.tools[i].0 == key {
                let server = &self.tools[i].1;
                proof {
                    assert(self.tool_list()[i as int] == tool_entry_view(self.tools@[i as int]));
                    assert(self.tool_list()[i as int].0 == tool@);
                    lemma_entries_map_index(self.tool_list(), tool@);
                    assert(self.tool_map().contains_key(tool@));
                    assert(self.tool_map()[tool@].0 == server@);
                    assert(self.servers().contains(self.tool_list()[i as int].1.0));
                }
                let mut j: usize = 0;
                while j < self.servers.len()
                    invariant
                        j <= self.servers@.len(),
                        self.tool_map().contains_key(tool@),
                        self.tool_map()[tool@].0 == server@,
                        self.servers().contains(server@),
                        forall|m: int| 0 <= m < j ==> self.servers@[m]@ != server@,
                    decreases self.servers.len() - j,
                {
                    if self.servers[j] == *server {
                        proof {
                            assert(self.servers@[j as int]@ == server@);
                            assert(self.servers().contains(server@));
                        }
                        return Ok(server.clone());
                    }
                    j += 1;
                }
                proof {
                    let m = choose|m: int| 0 <= m < self.servers@.len() && self.servers@[m]@ == server@;
                    assert(self.servers@[m]@ != server@);
                }
                return Err(HostError::ServerNotFound);
            }
            i += 1;
        }
        proof {
            assert forall|j: int| 0 <= j < self.tool_list().len() implies self.tool_list()[j].0 != tool@ by {
                assert(self.tool_list()[j] == tool_entry_view(self.tools@[j]));
            }
            lemma_entries_map_index(self.tool_list(), tool@);
        }
        Err(HostError::UnknownTool)
    }

    /// The definitions of the tools for the chat model, in order.
    pub fn tool_definitions(&self) -> (r: Vec<Json>)
        ensures
            r@.len() == self.tool_list().len(),
            forall|i: int|
                0 <= i < r@.len() ==> #[trigger] r@[i]@ == tool_definition_data(self.tool_list()[i].1.1),
    {
        let mut out: Vec<Json> = Vec::new();
        let mut i: usize = 0;
        while i < self.tools.len()
            invariant
                i <= self.tools@.len(),
                out@.len() == i,
                forall|k: int| 0 <= k < i ==> #[trigger] out@[k]@ == tool_definition_data(self.tool_list()[k].1.1),
            decreases self.tools.len() - i,
        {
            let d = &self.tools[i].2;
            let description = match &d.description {
                Some(s) => Json::Str(s.clone()),
                None => Json::Str(String::new()),
            };
            let function = Json::object3(
                "description",
                description,
                "name",
                Json::Str(d.name.clone()),
                "parameters",
                d.input_schema.deep_clone(),
            );
            let def = Json::object2("function", function, "type", Json::from_text("function"));
            proof {
                assert(self.tool_list()[i as int] == tool_entry_view(self.tools@[i as int]));
                let ghost t = self.tool_list()[i as int].1.1;
                assert(t == d@);
                assert(tool_function_data(t)->Object_0 =~= function@->Object_0);
            }
            out.push(def);
            i += 1;
        }
        out
    }
}

} // verus!

verus! {

/// A tool entry comes from a list that its server gave: some received list
/// is from the entry's server and holds the entry's description.
pub open spec fn listed_from(
    e: (Seq<char>, (Seq<char>, ToolData)),
    received: Seq<(Seq<char>, Seq<ToolData>)>,
) -> bool {
    exists|j: int| 0 <= j < received.len() && received[j].0 == e.1.0 && received[j].1.contains(e.1.1)
}

/// Every tool entry comes from a list that its server gave.
pub open spec fn all_listed(
    tools: Seq<(Seq<char>, (Seq<char>, ToolData))>,
    received: Seq<(Seq<char>, Seq<ToolData>)>,
) -> bool {
    forall|i: int| 0 <= i < tools.len() ==> #[trigger] listed_from(tools[i], received)
}

/// An entry of `upsert(s, k, v)` is `(k, v)` or an entry of `s`.
proof fn lemma_upsert_entries<K, V>(s: Seq<(K, V)>, k: K, v: V, i: int)
    requires
        0 <= i < upsert(s, k, v).len(),
    ensures
        upsert(s, k, v)[i] == (k, v) || s.contains(upsert(s, k, v)[i]),
{
    if exists|j: int| 0 <= j < s.len() && s[j].0 == k {
        let c = choose|j: int| 0 <= j < s.len() && s[j].0 == k;
        if i != c {
            assert(s[i] == upsert(s, k, v)[i]);
        }
    } else {
        if i < s.len() {
            assert(s[i] == upsert(s, k, v)[i]);
        }
    }
}

/// Registering a list that a server gave keeps every entry coming from a
/// received list.
proof fn lemma_register_list_listed(
    l: Seq<(Seq<char>, (Seq<char>, ToolData))>,
    server: Seq<char>,
    list: Seq<ToolData>,
    received: Seq<(Seq<char>, Seq<ToolData>)>,
    jj: int,
)
    requires
        all_listed(l, received),
        0 <= jj < received.len(),
        received[jj].0 == server,
        forall|x: int| 0 <= x < list.len() ==> received[jj].1.contains(#[trigger] list[x]),
    ensures
        all_listed(register_list(l, server, list), received),
    decreases list.len(),
{
    if list.len() > 0 {
        let p = list.drop_last();
        assert forall|x: int| 0 <= x < p.len() implies received[jj].1.contains(#[trigger] p[x]) by {
            assert(p[x] == list[x]);
        }
        lemma_register_list_listed(l, server, p, received, jj);
        let r0 = register_list(l, server, p);
        let t = list.last();
        assert(received[jj].1.contains(list[list.len() - 1]));
        let r = register_list(l, server, list);
        assert(r == upsert(r0, t.name, (server, t)));
        assert forall|i: int| 0 <= i < r.len() implies #[trigger] listed_from(r[i], received) by {
            lemma_upsert_entries(r0, t.name, (server, t), i);
            if r[i] != (t.name, (server, t)) {
                let m = choose|m: int| 0 <= m < r0.len() && r0[m] == r[i];
                assert(listed_from(r0[m], received));
            }
        }
    }
}

/// A longer record of received lists still accounts for every entry.
proof fn lemma_all_listed_push(
    tools: Seq<(Seq<char>, (Seq<char>, ToolData))>,
    received: Seq<(Seq<char>, Seq<ToolData>)>,
    p: (Seq<char>, Seq<ToolData>),
)
    requires
        all_listed(tools, received),
    ensures
        all_listed(tools, received.push(p)),
{
    assert forall|i: int| 0 <= i < tools.len() implies #[trigger] listed_from(tools[i], received.push(p)) by {
        assert(listed_from(tools[i], received));
        let j = choose|j: int|
            0 <= j < received.len() && received[j].0 == tools[i].1.0 && received[j].1.contains(tools[i].1.1);
        assert(received.push(p)[j] == received[j]);
    }
}

/// What the start-up of the servers asks for next.
pub enum StartupAction {
    /// Send `initialize` to this server.
    Initialize(String),
    /// Ask this server for its tools.
    ListTools(String),
    /// Every server has had its turn.
    Finished,
}

/// The start-up of the servers that were started, one after the other:
/// `initialize`, then `tools/list`.  A server whose `initialize` fails is
/// passed over; the tools of a server are registered when its list comes.
pub struct Startup {
    host: McpHost,
    order: Vec<String>,
    next: usize,
    listing: bool,
    received: Ghost<Seq<(Seq<char>, Seq<ToolData>)>>,
}

impl Startup {
    /// The host that the start-up fills.
    pub closed spec fn host(&self) -> McpHost {
        self.host
    }

    /// The servers in the order in which they take their turn.
    pub closed spec fn order(&self) -> Seq<Seq<char>> {
        self.order@.map_values(|s: String| s@)
    }

    /// The position of the server whose turn it is.
    pub closed spec fn position(&self) -> nat {
        self.next as nat
    }

    /// Whether that server was initialized and its tools are awaited.
    pub closed spec fn listing(&self) -> bool {
        self.listing
    }

    /// The lists of tools that servers gave, each with its server, in order.
    pub closed spec fn received(&self) -> Seq<(Seq<char>, Seq<ToolData>)> {
        self.received@
    }

    /// Every server in the order is connected, the position is within it,
    /// and every tool comes from a list that its server gave.
    #[verifier::type_invariant]
    spec fn in_order(self) -> bool {
        &&& all_listed(self.host.tool_list(), self.received@)
        &&& self.next <= self.order@.len()
        &&& forall|i: int| 0 <= i < self.order@.len() ==> #[trigger] self.host.servers().contains(self.order@[i]@)
        &&& (self.listing ==> self.next < self.order@.len())
    }

    /// The start-up of the servers that were started, in this order: each is
    /// connected, none has a tool yet, and the first has its turn.
    pub fn new(started: Vec<String>) -> (r: Startup)
        ensures
            r.order() == started@.map_values(|s: String| s@),
            r.host().servers() == Set::new(|n: Seq<char>| r.order().contains(n)),
            r.host().tool_list() == Seq::<(Seq<char>, (Seq<char>, ToolData))>::empty(),
            r.position() == 0,
            !r.listing(),
            r.received() == Seq::<(Seq<char>, Seq<ToolData>)>::empty(),
    {
        let mut host = McpHost::new();
        let ghost names = started@.map_values(|s: String| s@);
        let mut i: usize = 0;
        while i < started.len()
            invariant
                i <= started@.len(),
                names == started@.map_values(|s: String| s@),
                host.servers() == Set::new(|n: Seq<char>| names.take(i as int).contains(n)),
                host.tool_list() == Seq::<(Seq<char>, (Seq<char>, ToolData))>::empty(),
            decreases started.len() - i,
        {
            let ghost before = host.servers();
            host.add_server(started[i].as_str());
            proof {
                let t = names.take(i + 1);
                assert(t =~= names.take(i as int).push(names[i as int]));
                assert(host.servers() =~= Set::new(|n: Seq<char>| t.contains(n))) by {
                    assert forall|n: Seq<char>| host.servers().contains(n) <==> t.contains(n) by {
                        if names.take(i as int).contains(n) {
                            let k = choose|k: int| 0 <= k < i && names.take(i as int)[k] == n;
                            assert(t[k] == n);
                        }
                        if t.contains(n) && n != names[i as int] {
                            let k = choose|k: int| 0 <= k < i + 1 && t[k] == n;
                            assert(names.take(i as int)[k] == n);
                        }
                        if n == names[i as int] {
                            assert(t[i as int] == n);
                        }
                    }
                }
            }
            i += 1;
        }
        proof {
            assert(names.take(i as int) =~= names);
            assert forall|k: int| 0 <= k < started@.len() implies #[trigger] host.servers().contains(started@[k]@) by {
                assert(names[k] == started@[k]@);
            }
        }
        Startup { host, order: started, next: 0, listing: false, received: Ghost(Seq::empty()) }
    }

    /// A start-up with no server.
    fn idle() -> (r: Startup)
        ensures
            r.order() == Seq::<Seq<char>>::empty(),
    {
        let r = Startup {
            host: McpHost::new(),
            order: Vec::new(),
            next: 0,
            listing: false,
            received: Ghost(Seq::empty()),
        };
        proof {
            assert(r.order() =~= Seq::<Seq<char>>::empty());
        }
        r
    }

    /// What to do next: initialize the server whose turn it is, ask it for
    /// its tools once it is initialized, or nothing when every server has had
    /// its turn.
    pub fn action(&self) -> (r: StartupAction)
        ensures
            self.position() >= self.order().len() ==> r is Finished,
            self.position() < self.order().len() && !self.listing() ==> (r matches StartupAction::Initialize(s)
                && s@ == self.order()[self.position() as int]),
            self.position() < self.order().len() && self.listing() ==> (r matches StartupAction::ListTools(s)
                && s@ == self.order()[self.position() as int]),
    {
        if self.next >= self.order.len() {
            StartupAction::Finished
        } else if self.listing {
            StartupAction::ListTools(self.order[self.next].clone())
        } else {
            StartupAction::Initialize(self.order[self.next].clone())
        }
    }

    /// The server whose turn it is answered `initialize` (`ok`) or failed:
    /// on success its tools come next, on failure the next server has its turn.
    pub fn initialized(&mut self, ok: bool)
        requires
            old(self).position() < old(self).order().len(),
            !old(self).listing(),
        ensures
            final(self).host() == old(self).host(),
            final(self).order() == old(self).order(),
            final(self).received() == old(self).received(),
            ok ==> final(self).position() == old(self).position() && final(self).listing(),
            !ok ==> final(self).position() == old(self).position() + 1 && !final(self).listing(),
    {
        let mut st = Startup::idle();
        std::mem::swap(&mut st, self);
        proof {
            use_type_invariant(&st);
            assert(st.order().len() == st.order@.len());
            assert(st.order@.len() == st.order.len());
        }
        let Startup { host, order, next, listing: _, received } = st;
        if ok {
            *self = Startup { host, order, next, listing: true, received };
        } else {
            *self = Startup { host, order, next: next + 1, listing: false, received };
        }
    }

    /// The server whose turn it is listed its tools (`Some`) or failed to
    /// (`None`): a list is registered for it; then the next server has its
    /// turn.
    pub fn listed(&mut self, tools: Option<Vec<McpToolDescription>>)
        requires
            old(self).position() < old(self).order().len(),
            old(self).listing(),
        ensures
            final(self).order() == old(self).order(),
            final(self).position() == old(self).position() + 1,
            !final(self).listing(),
            final(self).host().servers() == old(self).host().servers(),
            final(self).host().tools_served(),
            final(self).host().tools_named(),
            match tools {
                Some(list) => final(self).host().tool_list() == register_list(
                    old(self).host().tool_list(),
                    old(self).order()[old(self).position() as int],
                    list@.map_values(|t: McpToolDescription| t@),
                ) && final(self).host().tool_map() == register_all(
                    old(self).host().tool_map(),
                    old(self).order()[old(self).position() as int],
                    list@.map_values(|t: McpToolDescription| t@),
                ),
                None => final(self).host() == old(self).host(),
            },
            match tools {
                Some(list) => final(self).received() == old(self).received().push(
                    (
                        old(self).order()[old(self).position() as int],
                        list@.map_values(|t: McpToolDescription| t@),
                    ),
                ),
                None => final(self).received() == old(self).received(),
            },
    {
        let mut st = Startup::idle();
        std::mem::swap(&mut st, self);
        proof {
            use_type_invariant(&st);
            assert(st.order().len() == st.order@.len());
            assert(st.order@.len() == st.order.len());
        }
        let Startup { host, order, next, listing: _, received } = st;
        let mut host = host;
        let mut received = received;
        match tools {
            Some(list) => {
                let ghost server = order@[next as int]@;
                let ghost views = list@.map_values(|t: McpToolDescription| t@);
                let ghost l = host.tool_list();
                proof {
                    assert(order@.map_values(|s: String| s@)[next as int] == server);
                    lemma_all_listed_push(l, received@, (server, views));
                    let rs = received@.push((server, views));
                    assert forall|x: int| 0 <= x < views.len() implies rs[received@.len() as int].1.contains(
                        #[trigger] views[x],
                    ) by {
                        assert(rs[received@.len() as int].1[x] == views[x]);
                    }
                    lemma_register_list_listed(l, server, views, rs, received@.len() as int);
                }
                host.register_tools(order[next].as_str(), list);
                received = Ghost(received@.push((server, views)));
            },
            None => {},
        }
        proof {
            use_type_invariant(&host);
        }
        *self = Startup { host, order, next: next + 1, listing: false, received };
    }

    /// The host once every server has had its turn.
    pub fn finish(self) -> (r: McpHost)
        ensures
            r == self.host(),
            r.tools_served(),
            r.tools_named(),
            all_listed(r.tool_list(), self.received()),
    {
        proof {
            use_type_invariant(&self);
            use_type_invariant(&self.host);
        }
        self.host
    }
}

} // verus!
