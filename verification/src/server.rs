use vstd::prelude::*;

use crate::json::fields_view;
use crate::json::json_view;
use crate::json::lemma_fields_view_index;
use crate::json::obj_get;
use crate::json::obj_lookup;
use crate::json::JsonV;
use crate::json::JsonValue;
use crate::rpc::JsonRpcCall;
use crate::rpc::JsonRpcRequest;
use crate::rpc::JsonRpcResponse;
use crate::rpc::RequestId;
use crate::rpc::ResponseV;
use crate::McpError;
use vstd::string::StringExecFns;

verus! {

/// A registered tool: a unique name, a human-readable description, and a
/// JSON-schema-like document describing the arguments it accepts.
pub struct Tool {
    pub name: String,
    pub description: String,
    pub input_schema: JsonValue,
}

/// Model of a registered tool.
#[verifier::ext_equal]
pub struct ToolV {
    pub name: Seq<char>,
    pub description: Seq<char>,
    pub input_schema: JsonV,
}

impl View for Tool {
    type V = ToolV;

    open spec fn view(&self) -> ToolV {
        ToolV { name: self.name@, description: self.description@, input_schema: self.input_schema@ }
    }
}

/// One text item of a tool invocation's output.
pub struct ToolContent {
    pub text: String,
}

/// What a tool invocation produced: ordered text content plus an error flag.
pub struct ToolResult {
    pub content: Vec<ToolContent>,
    pub is_error: bool,
}

impl ToolResult {
    /// The produced content as a sequence of text models.
    pub open spec fn texts(self) -> Seq<Seq<char>> {
        Seq::new(self.content@.len(), |i: int| self.content@[i].text@)
    }
}

pub open spec fn tools_seq_view(tools: Seq<Tool>) -> Seq<ToolV> {
    Seq::new(tools.len(), |i: int| tools[i]@)
}

/// First-match lookup of a tool by name.
pub open spec fn tool_lookup(tools: Seq<ToolV>, name: Seq<char>) -> Option<ToolV>
    decreases tools,
{
    if tools.len() == 0 {
        None
    } else if tools[0].name == name {
        Some(tools[0])
    } else {
        tool_lookup(tools.subrange(1, tools.len() as int), name)
    }
}

pub proof fn lemma_tool_lookup_none(tools: Seq<ToolV>, name: Seq<char>)
    requires
        forall|j: int| 0 <= j < tools.len() ==> tools[j].name != name,
    ensures
        tool_lookup(tools, name) is None,
    decreases tools,
{
    if tools.len() > 0 {
        lemma_tool_lookup_none(tools.subrange(1, tools.len() as int), name);
    }
}

pub proof fn lemma_tool_lookup_first(tools: Seq<ToolV>, name: Seq<char>, i: int)
    requires
        0 <= i < tools.len(),
        tools[i].name == name,
        forall|j: int| 0 <= j < i ==> tools[j].name != name,
    ensures
        tool_lookup(tools, name) == Some(tools[i]),
    decreases tools,
{
    if i > 0 {
        lemma_tool_lookup_first(tools.subrange(1, tools.len() as int), name, i - 1);
    }
}

/// The dispatcher and its registry of tools. The registry is immutable
/// after startup; `handle_request` only reads it.
pub struct McpServer {
    pub name: String,
    pub version: String,
    pub tools: Vec<Tool>,
}

impl McpServer {
    pub open spec fn tools_view(self) -> Seq<ToolV> {
        tools_seq_view(self.tools@)
    }

    /// Well-formed registry: no two entries share a name, so each
    /// registered name has exactly one entry.
    pub open spec fn wf(self) -> bool {
        forall|i: int, j: int|
            0 <= i < j < self.tools_view().len() ==> self.tools_view()[i].name
                != self.tools_view()[j].name
    }

    /// The registry as a partial map from tool name to tool.
    pub open spec fn spec_get(self, name: Seq<char>) -> Option<ToolV> {
        tool_lookup(self.tools_view(), name)
    }

    pub fn new(name: &str, version: &str) -> (s: Self)
        ensures
            s.name@ == name@,
            s.version@ == version@,
            s.tools_view() == Seq::<ToolV>::empty(),
            s.wf(),
    {
        let s = McpServer { name: name.to_owned(), version: version.to_owned(), tools: Vec::new() };
        proof {
            assert(s.tools_view() =~= Seq::<ToolV>::empty());
        }
        s
    }

    /// Register a tool under its name. A later registration for the same
    /// name overwrites the earlier entry; a new name is appended.
    #[verifier::loop_isolation(false)]
    pub fn register_tool(&mut self, tool: Tool)
        requires
            old(self).wf(),
        ensures
            final(self).wf(),
            final(self).name == old(self).name,
            final(self).version == old(self).version,
            final(self).spec_get(tool@.name) == Some(tool@),
            forall|n: Seq<char>| n != tool@.name ==> final(self).spec_get(n) == old(
                self,
            ).spec_get(n),
            old(self).spec_get(tool@.name) is Some ==> (exists|i: int|
                0 <= i < old(self).tools_view().len() && old(self).tools_view()[i].name
                    == tool@.name && final(self).tools_view() == old(self).tools_view().update(
                    i,
                    tool@,
                )),
            old(self).spec_get(tool@.name) is None ==> final(self).tools_view() == old(
                self,
            ).tools_view().push(tool@),
    {
        let ghost oldtools = self.tools_view();
        let mut i: usize = 0;
        while i < self.tools.len()
            invariant
                i <= self.tools@.len(),
                self == old(self),
                forall|j: int| 0 <= j < i ==> oldtools[j].name != tool@.name,
            decreases self.tools@.len() - i,
        {
            if self.tools[i].name == tool.name {
                let ghost idx: int = i as int;
                self.tools.remove(i);
                self.tools.insert(i, tool);
                proof {
                    lemma_tool_lookup_first(oldtools, tool@.name, idx);
                    assert(self.tools_view() =~= oldtools.update(idx, tool@));
                    lemma_tool_lookup_first(self.tools_view(), tool@.name, idx);
                    assert forall|n: Seq<char>| n != tool@.name implies self.spec_get(n)
                        == old(self).spec_get(n) by {
                        lemma_lookup_update_other(oldtools, idx, tool@, n);
                    }
                }
                return ;
            }
            i += 1;
        }
        self.tools.push(tool);
        proof {
            lemma_tool_lookup_none(oldtools, tool@.name);
            assert(self.tools_view() =~= oldtools.push(tool@));
            lemma_tool_lookup_first(self.tools_view(), tool@.name, oldtools.len() as int);
            assert forall|n: Seq<char>| n != tool@.name implies self.spec_get(n) == old(
                self,
            ).spec_get(n) by {
                lemma_lookup_push_other(oldtools, tool@, n);
            }
        }
    }
}

/// The last tool in `tools` carrying the name `n`, if any: what a batch
/// registration leaves under `n`.
pub open spec fn batch_get(tools: Seq<ToolV>, n: Seq<char>) -> Option<ToolV>
    decreases tools,
{
    if tools.len() == 0 {
        None
    } else if tools[tools.len() - 1].name == n {
        Some(tools[tools.len() - 1])
    } else {
        batch_get(tools.subrange(0, tools.len() - 1), n)
    }
}

impl McpServer {
    /// Register one tool; chaining-style synonym of `register_tool`.
    pub fn with_tool(&mut self, tool: Tool)
        requires
            old(self).wf(),
        ensures
            final(self).wf(),
            final(self).name == old(self).name,
            final(self).version == old(self).version,
            final(self).spec_get(tool@.name) == Some(tool@),
            forall|n: Seq<char>| n != tool@.name ==> final(self).spec_get(n) == old(
                self,
            ).spec_get(n),
            old(self).spec_get(tool@.name) is None ==> final(self).tools_view() == old(
                self,
            ).tools_view().push(tool@),
    {
        self.register_tool(tool);
    }

    /// Register a batch in order: within the batch, the last registration
    /// for a name wins, and it shadows any earlier entry under that name.
    #[verifier::loop_isolation(false)]
    pub fn register_tools(&mut self, tools: Vec<Tool>)
        requires
            old(self).wf(),
        ensures
            final(self).wf(),
            final(self).name == old(self).name,
            final(self).version == old(self).version,
            forall|n: Seq<char>| final(self).spec_get(n) == match batch_get(
                tools_seq_view(tools@),
                n,
            ) {
                Some(t) => Some(t),
                None => old(self).spec_get(n),
            },
    {
        let ghost orig = tools@;
        let mut rest = tools;
        let ghost mut done: int = 0;
        while rest.len() > 0
            invariant
                0 <= done <= orig.len(),
                rest@ == orig.subrange(done, orig.len() as int),
                self.wf(),
                self.name == old(self).name,
                self.version == old(self).version,
                forall|n: Seq<char>| self.spec_get(n) == match batch_get(
                    tools_seq_view(orig.subrange(0, done)),
                    n,
                ) {
                    Some(t) => Some(t),
                    None => old(self).spec_get(n),
                },
            decreases rest@.len(),
        {
            let ghost pre = *self;
            let t = rest.remove(0);
            proof {
                assert(t == orig[done]);
                assert(rest@ =~= orig.subrange(done + 1, orig.len() as int));
            }
            self.register_tool(t);
            proof {
                let prefix = tools_seq_view(orig.subrange(0, done));
                let grown = tools_seq_view(orig.subrange(0, done + 1));
                assert(grown.subrange(0, done) =~= prefix);
                assert(grown[done] == orig[done]@);
                assert forall|n: Seq<char>| self.spec_get(n) == match batch_get(grown, n) {
                    Some(tv) => Some(tv),
                    None => old(self).spec_get(n),
                } by {
                    if n == t@.name {
                        assert(batch_get(grown, n) == Some(t@));
                    } else {
                        assert(batch_get(grown, n) == batch_get(prefix, n));
                        assert(self.spec_get(n) == pre.spec_get(n));
                    }
                }
                done = done + 1;
            }
        }
        proof {
            assert(orig.subrange(0, done) =~= orig);
        }
    }

    /// Register a batch; chaining-style synonym of `register_tools`.
    pub fn with_tools(&mut self, tools: Vec<Tool>)
        requires
            old(self).wf(),
        ensures
            final(self).wf(),
            final(self).name == old(self).name,
            final(self).version == old(self).version,
            forall|n: Seq<char>| final(self).spec_get(n) == match batch_get(
                tools_seq_view(tools@),
                n,
            ) {
                Some(t) => Some(t),
                None => old(self).spec_get(n),
            },
    {
        self.register_tools(tools);
    }
}

/// Replacing the entry at `i` does not change lookups for other names,
/// provided the replacement keeps the name at `i`'s slot distinct from `n`.
proof fn lemma_lookup_update_other(tools: Seq<ToolV>, i: int, t: ToolV, n: Seq<char>)
    requires
        0 <= i < tools.len(),
        t.name != n,
        tools[i].name != n,
    ensures
        tool_lookup(tools.update(i, t), n) == tool_lookup(tools, n),
    decreases tools,
{
    let upd = tools.update(i, t);
    if tools.len() > 0 {
        if i == 0 {
            assert(upd.subrange(1, upd.len() as int) =~= tools.subrange(1, tools.len() as int));
        } else {
            assert(upd.subrange(1, upd.len() as int) =~= tools.subrange(
                1,
                tools.len() as int,
            ).update(i - 1, t));
            lemma_lookup_update_other(tools.subrange(1, tools.len() as int), i - 1, t, n);
        }
    }
}

/// What the dispatcher decided about one request: either a finished
/// response, or an instruction to invoke the named registered tool with
/// the given arguments and then answer under the same id.
pub enum RequestOutcome {
    Respond(JsonRpcResponse),
    CallTool { id: RequestId, name: String, arguments: JsonValue },
}

/// Model of a dispatch decision.
pub enum OutcomeV {
    Respond(ResponseV),
    CallTool { id: RequestId, name: Seq<char>, arguments: JsonV },
}

impl View for RequestOutcome {
    type V = OutcomeV;

    open spec fn view(&self) -> OutcomeV {
        match *self {
            RequestOutcome::Respond(r) => OutcomeV::Respond(r@),
            RequestOutcome::CallTool { id, name, arguments } => OutcomeV::CallTool {
                id,
                name: name@,
                arguments: arguments@,
            },
        }
    }
}

/// The capabilities object of an `initialize` response: every registered
/// tool name flagged as available.
pub open spec fn spec_capabilities(tools: Seq<ToolV>) -> JsonV {
    JsonV::Obj(
        seq![
            ("tools"@, JsonV::Obj(Seq::new(tools.len(), |i: int| (tools[i].name, JsonV::Bool(true))))),
        ],
    )
}

pub open spec fn spec_initialize_result(s: McpServer) -> JsonV {
    JsonV::Obj(
        seq![
            ("protocol_version"@, JsonV::Str("2024-11-05"@)),
            ("capabilities"@, spec_capabilities(s.tools_view())),
            (
                "server_info"@,
                JsonV::Obj(
                    seq![("name"@, JsonV::Str(s.name@)), ("version"@, JsonV::Str(s.version@))],
                ),
            ),
            ("instructions"@, JsonV::Str("Use tools/list to see available tools"@)),
        ],
    )
}

pub open spec fn spec_tool_entry(t: ToolV) -> JsonV {
    JsonV::Obj(
        seq![
            ("name"@, JsonV::Str(t.name)),
            ("description"@, JsonV::Str(t.description)),
            ("input_schema"@, t.input_schema),
        ],
    )
}

pub open spec fn spec_list_entries(tools: Seq<ToolV>) -> Seq<JsonV> {
    Seq::new(tools.len(), |i: int| spec_tool_entry(tools[i]))
}

/// The `tools/list` result: every registered tool, in registry order,
/// with the pagination token present but null.
pub open spec fn spec_list_result(tools: Seq<ToolV>) -> JsonV {
    JsonV::Obj(
        seq![
            ("tools"@, JsonV::Arr(spec_list_entries(tools))),
            ("next_page_token"@, JsonV::Null),
        ],
    )
}

pub open spec fn spec_content_entry(text: Seq<char>) -> JsonV {
    JsonV::Obj(seq![("type"@, JsonV::Str("text"@)), ("text"@, JsonV::Str(text))])
}

/// The structured result of a tool invocation: typed content entries
/// plus the tool's error flag.
pub open spec fn spec_call_result(texts: Seq<Seq<char>>, is_error: bool) -> JsonV {
    JsonV::Obj(
        seq![
            ("content"@, JsonV::Arr(Seq::new(texts.len(), |i: int| spec_content_entry(texts[i])))),
            ("is_error"@, JsonV::Bool(is_error)),
        ],
    )
}

pub open spec fn spec_params_opt(params: Option<JsonValue>) -> Option<JsonV> {
    match params {
        Some(v) => Some(v@),
        None => None,
    }
}

/// How a `tools/call` parameter object decodes: it must be an object, its
/// `name` field a string; `arguments` may be absent or null (an empty
/// object then) or an object. Anything else is malformed.
pub open spec fn spec_parse_tool_call(params: Option<JsonV>) -> Option<(Seq<char>, JsonV)> {
    match params {
        Some(JsonV::Obj(fields)) => match obj_lookup(fields, "name"@) {
            Some(JsonV::Str(name)) => match obj_lookup(fields, "arguments"@) {
                None => Some((name, JsonV::Obj(Seq::empty()))),
                Some(JsonV::Obj(args)) => Some((name, JsonV::Obj(args))),
                Some(JsonV::Null) => Some((name, JsonV::Obj(Seq::empty()))),
                Some(_) => None,
            },
            _ => None,
        },
        _ => None,
    }
}

impl McpServer {
    /// The dispatch decision for one decoded request.
    pub open spec fn spec_handle(self, request: JsonRpcRequest) -> OutcomeV {
        match request {
            JsonRpcRequest::Single(JsonRpcCall::MethodCall { id, method, params }) => {
                if method@ == "initialize"@ {
                    OutcomeV::Respond(
                        ResponseV::Success { id, result: spec_initialize_result(self) },
                    )
                } else if method@ == "tools/list"@ {
                    OutcomeV::Respond(
                        ResponseV::Success { id, result: spec_list_result(self.tools_view()) },
                    )
                } else if method@ == "tools/call"@ {
                    match spec_parse_tool_call(spec_params_opt(params)) {
                        Some(req) => if self.spec_get(req.0) is Some {
                            OutcomeV::CallTool { id, name: req.0, arguments: req.1 }
                        } else {
                            OutcomeV::Respond(
                                ResponseV::Failure { id, error: McpError::MethodNotFound },
                            )
                        },
                        None => OutcomeV::Respond(
                            ResponseV::Failure { id, error: McpError::InvalidParams },
                        ),
                    }
                } else {
                    OutcomeV::Respond(ResponseV::Failure { id, error: McpError::MethodNotFound })
                }
            },
            JsonRpcRequest::Single(JsonRpcCall::Notification { .. }) => OutcomeV::Respond(
                ResponseV::Success { id: RequestId::Num(0), result: JsonV::Obj(Seq::empty()) },
            ),
            JsonRpcRequest::Batch(_) => OutcomeV::Respond(
                ResponseV::Failure { id: RequestId::Num(0), error: McpError::InvalidRequest },
            ),
        }
    }

    /// Look a tool up by name, as `spec_get` does.
    pub fn get_tool(&self, name: &String) -> (r: Option<&Tool>)
        ensures
            match r {
                Some(t) => self.spec_get(name@) == Some(t@),
                None => self.spec_get(name@) is None,
            },
    {
        let mut i: usize = 0;
        while i < self.tools.len()
            invariant
                i <= self.tools@.len(),
                forall|j: int| 0 <= j < i ==> self.tools_view()[j].name != name@,
            decreases self.tools@.len() - i,
        {
            if self.tools[i].name == *name {
                proof {
                    lemma_tool_lookup_first(self.tools_view(), name@, i as int);
                }
                return Some(&self.tools[i]);
            }
            i += 1;
        }
        proof {
            lemma_tool_lookup_none(self.tools_view(), name@);
        }
        None
    }

    #[verifier::loop_isolation(false)]
    fn build_initialize_result(&self) -> (r: JsonValue)
        ensures
            r@ == spec_initialize_result(*self),
    {
        let mut entries: Vec<(String, JsonValue)> = Vec::new();
        let mut i: usize = 0;
        while i < self.tools.len()
            invariant
                i <= self.tools@.len(),
                entries@.len() == i,
                forall|j: int| 0 <= j < i ==> entries@[j].0@ == self.tools_view()[j].name
                    && json_view(entries@[j].1) == JsonV::Bool(true),
            decreases self.tools@.len() - i,
        {
            entries.push((self.tools[i].name.clone(), JsonValue::Bool(true)));
            i += 1;
        }
        let mut info: Vec<(String, JsonValue)> = Vec::new();
        info.push((String::from_str("name"), JsonValue::Str(self.name.clone())));
        info.push((String::from_str("version"), JsonValue::Str(self.version.clone())));
        let mut fields: Vec<(String, JsonValue)> = Vec::new();
        fields.push(
            (
                String::from_str("protocol_version"),
                JsonValue::Str(String::from_str("2024-11-05")),
            ),
        );
        let mut caps: Vec<(String, JsonValue)> = Vec::new();
        caps.push((String::from_str("tools"), JsonValue::Obj(entries)));
        fields.push((String::from_str("capabilities"), JsonValue::Obj(caps)));
        fields.push((String::from_str("server_info"), JsonValue::Obj(info)));
        fields.push(
            (
                String::from_str("instructions"),
                JsonValue::Str(String::from_str("Use tools/list to see available tools")),
            ),
        );
        let r = JsonValue::Obj(fields);
        proof {
            lemma_fields_view_index(entries@);
            assert(fields_view(entries@) =~= Seq::new(
                self.tools_view().len(),
                |i: int| (self.tools_view()[i].name, JsonV::Bool(true)),
            ));
            lemma_fields_view_index(info@);
            lemma_fields_view_index(caps@);
            lemma_fields_view_index(fields@);
            assert(fields_view(caps@) =~~= spec_capabilities(self.tools_view())->Obj_0);
            assert(fields_view(info@) =~~= seq![
                ("name"@, JsonV::Str(self.name@)),
                ("version"@, JsonV::Str(self.version@)),
            ]);
            assert(fields_view(fields@) =~~= spec_initialize_result(*self)->Obj_0);
            assert(r@ == spec_initialize_result(*self));
        }
        r
    }

    #[verifier::loop_isolation(false)]
    fn build_list_result(&self) -> (r: JsonValue)
        ensures
            r@ == spec_list_result(self.tools_view()),
    {
        let mut entries: Vec<JsonValue> = Vec::new();
        let mut i: usize = 0;
        while i < self.tools.len()
            invariant
                i <= self.tools@.len(),
                entries@.len() == i,
                forall|j: int| 0 <= j < i ==> json_view(entries@[j]) == spec_tool_entry(
                    self.tools_view()[j],
                ),
            decreases self.tools@.len() - i,
        {
            let t = &self.tools[i];
            let mut e: Vec<(String, JsonValue)> = Vec::new();
            e.push((String::from_str("name"), JsonValue::Str(t.name.clone())));
            e.push((String::from_str("description"), JsonValue::Str(t.description.clone())));
            e.push((String::from_str("input_schema"), t.input_schema.clone()));
            let entry = JsonValue::Obj(e);
            proof {
                lemma_fields_view_index(e@);
                assert(fields_view(e@) =~~= spec_tool_entry(self.tools_view()[i as int])->Obj_0);
                assert(json_view(entry) == spec_tool_entry(self.tools_view()[i as int]));
            }
            entries.push(entry);
            i += 1;
        }
        let mut fields: Vec<(String, JsonValue)> = Vec::new();
        fields.push((String::from_str("tools"), JsonValue::Arr(entries)));
        fields.push((String::from_str("next_page_token"), JsonValue::Null));
        let r = JsonValue::Obj(fields);
        proof {
            crate::json::lemma_arr_view_index(entries@);
            assert(crate::json::arr_view(entries@) =~= spec_list_entries(self.tools_view()));
            lemma_fields_view_index(fields@);
            assert(fields_view(fields@) =~~= spec_list_result(self.tools_view())->Obj_0);
            assert(r@ == spec_list_result(self.tools_view()));
        }
        r
    }

    /// Decode the parameters of a `tools/call` request into the tool name
    /// and the argument object (an empty object when absent or null).
    fn parse_tool_call(params: Option<JsonValue>) -> (r: Option<(String, JsonValue)>)
        ensures
            match r {
                Some(req) => spec_parse_tool_call(spec_params_opt(params)) == Some(
                    (req.0@, req.1@),
                ),
                None => spec_parse_tool_call(spec_params_opt(params)) is None,
            },
    {
        match params {
            Some(JsonValue::Obj(fields)) => {
                let name_key = String::from_str("name");
                let name = match obj_get(&fields, &name_key) {
                    Some(JsonValue::Str(s)) => s.clone(),
                    _ => {
                        return None;
                    },
                };
                let args_key = String::from_str("arguments");
                let args = match obj_get(&fields, &args_key) {
                    None => JsonValue::Obj(Vec::new()),
                    Some(JsonValue::Null) => JsonValue::Obj(Vec::new()),
                    Some(a @ JsonValue::Obj(..)) => a.clone(),
                    Some(_) => {
                        return None;
                    },
                };
                proof {
                    assert(fields_view(Seq::<(String, JsonValue)>::empty())
                        =~= Seq::<(Seq<char>, JsonV)>::empty());
                }
                Some((name, args))
            },
            _ => None,
        }
    }

    /// The dispatcher's single entry point: route a decoded request by
    /// method name and decide the response or the tool invocation.
    pub fn handle_request(&self, request: JsonRpcRequest) -> (r: RequestOutcome)
        ensures
            r@ == self.spec_handle(request),
    {
        match request {
            JsonRpcRequest::Single(JsonRpcCall::MethodCall { id, method, params }) => {
                let m_initialize = String::from_str("initialize");
                let m_list = String::from_str("tools/list");
                let m_call = String::from_str("tools/call");
                if method == m_initialize {
                    RequestOutcome::Respond(
                        JsonRpcResponse::Success { id, result: self.build_initialize_result() },
                    )
                } else if method == m_list {
                    RequestOutcome::Respond(
                        JsonRpcResponse::Success { id, result: self.build_list_result() },
                    )
                } else if method == m_call {
                    match Self::parse_tool_call(params) {
                        Some((name, arguments)) => {
                            if self.get_tool(&name).is_some() {
                                RequestOutcome::CallTool { id, name, arguments }
                            } else {
                                RequestOutcome::Respond(
                                    JsonRpcResponse::Failure {
                                        id,
                                        error: McpError::MethodNotFound,
                                    },
                                )
                            }
                        },
                        None => RequestOutcome::Respond(
                            JsonRpcResponse::Failure { id, error: McpError::InvalidParams },
                        ),
                    }
                } else {
                    RequestOutcome::Respond(
                        JsonRpcResponse::Failure { id, error: McpError::MethodNotFound },
                    )
                }
            },
            JsonRpcRequest::Single(JsonRpcCall::Notification { .. }) => {
                let mut empty: Vec<(String, JsonValue)> = Vec::new();
                proof {
                    assert(fields_view(empty@) =~= Seq::<(Seq<char>, JsonV)>::empty());
                }
                RequestOutcome::Respond(
                    JsonRpcResponse::Success {
                        id: RequestId::Num(0),
                        result: JsonValue::Obj(empty),
                    },
                )
            },
            JsonRpcRequest::Batch(_) => RequestOutcome::Respond(
                JsonRpcResponse::Failure { id: RequestId::Num(0), error: McpError::InvalidRequest },
            ),
        }
    }

    /// Acknowledge a notification delivered outside the main dispatch
    /// path: only the initialization-complete signal is known.
    pub fn handle_notification(&mut self, method: &str, params: Option<JsonValue>) -> (r: Result<
        (),
        McpError,
    >)
        ensures
            *final(self) == *old(self),
            method@ == "notifications/initialized"@ ==> r is Ok,
            method@ != "notifications/initialized"@ ==> r == Result::<(), McpError>::Err(
                McpError::MethodNotFound,
            ),
    {
        let known = String::from_str("notifications/initialized");
        if method.to_owned() == known {
            Ok(())
        } else {
            Err(McpError::MethodNotFound)
        }
    }
}

/// What a completed tool invocation answers under the call's id: the
/// tool's content and flag on success; on failure a bare server-error
/// envelope that leaks nothing of the tool's own error text.
pub open spec fn spec_tool_call_response(id: RequestId, outcome: Result<
    ToolResult,
    String,
>) -> ResponseV {
    match outcome {
        Ok(res) => ResponseV::Success { id, result: spec_call_result(res.texts(), res.is_error) },
        Err(_) => ResponseV::Failure { id, error: McpError::ServerError },
    }
}

/// Wrap what the invoked tool produced into the response envelope for
/// the originating call.
#[verifier::loop_isolation(false)]
pub fn tool_call_response(id: RequestId, outcome: Result<ToolResult, String>) -> (r:
    JsonRpcResponse)
    ensures
        r@ == spec_tool_call_response(id, outcome),
{
    match outcome {
        Ok(res) => {
            let mut entries: Vec<JsonValue> = Vec::new();
            let mut i: usize = 0;
            while i < res.content.len()
                invariant
                    i <= res.content@.len(),
                    entries@.len() == i,
                    forall|j: int| 0 <= j < i ==> json_view(entries@[j]) == spec_content_entry(
                        res.texts()[j],
                    ),
                decreases res.content@.len() - i,
            {
                let mut e: Vec<(String, JsonValue)> = Vec::new();
                e.push((String::from_str("type"), JsonValue::Str(String::from_str("text"))));
                e.push((String::from_str("text"), JsonValue::Str(res.content[i].text.clone())));
                let entry = JsonValue::Obj(e);
                proof {
                    lemma_fields_view_index(e@);
                    assert(res.texts()[i as int] == res.content@[i as int].text@);
                    assert(fields_view(e@) =~~= spec_content_entry(res.texts()[i as int])->Obj_0);
                    assert(json_view(entry) == spec_content_entry(res.texts()[i as int]));
                }
                entries.push(entry);
                i += 1;
            }
            let mut fields: Vec<(String, JsonValue)> = Vec::new();
            fields.push((String::from_str("content"), JsonValue::Arr(entries)));
            fields.push((String::from_str("is_error"), JsonValue::Bool(res.is_error)));
            let result = JsonValue::Obj(fields);
            proof {
                crate::json::lemma_arr_view_index(entries@);
                assert(crate::json::arr_view(entries@) =~= Seq::new(
                    res.texts().len(),
                    |i: int| spec_content_entry(res.texts()[i]),
                ));
                lemma_fields_view_index(fields@);
                assert(fields_view(fields@).len() == 2);
                assert(fields_view(fields@)[0] == (
                    "content"@,
                    JsonV::Arr(crate::json::arr_view(entries@)),
                ));
                assert(fields_view(fields@)[1] == ("is_error"@, JsonV::Bool(res.is_error)));
                assert(fields_view(fields@) =~~= seq![
                    ("content"@, JsonV::Arr(Seq::new(res.texts().len(), |i: int| spec_content_entry(res.texts()[i])))),
                    ("is_error"@, JsonV::Bool(res.is_error)),
                ]);
                assert(result@ =~~= spec_call_result(res.texts(), res.is_error));
            }
            JsonRpcResponse::Success { id, result }
        },
        Err(_) => JsonRpcResponse::Failure { id, error: McpError::ServerError },
    }
}

/// Law: `tools/list` returns exactly one entry per distinct registered
/// name — the entries mirror the registry in order, and no two carry the
/// same name. (That re-registering a name overwrites rather than
/// duplicates is stated by `register_tool`'s contract.)
pub proof fn lemma_list_one_entry_per_name(s: McpServer)
    requires
        s.wf(),
    ensures
        spec_list_entries(s.tools_view()).len() == s.tools_view().len(),
        forall|i: int| 0 <= i < s.tools_view().len() ==> spec_list_entries(s.tools_view())[i]
            == spec_tool_entry(s.tools_view()[i]),
        forall|i: int, j: int| 0 <= i < j < s.tools_view().len() ==> s.tools_view()[i].name
            != s.tools_view()[j].name,
{
}

/// Law: for a valid call naming a registered tool, the dispatcher hands
/// the tool exactly the decoded arguments, and the completed response's
/// content equals the tool's produced content, its flag the tool's
/// reported status.
pub proof fn lemma_call_content_faithful(
    s: McpServer,
    id: RequestId,
    method: String,
    params: Option<JsonValue>,
    name: Seq<char>,
    args: JsonV,
    res: ToolResult,
)
    requires
        method@ == "tools/call"@,
        spec_parse_tool_call(spec_params_opt(params)) == Some((name, args)),
        s.spec_get(name) is Some,
    ensures
        (s.spec_handle(JsonRpcRequest::Single(JsonRpcCall::MethodCall { id, method, params }))
            == OutcomeV::CallTool { id, name, arguments: args }),
        (spec_tool_call_response(id, Ok(res)) == ResponseV::Success {
            id,
            result: spec_call_result(res.texts(), res.is_error),
        }),
{
    reveal_strlit("tools/call");
    reveal_strlit("initialize");
    reveal_strlit("tools/list");
    assert("tools/call"@[0] != "initialize"@[0]);
    assert("tools/call"@[6] != "tools/list"@[6]);
}

/// Law: naming an unregistered tool draws a failure envelope — never a
/// success, and never a tool invocation.
pub proof fn lemma_unknown_tool_fails(
    s: McpServer,
    id: RequestId,
    method: String,
    params: Option<JsonValue>,
)
    requires
        method@ == "tools/call"@,
        forall|req: (Seq<char>, JsonV)|
            spec_parse_tool_call(spec_params_opt(params)) == Some(req) ==> s.spec_get(req.0)
                is None,
    ensures
        s.spec_handle(
            JsonRpcRequest::Single(JsonRpcCall::MethodCall { id, method, params }),
        ) matches OutcomeV::Respond(r) && r matches ResponseV::Failure { id: rid, .. } && rid == id,
{
    reveal_strlit("tools/call");
    reveal_strlit("initialize");
    reveal_strlit("tools/list");
    assert("tools/call"@[0] != "initialize"@[0]);
    assert("tools/call"@[6] != "tools/list"@[6]);
}

/// Appending an entry with a different name does not change a lookup.
proof fn lemma_lookup_push_other(tools: Seq<ToolV>, t: ToolV, n: Seq<char>)
    requires
        t.name != n,
    ensures
        tool_lookup(tools.push(t), n) == tool_lookup(tools, n),
    decreases tools,
{
    let p = tools.push(t);
    if tools.len() == 0 {
        assert(p[0] == t);
        assert(p.subrange(1, p.len() as int) =~= Seq::<ToolV>::empty());
    } else {
        assert(p[0] == tools[0]);
        if tools[0].name == n {
            assert(tool_lookup(p, n) == Some(tools[0]));
            assert(tool_lookup(tools, n) == Some(tools[0]));
        } else {
            assert(p.subrange(1, p.len() as int) =~= tools.subrange(1, tools.len() as int).push(
                t,
            ));
            lemma_lookup_push_other(tools.subrange(1, tools.len() as int), t, n);
            assert(tool_lookup(p, n) == tool_lookup(p.subrange(1, p.len() as int), n));
            assert(tool_lookup(tools, n) == tool_lookup(
                tools.subrange(1, tools.len() as int),
                n,
            ));
        }
    }
}

} // verus!
