use offeryn::json::JsonValue;
use offeryn::rpc::{JsonRpcCall, JsonRpcRequest, JsonRpcResponse, RequestId};
use offeryn::server::{tool_call_response, McpServer, RequestOutcome, Tool, ToolContent, ToolResult};
use offeryn::McpError;

fn int_schema() -> JsonValue {
    JsonValue::Obj(vec![
        ("type".to_string(), JsonValue::Str("object".to_string())),
        (
            "properties".to_string(),
            JsonValue::Obj(vec![
                (
                    "a".to_string(),
                    JsonValue::Obj(vec![("type".to_string(), JsonValue::Str("integer".to_string()))]),
                ),
                (
                    "b".to_string(),
                    JsonValue::Obj(vec![("type".to_string(), JsonValue::Str("integer".to_string()))]),
                ),
            ]),
        ),
    ])
}

fn calculator_tools() -> Vec<Tool> {
    vec![
        Tool {
            name: "calculator_add".to_string(),
            description: "Add two numbers".to_string(),
            input_schema: int_schema(),
        },
        Tool {
            name: "calculator_subtract".to_string(),
            description: "Subtract two numbers".to_string(),
            input_schema: int_schema(),
        },
        Tool {
            name: "calculator_multiply".to_string(),
            description: "Multiply two numbers".to_string(),
            input_schema: int_schema(),
        },
        Tool {
            name: "calculator_divide".to_string(),
            description: "Divide two numbers".to_string(),
            input_schema: int_schema(),
        },
    ]
}

fn lookup<'a>(fields: &'a [(String, JsonValue)], key: &str) -> Option<&'a JsonValue> {
    fields.iter().find(|(k, _)| k == key).map(|(_, v)| v)
}

fn get_int(v: &JsonValue) -> i64 {
    match v {
        JsonValue::Int(i) => *i,
        _ => panic!("expected an integer"),
    }
}

/// Play the calculator's part: execute the invocation the dispatcher asked for.
fn run_calculator(name: &str, args: &JsonValue) -> ToolResult {
    let fields = match args {
        JsonValue::Obj(fields) => fields,
        _ => panic!("arguments must be an object"),
    };
    let a = get_int(lookup(fields, "a").unwrap());
    let b = get_int(lookup(fields, "b").unwrap());
    let outcome: Result<f64, &str> = match name {
        "calculator_add" => Ok((a + b) as f64),
        "calculator_subtract" => Ok((a - b) as f64),
        "calculator_multiply" => Ok((a * b) as f64),
        "calculator_divide" => {
            if b == 0 {
                Err("Cannot divide by zero")
            } else {
                Ok(a as f64 / b as f64)
            }
        }
        _ => panic!("unknown tool"),
    };
    match outcome {
        Ok(v) => ToolResult {
            content: vec![ToolContent { text: format!("{}", v) }],
            is_error: false,
        },
        Err(e) => ToolResult {
            content: vec![ToolContent { text: e.to_string() }],
            is_error: true,
        },
    }
}

fn call_request(id: u64, tool: &str, a: i64, b: i64) -> JsonRpcRequest {
    JsonRpcRequest::Single(JsonRpcCall::MethodCall {
        id: RequestId::Num(id),
        method: "tools/call".to_string(),
        params: Some(JsonValue::Obj(vec![
            ("name".to_string(), JsonValue::Str(tool.to_string())),
            (
                "arguments".to_string(),
                JsonValue::Obj(vec![
                    ("a".to_string(), JsonValue::Int(a)),
                    ("b".to_string(), JsonValue::Int(b)),
                ]),
            ),
        ])),
    })
}

/// Dispatch a call, run the calculator, and return the first content text
/// plus the error flag of the final response.
fn round_trip(server: &McpServer, request: JsonRpcRequest) -> (String, bool) {
    let outcome = server.handle_request(request);
    let (id, name, arguments) = match outcome {
        RequestOutcome::CallTool { id, name, arguments } => (id, name, arguments),
        _ => panic!("expected a tool invocation"),
    };
    let result = run_calculator(&name, &arguments);
    let response = tool_call_response(id, Ok(result));
    let result = match response {
        JsonRpcResponse::Success { result, .. } => result,
        _ => panic!("expected a success envelope"),
    };
    let fields = match result {
        JsonValue::Obj(fields) => fields,
        _ => panic!("expected an object result"),
    };
    let content = match lookup(&fields, "content").unwrap() {
        JsonValue::Arr(items) => items.clone(),
        _ => panic!("content must be an array"),
    };
    let text = match &content[0] {
        JsonValue::Obj(entry) => match lookup(entry, "text").unwrap() {
            JsonValue::Str(s) => s.clone(),
            _ => panic!("text must be a string"),
        },
        _ => panic!("content entries must be objects"),
    };
    let is_error = match lookup(&fields, "is_error").unwrap() {
        JsonValue::Bool(b) => *b,
        _ => panic!("is_error must be a bool"),
    };
    (text, is_error)
}

#[test]
fn test_calculator() {
    let mut server = McpServer::new("test-calculator", "1.0.0");
    server.register_tools(calculator_tools());

    let (text, is_error) = round_trip(&server, call_request(1, "calculator_add", 2, 3));
    assert_eq!(text, "5"); // 2 + 3 = 5
    assert!(!is_error);

    let (text, _) = round_trip(&server, call_request(2, "calculator_divide", 10, 2));
    assert_eq!(text, "5"); // 10 / 2 = 5

    let (text, is_error) = round_trip(&server, call_request(3, "calculator_divide", 1, 0));
    assert_eq!(text, "Cannot divide by zero");
    assert!(is_error);
}

#[test]
fn test_calculator_tools_list() {
    let mut server = McpServer::new("test-calculator", "1.0.0");
    server.register_tools(calculator_tools());

    let request = JsonRpcRequest::Single(JsonRpcCall::MethodCall {
        id: RequestId::Num(1),
        method: "tools/list".to_string(),
        params: None,
    });
    let outcome = server.handle_request(request);
    let result = match outcome {
        RequestOutcome::Respond(JsonRpcResponse::Success { result, .. }) => result,
        _ => panic!("expected a success envelope"),
    };
    let fields = match result {
        JsonValue::Obj(fields) => fields,
        _ => panic!("expected an object result"),
    };
    let tools = match lookup(&fields, "tools").unwrap() {
        JsonValue::Arr(items) => items.clone(),
        _ => panic!("tools must be an array"),
    };
    assert_eq!(tools.len(), 4);
    assert!(matches!(lookup(&fields, "next_page_token").unwrap(), JsonValue::Null));

    let mut tool_info: Vec<(String, String)> = Vec::new();
    for t in &tools {
        let entry = match t {
            JsonValue::Obj(entry) => entry,
            _ => panic!("tool entries must be objects"),
        };
        let name = match lookup(entry, "name").unwrap() {
            JsonValue::Str(s) => s.clone(),
            _ => panic!("name must be a string"),
        };
        let description = match lookup(entry, "description").unwrap() {
            JsonValue::Str(s) => s.clone(),
            _ => panic!("description must be a string"),
        };
        tool_info.push((name, description));
    }
    let has = |n: &str, d: &str| tool_info.iter().any(|(a, b)| a == n && b == d);
    assert!(has("calculator_add", "Add two numbers"));
    assert!(has("calculator_subtract", "Subtract two numbers"));
    assert!(has("calculator_multiply", "Multiply two numbers"));
    assert!(has("calculator_divide", "Divide two numbers"));

    let add_tool = tools
        .iter()
        .find(|t| match t {
            JsonValue::Obj(entry) => {
                matches!(lookup(entry, "name"), Some(JsonValue::Str(s)) if s == "calculator_add")
            }
            _ => false,
        })
        .unwrap();
    let entry = match add_tool {
        JsonValue::Obj(entry) => entry,
        _ => unreachable!(),
    };
    let schema = match lookup(entry, "input_schema").unwrap() {
        JsonValue::Obj(schema) => schema,
        _ => panic!("schema must be an object"),
    };
    assert!(matches!(lookup(schema, "type"), Some(JsonValue::Str(s)) if s == "object"));
    let properties = match lookup(schema, "properties").unwrap() {
        JsonValue::Obj(p) => p,
        _ => panic!("properties must be an object"),
    };
    assert!(lookup(properties, "a").is_some());
    assert!(lookup(properties, "b").is_some());
    let int_type = |k: &str| match lookup(properties, k) {
        Some(JsonValue::Obj(p)) => {
            matches!(lookup(p, "type"), Some(JsonValue::Str(s)) if s == "integer")
        }
        _ => false,
    };
    assert!(int_type("a"));
    assert!(int_type("b"));
}

#[test]
fn reregistering_a_name_overwrites() {
    let mut server = McpServer::new("s", "0");
    server.register_tool(Tool {
        name: "t".to_string(),
        description: "first".to_string(),
        input_schema: JsonValue::Null,
    });
    server.register_tool(Tool {
        name: "t".to_string(),
        description: "second".to_string(),
        input_schema: JsonValue::Null,
    });
    let request = JsonRpcRequest::Single(JsonRpcCall::MethodCall {
        id: RequestId::Num(1),
        method: "tools/list".to_string(),
        params: None,
    });
    let result = match server.handle_request(request) {
        RequestOutcome::Respond(JsonRpcResponse::Success { result, .. }) => result,
        _ => panic!("expected a success envelope"),
    };
    let fields = match result {
        JsonValue::Obj(fields) => fields,
        _ => panic!("expected an object result"),
    };
    let tools = match lookup(&fields, "tools").unwrap() {
        JsonValue::Arr(items) => items.clone(),
        _ => panic!("tools must be an array"),
    };
    assert_eq!(tools.len(), 1);
    let entry = match &tools[0] {
        JsonValue::Obj(entry) => entry.clone(),
        _ => panic!("tool entries must be objects"),
    };
    assert!(matches!(lookup(&entry, "description"), Some(JsonValue::Str(s)) if s == "second"));
}

#[test]
fn unknown_tool_draws_a_failure_envelope() {
    let server = McpServer::new("s", "0");
    let outcome = server.handle_request(call_request(7, "missing", 1, 2));
    match outcome {
        RequestOutcome::Respond(JsonRpcResponse::Failure { id, error }) => {
            assert!(matches!(id, RequestId::Num(7)));
            assert_eq!(error, McpError::MethodNotFound);
        }
        _ => panic!("an unregistered tool must draw a failure envelope"),
    }
}

#[test]
fn unknown_method_draws_method_not_found() {
    let server = McpServer::new("s", "0");
    let request = JsonRpcRequest::Single(JsonRpcCall::MethodCall {
        id: RequestId::Num(4),
        method: "no/such".to_string(),
        params: None,
    });
    match server.handle_request(request) {
        RequestOutcome::Respond(JsonRpcResponse::Failure { error, .. }) => {
            assert_eq!(error, McpError::MethodNotFound);
        }
        _ => panic!("expected a failure envelope"),
    }
}

#[test]
fn malformed_call_params_draw_invalid_params() {
    let server = McpServer::new("s", "0");
    // No params at all.
    let request = JsonRpcRequest::Single(JsonRpcCall::MethodCall {
        id: RequestId::Num(1),
        method: "tools/call".to_string(),
        params: None,
    });
    match server.handle_request(request) {
        RequestOutcome::Respond(JsonRpcResponse::Failure { error, .. }) => {
            assert_eq!(error, McpError::InvalidParams);
        }
        _ => panic!("expected a failure envelope"),
    }
    // A name that is not a string.
    let request = JsonRpcRequest::Single(JsonRpcCall::MethodCall {
        id: RequestId::Num(2),
        method: "tools/call".to_string(),
        params: Some(JsonValue::Obj(vec![("name".to_string(), JsonValue::Int(3))])),
    });
    match server.handle_request(request) {
        RequestOutcome::Respond(JsonRpcResponse::Failure { error, .. }) => {
            assert_eq!(error, McpError::InvalidParams);
        }
        _ => panic!("expected a failure envelope"),
    }
    // Arguments that are not an object.
    let request = JsonRpcRequest::Single(JsonRpcCall::MethodCall {
        id: RequestId::Num(3),
        method: "tools/call".to_string(),
        params: Some(JsonValue::Obj(vec![
            ("name".to_string(), JsonValue::Str("t".to_string())),
            ("arguments".to_string(), JsonValue::Int(9)),
        ])),
    });
    match server.handle_request(request) {
        RequestOutcome::Respond(JsonRpcResponse::Failure { error, .. }) => {
            assert_eq!(error, McpError::InvalidParams);
        }
        _ => panic!("expected a failure envelope"),
    }
}

#[test]
fn absent_arguments_default_to_empty_object() {
    let mut server = McpServer::new("s", "0");
    server.register_tool(Tool {
        name: "t".to_string(),
        description: "d".to_string(),
        input_schema: JsonValue::Null,
    });
    let request = JsonRpcRequest::Single(JsonRpcCall::MethodCall {
        id: RequestId::Num(1),
        method: "tools/call".to_string(),
        params: Some(JsonValue::Obj(vec![(
            "name".to_string(),
            JsonValue::Str("t".to_string()),
        )])),
    });
    match server.handle_request(request) {
        RequestOutcome::CallTool { name, arguments, .. } => {
            assert_eq!(name, "t");
            match arguments {
                JsonValue::Obj(fields) => assert!(fields.is_empty()),
                _ => panic!("arguments must default to an empty object"),
            }
        }
        _ => panic!("expected a tool invocation"),
    }
}

#[test]
fn batch_requests_are_invalid() {
    let server = McpServer::new("s", "0");
    let request = JsonRpcRequest::Batch(Vec::new());
    match server.handle_request(request) {
        RequestOutcome::Respond(JsonRpcResponse::Failure { error, .. }) => {
            assert_eq!(error, McpError::InvalidRequest);
        }
        _ => panic!("expected a failure envelope"),
    }
}

#[test]
fn notification_yields_empty_acknowledgment() {
    let server = McpServer::new("s", "0");
    let request = JsonRpcRequest::Single(JsonRpcCall::Notification {
        method: "notifications/initialized".to_string(),
        params: None,
    });
    match server.handle_request(request) {
        RequestOutcome::Respond(JsonRpcResponse::Success { id, result }) => {
            assert!(matches!(id, RequestId::Num(0)));
            match result {
                JsonValue::Obj(fields) => assert!(fields.is_empty()),
                _ => panic!("expected an empty object"),
            }
        }
        _ => panic!("expected an acknowledgment"),
    }
}

#[test]
fn handle_notification_knows_only_initialized() {
    let mut server = McpServer::new("s", "0");
    assert!(server.handle_notification("notifications/initialized", None).is_ok());
    assert_eq!(
        server.handle_notification("notifications/other", None),
        Err(McpError::MethodNotFound)
    );
}

#[test]
fn failed_execution_yields_bare_server_error() {
    let response = tool_call_response(RequestId::Num(9), Err("secret detail".to_string()));
    match response {
        JsonRpcResponse::Failure { id, error } => {
            assert!(matches!(id, RequestId::Num(9)));
            assert_eq!(error, McpError::ServerError);
            assert_eq!(error.code(), -32000);
        }
        _ => panic!("expected a failure envelope"),
    }
}

#[test]
fn error_codes_follow_jsonrpc() {
    assert_eq!(McpError::InvalidRequest.code(), -32600);
    assert_eq!(McpError::MethodNotFound.code(), -32601);
    assert_eq!(McpError::InvalidParams.code(), -32602);
    assert_eq!(McpError::ServerError.code(), -32000);
}

#[test]
fn initialize_lists_capabilities() {
    let mut server = McpServer::new("srv", "2.3");
    server.register_tool(Tool {
        name: "t1".to_string(),
        description: "d".to_string(),
        input_schema: JsonValue::Null,
    });
    let request = JsonRpcRequest::Single(JsonRpcCall::MethodCall {
        id: RequestId::Num(1),
        method: "initialize".to_string(),
        params: None,
    });
    let result = match server.handle_request(request) {
        RequestOutcome::Respond(JsonRpcResponse::Success { result, .. }) => result,
        _ => panic!("expected a success envelope"),
    };
    let fields = match result {
        JsonValue::Obj(fields) => fields,
        _ => panic!("expected an object result"),
    };
    assert!(matches!(
        lookup(&fields, "protocol_version"),
        Some(JsonValue::Str(s)) if s == "2024-11-05"
    ));
    let caps = match lookup(&fields, "capabilities").unwrap() {
        JsonValue::Obj(c) => c.clone(),
        _ => panic!("capabilities must be an object"),
    };
    let tools = match lookup(&caps, "tools").unwrap() {
        JsonValue::Obj(t) => t.clone(),
        _ => panic!("capability tools must be an object"),
    };
    assert!(matches!(lookup(&tools, "t1"), Some(JsonValue::Bool(true))));
    let info = match lookup(&fields, "server_info").unwrap() {
        JsonValue::Obj(i) => i.clone(),
        _ => panic!("server_info must be an object"),
    };
    assert!(matches!(lookup(&info, "name"), Some(JsonValue::Str(s)) if s == "srv"));
    assert!(matches!(lookup(&info, "version"), Some(JsonValue::Str(s)) if s == "2.3"));
}

#[test]
fn batch_registration_last_wins() {
    let mut server = McpServer::new("s", "0");
    server.with_tools(vec![
        Tool {
            name: "x".to_string(),
            description: "first".to_string(),
            input_schema: JsonValue::Null,
        },
        Tool {
            name: "y".to_string(),
            description: "other".to_string(),
            input_schema: JsonValue::Null,
        },
        Tool {
            name: "x".to_string(),
            description: "second".to_string(),
            input_schema: JsonValue::Null,
        },
    ]);
    let request = JsonRpcRequest::Single(JsonRpcCall::MethodCall {
        id: RequestId::Num(1),
        method: "tools/list".to_string(),
        params: None,
    });
    let result = match server.handle_request(request) {
        RequestOutcome::Respond(JsonRpcResponse::Success { result, .. }) => result,
        _ => panic!("expected a success envelope"),
    };
    let fields = match result {
        JsonValue::Obj(fields) => fields,
        _ => panic!("expected an object result"),
    };
    let tools = match lookup(&fields, "tools").unwrap() {
        JsonValue::Arr(items) => items.clone(),
        _ => panic!("tools must be an array"),
    };
    assert_eq!(tools.len(), 2);
    // Registration order is kept: x (overwritten in place), then y.
    let descr = |t: &JsonValue| match t {
        JsonValue::Obj(entry) => match (lookup(entry, "name"), lookup(entry, "description")) {
            (Some(JsonValue::Str(n)), Some(JsonValue::Str(d))) => (n.clone(), d.clone()),
            _ => panic!("bad entry"),
        },
        _ => panic!("bad entry"),
    };
    assert_eq!(descr(&tools[0]), ("x".to_string(), "second".to_string()));
    assert_eq!(descr(&tools[1]), ("y".to_string(), "other".to_string()));
}
