use glm_evoke::json::Json;
use glm_evoke::nats_node::reject_reasoning_parameters;
use glm_evoke::nats_node::reject_reasoning_keys;
use glm_evoke::nats_node::AdapterError;
use glm_evoke::nats_node::AllowlistBoundary;
use glm_evoke::nats_node::AttestRequest;
use glm_evoke::nats_node::ContractSet;
use glm_evoke::nats_node::DafnyCrystallizer;
use glm_evoke::nats_node::ExecutionBoundary;
use glm_evoke::nats_node::NatsNode;
use glm_evoke::nats_node::Outbound;
use glm_evoke::nats_node::RpcEnvelope;
use glm_evoke::nats_node::StrictCrystallizer;
use glm_evoke::nats_node::ToolContract;
use glm_evoke::nats_node::ToolInvocation;
use glm_evoke::nats_node::TraceState;
use serde_json::Value;

type Node = NatsNode<AllowlistBoundary, StrictCrystallizer>;

fn convert(value: &Value) -> Json {
    match value {
        Value::Null => Json::Null,
        Value::Bool(b) => Json::Bool(*b),
        Value::Number(n) => Json::Number(n.to_string()),
        Value::String(s) => Json::Text(s.clone()),
        Value::Array(items) => Json::Array(items.iter().map(convert).collect()),
        Value::Object(entries) => {
            Json::Object(entries.iter().map(|(k, v)| (k.clone(), convert(v))).collect())
        }
    }
}

fn json(text: &str) -> Json {
    convert(&serde_json::from_str(text).unwrap())
}

fn tool(name: &str, description: Option<&str>) -> ToolContract {
    ToolContract {
        name: name.to_string(),
        description: description.map(|d| d.to_string()),
        input_schema: Json::Null,
    }
}

fn allowlist() -> AllowlistBoundary {
    AllowlistBoundary::new(vec![
        ("read".to_string(), vec!["nobody".to_string()]),
        ("read".to_string(), vec!["agent".to_string(), "admin".to_string()]),
        ("write".to_string(), vec![]),
    ])
}

fn node() -> Node {
    let contracts = ContractSet {
        tools: vec![tool("read", Some("old")), tool("write", None), tool("read", Some("new"))],
    };
    NatsNode::new(contracts, allowlist(), StrictCrystallizer { max_argument_bytes: 40 })
}

fn call(tool: &str, role: &str, arguments: &str) -> ToolInvocation {
    ToolInvocation {
        tool: tool.to_string(),
        arguments: json(arguments),
        agent_role: role.to_string(),
        trace_id: "t1".to_string(),
    }
}

#[test]
fn a_call_that_is_let_through_is_noted_and_sent() {
    let messages = node().process(call("read", "agent", "{\"a\":1}")).unwrap();
    assert_eq!(messages.len(), 2);
    assert_eq!(messages[0].subject(), "glm.evoke.seal");
    match &messages[0] {
        Outbound::Seal(seal) => {
            assert_eq!((seal.trace_id.as_str(), seal.tool.as_str()), ("t1", "read"));
            assert_eq!(seal.state, TraceState::Attested);
            assert!(seal.metadata.is_empty());
        }
        other => panic!("{:?}", other),
    }
    assert_eq!(messages[1].subject(), "glm.evoke.generate");
    match &messages[1] {
        Outbound::Generate(request) => {
            assert_eq!(request.contract.description.as_deref(), Some("new"));
            assert_eq!(request.invocation.arguments.encode(), "{\"a\":1}");
            assert_eq!(request.invocation.agent_role, "agent");
        }
        other => panic!("{:?}", other),
    }
}

#[test]
fn an_unknown_tool_is_refused() {
    match node().process(call("erase", "admin", "{}")) {
        Err(AdapterError::UnknownTool(name)) => assert_eq!(name, "erase"),
        other => panic!("{:?}", other),
    }
}

#[test]
fn a_role_that_is_not_listed_is_refused() {
    match node().process(call("write", "admin", "{}")) {
        Err(AdapterError::Unauthorized(reason)) => {
            assert_eq!(reason, "role `admin` is not allowed to execute `write`")
        }
        other => panic!("{:?}", other),
    }
    assert!(node().process(call("read", "nobody", "{}")).is_err());
}

#[test]
fn the_check_comes_before_the_policy() {
    match node().process(call("write", "admin", "{\"cot\":1}")) {
        Err(AdapterError::ModelRefuted(reason)) => {
            assert_eq!(reason, "non-executable reasoning field `cot` present")
        }
        other => panic!("{:?}", other),
    }
}

#[test]
fn large_arguments_are_refused_first() {
    let exact = format!("\"{}\"", "x".repeat(38));
    assert!(node().process(call("read", "agent", &exact)).is_ok());
    let wide = format!("\"{}\"", "é".repeat(20));
    let long = "{\"thinking\":\"0123456789012345678901234567\"}";
    for arguments in [wide.as_str(), long] {
        match node().process(call("read", "agent", arguments)) {
            Err(AdapterError::ModelRefuted(reason)) => {
                assert_eq!(reason, "argument entropy bound exceeded")
            }
            other => panic!("{:?}", other),
        }
    }
}

#[test]
fn reasoning_is_found_at_any_depth() {
    for key in [
        "thinking", "reasoning", "chain_of_thought", "cot", "interleaved_thinking", "CoT",
        "ReaSoning",
    ] {
        let text = format!("{{\"a\":[1,{{\"b\":{{\"{}\":null}}}}]}}", key);
        assert_eq!(
            reject_reasoning_keys(&json(&text)),
            Err(format!("non-executable reasoning field `{}` present", key))
        );
    }
    assert_eq!(
        reject_reasoning_keys(&json("{\"thinkings\":\"thinking\",\"a\":[\"cot\"]}")),
        Ok(())
    );
    assert_eq!(reject_reasoning_keys(&Json::Null), Ok(()));
}

#[test]
fn the_first_reasoning_field_is_reported() {
    let value = Json::Object(vec![
        ("a".to_string(), Json::Array(vec![json("{\"COT\":1}")])),
        ("thinking".to_string(), Json::Null),
    ]);
    assert_eq!(
        reject_reasoning_keys(&value),
        Err("non-executable reasoning field `COT` present".to_string())
    );
}

#[test]
fn policy_and_check_can_be_asked_directly() {
    let boundary = allowlist();
    assert!(boundary.can_execute(&tool("read", None), "admin", &Json::Null).is_ok());
    assert!(boundary.can_execute(&tool("other", None), "admin", &Json::Null).is_err());
    let check = StrictCrystallizer { max_argument_bytes: 2 };
    assert!(check.crystallize(&call("any", "any", "{}")).is_ok());
    assert!(check.crystallize(&call("any", "any", "[1]")).is_err());
}

fn question(tool: &str, role: &str, arguments: &str) -> AttestRequest {
    AttestRequest {
        tool: tool.to_string(),
        agent_role: role.to_string(),
        arguments: json(arguments),
        trace_id: "t2".to_string(),
    }
}

#[test]
fn questions_are_answered_as_calls_are_decided() {
    let yes = node().attest(&question("read", "agent", "{}")).unwrap();
    assert!(yes.allowed);
    assert_eq!(yes.reason, "policy accepted");
    let no = node().attest(&question("write", "agent", "{}")).unwrap();
    assert!(!no.allowed);
    assert_eq!(no.reason, "role `agent` is not allowed to execute `write`");
    let no = node().attest(&question("read", "agent", "{\"cot\":0}")).unwrap();
    assert!(!no.allowed);
    assert_eq!(no.reason, "non-executable reasoning field `cot` present");
    match node().attest(&question("erase", "agent", "{}")) {
        Err(AdapterError::UnknownTool(name)) => assert_eq!(name, "erase"),
        other => panic!("{:?}", other),
    }
}

fn envelope(jsonrpc: &str, method: &str, params: &str) -> RpcEnvelope {
    RpcEnvelope {
        jsonrpc: jsonrpc.to_string(),
        id: Json::Number("1".to_string()),
        method: method.to_string(),
        params: json(params),
    }
}

fn refusal(jsonrpc: &str, method: &str, params: &str) -> String {
    node().handle_rpc(envelope(jsonrpc, method, params)).unwrap_err().message()
}

#[test]
fn a_tools_call_is_decided() {
    let params = "{\"name\":\"read\",\"agentRole\":\"agent\",\"traceId\":\"t3\"}";
    let messages = node().handle_rpc(envelope("2.0", "tools/call", params)).unwrap();
    match &messages[1] {
        Outbound::Generate(request) => {
            assert_eq!(request.invocation.arguments.encode(), "{}");
            assert_eq!(request.invocation.trace_id, "t3");
        }
        other => panic!("{:?}", other),
    }
    let params = "{\"name\":\"read\",\"arguments\":[7],\"agentRole\":\"agent\",\"traceId\":\"\"}";
    let messages = node().handle_rpc(envelope("2.0", "tools/call", params)).unwrap();
    match &messages[1] {
        Outbound::Generate(request) => assert_eq!(request.invocation.arguments.encode(), "[7]"),
        other => panic!("{:?}", other),
    }
}

#[test]
fn other_requests_are_refused() {
    let full = "{\"name\":\"read\",\"agentRole\":\"agent\",\"traceId\":\"t\"}";
    assert_eq!(refusal("1.0", "x", "null"), "invalid MCP envelope: jsonrpc must be 2.0");
    assert_eq!(refusal("2.0", "tools/list", full), "unsupported MCP method: tools/list");
    assert_eq!(
        refusal("2.0", "tools/call", "[]"),
        "invalid MCP envelope: tools/call.params must be an object"
    );
    assert_eq!(
        refusal("2.0", "tools/call", "{\"name\":3}"),
        "invalid MCP envelope: tools/call.params.name is required"
    );
    assert_eq!(
        refusal("2.0", "tools/call", "{\"name\":\"read\",\"traceId\":\"t\"}"),
        "invalid MCP envelope: agentRole is required"
    );
    assert_eq!(
        refusal("2.0", "tools/call", "{\"name\":\"read\",\"agentRole\":\"agent\"}"),
        "invalid MCP envelope: traceId is required"
    );
    assert_eq!(
        refusal(
            "2.0",
            "tools/call",
            "{\"name\":\"erase\",\"agentRole\":\"agent\",\"traceId\":\"t\"}"
        ),
        "unknown tool: erase"
    );
}

#[test]
fn parameters_that_carry_reasoning_are_refused() {
    for key in ["reasoning", "Thinking", "COT", "chain_of_thought", "interleaved_thinking"] {
        let params = format!(
            "{{\"name\":\"read\",\"arguments\":{{}},\"agentRole\":\"agent\",\
             \"traceId\":\"t\",\"{}\":\"x\"}}",
            key
        );
        assert_eq!(
            refusal("2.0", "tools/call", &params),
            format!("invalid MCP envelope: non-executable reasoning field `{}` present", key)
        );
    }
    let params = "{\"name\":\"read\",\"agentRole\":\"agent\",\"traceId\":\"t\",\"_meta\":{}}";
    assert!(node().handle_rpc(envelope("2.0", "tools/call", params)).is_ok());
}

#[test]
fn unknown_parameters_are_searched_at_any_depth() {
    for meta in [
        "{\"reasoning\":\"x\"}",
        "{\"a\":[1,{\"b\":{\"Reasoning\":null}}]}",
        "[[{\"REASONING\":{}}]]",
    ] {
        let params = format!(
            "{{\"name\":\"read\",\"agentRole\":\"agent\",\"traceId\":\"t\",\"_meta\":{}}}",
            meta
        );
        let text = refusal("2.0", "tools/call", &params);
        assert_eq!(
            text.to_lowercase(),
            "invalid mcp envelope: non-executable reasoning field `reasoning` present"
        );
    }
    let params = "{\"name\":\"read\",\"agentRole\":\"agent\",\"traceId\":\"t\",\
                  \"_meta\":{\"progressToken\":\"reasoning\"}}";
    assert!(node().handle_rpc(envelope("2.0", "tools/call", params)).is_ok());
}

#[test]
fn known_parameters_are_judged_elsewhere() {
    assert!(reject_reasoning_parameters(&json("{\"arguments\":{\"cot\":1}}")).is_ok());
    assert!(reject_reasoning_parameters(&json("{\"name\":{\"cot\":1}}")).is_ok());
    assert!(reject_reasoning_parameters(&json("[{\"cot\":1}]")).is_ok());
    assert_eq!(
        reject_reasoning_parameters(&json("{\"a\":1,\"cot\":2}")),
        Err("non-executable reasoning field `cot` present".to_string())
    );
    assert_eq!(
        reject_reasoning_parameters(&json("{\"a\":{\"b\":{\"cot\":1}},\"thinking\":2}")),
        Err("non-executable reasoning field `cot` present".to_string())
    );
    let params = "{\"name\":\"read\",\"agentRole\":\"agent\",\"traceId\":\"t\",\
                  \"arguments\":{\"a\":{\"cot\":1}}}";
    assert_eq!(
        refusal("2.0", "tools/call", params),
        "model refuted: non-executable reasoning field `cot` present"
    );
}

#[test]
fn contracts_are_read_from_a_tool_list() {
    let listing = json(
        "{\"tools\":[{\"name\":\"a\",\"description\":\"d\",\"inputSchema\":{\"x\":1}},\
         {\"name\":\"b\",\"description\":5}]}",
    );
    let set = Node::extract_contracts(&listing).unwrap();
    assert_eq!(set.tools.len(), 2);
    assert_eq!(set.tools[0].name, "a");
    assert_eq!(set.tools[0].description.as_deref(), Some("d"));
    assert_eq!(set.tools[0].input_schema.encode(), "{\"x\":1}");
    assert_eq!(set.tools[1].description, None);
    assert_eq!(set.tools[1].input_schema.encode(), "{\"type\":\"object\"}");
    let empty = Node::extract_contracts(&json("{\"tools\":[]}")).unwrap();
    assert!(empty.tools.is_empty());
}

#[test]
fn tool_lists_that_cannot_be_read() {
    for text in ["{}", "null", "{\"tools\":{}}"] {
        let e = Node::extract_contracts(&json(text)).unwrap_err();
        assert_eq!(e.message(), "invalid MCP envelope: missing result.tools[]");
    }
    for text in ["{\"tools\":[{\"name\":\"a\"},{}]}", "{\"tools\":[{\"name\":1}]}"] {
        let e = Node::extract_contracts(&json(text)).unwrap_err();
        assert_eq!(e.message(), "invalid MCP envelope: tool.name is required");
    }
}

#[test]
fn adapter_error_texts() {
    let x = || "x".to_string();
    assert_eq!(AdapterError::ModelRefuted(x()).message(), "model refuted: x");
    assert_eq!(AdapterError::Unauthorized(x()).message(), "unauthorized execution: x");
    assert_eq!(AdapterError::Nats(x()).message(), "NATS request failed: x");
    assert_eq!(AdapterError::Serialization(x()).message(), "serialization failed: x");
}
