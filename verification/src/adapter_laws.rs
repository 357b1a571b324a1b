//! What the adapter reads out of requests and tool lists, and what becomes of a call.

use vstd::prelude::*;

use crate::json::JsonModel;
use crate::json_laws::first_such_name_is_found;
use crate::json_laws::reasoning_is_found_at_any_depth;
use crate::nats_node::admission;
use crate::nats_node::allowlist_ruling;
use crate::nats_node::attestation;
use crate::nats_node::contract_models;
use crate::nats_node::contract_of;
use crate::nats_node::contracts_by_name;
use crate::nats_node::extraction;
use crate::nats_node::field_names;
use crate::nats_node::first_reasoning;
use crate::nats_node::invocation_of;
use crate::nats_node::is_known_parameter;
use crate::nats_node::is_plain_parameter;
use crate::nats_node::names_in_parameters;
use crate::nats_node::names_reasoning;
use crate::nats_node::only_tool_calls_are_accepted;
use crate::nats_node::outbound_models;
use crate::nats_node::parameters_ruling;
use crate::nats_node::parameters_pass_exactly_if_plain;
use crate::nats_node::reasoning_ruling;
use crate::nats_node::role_models;
use crate::nats_node::roles_by_tool;
use crate::nats_node::ruling_model;
use crate::nats_node::strict_ruling;
use crate::nats_node::AdapterFault;
use crate::nats_node::AllowlistBoundary;
use crate::nats_node::AttestRequest;
use crate::nats_node::ContractModel;
use crate::nats_node::DafnyCrystallizer;
use crate::nats_node::ExecutionBoundary;
use crate::nats_node::InvocationModel;
use crate::nats_node::NatsNode;
use crate::nats_node::Outbound;
use crate::nats_node::OutboundModel;
use crate::nats_node::StrictCrystallizer;
use crate::nats_node::ToolContract;
use crate::nats_node::ToolInvocation;
use crate::nats_node::TraceState;

verus! {

/// Whether a contract says what an entry of a tool list says: its name, its description where that
/// is a text, and its schema, or that any object will do where it gives none.
pub open spec fn agrees_with_entry(contract: ContractModel, entry: JsonModel) -> bool {
    &&& entry.find("name"@) == Some(JsonModel::Text(contract.name))
    &&& match contract.description {
        Some(text) => entry.find("description"@) == Some(JsonModel::Text(text)),
        None => !(entry.find("description"@) matches Some(JsonModel::Text(_))),
    }
    &&& entry.find("inputSchema"@) matches Some(schema) ==> contract.input_schema == schema
    &&& entry.find("inputSchema"@) is None ==> contract.input_schema == JsonModel::Object(
        seq![("type"@, JsonModel::Text("object"@))],
    )
}

/// Every entry of a tool list becomes one contract, in order, that says what the entry says,
/// whatever other fields it has. The list is refused exactly if it is missing or one of its
/// entries has no name.
pub proof fn contracts_say_what_the_entries_say(result: JsonModel)
    ensures
        match extraction(result) {
            Ok(contracts) => {
                &&& result.find("tools"@) matches Some(JsonModel::Array(tools))
                &&& contracts.len() == tools.len()
                &&& forall|i: int|
                    0 <= i < tools.len() ==> agrees_with_entry(#[trigger] contracts[i], tools[i])
            },
            Err(fault) => match result.find("tools"@) {
                Some(JsonModel::Array(tools)) => {
                    &&& fault == AdapterFault::InvalidEnvelope("tool.name is required"@)
                    &&& exists|i: int|
                        0 <= i < tools.len() && !((#[trigger] tools[i]).find(
                            "name"@,
                        ) matches Some(JsonModel::Text(_)))
                },
                _ => fault == AdapterFault::InvalidEnvelope("missing result.tools[]"@),
            },
        },
{
    if let Some(JsonModel::Array(tools)) = result.find("tools"@) {
        if extraction(result) is Err {
            let i = choose|i: int|
                0 <= i < tools.len() && !(contract_of(#[trigger] tools[i]) is Some);
            assert(!(tools[i].find("name"@) matches Some(JsonModel::Text(_))));
        } else {
            let contracts = extraction(result)->Ok_0;
            assert forall|i: int| 0 <= i < tools.len() implies agrees_with_entry(
                #[trigger] contracts[i],
                tools[i],
            ) by {
                assert(contract_of(tools[i]) is Some);
            }
        }
    }
}

/// Whether one of the parameters carries reasoning: by its name, or, unless it is one of the four
/// that a call has, by the name of a field in it.
pub open spec fn carries_reasoning(
    entries: Seq<(Seq<char>, JsonModel)>,
    i: int,
    name: Seq<char>,
) -> bool {
    &&& 0 <= i < entries.len()
    &&& names_reasoning(name)
    &&& {
        ||| entries[i].0 == name
        ||| {
            &&& field_names(entries[i].1).contains(name)
            &&& entries[i].0 != "name"@
            &&& entries[i].0 != "arguments"@
            &&& entries[i].0 != "agentRole"@
            &&& entries[i].0 != "traceId"@
        }
    }
}

/// A parameter is plain exactly if it carries no reasoning.
proof fn plain_parameters_carry_none(entries: Seq<(Seq<char>, JsonModel)>, i: int)
    requires
        0 <= i < entries.len(),
    ensures
        is_plain_parameter(entries[i].0, entries[i].1) <==> forall|name: Seq<char>|
            !#[trigger] carries_reasoning(entries, i, name),
{
    let (key, held) = entries[i];
    if is_plain_parameter(key, held) {
        assert forall|name: Seq<char>| !#[trigger] carries_reasoning(entries, i, name) by {
            if field_names(held).contains(name) {
                let j = choose|j: int|
                    0 <= j < field_names(held).len() && field_names(held)[j] == name;
                assert(field_names(held)[j] == name);
            }
        }
    }
    if forall|name: Seq<char>| !#[trigger] carries_reasoning(entries, i, name) {
        assert(!carries_reasoning(entries, i, key));
        assert forall|j: int| 0 <= j < field_names(held).len() && key != "name"@ && key
            != "arguments"@ && key != "agentRole"@ && key != "traceId"@ implies !names_reasoning(
            #[trigger] field_names(held)[j],
        ) by {
            assert(field_names(held).contains(field_names(held)[j]));
            assert(!carries_reasoning(entries, i, field_names(held)[j]));
        }
    }
}

/// A request asks for a call exactly if it is a `tools/call` in version 2.0 whose parameters give
/// the name, the role and the trace as texts and carry no reasoning. The call is then what the
/// parameters say, with no arguments where they give none.
pub proof fn complete_requests_are_calls(
    jsonrpc: Seq<char>,
    method: Seq<char>,
    params: JsonModel,
)
    ensures
        invocation_of(jsonrpc, method, params) is Ok <==> {
            &&& jsonrpc == "2.0"@
            &&& method == "tools/call"@
            &&& params matches JsonModel::Object(entries)
            &&& forall|i: int, name: Seq<char>| !#[trigger] carries_reasoning(entries, i, name)
            &&& params.find("name"@) matches Some(JsonModel::Text(_))
            &&& params.find("agentRole"@) matches Some(JsonModel::Text(_))
            &&& params.find("traceId"@) matches Some(JsonModel::Text(_))
        },
        invocation_of(jsonrpc, method, params) matches Ok(call) ==> {
            &&& params.find("name"@) == Some(JsonModel::Text(call.tool))
            &&& params.find("agentRole"@) == Some(JsonModel::Text(call.agent_role))
            &&& params.find("traceId"@) == Some(JsonModel::Text(call.trace_id))
            &&& params.find("arguments"@) matches Some(given) ==> call.arguments == given
            &&& params.find("arguments"@) is None ==> call.arguments == JsonModel::Object(
                Seq::empty(),
            )
        },
{
    only_tool_calls_are_accepted(jsonrpc, method, params);
    if let JsonModel::Object(entries) = params {
        if invocation_of(jsonrpc, method, params) is Ok {
            assert forall|i: int, name: Seq<char>| !#[trigger] carries_reasoning(
                entries,
                i,
                name,
            ) by {
                if 0 <= i < entries.len() {
                    plain_parameters_carry_none(entries, i);
                }
            }
        }
        if forall|i: int, name: Seq<char>| !#[trigger] carries_reasoning(entries, i, name) {
            assert forall|i: int| 0 <= i < entries.len() implies is_plain_parameter(
                (#[trigger] entries[i]).0,
                entries[i].1,
            ) by {
                plain_parameters_carry_none(entries, i);
            }
            plain_parameters_pass(entries);
        }
    }
}

/// Parameters that are all plain pass.
proof fn plain_parameters_pass(entries: Seq<(Seq<char>, JsonModel)>)
    requires
        forall|i: int|
            0 <= i < entries.len() ==> is_plain_parameter((#[trigger] entries[i]).0, entries[i].1),
    ensures
        parameters_ruling(JsonModel::Object(entries)) is Ok,
{
    if parameters_ruling(JsonModel::Object(entries)) is Err {
        let name = first_reasoning(names_in_parameters(entries)).unwrap();
        names_of_parameters(entries, name);
        found_name_is_listed(names_in_parameters(entries));
        let i = choose|i: int|
            0 <= i < entries.len() && #[trigger] is_named_by(entries, i, name);
        assert(is_plain_parameter(entries[i].0, entries[i].1));
        if field_names(entries[i].1).contains(name) {
            let j = choose|j: int|
                0 <= j < field_names(entries[i].1).len() && field_names(entries[i].1)[j] == name;
            assert(field_names(entries[i].1)[j] == name);
        }
    }
}

/// Whether the `i`-th parameter contributes a name to the search.
spec fn is_named_by(entries: Seq<(Seq<char>, JsonModel)>, i: int, name: Seq<char>) -> bool {
    ||| entries[i].0 == name
    ||| {
        &&& field_names(entries[i].1).contains(name)
        &&& entries[i].0 != "name"@
        &&& entries[i].0 != "arguments"@
        &&& entries[i].0 != "agentRole"@
        &&& entries[i].0 != "traceId"@
    }
}

/// What is found is one of the names, and names reasoning.
proof fn found_name_is_listed(names: Seq<Seq<char>>)
    ensures
        first_reasoning(names) matches Some(name) ==> names.contains(name) && names_reasoning(name),
    decreases names.len(),
{
    if names.len() > 0 {
        let rest = names.drop_first();
        found_name_is_listed(rest);
        if names_reasoning(names[0]) {
            assert(names[0] == names[0]);
        } else if first_reasoning(rest) is Some {
            let i = choose|i: int| 0 <= i < rest.len() && rest[i] == first_reasoning(rest).unwrap();
            assert(names[i + 1] == rest[i]);
        }
    }
}

/// The names that are searched are those of the parameters and of what the unknown ones hold.
proof fn names_of_parameters(entries: Seq<(Seq<char>, JsonModel)>, name: Seq<char>)
    ensures
        names_in_parameters(entries).contains(name) ==> exists|i: int|
            0 <= i < entries.len() && #[trigger] is_named_by(entries, i, name),
    decreases entries.len(),
{
    if names_in_parameters(entries).contains(name) {
        let rest = entries.drop_first();
        let names = names_in_parameters(entries);
        let held = if is_known_parameter(entries[0].0) {
            Seq::empty()
        } else {
            field_names(entries[0].1)
        };
        let k = choose|k: int| 0 <= k < names.len() && names[k] == name;
        assert(names == seq![entries[0].0] + (held + names_in_parameters(rest)));
        if k == 0 {
            assert(is_named_by(entries, 0, name));
        } else if k <= held.len() {
            assert(held[k - 1] == name);
            assert(is_named_by(entries, 0, name));
        } else {
            assert(names_in_parameters(rest)[k - 1 - held.len()] == name);
            names_of_parameters(rest, name);
            let i = choose|i: int| 0 <= i < rest.len() && #[trigger] is_named_by(rest, i, name);
            assert(entries[i + 1] == rest[i]);
            assert(is_named_by(entries, i + 1, name));
        }
    }
}

/// Why a request asks for no call: its version, its method, the kind of its parameters, reasoning
/// among them, or what is missing, in this order.
pub proof fn refused_requests_are_explained(
    jsonrpc: Seq<char>,
    method: Seq<char>,
    params: JsonModel,
)
    ensures
        jsonrpc != "2.0"@ ==> invocation_of(jsonrpc, method, params) == Err::<InvocationModel, _>(
            AdapterFault::InvalidEnvelope("jsonrpc must be 2.0"@),
        ),
        jsonrpc == "2.0"@ && method != "tools/call"@ ==> invocation_of(jsonrpc, method, params)
            == Err::<InvocationModel, _>(AdapterFault::UnsupportedMethod(method)),
        jsonrpc == "2.0"@ && method == "tools/call"@ ==> match params {
            JsonModel::Object(entries) => if exists|i: int, name: Seq<char>|
                #[trigger] carries_reasoning(entries, i, name) {
                exists|i: int, name: Seq<char>|
                    {
                        &&& #[trigger] carries_reasoning(entries, i, name)
                        &&& invocation_of(jsonrpc, method, params) == Err::<InvocationModel, _>(
                            AdapterFault::InvalidEnvelope(
                                "non-executable reasoning field `"@ + name + "` present"@,
                            ),
                        )
                    }
            } else {
                &&& !(params.find("name"@) matches Some(JsonModel::Text(_))) ==> invocation_of(
                    jsonrpc,
                    method,
                    params,
                ) == Err::<InvocationModel, _>(
                    AdapterFault::InvalidEnvelope("tools/call.params.name is required"@),
                )
                &&& (params.find("name"@) matches Some(JsonModel::Text(_))) && !(params.find(
                    "agentRole"@,
                ) matches Some(JsonModel::Text(_))) ==> invocation_of(jsonrpc, method, params)
                    == Err::<InvocationModel, _>(
                    AdapterFault::InvalidEnvelope("agentRole is required"@),
                )
                &&& (params.find("name"@) matches Some(JsonModel::Text(_))) && (params.find(
                    "agentRole"@,
                ) matches Some(JsonModel::Text(_))) && !(params.find("traceId"@) matches Some(
                    JsonModel::Text(_),
                )) ==> invocation_of(jsonrpc, method, params) == Err::<InvocationModel, _>(
                    AdapterFault::InvalidEnvelope("traceId is required"@),
                )
            },
            _ => invocation_of(jsonrpc, method, params) == Err::<InvocationModel, _>(
                AdapterFault::InvalidEnvelope("tools/call.params must be an object"@),
            ),
        },
{
    if jsonrpc == "2.0"@ && method == "tools/call"@ {
        if let JsonModel::Object(entries) = params {
            if exists|i: int, name: Seq<char>| #[trigger] carries_reasoning(entries, i, name) {
                let (i, name) = choose|i: int, name: Seq<char>|
                    #[trigger] carries_reasoning(entries, i, name);
                complete_requests_are_calls(jsonrpc, method, params);
                plain_parameters_carry_none(entries, i);
                refusal_names_a_parameter(entries, i);
            } else {
                assert forall|i: int| 0 <= i < entries.len() implies is_plain_parameter(
                    (#[trigger] entries[i]).0,
                    entries[i].1,
                ) by {
                    plain_parameters_carry_none(entries, i);
                }
                plain_parameters_pass(entries);
            }
        }
    }
}

/// Parameters of which one is not plain are refused with a name that carries reasoning.
proof fn refusal_names_a_parameter(entries: Seq<(Seq<char>, JsonModel)>, i: int)
    requires
        0 <= i < entries.len(),
        !is_plain_parameter(entries[i].0, entries[i].1),
    ensures
        exists|k: int, name: Seq<char>|
            {
                &&& #[trigger] carries_reasoning(entries, k, name)
                &&& parameters_ruling(JsonModel::Object(entries)) == Err::<(), _>(
                    "non-executable reasoning field `"@ + name + "` present"@,
                )
            },
{
    parameters_pass_exactly_if_plain(entries);
    let name = first_reasoning(names_in_parameters(entries)).unwrap();
    found_name_is_listed(names_in_parameters(entries));
    names_of_parameters(entries, name);
    let k = choose|k: int| 0 <= k < entries.len() && #[trigger] is_named_by(entries, k, name);
    assert(carries_reasoning(entries, k, name));
}

/// What becomes of a call: an unknown tool is reported by its name, a call that the check or the
/// policy refuses by the reason, the check's before the policy's; a call that both let pass is
/// first noted as attested, without anything added, and then sent on with its contract.
pub proof fn calls_are_let_through_or_explained(
    contract: ContractModel,
    call: InvocationModel,
    checked: Result<(), Seq<char>>,
    permitted: Result<(), Seq<char>>,
    reason: Seq<char>,
)
    ensures
        admission(None, call, checked, permitted) == Err::<Seq<OutboundModel>, _>(
            AdapterFault::UnknownTool(call.tool),
        ),
        admission(Some(contract), call, Err(reason), permitted) == Err::<Seq<OutboundModel>, _>(
            AdapterFault::ModelRefuted(reason),
        ),
        admission(Some(contract), call, Ok(()), Err(reason)) == Err::<Seq<OutboundModel>, _>(
            AdapterFault::Unauthorized(reason),
        ),
        admission(Some(contract), call, Ok(()), Ok(())) matches Ok(messages) && {
            &&& messages.len() == 2
            &&& messages[0] == (OutboundModel::Seal {
                trace_id: call.trace_id,
                tool: call.tool,
                state: TraceState::Attested,
                metadata: Map::empty(),
            })
            &&& messages[1] == (OutboundModel::Generate { contract, invocation: call })
        },
        attestation(Err(reason), permitted).allowed == false,
        attestation(Err(reason), permitted).reason == reason,
        attestation(Ok(()), Err(reason)).allowed == false,
        attestation(Ok(()), Err(reason)).reason == reason,
        attestation(Ok(()), Ok(())).allowed,
        attestation(Ok(()), Ok(())).reason == "policy accepted"@,
{
}

/// A node asks its check about the call itself, and, where the check agrees, its policy about the
/// contract, the role and the arguments of the call.
pub proof fn node_asks_about_the_call<B, C>(
    node: NatsNode<B, C>,
    contract: ContractModel,
    call: InvocationModel,
    checked: Result<(), Seq<char>>,
    permitted: Result<(), Seq<char>>,
) where B: ExecutionBoundary + 'static, C: DafnyCrystallizer + 'static
    requires
        node.may_rule(contract, call, checked, permitted),
    ensures
        node.check().may_rule(call, checked),
        checked is Ok ==> permitted == node.policy().ruling(
            contract,
            call.agent_role,
            call.arguments,
        ),
{
}

/// A node knows exactly the tools that it was given contracts for.
pub proof fn node_knows_its_tools<B, C>(node: NatsNode<B, C>, tool: Seq<char>)
    ensures
        node.contract(tool) is Some <==> node.contracts().contains_key(tool),
        node.contract(tool) matches Some(contract) ==> contract == node.contracts()[tool],
{
}

/// No tool is known that is not in the list.
pub proof fn only_listed_tools_are_known(tools: Seq<ContractModel>, name: Seq<char>)
    ensures
        contracts_by_name(tools).contains_key(name) <==> exists|i: int|
            0 <= i < tools.len() && (#[trigger] tools[i]).name == name,
    decreases tools.len(),
{
    if tools.len() > 0 {
        let front = tools.drop_last();
        only_listed_tools_are_known(front, name);
        assert(forall|i: int| 0 <= i < front.len() ==> #[trigger] front[i] == tools[i]);
        if tools.last().name == name {
            assert(tools[tools.len() - 1].name == name);
        }
        if exists|i: int| 0 <= i < front.len() && (#[trigger] front[i]).name == name {
            let i = choose|i: int| 0 <= i < front.len() && (#[trigger] front[i]).name == name;
            assert(tools[i].name == name);
        }
        if exists|i: int| 0 <= i < tools.len() && (#[trigger] tools[i]).name == name {
            let i = choose|i: int| 0 <= i < tools.len() && (#[trigger] tools[i]).name == name;
            if i < front.len() {
                assert(front[i].name == name);
            }
        }
    }
}

/// The roles of a tool are those of the last entry for it, in order; a tool without an entry has
/// none.
pub proof fn last_roles_count(entries: Seq<(String, Vec<String>)>, i: int, tool: Seq<char>)
    ensures
        0 <= i < entries.len() && (forall|j: int|
            i < j < entries.len() ==> (#[trigger] entries[j]).0@ != entries[i].0@) ==> {
            let roles = roles_by_tool(entries)[entries[i].0@];
            &&& roles_by_tool(entries).contains_key(entries[i].0@)
            &&& roles.len() == entries[i].1@.len()
            &&& forall|k: int| 0 <= k < roles.len() ==> #[trigger] roles[k] == entries[i].1@[k]@
        },
        roles_by_tool(entries).contains_key(tool) <==> exists|j: int|
            0 <= j < entries.len() && (#[trigger] entries[j]).0@ == tool,
    decreases entries.len(),
{
    if entries.len() > 0 {
        let front = entries.drop_last();
        last_roles_count(front, i, tool);
        assert(forall|j: int| 0 <= j < front.len() ==> #[trigger] front[j] == entries[j]);
        if 0 <= i < front.len() && (forall|j: int|
            i < j < entries.len() ==> (#[trigger] entries[j]).0@ != entries[i].0@) {
            assert(entries[entries.len() - 1].0@ != entries[i].0@);
            assert forall|j: int| i < j < front.len() implies (#[trigger] front[j]).0@
                != front[i].0@ by {
                assert(entries[j].0@ != entries[i].0@);
            }
        }
        if entries.last().0@ == tool {
            assert(entries[entries.len() - 1].0@ == tool);
        }
        if exists|j: int| 0 <= j < front.len() && (#[trigger] front[j]).0@ == tool {
            let j = choose|j: int| 0 <= j < front.len() && (#[trigger] front[j]).0@ == tool;
            assert(entries[j].0@ == tool);
        }
        if exists|j: int| 0 <= j < entries.len() && (#[trigger] entries[j]).0@ == tool {
            let j = choose|j: int| 0 <= j < entries.len() && (#[trigger] entries[j]).0@ == tool;
            if j < front.len() {
                assert(front[j].0@ == tool);
            }
        }
    }
}

/// An allowlist lets a role execute a tool exactly if the role is in the list of the tool, and
/// otherwise names both.
pub proof fn allowlist_lets_listed_roles_pass(
    allowed: Map<Seq<char>, Seq<Seq<char>>>,
    tool: Seq<char>,
    role: Seq<char>,
)
    ensures
        match allowlist_ruling(allowed, tool, role) {
            Ok(_) => allowed.contains_key(tool) && exists|i: int|
                0 <= i < allowed[tool].len() && #[trigger] allowed[tool][i] == role,
            Err(reason) => {
                &&& allowed.contains_key(tool) ==> forall|i: int|
                    0 <= i < allowed[tool].len() ==> #[trigger] allowed[tool][i] != role
                &&& reason == "role `"@ + role + "` is not allowed to execute `"@ + tool + "`"@
            },
        },
{
}

/// A policy by allowlist looks at the name of the tool and at the role, and a strict check at the
/// arguments of the call and at nothing else.
pub proof fn rulings_rest_on_the_call(
    policy: AllowlistBoundary,
    check: StrictCrystallizer,
    tool: ContractModel,
    call: InvocationModel,
    ruling: Result<(), Seq<char>>,
)
    ensures
        policy.ruling(tool, call.agent_role, call.arguments) is Ok <==> policy@.contains_key(
            tool.name,
        ) && exists|i: int|
            0 <= i < policy@[tool.name].len() && #[trigger] policy@[tool.name][i]
                == call.agent_role,
        policy.ruling(tool, call.agent_role, call.arguments) matches Err(reason) ==> reason
            == "role `"@ + call.agent_role + "` is not allowed to execute `"@ + tool.name + "`"@,
        check.may_rule(call, ruling) <==> ruling == strict_ruling(
            check.max_argument_bytes,
            call.arguments,
        ),
{
    allowlist_lets_listed_roles_pass(policy@, tool.name, call.agent_role);
}

/// A call whose arguments carry reasoning in any of their entries, or in the value of any of them,
/// is refused by a node with the strict check, whatever the policy says.
pub proof fn reasoning_in_any_entry_is_refused<B>(
    node: NatsNode<B, StrictCrystallizer>,
    contract: ContractModel,
    call: InvocationModel,
    entries: Seq<(Seq<char>, JsonModel)>,
    i: int,
    checked: Result<(), Seq<char>>,
    permitted: Result<(), Seq<char>>,
) where B: ExecutionBoundary + 'static
    requires
        node.may_rule(contract, call, checked, permitted),
        call.arguments == JsonModel::Object(entries),
        0 <= i < entries.len(),
        names_reasoning(entries[i].0) || reasoning_ruling(entries[i].1) is Err,
    ensures
        admission(Some(contract), call, checked, permitted) matches Err(
            AdapterFault::ModelRefuted(_),
        ),
        !attestation(checked, permitted).allowed,
{
    reasoning_is_found_at_any_depth(entries, Seq::empty(), JsonModel::Null);
}

/// The names of the parameters are searched in order: those of the first ones and then those of the
/// others. A parameter alone is searched by its name and then, unless it is one of the four
/// that a call has, by the names of the fields in it.
pub proof fn parameters_are_searched_in_order(
    a: Seq<(Seq<char>, JsonModel)>,
    b: Seq<(Seq<char>, JsonModel)>,
    key: Seq<char>,
    value: JsonModel,
)
    ensures
        names_in_parameters(Seq::empty()) == Seq::<Seq<char>>::empty(),
        names_in_parameters(a + b) == names_in_parameters(a) + names_in_parameters(b),
        key == "name"@ || key == "arguments"@ || key == "agentRole"@ || key == "traceId"@
            ==> names_in_parameters(seq![(key, value)]) == seq![key],
        !(key == "name"@ || key == "arguments"@ || key == "agentRole"@ || key == "traceId"@)
            ==> names_in_parameters(seq![(key, value)]) == seq![key] + field_names(value),
    decreases a.len(),
{
    let one = seq![(key, value)];
    assert(one.drop_first() =~= Seq::<(Seq<char>, JsonModel)>::empty());
    assert(names_in_parameters(one.drop_first()) =~= Seq::<Seq<char>>::empty());
    assert(seq![key] + (field_names(value) + Seq::<Seq<char>>::empty()) =~= seq![key]
        + field_names(value));
    assert(seq![key] + (Seq::<Seq<char>>::empty() + Seq::<Seq<char>>::empty()) =~= seq![key]);
    if a.len() == 0 {
        assert(a + b =~= b);
        assert(names_in_parameters(a) + names_in_parameters(b) =~= names_in_parameters(b));
    } else {
        assert((a + b).drop_first() =~= a.drop_first() + b);
        parameters_are_searched_in_order(a.drop_first(), b, key, value);
        assert(names_in_parameters(a + b) =~= names_in_parameters(a) + names_in_parameters(b));
    }
}

/// Parameters are refused exactly if one of the names that are searched names reasoning, and then
/// for the first such name.
pub proof fn first_reasoning_parameter_is_reported(entries: Seq<(Seq<char>, JsonModel)>)
    ensures
        ({
            let names = names_in_parameters(entries);
            match parameters_ruling(JsonModel::Object(entries)) {
                Ok(_) => forall|i: int|
                    0 <= i < names.len() ==> !names_reasoning(#[trigger] names[i]),
                Err(reason) => exists|i: int|
                    {
                        &&& 0 <= i < names.len()
                        &&& names_reasoning(#[trigger] names[i])
                        &&& reason == "non-executable reasoning field `"@ + names[i] + "` present"@
                        &&& forall|j: int| 0 <= j < i ==> !names_reasoning(#[trigger] names[j])
                    },
            }
        }),
{
    first_such_name_is_found(names_in_parameters(entries));
}

/// Every error is described by its kind and its text.
pub proof fn adapter_errors_are_described(text: Seq<char>)
    ensures
        AdapterFault::InvalidEnvelope(text).message() == "invalid MCP envelope: "@ + text,
        AdapterFault::UnsupportedMethod(text).message() == "unsupported MCP method: "@ + text,
        AdapterFault::UnknownTool(text).message() == "unknown tool: "@ + text,
        AdapterFault::ModelRefuted(text).message() == "model refuted: "@ + text,
        AdapterFault::Unauthorized(text).message() == "unauthorized execution: "@ + text,
        AdapterFault::Nats(text).message() == "NATS request failed: "@ + text,
        AdapterFault::Serialization(text).message() == "serialization failed: "@ + text,
{
}

/// Calls, questions, contracts, rulings and messages are seen with all their fields.
pub proof fn every_field_of_a_call_is_seen(
    call: ToolInvocation,
    question: AttestRequest,
    contract: ToolContract,
    tools: Seq<ToolContract>,
    roles: Seq<String>,
    messages: Seq<Outbound>,
    ruling: Result<(), String>,
)
    ensures
        call@.tool == call.tool@ && call@.arguments == call.arguments@ && call@.agent_role
            == call.agent_role@ && call@.trace_id == call.trace_id@,
        question@.tool == question.tool@ && question@.arguments == question.arguments@
            && question@.agent_role == question.agent_role@ && question@.trace_id
            == question.trace_id@,
        contract@.name == contract.name@ && contract@.input_schema == contract.input_schema@,
        match contract.description {
            Some(text) => contract@.description == Some(text@),
            None => contract@.description is None,
        },
        contract_models(tools).len() == tools.len(),
        forall|i: int| 0 <= i < tools.len() ==> #[trigger] contract_models(tools)[i] == tools[i]@,
        role_models(roles).len() == roles.len(),
        forall|i: int| 0 <= i < roles.len() ==> #[trigger] role_models(roles)[i] == roles[i]@,
        outbound_models(messages).len() == messages.len(),
        forall|i: int|
            0 <= i < messages.len() ==> match messages[i] {
                Outbound::Seal(request) => #[trigger] outbound_models(messages)[i] == (
                OutboundModel::Seal {
                    trace_id: request.trace_id@,
                    tool: request.tool@,
                    state: request.state,
                    metadata: request.metadata@,
                }),
                Outbound::Generate(request) => outbound_models(messages)[i] == (
                OutboundModel::Generate {
                    contract: request.contract@,
                    invocation: request.invocation@,
                }),
            },
        match ruling {
            Ok(_) => ruling_model(ruling) is Ok,
            Err(reason) => ruling_model(ruling) == Err::<(), _>(reason@),
        },
{
}

} // verus!
