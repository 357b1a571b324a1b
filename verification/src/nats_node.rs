//! The adapter between tool calls over JSON-RPC and the message bus.
//!
//! Only explicit metadata and arguments are accepted. A request that carries a field named as
//! reasoning is refused wherever the field stands: among the parameters, inside one that the schema
//! does not know, or, by the strict check, inside the arguments. What is to be sent is decided
//! here; sending it is the caller's part.

use std::collections::BTreeMap;
use std::sync::Arc;
use vstd::hash_map::StringHashMap;
use vstd::prelude::*;
use vstd::string::StringExecFns;
use vstd::utf8::encode_utf8;

use crate::dual_mirror::GENERATE_SUBJECT;
use crate::dual_mirror::SEAL_SUBJECT;
use crate::json::entry_models_are_pointwise;
use crate::json::item_models;
use crate::json::item_models_are_pointwise;
use crate::json::Json;
use crate::json::JsonModel;
use crate::text::chars_of;
use crate::text::join2;
use crate::text::same_text;

verus! {

/// What a tool is called, what it does, and what arguments it takes.
#[derive(Debug)]
pub struct ToolContract {
    pub name: String,
    pub description: Option<String>,
    pub input_schema: Json,
}

/// A [`ToolContract`] as a mathematical value.
pub ghost struct ContractModel {
    pub name: Seq<char>,
    pub description: Option<Seq<char>>,
    pub input_schema: JsonModel,
}

/// An optional text as a mathematical value.
pub open spec fn optional_text(text: Option<String>) -> Option<Seq<char>> {
    match text {
        Some(t) => Some(t@),
        None => None,
    }
}

impl View for ToolContract {
    type V = ContractModel;

    open spec fn view(&self) -> ContractModel {
        ContractModel {
            name: self.name@,
            description: optional_text(self.description),
            input_schema: self.input_schema@,
        }
    }
}

impl Clone for ToolContract {
    fn clone(&self) -> (copy: ToolContract)
        ensures
            copy@ == self@,
    {
        let description: Option<String> = match &self.description {
            Some(text) => Some(text.clone()),
            None => None,
        };
        ToolContract {
            name: self.name.clone(),
            description,
            input_schema: self.input_schema.clone(),
        }
    }
}

/// The tools that a server offers.
#[derive(Debug)]
pub struct ContractSet {
    pub tools: Vec<ToolContract>,
}

/// The contracts as mathematical values.
pub open spec fn contract_models(tools: Seq<ToolContract>) -> Seq<ContractModel> {
    tools.map_values(|t: ToolContract| t@)
}

/// A JSON-RPC request.
#[derive(Debug)]
pub struct RpcEnvelope {
    pub jsonrpc: String,
    pub id: Json,
    pub method: String,
    pub params: Json,
}

/// One call of a tool on behalf of an agent.
#[derive(Debug)]
pub struct ToolInvocation {
    pub tool: String,
    pub arguments: Json,
    pub agent_role: String,
    pub trace_id: String,
}

/// A [`ToolInvocation`] as a mathematical value.
pub ghost struct InvocationModel {
    pub tool: Seq<char>,
    pub arguments: JsonModel,
    pub agent_role: Seq<char>,
    pub trace_id: Seq<char>,
}

impl View for ToolInvocation {
    type V = InvocationModel;

    open spec fn view(&self) -> InvocationModel {
        InvocationModel {
            tool: self.tool@,
            arguments: self.arguments@,
            agent_role: self.agent_role@,
            trace_id: self.trace_id@,
        }
    }
}

/// A call that was let through, with the contract of its tool.
#[derive(Debug)]
pub struct GenerateRequest {
    pub contract: ToolContract,
    pub invocation: ToolInvocation,
}

/// A question whether a call would be let through.
#[derive(Debug)]
pub struct AttestRequest {
    pub tool: String,
    pub agent_role: String,
    pub arguments: Json,
    pub trace_id: String,
}

impl View for AttestRequest {
    type V = InvocationModel;

    open spec fn view(&self) -> InvocationModel {
        InvocationModel {
            tool: self.tool@,
            arguments: self.arguments@,
            agent_role: self.agent_role@,
            trace_id: self.trace_id@,
        }
    }
}

/// How far a call has come.
#[derive(Debug, Clone, Copy, PartialEq, Eq, Structural)]
pub enum TraceState {
    ContractExtracted,
    Attested,
    ModelRefuted,
    Published,
}

/// A note that a call has reached a state.
#[derive(Debug)]
pub struct SealRequest {
    pub trace_id: String,
    pub tool: String,
    pub state: TraceState,
    pub metadata: BTreeMap<String, String>,
}

/// The answer to an [`AttestRequest`].
#[derive(Debug)]
pub struct Attestation {
    pub allowed: bool,
    pub reason: String,
}

/// An [`Attestation`] as a mathematical value.
pub ghost struct AttestationModel {
    pub allowed: bool,
    pub reason: Seq<char>,
}

impl View for Attestation {
    type V = AttestationModel;

    open spec fn view(&self) -> AttestationModel {
        AttestationModel { allowed: self.allowed, reason: self.reason@ }
    }
}

/// Why a call is not let through. Errors of the outside are kept as their text.
#[derive(Debug)]
pub enum AdapterError {
    InvalidEnvelope(String),
    UnsupportedMethod(String),
    UnknownTool(String),
    ModelRefuted(String),
    Unauthorized(String),
    Nats(String),
    Serialization(String),
}

/// An [`AdapterError`] as a mathematical value.
pub ghost enum AdapterFault {
    InvalidEnvelope(Seq<char>),
    UnsupportedMethod(Seq<char>),
    UnknownTool(Seq<char>),
    ModelRefuted(Seq<char>),
    Unauthorized(Seq<char>),
    Nats(Seq<char>),
    Serialization(Seq<char>),
}

impl View for AdapterError {
    type V = AdapterFault;

    open spec fn view(&self) -> AdapterFault {
        match *self {
            AdapterError::InvalidEnvelope(text) => AdapterFault::InvalidEnvelope(text@),
            AdapterError::UnsupportedMethod(text) => AdapterFault::UnsupportedMethod(text@),
            AdapterError::UnknownTool(text) => AdapterFault::UnknownTool(text@),
            AdapterError::ModelRefuted(text) => AdapterFault::ModelRefuted(text@),
            AdapterError::Unauthorized(text) => AdapterFault::Unauthorized(text@),
            AdapterError::Nats(text) => AdapterFault::Nats(text@),
            AdapterError::Serialization(text) => AdapterFault::Serialization(text@),
        }
    }
}

impl AdapterFault {
    /// The text of the error.
    pub open spec fn message(self) -> Seq<char> {
        match self {
            AdapterFault::InvalidEnvelope(text) => "invalid MCP envelope: "@ + text,
            AdapterFault::UnsupportedMethod(text) => "unsupported MCP method: "@ + text,
            AdapterFault::UnknownTool(text) => "unknown tool: "@ + text,
            AdapterFault::ModelRefuted(text) => "model refuted: "@ + text,
            AdapterFault::Unauthorized(text) => "unauthorized execution: "@ + text,
            AdapterFault::Nats(text) => "NATS request failed: "@ + text,
            AdapterFault::Serialization(text) => "serialization failed: "@ + text,
        }
    }
}

impl AdapterError {
    /// The text of the error.
    pub fn message(&self) -> (text: String)
        ensures
            text@ == self@.message(),
    {
        match self {
            AdapterError::InvalidEnvelope(text) => join2("invalid MCP envelope: ", text.as_str()),
            AdapterError::UnsupportedMethod(text) => join2(
                "unsupported MCP method: ",
                text.as_str(),
            ),
            AdapterError::UnknownTool(text) => join2("unknown tool: ", text.as_str()),
            AdapterError::ModelRefuted(text) => join2("model refuted: ", text.as_str()),
            AdapterError::Unauthorized(text) => join2("unauthorized execution: ", text.as_str()),
            AdapterError::Nats(text) => join2("NATS request failed: ", text.as_str()),
            AdapterError::Serialization(text) => join2("serialization failed: ", text.as_str()),
        }
    }
}

/// What a policy rules: it agrees, or it gives its reason.
pub open spec fn ruling_model(ruling: Result<(), String>) -> Result<(), Seq<char>> {
    match ruling {
        Ok(_) => Ok(()),
        Err(reason) => Err(reason@),
    }
}

/// The policy that decides which role may execute which tool.
///
/// Implementations must be deterministic and must not infer permissions from generated text.
pub trait ExecutionBoundary: Send + Sync {
    /// What the policy rules on the given call, each time it is asked.
    spec fn ruling(
        &self,
        tool: ContractModel,
        role: Seq<char>,
        arguments: JsonModel,
    ) -> Result<(), Seq<char>>;

    /// Rules whether `role` may execute `tool` with the given arguments.
    fn can_execute(&self, tool: &ToolContract, role: &str, arguments: &Json) -> (ruling: Result<
        (),
        String,
    >)
        ensures
            ruling_model(ruling) == self.ruling(tool@, role@, arguments@),
    ;
}

/// The check of the explicit input of a call. It takes no reasoning.
pub trait DafnyCrystallizer: Send + Sync {
    /// Whether the check may rule so on the given call.
    spec fn may_rule(
        &self,
        invocation: InvocationModel,
        ruling: Result<(), Seq<char>>,
    ) -> bool;

    /// Rules whether the input of a call is acceptable.
    fn crystallize(&self, invocation: &ToolInvocation) -> (ruling: Result<(), String>)
        ensures
            self.may_rule(invocation@, ruling_model(ruling)),
    ;
}

/// The texts as mathematical values.
pub open spec fn role_models(roles: Seq<String>) -> Seq<Seq<char>> {
    roles.map_values(|r: String| r@)
}

/// The roles of each tool, from a list in which a later entry replaces an earlier one.
pub open spec fn roles_by_tool(entries: Seq<(String, Vec<String>)>) -> Map<
    Seq<char>,
    Seq<Seq<char>>,
>
    decreases entries.len(),
{
    if entries.len() == 0 {
        Map::empty()
    } else {
        let (tool, roles) = entries.last();
        roles_by_tool(entries.drop_last()).insert(tool@, role_models(roles@))
    }
}

/// A policy that lists the roles that may execute each tool.
pub struct AllowlistBoundary {
    allowed: StringHashMap<Vec<String>>,
}

impl View for AllowlistBoundary {
    type V = Map<Seq<char>, Seq<Seq<char>>>;

    closed spec fn view(&self) -> Map<Seq<char>, Seq<Seq<char>>> {
        self.allowed@.map_values(|roles: Vec<String>| role_models(roles@))
    }
}

/// What an allowlist rules.
pub open spec fn allowlist_ruling(
    allowed: Map<Seq<char>, Seq<Seq<char>>>,
    tool: Seq<char>,
    role: Seq<char>,
) -> Result<(), Seq<char>> {
    if allowed.contains_key(tool) && allowed[tool].contains(role) {
        Ok(())
    } else {
        Err("role `"@ + role + "` is not allowed to execute `"@ + tool + "`"@)
    }
}

impl AllowlistBoundary {
    /// A policy with the given roles for each tool. Of two entries for a tool the later one counts.
    pub fn new(allowed: Vec<(String, Vec<String>)>) -> (boundary: AllowlistBoundary)
        ensures
            boundary@ == roles_by_tool(allowed@),
    {
        let mut map: StringHashMap<Vec<String>> = StringHashMap::new();
        let ghost entries = allowed@;
        proof {
            assert(entries.take(0) =~= Seq::<(String, Vec<String>)>::empty());
            assert(map@.map_values(|roles: Vec<String>| role_models(roles@)) =~= roles_by_tool(
                entries.take(0),
            ));
        }
        for entry in it: allowed
            invariant
                it.seq() == entries,
                map@.map_values(|roles: Vec<String>| role_models(roles@)) == roles_by_tool(
                    entries.take(it.index() as int),
                ),
        {
            let ghost n = it.index() as int;
            let ghost before = map@.map_values(|roles: Vec<String>| role_models(roles@));
            let (tool, roles) = entry;
            map.insert(tool, roles);
            proof {
                assert(entries.take(n + 1).drop_last() =~= entries.take(n));
                assert(entries.take(n + 1).last() == (tool, roles));
                assert(map@.map_values(|roles: Vec<String>| role_models(roles@)) =~= before.insert(
                    tool@,
                    role_models(roles@),
                ));
            }
        }
        proof {
            assert(entries.take(entries.len() as int) =~= entries);
        }
        AllowlistBoundary { allowed: map }
    }
}

/// Whether `role` is one of `roles`.
fn lists_role(roles: &Vec<String>, role: &str) -> (listed: bool)
    ensures
        listed == role_models(roles@).contains(role@),
{
    let mut i: usize = 0;
    while i < roles.len()
        invariant
            i <= roles@.len(),
            forall|j: int| 0 <= j < i ==> role_models(roles@)[j] != role@,
        decreases roles@.len() - i,
    {
        if same_text(roles[i].as_str(), role) {
            assert(role_models(roles@)[i as int] == role@);
            return true;
        }
        i += 1;
    }
    false
}

impl ExecutionBoundary for AllowlistBoundary {
    open spec fn ruling(
        &self,
        tool: ContractModel,
        role: Seq<char>,
        arguments: JsonModel,
    ) -> Result<(), Seq<char>> {
        allowlist_ruling(self@, tool.name, role)
    }

    fn can_execute(&self, tool: &ToolContract, role: &str, arguments: &Json) -> (ruling: Result<
        (),
        String,
    >) {
        match self.allowed.get(tool.name.as_str()) {
            Some(roles) => if lists_role(roles, role) {
                return Ok(());
            },
            None => {},
        }
        let mut reason: String = "role `".to_owned();
        reason.append(role);
        reason.append("` is not allowed to execute `");
        reason.append(tool.name.as_str());
        reason.append("`");
        Err(reason)
    }
}

/// A character with an ASCII capital turned into the small letter.
pub open spec fn lower_char(c: char) -> char {
    if 'A' <= c <= 'Z' {
        (c as int + 32) as char
    } else {
        c
    }
}

/// A text with ASCII capitals turned into small letters.
pub open spec fn lowered(text: Seq<char>) -> Seq<char> {
    text.map_values(|c: char| lower_char(c))
}

/// Whether a field of this name carries reasoning, whatever the case of its ASCII letters.
pub open spec fn names_reasoning(key: Seq<char>) -> bool {
    let name = lowered(key);
    ||| name == "thinking"@
    ||| name == "reasoning"@
    ||| name == "chain_of_thought"@
    ||| name == "cot"@
    ||| name == "interleaved_thinking"@
}

/// A text with ASCII capitals turned into small letters.
fn lowercase(text: &str) -> (low: String)
    ensures
        low@ == lowered(text@),
{
    let chars: Vec<char> = chars_of(text);
    let mut low: String = String::new();
    let mut i: usize = 0;
    proof {
        assert(lowered(chars@.take(0)) =~= low@);
    }
    while i < chars.len()
        invariant
            i <= chars@.len(),
            low@ == lowered(chars@.take(i as int)),
        decreases chars@.len() - i,
    {
        let c: char = chars[i];
        let small: char = if 'A' <= c && c <= 'Z' {
            ((c as u8) + 32) as char
        } else {
            c
        };
        low.push(small);
        proof {
            assert(lowered(chars@.take(i + 1)) =~= lowered(chars@.take(i as int)).push(
                lower_char(c),
            ));
        }
        i += 1;
    }
    proof {
        assert(chars@.take(i as int) =~= chars@);
    }
    low
}

/// Whether a field of this name carries reasoning.
fn is_reasoning_key(key: &str) -> (yes: bool)
    ensures
        yes == names_reasoning(key@),
{
    let name: String = lowercase(key);
    same_text(name.as_str(), "thinking") || same_text(name.as_str(), "reasoning") || same_text(
        name.as_str(),
        "chain_of_thought",
    ) || same_text(name.as_str(), "cot") || same_text(name.as_str(), "interleaved_thinking")
}

/// The names of all fields of a value, at any depth, in the order in which it is read: a field
/// before what it holds, and what it holds before the next field.
pub open spec fn field_names(value: JsonModel) -> Seq<Seq<char>>
    decreases value,
{
    match value {
        JsonModel::Object(entries) => names_in_entries(entries),
        JsonModel::Array(items) => names_in_items(items),
        _ => Seq::empty(),
    }
}

/// The names of all fields of an object, at any depth.
pub open spec fn names_in_entries(entries: Seq<(Seq<char>, JsonModel)>) -> Seq<Seq<char>>
    decreases entries,
{
    if entries.len() == 0 {
        Seq::empty()
    } else {
        seq![entries[0].0] + (field_names(entries[0].1) + names_in_entries(entries.drop_first()))
    }
}

/// The names of all fields of the items of an array, at any depth.
pub open spec fn names_in_items(items: Seq<JsonModel>) -> Seq<Seq<char>>
    decreases items,
{
    if items.len() == 0 {
        Seq::empty()
    } else {
        field_names(items[0]) + names_in_items(items.drop_first())
    }
}

/// The first of the given names that names reasoning.
pub open spec fn first_reasoning(names: Seq<Seq<char>>) -> Option<Seq<char>>
    decreases names.len(),
{
    if names.len() == 0 {
        None
    } else if names_reasoning(names[0]) {
        Some(names[0])
    } else {
        first_reasoning(names.drop_first())
    }
}

/// The first name that names reasoning stands in the first part, or else in the second.
proof fn first_reasoning_of_both(first: Seq<Seq<char>>, second: Seq<Seq<char>>)
    ensures
        first_reasoning(first + second) == match first_reasoning(first) {
            Some(key) => Some(key),
            None => first_reasoning(second),
        },
    decreases first.len(),
{
    if first.len() == 0 {
        assert(first + second =~= second);
    } else {
        assert((first + second).drop_first() =~= first.drop_first() + second);
        first_reasoning_of_both(first.drop_first(), second);
    }
}

/// What is said of fields with the given names.
pub open spec fn names_ruling(names: Seq<Seq<char>>) -> Result<(), Seq<char>> {
    match first_reasoning(names) {
        Some(key) => Err("non-executable reasoning field `"@ + key + "` present"@),
        None => Ok(()),
    }
}

/// What is said of a value with respect to fields that carry reasoning, at any depth.
pub open spec fn reasoning_ruling(value: JsonModel) -> Result<(), Seq<char>> {
    names_ruling(field_names(value))
}

/// Whether the schema of a call knows a parameter of this name.
pub open spec fn is_known_parameter(key: Seq<char>) -> bool {
    key == "name"@ || key == "arguments"@ || key == "agentRole"@ || key == "traceId"@
}

/// The names of the parameters of a call, each followed by the names of all fields that it holds
/// if the schema does not know it.
pub open spec fn names_in_parameters(entries: Seq<(Seq<char>, JsonModel)>) -> Seq<Seq<char>>
    decreases entries.len(),
{
    if entries.len() == 0 {
        Seq::empty()
    } else {
        let held = if is_known_parameter(entries[0].0) {
            Seq::empty()
        } else {
            field_names(entries[0].1)
        };
        seq![entries[0].0] + (held + names_in_parameters(entries.drop_first()))
    }
}

/// What is said of the parameters of a call with respect to fields that carry reasoning. What
/// the known parameters hold is judged elsewhere.
pub open spec fn parameters_ruling(params: JsonModel) -> Result<(), Seq<char>> {
    match params {
        JsonModel::Object(entries) => names_ruling(names_in_parameters(entries)),
        _ => Ok(()),
    }
}

/// What is said of a field that carries reasoning.
fn reasoning_reason(key: &str) -> (reason: String)
    ensures
        reason@ == "non-executable reasoning field `"@ + key@ + "` present"@,
{
    let mut reason: String = "non-executable reasoning field `".to_owned();
    reason.append(key);
    reason.append("` present");
    reason
}

/// Refuses a value that holds a field that carries reasoning, at any depth.
pub fn reject_reasoning_keys(value: &Json) -> (checked: Result<(), String>)
    ensures
        ruling_model(checked) == reasoning_ruling(value@),
    decreases value,
{
    match value {
        Json::Object(entries) => {
            let ghost model = value@->Object_0;
            let mut i: usize = 0;
            proof {
                entry_models_are_pointwise(entries@);
                assert(model.skip(0) =~= model);
            }
            while i < entries.len()
                invariant
                    i <= entries@.len(),
                    *value == Json::Object(*entries),
                    value@ == JsonModel::Object(model),
                    model.len() == entries@.len(),
                    forall|j: int|
                        0 <= j < entries@.len() ==> #[trigger] model[j] == (
                            entries@[j].0@,
                            entries@[j].1@,
                        ),
                    first_reasoning(field_names(value@)) == first_reasoning(
                        names_in_entries(model.skip(i as int)),
                    ),
                decreases entries@.len() - i,
            {
                proof {
                    assert(model.skip(i as int)[0] == model[i as int]);
                    assert(model.skip(i as int).drop_first() =~= model.skip(i + 1));
                    let rest = field_names(model[i as int].1) + names_in_entries(
                        model.skip(i + 1),
                    );
                    first_reasoning_of_both(
                        field_names(model[i as int].1),
                        names_in_entries(model.skip(i + 1)),
                    );
                    assert((seq![model[i as int].0] + rest).drop_first() =~= rest);
                    assert(decreases_to!(value => value->Object_0));
                    assert(decreases_to!(value->Object_0 => entries@));
                    assert(decreases_to!(entries@ => entries@[i as int]));
                    assert(decreases_to!(entries@[i as int] => entries@[i as int].1));
                }
                if is_reasoning_key(entries[i].0.as_str()) {
                    return Err(reasoning_reason(entries[i].0.as_str()));
                }
                match reject_reasoning_keys(&entries[i].1) {
                    Ok(_) => {},
                    Err(reason) => {
                        return Err(reason);
                    },
                }
                i += 1;
            }
            Ok(())
        },
        Json::Array(items) => {
            let ghost model = value@->Array_0;
            let mut i: usize = 0;
            proof {
                item_models_are_pointwise(items@);
                assert(model.skip(0) =~= model);
            }
            while i < items.len()
                invariant
                    i <= items@.len(),
                    *value == Json::Array(*items),
                    value@ == JsonModel::Array(model),
                    model.len() == items@.len(),
                    forall|j: int|
                        0 <= j < items@.len() ==> #[trigger] model[j] == items@[j]@,
                    first_reasoning(field_names(value@)) == first_reasoning(
                        names_in_items(model.skip(i as int)),
                    ),
                decreases items@.len() - i,
            {
                proof {
                    assert(model.skip(i as int)[0] == model[i as int]);
                    assert(model.skip(i as int).drop_first() =~= model.skip(i + 1));
                    first_reasoning_of_both(
                        field_names(model[i as int]),
                        names_in_items(model.skip(i + 1)),
                    );
                    assert(decreases_to!(value => value->Array_0));
                    assert(decreases_to!(value->Array_0 => items@));
                    assert(decreases_to!(items@ => items@[i as int]));
                }
                match reject_reasoning_keys(&items[i]) {
                    Ok(_) => {},
                    Err(reason) => {
                        return Err(reason);
                    },
                }
                i += 1;
            }
            Ok(())
        },
        _ => Ok(()),
    }
}

/// Whether the schema of a call knows a parameter of this name.
fn is_schema_key(key: &str) -> (known: bool)
    ensures
        known == is_known_parameter(key@),
{
    same_text(key, "name") || same_text(key, "arguments") || same_text(key, "agentRole")
        || same_text(key, "traceId")
}

/// Refuses the parameters of a call if one of them carries reasoning: by its name, or, where the
/// schema does not know it, by a field that it holds at any depth.
pub fn reject_reasoning_parameters(params: &Json) -> (checked: Result<(), String>)
    ensures
        ruling_model(checked) == parameters_ruling(params@),
{
    match params {
        Json::Object(entries) => {
            let ghost model = params@->Object_0;
            let mut i: usize = 0;
            proof {
                entry_models_are_pointwise(entries@);
                assert(model.skip(0) =~= model);
            }
            while i < entries.len()
                invariant
                    i <= entries@.len(),
                    params@ == JsonModel::Object(model),
                    model.len() == entries@.len(),
                    forall|j: int|
                        0 <= j < entries@.len() ==> #[trigger] model[j] == (
                            entries@[j].0@,
                            entries@[j].1@,
                        ),
                    first_reasoning(names_in_parameters(model)) == first_reasoning(
                        names_in_parameters(model.skip(i as int)),
                    ),
                decreases entries@.len() - i,
            {
                let known: bool = is_schema_key(entries[i].0.as_str());
                proof {
                    let (key, held) = model[i as int];
                    let names = if known {
                        Seq::empty()
                    } else {
                        field_names(held)
                    };
                    let rest = names_in_parameters(model.skip(i + 1));
                    assert(model.skip(i as int)[0] == (key, held));
                    assert(model.skip(i as int).drop_first() =~= model.skip(i + 1));
                    first_reasoning_of_both(names, rest);
                    assert((seq![key] + (names + rest)).drop_first() =~= names + rest);
                }
                if is_reasoning_key(entries[i].0.as_str()) {
                    return Err(reasoning_reason(entries[i].0.as_str()));
                }
                if !known {
                    match reject_reasoning_keys(&entries[i].1) {
                        Ok(_) => {},
                        Err(reason) => {
                            return Err(reason);
                        },
                    }
                }
                i += 1;
            }
            Ok(())
        },
        _ => Ok(()),
    }
}

/// A check that bounds the size of the arguments and refuses fields that carry reasoning.
#[derive(Debug)]
pub struct StrictCrystallizer {
    pub max_argument_bytes: usize,
}

/// What the strict check rules on the given arguments.
pub open spec fn strict_ruling(max_argument_bytes: usize, arguments: JsonModel) -> Result<
    (),
    Seq<char>,
> {
    if encode_utf8(arguments.text()).len() > max_argument_bytes {
        Err("argument entropy bound exceeded"@)
    } else {
        reasoning_ruling(arguments)
    }
}

impl DafnyCrystallizer for StrictCrystallizer {
    open spec fn may_rule(
        &self,
        invocation: InvocationModel,
        ruling: Result<(), Seq<char>>,
    ) -> bool {
        ruling == strict_ruling(self.max_argument_bytes, invocation.arguments)
    }

    fn crystallize(&self, invocation: &ToolInvocation) -> (ruling: Result<(), String>) {
        let text: String = invocation.arguments.encode();
        let bytes: &[u8] = text.as_str().as_bytes();
        if bytes.len() > self.max_argument_bytes {
            return Err("argument entropy bound exceeded".to_owned());
        }
        reject_reasoning_keys(&invocation.arguments)
    }
}

/// The name that is found is one of the given names and names reasoning; where none is found,
/// none of them names reasoning.
proof fn first_reasoning_is_found(names: Seq<Seq<char>>)
    ensures
        match first_reasoning(names) {
            Some(key) => names.contains(key) && names_reasoning(key),
            None => forall|i: int| 0 <= i < names.len() ==> !names_reasoning(#[trigger] names[i]),
        },
    decreases names.len(),
{
    if names.len() > 0 {
        let rest = names.drop_first();
        first_reasoning_is_found(rest);
        assert(forall|i: int| 0 < i < names.len() ==> #[trigger] names[i] == rest[i - 1]);
        if first_reasoning(rest) is Some {
            let i = choose|i: int| 0 <= i < rest.len() && rest[i] == first_reasoning(rest).unwrap();
            assert(names[i + 1] == rest[i]);
        }
    }
}

/// The strict check lets arguments pass exactly if they are small enough and none of their
/// fields, at any depth, carries reasoning.
pub proof fn strict_check_passes_exactly_plain_arguments(max: usize, arguments: JsonModel)
    ensures
        strict_ruling(max, arguments) is Ok <==> {
            &&& encode_utf8(arguments.text()).len() <= max
            &&& forall|i: int|
                0 <= i < field_names(arguments).len() ==> !names_reasoning(
                    #[trigger] field_names(arguments)[i],
                )
        },
{
    first_reasoning_is_found(field_names(arguments));
}

/// A message to be sent.
#[derive(Debug)]
pub enum Outbound {
    Seal(SealRequest),
    Generate(GenerateRequest),
}

/// An [`Outbound`] as a mathematical value.
pub ghost enum OutboundModel {
    Seal {
        trace_id: Seq<char>,
        tool: Seq<char>,
        state: TraceState,
        metadata: Map<String, String>,
    },
    Generate { contract: ContractModel, invocation: InvocationModel },
}

impl View for Outbound {
    type V = OutboundModel;

    open spec fn view(&self) -> OutboundModel {
        match *self {
            Outbound::Seal(request) => OutboundModel::Seal {
                trace_id: request.trace_id@,
                tool: request.tool@,
                state: request.state,
                metadata: request.metadata@,
            },
            Outbound::Generate(request) => OutboundModel::Generate {
                contract: request.contract@,
                invocation: request.invocation@,
            },
        }
    }
}

/// The messages as mathematical values.
pub open spec fn outbound_models(messages: Seq<Outbound>) -> Seq<OutboundModel> {
    messages.map_values(|m: Outbound| m@)
}

impl Outbound {
    /// The subject that the message goes to.
    pub fn subject(&self) -> (subject: &'static str)
        ensures
            subject@ == match self@ {
                OutboundModel::Seal { .. } => SEAL_SUBJECT@,
                OutboundModel::Generate { .. } => GENERATE_SUBJECT@,
            },
    {
        match self {
            Outbound::Seal(_) => SEAL_SUBJECT,
            Outbound::Generate(_) => GENERATE_SUBJECT,
        }
    }
}

/// The contracts by name, from a list in which a later entry replaces an earlier one.
pub open spec fn contracts_by_name(tools: Seq<ContractModel>) -> Map<Seq<char>, ContractModel>
    decreases tools.len(),
{
    if tools.len() == 0 {
        Map::empty()
    } else {
        contracts_by_name(tools.drop_last()).insert(tools.last().name, tools.last())
    }
}

/// What becomes of a call, by the contract of its tool and by what the check and the policy rule:
/// a call that is let through is first noted as attested and then sent on.
pub open spec fn admission(
    contract: Option<ContractModel>,
    invocation: InvocationModel,
    checked: Result<(), Seq<char>>,
    permitted: Result<(), Seq<char>>,
) -> Result<Seq<OutboundModel>, AdapterFault> {
    match (contract, checked, permitted) {
        (None, _, _) => Err(AdapterFault::UnknownTool(invocation.tool)),
        (Some(_), Err(reason), _) => Err(AdapterFault::ModelRefuted(reason)),
        (Some(_), Ok(_), Err(reason)) => Err(AdapterFault::Unauthorized(reason)),
        (Some(contract), Ok(_), Ok(_)) => Ok(
            seq![
                OutboundModel::Seal {
                    trace_id: invocation.trace_id,
                    tool: invocation.tool,
                    state: TraceState::Attested,
                    metadata: Map::empty(),
                },
                OutboundModel::Generate { contract, invocation },
            ],
        ),
    }
}

/// What a call leads to, as a mathematical value.
pub open spec fn admission_model(admitted: Result<Vec<Outbound>, AdapterError>) -> Result<
    Seq<OutboundModel>,
    AdapterFault,
> {
    match admitted {
        Ok(messages) => Ok(outbound_models(messages@)),
        Err(e) => Err(e@),
    }
}

/// What becomes of a call to a known tool, by what the check and the policy rule.
pub fn let_through(
    contract: ToolContract,
    invocation: ToolInvocation,
    checked: Result<(), String>,
    permitted: Result<(), String>,
) -> (admitted: Result<Vec<Outbound>, AdapterError>)
    ensures
        admission_model(admitted) == admission(
            Some(contract@),
            invocation@,
            ruling_model(checked),
            ruling_model(permitted),
        ),
{
    match checked {
        Ok(_) => {},
        Err(reason) => {
            return Err(AdapterError::ModelRefuted(reason));
        },
    }
    match permitted {
        Ok(_) => {},
        Err(reason) => {
            return Err(AdapterError::Unauthorized(reason));
        },
    }
    let seal = SealRequest {
        trace_id: invocation.trace_id.clone(),
        tool: invocation.tool.clone(),
        state: TraceState::Attested,
        metadata: BTreeMap::new(),
    };
    let messages: Vec<Outbound> = vec![
        Outbound::Seal(seal),
        Outbound::Generate(GenerateRequest { contract, invocation }),
    ];
    proof {
        assert(outbound_models(messages@) =~= admission(
            Some(contract@),
            invocation@,
            Ok(()),
            Ok(()),
        )->Ok_0);
    }
    Ok(messages)
}

/// The answer to a question, by what the check and the policy rule.
pub open spec fn attestation(
    checked: Result<(), Seq<char>>,
    permitted: Result<(), Seq<char>>,
) -> AttestationModel {
    match (checked, permitted) {
        (Err(reason), _) => AttestationModel { allowed: false, reason },
        (Ok(_), Err(reason)) => AttestationModel { allowed: false, reason },
        (Ok(_), Ok(_)) => AttestationModel { allowed: true, reason: "policy accepted"@ },
    }
}

/// The answer to a question, by what the check and the policy rule.
pub fn answer(checked: Result<(), String>, permitted: Result<(), String>) -> (answered: Attestation)
    ensures
        answered@ == attestation(ruling_model(checked), ruling_model(permitted)),
{
    match checked {
        Err(reason) => Attestation { allowed: false, reason },
        Ok(_) => match permitted {
            Err(reason) => Attestation { allowed: false, reason },
            Ok(_) => Attestation { allowed: true, reason: "policy accepted".to_owned() },
        },
    }
}

/// The adapter: the known tools, the policy and the check.
pub struct NatsNode<B, C> {
    boundary: Arc<B>,
    crystallizer: Arc<C>,
    contracts: Arc<StringHashMap<ToolContract>>,
}

/// The schema of a tool that does not give one: any object.
pub open spec fn default_schema() -> JsonModel {
    JsonModel::Object(seq![("type"@, JsonModel::Text("object"@))])
}

/// The contract that an entry of a tool list stands for; nothing if it has no name.
pub open spec fn contract_of(raw: JsonModel) -> Option<ContractModel> {
    match raw.find("name"@) {
        Some(JsonModel::Text(name)) => Some(
            ContractModel {
                name,
                description: match raw.find("description"@) {
                    Some(JsonModel::Text(text)) => Some(text),
                    _ => None,
                },
                input_schema: match raw.find("inputSchema"@) {
                    Some(schema) => schema,
                    None => default_schema(),
                },
            },
        ),
        _ => None,
    }
}

/// The contracts of a tool list; nothing if an entry has no name.
pub open spec fn contracts_of(tools: Seq<JsonModel>) -> Option<Seq<ContractModel>> {
    if forall|i: int| 0 <= i < tools.len() ==> contract_of(#[trigger] tools[i]) is Some {
        Some(tools.map_values(|raw: JsonModel| contract_of(raw).unwrap()))
    } else {
        None
    }
}

/// What the result of a `tools/list` request leads to.
pub open spec fn extraction(result: JsonModel) -> Result<Seq<ContractModel>, AdapterFault> {
    match result.find("tools"@) {
        Some(JsonModel::Array(tools)) => match contracts_of(tools) {
            Some(contracts) => Ok(contracts),
            None => Err(AdapterFault::InvalidEnvelope("tool.name is required"@)),
        },
        _ => Err(AdapterFault::InvalidEnvelope("missing result.tools[]"@)),
    }
}

/// Reads one entry of a tool list.
fn read_contract(raw: &Json) -> (contract: Option<ToolContract>)
    ensures
        match contract {
            Some(c) => contract_of(raw@) == Some(c@),
            None => contract_of(raw@) is None,
        },
{
    let name: String = match raw.get("name") {
        Some(Json::Text(name)) => name.clone(),
        _ => {
            return None;
        },
    };
    let input_schema: Json = match raw.get("inputSchema") {
        Some(schema) => schema.clone(),
        None => {
            let entries: Vec<(String, Json)> = vec![
                ("type".to_owned(), Json::Text("object".to_owned())),
            ];
            proof {
                entry_models_are_pointwise(entries@);
                assert(Json::Object(entries)@->Object_0 =~= default_schema()->Object_0);
            }
            Json::Object(entries)
        },
    };
    let description: Option<String> = match raw.get("description") {
        Some(Json::Text(text)) => Some(text.clone()),
        _ => None,
    };
    Some(ToolContract { name, description, input_schema })
}

/// What a request leads to: the call that it asks for, or why it is refused.
pub open spec fn invocation_of(
    jsonrpc: Seq<char>,
    method: Seq<char>,
    params: JsonModel,
) -> Result<InvocationModel, AdapterFault> {
    if jsonrpc != "2.0"@ {
        Err(AdapterFault::InvalidEnvelope("jsonrpc must be 2.0"@))
    } else if method != "tools/call"@ {
        Err(AdapterFault::UnsupportedMethod(method))
    } else if !(params is Object) {
        Err(AdapterFault::InvalidEnvelope("tools/call.params must be an object"@))
    } else if parameters_ruling(params) is Err {
        Err(AdapterFault::InvalidEnvelope(parameters_ruling(params)->Err_0))
    } else {
        match (params.find("name"@), params.find("agentRole"@), params.find("traceId"@)) {
            (
                Some(JsonModel::Text(tool)),
                Some(JsonModel::Text(agent_role)),
                Some(JsonModel::Text(trace_id)),
            ) => Ok(
                InvocationModel {
                    tool,
                    arguments: match params.find("arguments"@) {
                        Some(arguments) => arguments,
                        None => JsonModel::Object(Seq::empty()),
                    },
                    agent_role,
                    trace_id,
                },
            ),
            (Some(JsonModel::Text(_)), Some(JsonModel::Text(_)), _) => Err(
                AdapterFault::InvalidEnvelope("traceId is required"@),
            ),
            (Some(JsonModel::Text(_)), _, _) => Err(
                AdapterFault::InvalidEnvelope("agentRole is required"@),
            ),
            _ => Err(AdapterFault::InvalidEnvelope("tools/call.params.name is required"@)),
        }
    }
}

/// The call that a request asks for. Only `tools/call` is accepted, and no parameter that carries
/// reasoning, at any depth.
pub fn read_invocation(envelope: RpcEnvelope) -> (invocation: Result<ToolInvocation, AdapterError>)
    ensures
        match invocation {
            Ok(i) => invocation_of(envelope.jsonrpc@, envelope.method@, envelope.params@) == Ok::<
                _,
                AdapterFault,
            >(i@),
            Err(e) => invocation_of(envelope.jsonrpc@, envelope.method@, envelope.params@) == Err::<
                InvocationModel,
                _,
            >(e@),
        },
{
    if !same_text(envelope.jsonrpc.as_str(), "2.0") {
        return Err(AdapterError::InvalidEnvelope("jsonrpc must be 2.0".to_owned()));
    }
    if !same_text(envelope.method.as_str(), "tools/call") {
        return Err(AdapterError::UnsupportedMethod(envelope.method));
    }
    let params: Json = envelope.params;
    match &params {
        Json::Object(_) => {},
        _ => {
            return Err(
                AdapterError::InvalidEnvelope("tools/call.params must be an object".to_owned()),
            );
        },
    }
    match reject_reasoning_parameters(&params) {
        Ok(_) => {},
        Err(reason) => {
            return Err(AdapterError::InvalidEnvelope(reason));
        },
    }
    let tool: String = match params.get("name") {
        Some(Json::Text(text)) => text.clone(),
        _ => {
            return Err(
                AdapterError::InvalidEnvelope("tools/call.params.name is required".to_owned()),
            );
        },
    };
    let arguments: Json = match params.get("arguments") {
        Some(value) => value.clone(),
        None => {
            let none: Vec<(String, Json)> = Vec::new();
            Json::Object(none)
        },
    };
    let agent_role: String = match params.get("agentRole") {
        Some(Json::Text(text)) => text.clone(),
        _ => {
            return Err(AdapterError::InvalidEnvelope("agentRole is required".to_owned()));
        },
    };
    let trace_id: String = match params.get("traceId") {
        Some(Json::Text(text)) => text.clone(),
        _ => {
            return Err(AdapterError::InvalidEnvelope("traceId is required".to_owned()));
        },
    };
    Ok(ToolInvocation { tool, arguments, agent_role, trace_id })
}

impl<B, C> NatsNode<B, C> {
    /// The known tools by name.
    pub closed spec fn contracts(&self) -> Map<Seq<char>, ContractModel> {
        self.contracts@.map_values(|t: ToolContract| t@)
    }

    /// The contract of the given tool, if it is known.
    pub open spec fn contract(&self, tool: Seq<char>) -> Option<ContractModel> {
        if self.contracts().contains_key(tool) {
            Some(self.contracts()[tool])
        } else {
            None
        }
    }

    /// The policy.
    pub closed spec fn policy(&self) -> B {
        *self.boundary
    }

    /// The check.
    pub closed spec fn check(&self) -> C {
        *self.crystallizer
    }
}

impl<B, C> NatsNode<B, C> where B: ExecutionBoundary + 'static, C: DafnyCrystallizer + 'static {
    /// Whether the check and the policy may rule so on the given call. The policy is asked only
    /// about calls that the check lets pass.
    pub open spec fn may_rule(
        &self,
        contract: ContractModel,
        invocation: InvocationModel,
        checked: Result<(), Seq<char>>,
        permitted: Result<(), Seq<char>>,
    ) -> bool {
        &&& self.check().may_rule(invocation, checked)
        &&& checked is Ok ==> permitted == self.policy().ruling(
            contract,
            invocation.agent_role,
            invocation.arguments,
        )
    }

    /// An adapter for the given tools. Of two tools with one name the later one counts.
    pub fn new(contracts: ContractSet, boundary: B, crystallizer: C) -> (node: NatsNode<B, C>)
        ensures
            node.contracts() == contracts_by_name(contract_models(contracts.tools@)),
            node.policy() == boundary,
            node.check() == crystallizer,
    {
        let mut map: StringHashMap<ToolContract> = StringHashMap::new();
        let ghost tools = contracts.tools@;
        let ghost models = contract_models(tools);
        proof {
            assert(models.take(0) =~= Seq::<ContractModel>::empty());
            assert(map@.map_values(|t: ToolContract| t@) =~= contracts_by_name(models.take(0)));
        }
        for tool in it: contracts.tools
            invariant
                it.seq() == tools,
                models == contract_models(tools),
                map@.map_values(|t: ToolContract| t@) == contracts_by_name(
                    models.take(it.index() as int),
                ),
        {
            let ghost n = it.index() as int;
            let ghost before = map@.map_values(|t: ToolContract| t@);
            let name: String = tool.name.clone();
            map.insert(name, tool);
            proof {
                assert(models.take(n + 1).drop_last() =~= models.take(n));
                assert(models.take(n + 1).last() == tool@);
                assert(map@.map_values(|t: ToolContract| t@) =~= before.insert(
                    tool@.name,
                    tool@,
                ));
            }
        }
        proof {
            assert(models.take(models.len() as int) =~= models);
        }
        NatsNode {
            boundary: Arc::new(boundary),
            crystallizer: Arc::new(crystallizer),
            contracts: Arc::new(map),
        }
    }

    /// Reads the contracts from the result of a `tools/list` request. No tool is called.
    pub fn extract_contracts(result: &Json) -> (extracted: Result<ContractSet, AdapterError>)
        ensures
            match extracted {
                Ok(set) => extraction(result@) == Ok::<_, AdapterFault>(
                    contract_models(set.tools@),
                ),
                Err(e) => extraction(result@) == Err::<Seq<ContractModel>, _>(e@),
            },
    {
        let items: &Vec<Json> = match result.get("tools") {
            Some(Json::Array(items)) => items,
            _ => {
                return Err(AdapterError::InvalidEnvelope("missing result.tools[]".to_owned()));
            },
        };
        let ghost models = item_models(items@);
        proof {
            item_models_are_pointwise(items@);
        }
        let mut tools: Vec<ToolContract> = Vec::new();
        let mut i: usize = 0;
        while i < items.len()
            invariant
                i <= items@.len(),
                models.len() == items@.len(),
                forall|j: int| 0 <= j < items@.len() ==> #[trigger] models[j] == items@[j]@,
                result@.find("tools"@) == Some(JsonModel::Array(models)),
                tools@.len() == i,
                forall|j: int|
                    0 <= j < i ==> contract_of(#[trigger] models[j]) == Some(tools@[j]@),
            decreases items@.len() - i,
        {
            match read_contract(&items[i]) {
                Some(contract) => {
                    tools.push(contract);
                },
                None => {
                    assert(contract_of(models[i as int]) is None);
                    return Err(AdapterError::InvalidEnvelope("tool.name is required".to_owned()));
                },
            }
            i += 1;
        }
        proof {
            assert(contract_models(tools@) =~= models.map_values(
                |raw: JsonModel| contract_of(raw).unwrap(),
            ));
        }
        Ok(ContractSet { tools })
    }

    /// Decides on a call. The messages of a call that is let through are to be sent in order,
    /// the second only if the first was answered; the answer to the second is the result of the
    /// call. Nothing is sent for a call that is refused.
    pub fn process(&self, invocation: ToolInvocation) -> (admitted: Result<
        Vec<Outbound>,
        AdapterError,
    >)
        ensures
            match self.contract(invocation@.tool) {
                None => admitted matches Err(e) && e@ == AdapterFault::UnknownTool(
                    invocation@.tool,
                ),
                Some(contract) => exists|
                    checked: Result<(), Seq<char>>,
                    permitted: Result<(), Seq<char>>,
                | #[trigger]
                    self.may_rule(contract, invocation@, checked, permitted) && admission_model(
                        admitted,
                    ) == admission(Some(contract), invocation@, checked, permitted),
            },
    {
        let contract: ToolContract = match self.contracts.get(invocation.tool.as_str()) {
            Some(contract) => contract.clone(),
            None => {
                return Err(AdapterError::UnknownTool(invocation.tool));
            },
        };
        let checked: Result<(), String> = self.crystallizer.crystallize(&invocation);
        let permitted: Result<(), String> = match &checked {
            Ok(_) => self.boundary.can_execute(
                &contract,
                invocation.agent_role.as_str(),
                &invocation.arguments,
            ),
            Err(_) => Ok(()),
        };
        proof {
            assert(self.may_rule(
                contract@,
                invocation@,
                ruling_model(checked),
                ruling_model(permitted),
            ));
        }
        let_through(contract, invocation, checked, permitted)
    }

    /// Answers whether a call would be let through. The question itself is then to be sent on.
    pub fn attest(&self, request: &AttestRequest) -> (answered: Result<Attestation, AdapterError>)
        ensures
            match self.contract(request@.tool) {
                None => answered matches Err(e) && e@ == AdapterFault::UnknownTool(request@.tool),
                Some(contract) => exists|
                    checked: Result<(), Seq<char>>,
                    permitted: Result<(), Seq<char>>,
                | #[trigger]
                    self.may_rule(contract, request@, checked, permitted) && (answered matches Ok(
                        given,
                    ) && given@ == attestation(checked, permitted)),
            },
    {
        let contract: &ToolContract = match self.contracts.get(request.tool.as_str()) {
            Some(contract) => contract,
            None => {
                return Err(AdapterError::UnknownTool(request.tool.clone()));
            },
        };
        let invocation = ToolInvocation {
            tool: request.tool.clone(),
            arguments: request.arguments.clone(),
            agent_role: request.agent_role.clone(),
            trace_id: request.trace_id.clone(),
        };
        let checked: Result<(), String> = self.crystallizer.crystallize(&invocation);
        let permitted: Result<(), String> = match &checked {
            Ok(_) => self.boundary.can_execute(
                contract,
                request.agent_role.as_str(),
                &request.arguments,
            ),
            Err(_) => Ok(()),
        };
        proof {
            assert(self.may_rule(
                contract@,
                request@,
                ruling_model(checked),
                ruling_model(permitted),
            ));
        }
        Ok(answer(checked, permitted))
    }

    /// Decides on a request. Only `tools/call` is accepted.
    pub fn handle_rpc(&self, envelope: RpcEnvelope) -> (admitted: Result<
        Vec<Outbound>,
        AdapterError,
    >)
        ensures
            match invocation_of(envelope.jsonrpc@, envelope.method@, envelope.params@) {
                Err(fault) => admitted matches Err(e) && e@ == fault,
                Ok(invocation) => match self.contract(invocation.tool) {
                    None => admitted matches Err(e) && e@ == AdapterFault::UnknownTool(
                        invocation.tool,
                    ),
                    Some(contract) => exists|
                        checked: Result<(), Seq<char>>,
                        permitted: Result<(), Seq<char>>,
                    | #[trigger]
                        self.may_rule(contract, invocation, checked, permitted) && admission_model(
                            admitted,
                        ) == admission(Some(contract), invocation, checked, permitted),
                },
            },
    {
        match read_invocation(envelope) {
            Ok(invocation) => self.process(invocation),
            Err(e) => Err(e),
        }
    }
}

/// A call leads to messages exactly if its tool is known and both the check and the policy agree:
/// first the note that it was attested, then the call itself with its contract.
pub proof fn messages_need_every_consent(
    contract: Option<ContractModel>,
    invocation: InvocationModel,
    checked: Result<(), Seq<char>>,
    permitted: Result<(), Seq<char>>,
)
    ensures
        admission(contract, invocation, checked, permitted) is Ok <==> contract is Some
            && checked is Ok && permitted is Ok,
        admission(contract, invocation, checked, permitted) matches Ok(messages) ==> {
            &&& messages.len() == 2
            &&& messages[0] matches OutboundModel::Seal { trace_id, tool, state, .. }
            &&& trace_id == invocation.trace_id
            &&& tool == invocation.tool
            &&& state == TraceState::Attested
            &&& messages[1] == (OutboundModel::Generate {
                contract: contract.unwrap(),
                invocation,
            })
        },
{
}

/// Whether a parameter of a call carries no reasoning outside of what the schema knows.
pub open spec fn is_plain_parameter(key: Seq<char>, held: JsonModel) -> bool {
    &&& !names_reasoning(key)
    &&& is_known_parameter(key) || forall|i: int|
        0 <= i < field_names(held).len() ==> !names_reasoning(#[trigger] field_names(held)[i])
}

/// The parameters pass exactly if each of them is plain.
pub proof fn parameters_pass_exactly_if_plain(entries: Seq<(Seq<char>, JsonModel)>)
    ensures
        first_reasoning(names_in_parameters(entries)) is None <==> forall|j: int|
            0 <= j < entries.len() ==> is_plain_parameter((#[trigger] entries[j]).0, entries[j].1),
    decreases entries.len(),
{
    if entries.len() > 0 {
        let (key, held) = entries[0];
        let tail = entries.drop_first();
        let names = if is_known_parameter(key) {
            Seq::empty()
        } else {
            field_names(held)
        };
        let rest = names_in_parameters(tail);
        parameters_pass_exactly_if_plain(tail);
        first_reasoning_is_found(names);
        first_reasoning_of_both(names, rest);
        assert((seq![key] + (names + rest)).drop_first() =~= names + rest);
        assert(forall|j: int| 0 < j < entries.len() ==> #[trigger] entries[j] == tail[j - 1]);
        assert(forall|j: int| 0 <= j < tail.len() ==> #[trigger] tail[j] == entries[j + 1]);
        if names.len() > 0 && first_reasoning(names) is Some {
            let found = first_reasoning(names).unwrap();
            let i = choose|i: int| 0 <= i < names.len() && names[i] == found;
            assert(names_reasoning(field_names(held)[i]));
            assert(!is_plain_parameter(entries[0].0, entries[0].1));
        }
    }
}

/// Only complete `tools/call` requests in version 2.0 ask for a call, and none that has a parameter
/// that carries reasoning, by its name or, where the schema does not know it, at any depth.
pub proof fn only_tool_calls_are_accepted(
    jsonrpc: Seq<char>,
    method: Seq<char>,
    params: JsonModel,
)
    ensures
        invocation_of(jsonrpc, method, params) matches Ok(invocation) ==> {
            &&& jsonrpc == "2.0"@
            &&& method == "tools/call"@
            &&& params.find("name"@) == Some(JsonModel::Text(invocation.tool))
            &&& params.find("agentRole"@) == Some(JsonModel::Text(invocation.agent_role))
            &&& params.find("traceId"@) == Some(JsonModel::Text(invocation.trace_id))
            &&& params matches JsonModel::Object(entries)
            &&& forall|j: int|
                0 <= j < entries.len() ==> is_plain_parameter(
                    (#[trigger] entries[j]).0,
                    entries[j].1,
                )
        },
{
    if let JsonModel::Object(entries) = params {
        parameters_pass_exactly_if_plain(entries);
    }
}

/// A request with a parameter that carries reasoning asks for no call, whether the parameter is
/// named so or, unknown to the schema, holds such a field at any depth.
pub proof fn reasoning_parameters_are_refused(
    jsonrpc: Seq<char>,
    method: Seq<char>,
    entries: Seq<(Seq<char>, JsonModel)>,
    j: int,
)
    requires
        0 <= j < entries.len(),
        !is_plain_parameter(entries[j].0, entries[j].1),
    ensures
        invocation_of(jsonrpc, method, JsonModel::Object(entries)) is Err,
{
    parameters_pass_exactly_if_plain(entries);
}

/// Whether the check of a node rules the same each time it is asked about a call.
pub open spec fn checks_alike<B, C: DafnyCrystallizer>(
    node: NatsNode<B, C>,
    invocation: InvocationModel,
) -> bool {
    forall|first: Result<(), Seq<char>>, second: Result<(), Seq<char>>| #[trigger]
        node.check().may_rule(invocation, first) && #[trigger] node.check().may_rule(
            invocation,
            second,
        ) ==> first == second
}

/// A question and a call, each ruled upon by itself, end alike as long as the check rules the same
/// each time: the answer is yes exactly if the call is let through, and a no gives the reason
/// with which the call is refused.
pub proof fn answers_agree_with_decisions<B, C>(
    node: NatsNode<B, C>,
    contract: ContractModel,
    invocation: InvocationModel,
    asked: (Result<(), Seq<char>>, Result<(), Seq<char>>),
    called: (Result<(), Seq<char>>, Result<(), Seq<char>>),
) where B: ExecutionBoundary + 'static, C: DafnyCrystallizer + 'static
    requires
        checks_alike(node, invocation),
        node.may_rule(contract, invocation, asked.0, asked.1),
        node.may_rule(contract, invocation, called.0, called.1),
    ensures
        attestation(asked.0, asked.1).allowed <==> admission(
            Some(contract),
            invocation,
            called.0,
            called.1,
        ) is Ok,
        admission(Some(contract), invocation, called.0, called.1) matches Err(fault) ==> fault
            == AdapterFault::ModelRefuted(attestation(asked.0, asked.1).reason) || fault
            == AdapterFault::Unauthorized(attestation(asked.0, asked.1).reason),
{
    assert(node.check().may_rule(invocation, asked.0) && node.check().may_rule(
        invocation,
        called.0,
    ));
}

/// With an allowlist and the strict check a call to a known tool is let through exactly if its
/// arguments are small enough, none of their fields carries reasoning, and its role is listed.
pub proof fn strict_allowlist_decides(
    node: NatsNode<AllowlistBoundary, StrictCrystallizer>,
    contract: ContractModel,
    invocation: InvocationModel,
    checked: Result<(), Seq<char>>,
    permitted: Result<(), Seq<char>>,
)
    requires
        node.may_rule(contract, invocation, checked, permitted),
    ensures
        admission(Some(contract), invocation, checked, permitted) is Ok <==> {
            &&& encode_utf8(invocation.arguments.text()).len() <= node.check().max_argument_bytes
            &&& forall|i: int|
                0 <= i < field_names(invocation.arguments).len() ==> !names_reasoning(
                    #[trigger] field_names(invocation.arguments)[i],
                )
            &&& node.policy()@.contains_key(contract.name)
            &&& node.policy()@[contract.name].contains(invocation.agent_role)
        },
{
    strict_check_passes_exactly_plain_arguments(
        node.check().max_argument_bytes,
        invocation.arguments,
    );
}

/// The contracts are kept under their own names, and of two with one name the last one counts.
pub proof fn last_contract_counts(tools: Seq<ContractModel>, i: int)
    requires
        0 <= i < tools.len(),
        forall|j: int| i < j < tools.len() ==> (#[trigger] tools[j]).name != tools[i].name,
    ensures
        contracts_by_name(tools).contains_key(tools[i].name),
        contracts_by_name(tools)[tools[i].name] == tools[i],
    decreases tools.len(),
{
    if i < tools.len() - 1 {
        let front = tools.drop_last();
        assert(tools[tools.len() - 1].name != tools[i].name);
        assert(front[i] == tools[i]);
        last_contract_counts(front, i);
    }
}

} // verus!
