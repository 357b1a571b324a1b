//! What the results of calls have to do with each other.

use std::sync::Arc;
use vstd::prelude::*;

use crate::adapter_laws::agrees_with_entry;
use crate::adapter_laws::contracts_say_what_the_entries_say;
use crate::config::GlmConfig;
use crate::dual_mirror::check_operator;
use crate::dual_mirror::convergence_gate;
use crate::dual_mirror::divergence;
use crate::dual_mirror::result_model;
use crate::dual_mirror::Evidence;
use crate::dual_mirror::ExecTrace;
use crate::dual_mirror::MirrorAction;
use crate::dual_mirror::MirrorDispatch;
use crate::dual_mirror::MirrorError;
use crate::dual_mirror::MirrorFault;
use crate::dual_mirror::Progress;
use crate::dual_mirror::RejectModule;
use crate::dual_mirror::Status;
use crate::dual_mirror::ENTROPY_BOUND;
use crate::error::EvokeError;
use crate::evoke::embedding_slot;
use crate::evoke::plan_layer;
use crate::evoke::sample_token;
use crate::evoke::step_models;
use crate::evoke::Buffer;
use crate::evoke::ForwardStep;
use crate::forward_laws::after_steps;
use crate::forward_laws::layer_adds_attention_and_network;
use crate::forward_laws::Kernels;
use crate::graph::GlmBlockView;
use crate::json::entry_models;
use crate::json::entry_models_are_pointwise;
use crate::json::Json;
use crate::json::JsonModel;
use crate::json_laws::reasoning_is_found_at_any_depth;
use crate::keys::canonical_key;
use crate::mapping_laws::whole_tensors_are_kept;
use crate::mirror_laws::committed_records_are_accepted;
use crate::nats_node::contract_models;
use crate::nats_node::names_reasoning;
use crate::nats_node::reject_reasoning_keys;
use crate::nats_node::AdapterError;
use crate::nats_node::ContractSet;
use crate::nats_node::DafnyCrystallizer;
use crate::nats_node::ExecutionBoundary;
use crate::nats_node::NatsNode;
use crate::nats_node::Outbound;
use crate::number_laws::is_number;
use crate::number_laws::value_of;
use crate::shard::RawTensor;
use crate::transform::map_tensor;
use crate::transform::mapped_models;
use crate::transform::MappedTensor;
use crate::worm::MemoryState;
use crate::worm::SealedRegion;
use crate::worm::TensorView;
use crate::worm::WormMemoryManager;

verus! {

/// The inputs of a request go round the hidden vector: each of the first ones has an entry of its
/// own, in order, and the one that follows a whole round comes where that round began.
pub proof fn inputs_go_round_the_hidden_vector(
    position: usize,
    width: usize,
    slot: usize,
    next: usize,
)
    requires
        width > 0,
        position + width <= usize::MAX,
        call_ensures(embedding_slot, (position, width), slot),
        call_ensures(embedding_slot, ((position + width) as usize, width), next),
    ensures
        slot < width,
        position < width ==> slot == position,
        next == slot,
{
    vstd::arithmetic::div_mod::lemma_mod_add_multiples_vanish(position as int, width as int);
    if position < width {
        vstd::arithmetic::div_mod::lemma_small_mod(position as nat, width as nat);
    }
}

/// A token is one of the vocabulary, and an activation that is smaller than a vocabulary of at most
/// 32 bits is the token itself.
pub proof fn tokens_are_of_the_vocabulary(scaled: u32, vocab_size: usize, token: u32)
    requires
        vocab_size > 0,
        call_ensures(sample_token, (scaled, vocab_size), token),
    ensures
        token < vocab_size,
        scaled < vocab_size <= u32::MAX ==> token == scaled,
{
    if scaled < vocab_size <= u32::MAX {
        vstd::arithmetic::div_mod::lemma_small_mod(scaled as nat, vocab_size as nat);
    }
}

/// Sealing hands out what was staged, byte for byte, or fails. It succeeds for a writable arena
/// that was locked, and fails for a sealed one and for one whose bytes could not be locked.
pub proof fn sealing_hands_out_what_was_staged(
    arena: WormMemoryManager,
    status: i32,
    staged: &[u8],
    sealed: Result<Arc<SealedRegion>, EvokeError>,
    all: &[u8],
)
    requires
        arena.wf(),
        call_ensures(WormMemoryManager::staged, (&arena,), staged),
        call_ensures(WormMemoryManager::seal, (arena, status), sealed),
        sealed matches Ok(region) ==> call_ensures(SealedRegion::bytes, (&*region,), all),
    ensures
        sealed is Ok ==> all@ == staged@,
        arena@.state == MemoryState::Staging && status == 0 ==> sealed is Ok,
        arena@.state == MemoryState::Sealed ==> sealed is Err,
        status != 0 && staged@.len() > 0 ==> sealed is Err,
{
}

/// A tensor of a sealed region reads the bytes at its place.
pub proof fn sealed_tensors_read_their_place(
    region: SealedRegion,
    view: TensorView,
    all: &[u8],
    part: &[u8],
)
    requires
        view.offset + view.len <= all@.len(),
        call_ensures(SealedRegion::bytes, (&region,), all),
        call_ensures(SealedRegion::slice, (&region, &view), part),
    ensures
        part@.len() == view.len,
        forall|i: int| 0 <= i < view.len ==> #[trigger] part@[i] == all@[view.offset + i],
{
}

/// A matrix is accepted as an operator exactly if it has a row and every row is as long as there
/// are rows.
pub proof fn operators_are_square(operator: Vec<Vec<u64>>, checked: Result<(), MirrorError>)
    requires
        call_ensures(check_operator, (&operator,), checked),
    ensures
        checked is Ok <==> operator@.len() > 0 && forall|i: int|
            0 <= i < operator@.len() ==> (#[trigger] operator@[i])@.len() == operator@.len(),
{
    let model = operator@.map_values(|row: Vec<u64>| row@);
    assert forall|i: int| 0 <= i < operator@.len() implies (#[trigger] model[i])
        == operator@[i]@ by {}
    if checked is Ok {
        assert forall|i: int| 0 <= i < operator@.len() implies (#[trigger] operator@[i])@.len()
            == operator@.len() by {
            assert(model[i].len() == model.len());
        }
    }
}

/// Notes go to the subject of outcomes, calls to that of requests.
pub proof fn messages_go_to_their_subjects(message: Outbound, subject: &'static str)
    requires
        call_ensures(Outbound::subject, (&message,), subject),
    ensures
        message is Seal ==> subject@ == "glm.evoke.seal"@,
        message is Generate ==> subject@ == "glm.evoke.generate"@,
{
}

/// An execution that failed ends the request with its own error, the first one before the second;
/// otherwise there is something to do, and it starts with a commit exactly if nothing was
/// rejected.
pub proof fn failed_executions_end_the_request(
    seq_id: String,
    alpha: Result<ExecTrace, MirrorError>,
    beta: Result<ExecTrace, MirrorError>,
    evidence: Evidence,
    begun: Result<MirrorDispatch, MirrorError>,
)
    requires
        call_ensures(MirrorDispatch::begin, (seq_id, alpha, beta, &evidence), begun),
    ensures
        alpha matches Err(e) ==> begun == Err::<MirrorDispatch, _>(e),
        alpha is Ok && beta is Err ==> begun == Err::<MirrorDispatch, _>(beta->Err_0),
        alpha is Ok && beta is Ok ==> begun is Ok && begun->Ok_0@.done == 0
            && begun->Ok_0@.seq_id == seq_id@ && begun->Ok_0@.alpha == alpha->Ok_0@
            && begun->Ok_0@.beta == beta->Ok_0@ && (begun->Ok_0@.plan()[0] is Commit
            <==> divergence(alpha->Ok_0@, beta->Ok_0@, evidence@) is None),
{
}

/// Actions are carried out in the order of the plan. One that failed ends the request with its own
/// error; after the last one comes the result, committed with both traces or refuted with the
/// report; after every other one comes the next, of the same request.
pub proof fn actions_follow_the_plan(
    dispatch: MirrorDispatch,
    action: MirrorAction<'_>,
    carried_out: Result<(), MirrorError>,
    progress: Progress,
)
    requires
        dispatch.wf(),
        call_ensures(MirrorDispatch::action, (&dispatch,), action),
        call_ensures(MirrorDispatch::advance, (dispatch, carried_out), progress),
    ensures
        action@ == dispatch@.plan()[dispatch@.done as int],
        carried_out matches Err(e) ==> progress matches Progress::Finished(Err(reported))
            && reported@ == e@,
        carried_out is Ok ==> match progress {
            Progress::Continue(next) => {
                &&& dispatch@.done + 1 < dispatch@.plan().len()
                &&& next@.done == dispatch@.done + 1
                &&& next@.plan() == dispatch@.plan()
                &&& next@.outcome() == dispatch@.outcome()
            },
            Progress::Finished(result) => {
                &&& dispatch@.done + 1 == dispatch@.plan().len()
                &&& match dispatch@.reject {
                    None => result matches Ok(r) && r.status == Status::Committed && r.alpha@
                        == dispatch@.alpha && r.beta@ == dispatch@.beta,
                    Some(reject) => result matches Err(e) && e@ == MirrorFault::Refuted(reject),
                }
            },
        },
{
    if let Progress::Finished(result) = progress {
        if carried_out is Ok {
            assert(result_model(result) == dispatch@.outcome());
        }
    }
}

/// A tensor is found under a key exactly if one was entered under it, and then with its place.
pub proof fn entered_tensors_are_found(
    arena: WormMemoryManager,
    key: &str,
    found: Option<&TensorView>,
)
    requires
        call_ensures(WormMemoryManager::get, (&arena, key), found),
    ensures
        found is Some <==> arena@.table.contains_key(key@),
        found matches Some(view) ==> view@ == arena@.table[key@],
{
}

/// A tensor that is not fused is mapped, if it is, to one tensor with the bytes and the shape that
/// it has in the file.
pub proof fn mapping_keeps_the_bytes(
    cfg: GlmConfig,
    tensor: RawTensor,
    layer: usize,
    role: Seq<char>,
    mapped: Result<(usize, Vec<MappedTensor>), EvokeError>,
)
    requires
        call_ensures(map_tensor, (&cfg, tensor), mapped),
        canonical_key(tensor.name@) == Some((layer, role)),
        role != "attn.qkv"@,
        role != "mlp.gate_up"@,
    ensures
        mapped matches Ok((at, out)) ==> {
            &&& at == layer
            &&& out@.len() == 1
            &&& out@[0].data@ == tensor.data@
            &&& out@[0].shape@ == tensor.shape@
        },
{
    whole_tensors_are_kept(cfg, tensor@, layer, role);
    if mapped is Ok {
        let out = mapped->Ok_0.1;
        assert(mapped_models(out@).len() == out@.len());
        assert(mapped_models(out@)[0] == out@[0]@);
    }
}

/// The plan of a layer adds what attention and the gated network make of the hidden vector, to the
/// vector itself.
pub proof fn planned_layers_carry_the_hidden_vector<V>(
    kernels: Kernels<V>,
    cfg: GlmConfig,
    block: GlmBlockView,
    plan: Vec<ForwardStep>,
    held: Map<Buffer, V>,
)
    requires
        call_ensures(plan_layer, (&cfg, &block), plan),
    ensures
        exists|attention: V, network: V|
            after_steps(kernels, step_models(plan@), held)[Buffer::Hidden]
                == #[trigger] (kernels.sum)(
                (kernels.sum)(held[Buffer::Hidden], attention),
                network,
            ),
{
    layer_adds_attention_and_network(kernels, cfg, block@, held);
}

/// Traces pass only with entropies that are numbers of at most the bound, with the same hashes in
/// both, and with the same head.
pub proof fn passing_traces_have_low_entropies(
    alpha: ExecTrace,
    beta: ExecTrace,
    evidence: Evidence,
    passed: Result<(), RejectModule>,
    i: int,
)
    requires
        call_ensures(convergence_gate, (&alpha, &beta, &evidence), passed),
        passed is Ok,
        0 <= i < alpha.records@.len(),
    ensures
        is_number(evidence.entropies@[i]),
        value_of(evidence.entropies@[i]) <= value_of(ENTROPY_BOUND),
        alpha.records@.len() == beta.records@.len(),
        alpha.records@[i].hash@ == beta.records@[i].hash@,
        alpha.head@ == beta.head@,
{
    committed_records_are_accepted(alpha@, beta@, evidence@, i);
    assert(alpha@.records[i] == alpha.records@[i]@);
    assert(beta@.records[i] == beta.records@[i]@);
}

/// An object with reasoning in the key of any entry, or refused for the value of any entry, is
/// refused.
pub proof fn reasoning_in_any_entry_is_found(
    entries: Vec<(String, Json)>,
    i: int,
    inner: Result<(), String>,
    checked: Result<(), String>,
)
    requires
        0 <= i < entries@.len(),
        call_ensures(reject_reasoning_keys, (&entries@[i].1,), inner),
        call_ensures(reject_reasoning_keys, (&Json::Object(entries),), checked),
        inner is Err || names_reasoning(entries@[i].0@),
    ensures
        checked is Err,
{
    let model = entry_models(entries@);
    entry_models_are_pointwise(entries@);
    reasoning_is_found_at_any_depth(model, Seq::empty(), JsonModel::Null);
    assert(model[i] == (entries@[i].0@, entries@[i].1@));
}

/// The contracts that are extracted have, in order, the schemas that the entries of the list give.
pub proof fn extracted_contracts_keep_their_schemas<B, C>(
    result: Json,
    tools: Seq<JsonModel>,
    extracted: Result<ContractSet, AdapterError>,
    i: int,
) where B: ExecutionBoundary + 'static, C: DafnyCrystallizer + 'static
    requires
        call_ensures(NatsNode::<B, C>::extract_contracts, (&result,), extracted),
        result@.find("tools"@) == Some(JsonModel::Array(tools)),
        extracted is Ok,
        0 <= i < tools.len(),
    ensures
        extracted->Ok_0.tools@.len() == tools.len(),
        tools[i].find("name"@) == Some(JsonModel::Text(extracted->Ok_0.tools@[i].name@)),
        tools[i].find("inputSchema"@) matches Some(schema)
            ==> extracted->Ok_0.tools@[i].input_schema@ == schema,
{
    contracts_say_what_the_entries_say(result@);
    let set = extracted->Ok_0;
    let contracts = contract_models(set.tools@);
    assert(agrees_with_entry(contracts[i], tools[i]));
    assert(contracts[i] == set.tools@[i]@);
}

} // verus!
