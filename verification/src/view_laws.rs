//! What is proved of a value is proved of all that it holds: the mathematical value of a structure
//! shows every one of its fields, and that of a list every one of its items.

use vstd::prelude::*;

use crate::dual_mirror::result_model;
use crate::dual_mirror::row_models;
use crate::dual_mirror::text_models;
use crate::dual_mirror::ActionModel;
use crate::dual_mirror::MirrorAction;
use crate::dual_mirror::MirrorError;
use crate::dual_mirror::MirrorFault;
use crate::dual_mirror::MirrorResult;
use crate::dual_mirror::NumberTexts;
use crate::dual_mirror::RejectModule;
use crate::error::EvokeError;
use crate::error::EvokeFault;
use crate::evoke::step_models;
use crate::evoke::ForwardStep;
use crate::evoke::StepModel;
use crate::graph::block_models;
use crate::graph::GlmBlockView;
use crate::ingest::ingested_model;
use crate::ingest::outcome_models;
use crate::ingest::Ingested;
use crate::nats_node::admission_model;
use crate::nats_node::outbound_models;
use crate::nats_node::AdapterError;
use crate::nats_node::AdapterFault;
use crate::nats_node::Attestation;
use crate::nats_node::Outbound;
use crate::shard::raw_models;
use crate::shard::RawTensor;
use crate::telemetry::record_models;
use crate::telemetry::ExecutionRecord;
use crate::transform::mapped_models;
use crate::transform::mapping_model;
use crate::transform::part_models;
use crate::transform::split_model;
use crate::transform::MappedShard;
use crate::transform::MappedTensor;
use crate::transform::TensorPart;
use crate::worm::TensorView;

verus! {

/// Tensors of files, of the model and of the arena show their bytes or their place, their names,
/// shapes and element types.
pub proof fn tensors_show_every_field(
    raw: RawTensor,
    mapped: MappedTensor,
    part: TensorPart,
    view: TensorView,
)
    ensures
        raw@.name == raw.name@ && raw@.dtype == raw.dtype@ && raw@.shape == raw.shape@ && raw@.data
            == raw.data@,
        mapped@.key == mapped.key@ && mapped@.data == mapped.data@ && mapped@.shape
            == mapped.shape@ && mapped@.dtype == mapped.dtype,
        part@.tag == part.tag@ && part@.data == part.data@ && part@.shape == part.shape@,
        view@.offset == view.offset && view@.len == view.len && view@.shape == view.shape@
            && view@.dtype == view.dtype,
{
}

/// Lists of tensors show every tensor, in order.
pub proof fn lists_of_tensors_show_every_tensor(
    raw: Seq<RawTensor>,
    mapped: Seq<MappedTensor>,
    parts: Seq<TensorPart>,
)
    ensures
        raw_models(raw).len() == raw.len(),
        forall|i: int| 0 <= i < raw.len() ==> #[trigger] raw_models(raw)[i] == raw[i]@,
        mapped_models(mapped).len() == mapped.len(),
        forall|i: int| 0 <= i < mapped.len() ==> #[trigger] mapped_models(mapped)[i] == mapped[i]@,
        part_models(parts).len() == parts.len(),
        forall|i: int| 0 <= i < parts.len() ==> #[trigger] part_models(parts)[i] == parts[i]@,
{
}

/// A layer shows its number and the places of its nine tensors, and a list of layers every layer.
pub proof fn layers_show_every_place(block: GlmBlockView, layers: Seq<GlmBlockView>)
    ensures
        block@.layer_idx == block.layer_idx,
        block@.q == block.q@ && block@.k == block.k@ && block@.v == block.v@,
        block@.o_proj == block.o_proj@ && block@.mlp_gate == block.mlp_gate@,
        block@.mlp_up == block.mlp_up@ && block@.mlp_down == block.mlp_down@,
        block@.input_norm == block.input_norm@ && block@.post_norm == block.post_norm@,
        block_models(layers).len() == layers.len(),
        forall|i: int| 0 <= i < layers.len() ==> #[trigger] block_models(layers)[i] == layers[i]@,
{
}

/// A record shows its number, its phase, its layer and its text, and a list of records every
/// record.
pub proof fn records_show_every_field(record: ExecutionRecord, records: Seq<ExecutionRecord>)
    ensures
        record@.seq == record.seq && record@.phase == record.phase@ && record@.layer == record.layer
            && record@.detail == record.detail@,
        record_models(records).len() == records.len(),
        forall|i: int|
            0 <= i < records.len() ==> #[trigger] record_models(records)[i] == records[i]@,
{
}

/// A step shows its operation, its buffers, its weight and its dimensions, and a plan every step.
pub proof fn plans_show_every_step(steps: Seq<ForwardStep>, i: int)
    requires
        0 <= i < steps.len(),
    ensures
        step_models(steps).len() == steps.len(),
        match (steps[i], step_models(steps)[i]) {
            (
                ForwardStep::RmsNorm { input, weight, output },
                StepModel::RmsNorm { input: x, weight: w, output: y },
            ) => x == input && w == weight@ && y == output,
            (
                ForwardStep::MatMul { input, weight, m, k, n, output },
                StepModel::MatMul { input: x, weight: w, m: rows, k: inner, n: cols, output: y },
            ) => x == input && w == weight@ && rows == m && inner == k && cols == n && y == output,
            (
                ForwardStep::Rope { target, pos, head_dim },
                StepModel::Rope { target: x, pos: p, head_dim: d },
            ) => x == target && p == pos && d == head_dim,
            (
                ForwardStep::Sum { left, right, output },
                StepModel::Sum { left: l, right: r, output: y },
            ) => l == left && r == right && y == output,
            (
                ForwardStep::SiluProduct { gate, up, output },
                StepModel::SiluProduct { gate: g, up: u, output: y },
            ) => g == gate && u == up && y == output,
            (
                ForwardStep::Report { done, stream },
                StepModel::Report { done: d, stream: s },
            ) => d == done@ && s == stream@,
            _ => false,
        },
{
}

/// What a mapping, a split or a shard led to shows whether it succeeded, and with what.
pub proof fn outcomes_show_what_came_out(
    mapping: Result<(usize, Vec<MappedTensor>), EvokeError>,
    split: Result<Vec<TensorPart>, EvokeError>,
    shard: MappedShard,
    shards: Seq<Result<Vec<MappedTensor>, EvokeError>>,
)
    ensures
        match (mapping, mapping_model(mapping)) {
            (Ok((layer, tensors)), Ok((l, t))) => l == layer && t == mapped_models(tensors@),
            (Err(e), Err(fault)) => fault == e@,
            _ => false,
        },
        match (split, split_model(split)) {
            (Ok(parts), Ok(p)) => p == part_models(parts@),
            (Err(e), Err(fault)) => fault == e@,
            _ => false,
        },
        shard@.records == record_models(shard.records@),
        match (shard.result, shard@.result) {
            (Ok(tensors), Ok(t)) => t == mapped_models(tensors@),
            (Err(e), Err(fault)) => fault == e@,
            _ => false,
        },
        outcome_models(shards).len() == shards.len(),
        forall|i: int|
            0 <= i < shards.len() ==> match (shards[i], #[trigger] outcome_models(shards)[i]) {
                (Ok(tensors), Ok(t)) => t == mapped_models(tensors@),
                (Err(e), Err(fault)) => fault == e@,
                _ => false,
            },
{
}

/// What an ingestion, a decision or a request led to shows whether it succeeded, and with what.
pub proof fn results_show_what_came_out(
    ingested: Result<Ingested, EvokeError>,
    admitted: Result<Vec<Outbound>, AdapterError>,
    result: Result<MirrorResult, MirrorError>,
)
    ensures
        match (ingested, ingested_model(ingested)) {
            (Ok(done), Ok((bytes, blocks))) => bytes == done.arena@.bytes && blocks == block_models(
                done.layers@,
            ),
            (Err(e), Err(fault)) => fault == e@,
            _ => false,
        },
        match (admitted, admission_model(admitted)) {
            (Ok(messages), Ok(sent)) => sent == outbound_models(messages@),
            (Err(e), Err(fault)) => fault == e@,
            _ => false,
        },
        match (result, result_model(result)) {
            (Ok(r), Ok((status, alpha, beta))) => status == r.status && alpha == r.alpha@ && beta
                == r.beta@,
            (Err(e), Err(fault)) => fault == e@,
            _ => false,
        },
{
}

/// Errors show their kind and all that they carry.
pub proof fn errors_show_every_field(
    evoke: EvokeError,
    mirror: MirrorError,
    adapter: AdapterError,
    reject: RejectModule,
)
    ensures
        match (evoke, evoke@) {
            (EvokeError::Config(m), EvokeFault::Config(t)) => t == m@,
            (
                EvokeError::ShapeMismatch { key, expected, got },
                EvokeFault::ShapeMismatch { key: k, expected: e, got: g },
            ) => k == key@ && e == expected@ && g == got@,
            (EvokeError::Shard { shard, msg }, EvokeFault::Shard { shard: s, msg: t }) => s
                == shard@ && t == msg@,
            (EvokeError::Seal(m), EvokeFault::Seal(t)) => t == m@,
            (EvokeError::Backend(m), EvokeFault::Backend(t)) => t == m@,
            (EvokeError::Io(m), EvokeFault::Io(t)) => t == m@,
            _ => false,
        },
        match (mirror, mirror@) {
            (MirrorError::Execution(m), MirrorFault::Execution(t)) => t == m@,
            (MirrorError::Serialization(m), MirrorFault::Serialization(t)) => t == m@,
            (MirrorError::Nats(m), MirrorFault::Nats(t)) => t == m@,
            (MirrorError::InvalidTensor(m), MirrorFault::InvalidTensor(t)) => t == m@,
            (MirrorError::Refuted(r), MirrorFault::Refuted(t)) => t == r@,
            _ => false,
        },
        match (adapter, adapter@) {
            (AdapterError::InvalidEnvelope(m), AdapterFault::InvalidEnvelope(t)) => t == m@,
            (AdapterError::UnsupportedMethod(m), AdapterFault::UnsupportedMethod(t)) => t == m@,
            (AdapterError::UnknownTool(m), AdapterFault::UnknownTool(t)) => t == m@,
            (AdapterError::ModelRefuted(m), AdapterFault::ModelRefuted(t)) => t == m@,
            (AdapterError::Unauthorized(m), AdapterFault::Unauthorized(t)) => t == m@,
            (AdapterError::Nats(m), AdapterFault::Nats(t)) => t == m@,
            (AdapterError::Serialization(m), AdapterFault::Serialization(t)) => t == m@,
            _ => false,
        },
        reject@.event == reject.event@ && reject@.seq_id == reject.seq_id@ && reject@.depth
            == reject.depth && reject@.delta_hash == reject.delta_hash@ && reject@.alpha
            == reject.alpha@ && reject@.beta == reject.beta@,
{
}

/// Actions show what is to be done with what, and answers what was answered.
pub proof fn actions_show_every_field(action: MirrorAction<'_>, answer: Attestation)
    ensures
        match (action, action@) {
            (MirrorAction::Commit(trace), ActionModel::Commit(t)) => t == trace@,
            (
                MirrorAction::PublishTrace { subject, trace },
                ActionModel::PublishTrace { subject: s, trace: t },
            ) => s == subject@ && t == trace@,
            (
                MirrorAction::PublishSeal { subject, seq_id, status },
                ActionModel::PublishSeal { subject: s, seq_id: id, status: st },
            ) => s == subject@ && id == seq_id@ && st == status,
            (
                MirrorAction::Quarantine { seq_id, depth },
                ActionModel::Quarantine { seq_id: id, depth: d },
            ) => id == seq_id@ && d == depth,
            (MirrorAction::DropContext { seq_id }, ActionModel::DropContext { seq_id: id }) => id
                == seq_id@,
            (
                MirrorAction::PublishReject { subject, reject },
                ActionModel::PublishReject { subject: s, reject: r },
            ) => s == subject@ && r == reject@,
            _ => false,
        },
        answer@.allowed == answer.allowed && answer@.reason == answer.reason@,
{
}

/// The texts of numbers show every text.
pub proof fn texts_of_numbers_show_every_text(
    numbers: NumberTexts,
    texts: Seq<String>,
    rows: Seq<Vec<String>>,
)
    ensures
        numbers@.state == text_models(numbers.state@) && numbers@.operator == row_models(
            numbers.operator@,
        ) && numbers@.entropy == numbers.entropy@,
        text_models(texts).len() == texts.len(),
        forall|i: int| 0 <= i < texts.len() ==> #[trigger] text_models(texts)[i] == texts[i]@,
        row_models(rows).len() == rows.len(),
        forall|i: int|
            0 <= i < rows.len() ==> #[trigger] row_models(rows)[i] == text_models(rows[i]@),
{
}

} // verus!
