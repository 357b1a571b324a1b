//! What the pipeline does once the weights are sealed: it compiles the graph and runs the forward
//! pass for the first token.
//!
//! The pass is planned here as a list of steps over named buffers. The numbers themselves are the
//! backend's, so whoever runs the plan holds the buffers.

use vstd::prelude::*;
use vstd::string::StringExecFns;

use crate::checkpoint_laws::block_span;
use crate::checkpoint_laws::slot_shape;
use crate::config::GlmConfig;
use crate::graph::block_models;
use crate::graph::BlockSpans;
use crate::graph::GlmBlockView;
use crate::keys::SLOTS;
use crate::shard::element_count;
use crate::shard::matrix_element_count;
use crate::shard::vector_element_count;
use crate::telemetry::ExecutionRecord;
use crate::telemetry::RecordModel;
use crate::text::decimal;
use crate::text::push_decimal;
use crate::worm::TensorSpan;
use crate::worm::TensorView;

verus! {

/// The vectors that a forward pass works on.
#[derive(Debug, Clone, Copy, PartialEq, Eq, Structural)]
pub enum Buffer {
    Hidden,
    Normed,
    Query,
    Key,
    Value,
    Projected,
    Gate,
    Up,
    Gated,
    Down,
}

/// One step of a forward pass.
#[derive(Debug)]
pub enum ForwardStep {
    /// `output` is `input`, normalised and scaled by `weight`.
    RmsNorm { input: Buffer, weight: TensorView, output: Buffer },
    /// `output` is `input`, of `m` rows and `k` columns, times `weight`, of `k` rows and `n`
    /// columns.
    MatMul { input: Buffer, weight: TensorView, m: usize, k: usize, n: usize, output: Buffer },
    /// `target` is rotated to position `pos`, head by head.
    Rope { target: Buffer, pos: usize, head_dim: usize },
    /// `output` is the sum of `left` and `right`.
    Sum { left: Buffer, right: Buffer, output: Buffer },
    /// `output` is the product of `up` and the sigmoid linear unit of `gate`.
    SiluProduct { gate: Buffer, up: Buffer, output: Buffer },
    /// A layer is done: `done` goes to every sink, then `stream` to the reader of the request.
    Report { done: ExecutionRecord, stream: ExecutionRecord },
}

/// A [`ForwardStep`] as a mathematical value.
pub ghost enum StepModel {
    RmsNorm { input: Buffer, weight: TensorSpan, output: Buffer },
    MatMul { input: Buffer, weight: TensorSpan, m: nat, k: nat, n: nat, output: Buffer },
    Rope { target: Buffer, pos: nat, head_dim: nat },
    Sum { left: Buffer, right: Buffer, output: Buffer },
    SiluProduct { gate: Buffer, up: Buffer, output: Buffer },
    Report { done: RecordModel, stream: RecordModel },
}

impl View for ForwardStep {
    type V = StepModel;

    open spec fn view(&self) -> StepModel {
        match *self {
            ForwardStep::RmsNorm { input, weight, output } => StepModel::RmsNorm {
                input,
                weight: weight@,
                output,
            },
            ForwardStep::MatMul { input, weight, m, k, n, output } => StepModel::MatMul {
                input,
                weight: weight@,
                m: m as nat,
                k: k as nat,
                n: n as nat,
                output,
            },
            ForwardStep::Rope { target, pos, head_dim } => StepModel::Rope {
                target,
                pos: pos as nat,
                head_dim: head_dim as nat,
            },
            ForwardStep::Sum { left, right, output } => StepModel::Sum { left, right, output },
            ForwardStep::SiluProduct { gate, up, output } => StepModel::SiluProduct {
                gate,
                up,
                output,
            },
            ForwardStep::Report { done, stream } => StepModel::Report {
                done: done@,
                stream: stream@,
            },
        }
    }
}

/// The steps as mathematical values.
pub open spec fn step_models(steps: Seq<ForwardStep>) -> Seq<StepModel> {
    steps.map_values(|s: ForwardStep| s@)
}

/// The record of a compiled graph.
pub open spec fn compile_model(layers: nat, hidden: nat) -> RecordModel {
    RecordModel {
        seq: 0,
        phase: "compile"@,
        layer: None,
        detail: "graph compiled: "@ + decimal(layers) + " layers, hidden "@ + decimal(hidden),
    }
}

/// The record of a compiled graph.
pub fn compile_record(layers: usize, hidden: usize) -> (record: ExecutionRecord)
    ensures
        record@ == compile_model(layers as nat, hidden as nat),
{
    let mut detail: String = "graph compiled: ".to_owned();
    push_decimal(&mut detail, layers as u128);
    detail.append(" layers, hidden ");
    push_decimal(&mut detail, hidden as u128);
    ExecutionRecord { seq: 0, phase: "compile", layer: None, detail }
}

/// The report on a layer that is done.
pub open spec fn report_model(layer: usize) -> StepModel {
    StepModel::Report {
        done: RecordModel {
            seq: 0,
            phase: "forward"@,
            layer: Some(layer),
            detail: "layer "@ + decimal(layer as nat) + " done"@,
        },
        stream: RecordModel { seq: 0, phase: "forward"@, layer: Some(layer), detail: "stream"@ },
    }
}

/// The report on a layer that is done.
fn report(layer: usize) -> (step: ForwardStep)
    ensures
        step@ == report_model(layer),
{
    let mut detail: String = "layer ".to_owned();
    push_decimal(&mut detail, layer as u128);
    detail.append(" done");
    ForwardStep::Report {
        done: ExecutionRecord { seq: 0, phase: "forward", layer: Some(layer), detail },
        stream: ExecutionRecord {
            seq: 0,
            phase: "forward",
            layer: Some(layer),
            detail: "stream".to_owned(),
        },
    }
}

/// How many steps a layer takes.
pub const LAYER_STEPS: usize = 14;

/// The product of a vector and one of the weights.
pub open spec fn product_step(
    input: Buffer,
    weight: TensorSpan,
    k: nat,
    n: nat,
    output: Buffer,
) -> StepModel {
    StepModel::MatMul { input, weight, m: 1, k, n, output }
}

/// The steps of one layer: attention with its residual sum, the gated network with its own, and
/// the report.
pub open spec fn layer_steps(cfg: GlmConfig, block: BlockSpans) -> Seq<StepModel> {
    let hidden = cfg.hidden_size as nat;
    let inner = cfg.intermediate_size as nat;
    let kv = cfg.spec_kv_dim();
    seq![
        StepModel::RmsNorm {
            input: Buffer::Hidden,
            weight: block.input_norm,
            output: Buffer::Normed,
        },
        product_step(Buffer::Normed, block.q, hidden, hidden, Buffer::Query),
        product_step(Buffer::Normed, block.k, hidden, kv, Buffer::Key),
        product_step(Buffer::Normed, block.v, hidden, kv, Buffer::Value),
        StepModel::Rope { target: Buffer::Query, pos: 0, head_dim: cfg.spec_head_dim() },
        product_step(Buffer::Query, block.o_proj, hidden, hidden, Buffer::Projected),
        StepModel::Sum {
            left: Buffer::Hidden,
            right: Buffer::Projected,
            output: Buffer::Hidden,
        },
        StepModel::RmsNorm {
            input: Buffer::Hidden,
            weight: block.post_norm,
            output: Buffer::Normed,
        },
        product_step(Buffer::Normed, block.mlp_gate, hidden, inner, Buffer::Gate),
        product_step(Buffer::Normed, block.mlp_up, hidden, inner, Buffer::Up),
        StepModel::SiluProduct { gate: Buffer::Gate, up: Buffer::Up, output: Buffer::Gated },
        product_step(Buffer::Gated, block.mlp_down, inner, hidden, Buffer::Down),
        StepModel::Sum { left: Buffer::Hidden, right: Buffer::Down, output: Buffer::Hidden },
        report_model(block.layer_idx),
    ]
}

/// The steps of all layers, one layer after the other.
pub open spec fn forward_steps(cfg: GlmConfig, blocks: Seq<BlockSpans>) -> Seq<StepModel>
    decreases blocks.len(),
{
    if blocks.len() == 0 {
        Seq::empty()
    } else {
        forward_steps(cfg, blocks.drop_last()) + layer_steps(cfg, blocks.last())
    }
}

/// The product of a vector and one of the weights.
fn product(input: Buffer, weight: &TensorView, k: usize, n: usize, output: Buffer) -> (step:
    ForwardStep)
    ensures
        step@ == product_step(input, weight@, k as nat, n as nat, output),
{
    ForwardStep::MatMul { input, weight: weight.clone(), m: 1, k, n, output }
}

/// Plans one layer.
pub fn plan_layer(config: &GlmConfig, layer: &GlmBlockView) -> (plan: Vec<ForwardStep>)
    requires
        config.num_attention_heads != 0,
        config.spec_kv_dim() <= usize::MAX,
    ensures
        step_models(plan@) == layer_steps(*config, layer@),
{
    let hidden: usize = config.hidden_size;
    let inner: usize = config.intermediate_size;
    let kv: usize = config.kv_dim();
    let plan: Vec<ForwardStep> = vec![
        ForwardStep::RmsNorm {
            input: Buffer::Hidden,
            weight: layer.input_norm.clone(),
            output: Buffer::Normed,
        },
        product(Buffer::Normed, &layer.q, hidden, hidden, Buffer::Query),
        product(Buffer::Normed, &layer.k, hidden, kv, Buffer::Key),
        product(Buffer::Normed, &layer.v, hidden, kv, Buffer::Value),
        ForwardStep::Rope { target: Buffer::Query, pos: 0, head_dim: config.head_dim() },
        product(Buffer::Query, &layer.o_proj, hidden, hidden, Buffer::Projected),
        ForwardStep::Sum {
            left: Buffer::Hidden,
            right: Buffer::Projected,
            output: Buffer::Hidden,
        },
        ForwardStep::RmsNorm {
            input: Buffer::Hidden,
            weight: layer.post_norm.clone(),
            output: Buffer::Normed,
        },
        product(Buffer::Normed, &layer.mlp_gate, hidden, inner, Buffer::Gate),
        product(Buffer::Normed, &layer.mlp_up, hidden, inner, Buffer::Up),
        ForwardStep::SiluProduct { gate: Buffer::Gate, up: Buffer::Up, output: Buffer::Gated },
        product(Buffer::Gated, &layer.mlp_down, inner, hidden, Buffer::Down),
        ForwardStep::Sum { left: Buffer::Hidden, right: Buffer::Down, output: Buffer::Hidden },
        report(layer.layer_idx),
    ];
    proof {
        assert(step_models(plan@) =~= layer_steps(*config, layer@));
    }
    plan
}

/// Plans the forward pass through all layers.
pub fn forward_plan(config: &GlmConfig, layers: &Vec<GlmBlockView>) -> (plan: Vec<ForwardStep>)
    requires
        layers@.len() > 0 ==> config.num_attention_heads != 0,
        layers@.len() > 0 ==> config.spec_kv_dim() <= usize::MAX,
    ensures
        step_models(plan@) == forward_steps(*config, block_models(layers@)),
{
    let ghost blocks = block_models(layers@);
    let mut plan: Vec<ForwardStep> = Vec::new();
    proof {
        assert(blocks.take(0) =~= Seq::<BlockSpans>::empty());
        assert(step_models(plan@) =~= Seq::<StepModel>::empty());
    }
    let mut i: usize = 0;
    while i < layers.len()
        invariant
            layers@.len() > 0 ==> config.num_attention_heads != 0,
            layers@.len() > 0 ==> config.spec_kv_dim() <= usize::MAX,
            i <= layers@.len(),
            blocks == block_models(layers@),
            step_models(plan@) == forward_steps(*config, blocks.take(i as int)),
        decreases layers@.len() - i,
    {
        let mut more: Vec<ForwardStep> = plan_layer(config, &layers[i]);
        let ghost earlier = step_models(plan@);
        let ghost added = step_models(more@);
        plan.append(&mut more);
        proof {
            assert(step_models(plan@) =~= earlier + added);
            assert(blocks.take(i + 1).drop_last() =~= blocks.take(i as int));
            assert(blocks.take(i + 1).last() == layers@[i as int]@);
        }
        i += 1;
    }
    proof {
        assert(blocks.take(i as int) =~= blocks);
    }
    plan
}

/// Whether the number of elements of a shape, and every partial product of it, is a machine
/// number.
pub open spec fn count_fits(shape: Seq<usize>) -> bool {
    forall|i: int| 0 <= i <= shape.len() ==> element_count(#[trigger] shape.take(i)) <= usize::MAX
}

/// How many elements a weight has once it is expanded to full precision.
pub fn expanded_len(weight: &TensorView) -> (count: usize)
    requires
        count_fits(weight.shape@),
    ensures
        count == element_count(weight.shape@),
{
    let ghost shape = weight.shape@;
    let mut count: usize = 1;
    let mut i: usize = 0;
    proof {
        assert(shape.take(0) =~= Seq::<usize>::empty());
    }
    while i < weight.shape.len()
        invariant
            i <= shape.len(),
            shape == weight.shape@,
            count_fits(shape),
            count == element_count(shape.take(i as int)),
        decreases shape.len() - i,
    {
        proof {
            assert(shape.take(i + 1).drop_last() =~= shape.take(i as int));
            assert(element_count(shape.take(i + 1)) <= usize::MAX);
        }
        count = count * weight.shape[i];
        i += 1;
    }
    proof {
        assert(shape.take(i as int) =~= shape);
    }
    count
}

/// The entry of the hidden vector that the input at `position` is added to.
pub fn embedding_slot(position: usize, hidden_size: usize) -> (slot: usize)
    requires
        hidden_size != 0,
    ensures
        slot == position % hidden_size,
        slot < hidden_size,
{
    position % hidden_size
}

/// The token that a scaled activation selects: its remainder by the low half of the vocabulary
/// size, which is the size itself where that fits in 32 bits.
pub open spec fn sampled(scaled: u32, vocab_size: usize) -> nat {
    scaled as nat % (vocab_size as nat % 0x1_0000_0000)
}

/// Selects the first token.
pub fn sample_token(scaled: u32, vocab_size: usize) -> (token: u32)
    requires
        vocab_size as nat % 0x1_0000_0000 != 0,
    ensures
        token == sampled(scaled, vocab_size),
        vocab_size <= u32::MAX ==> token == scaled as nat % vocab_size as nat,
        token < vocab_size,
{
    let size: u64 = vocab_size as u64;
    let low: u32 = (size % 0x1_0000_0000) as u32;
    scaled % low
}

/// The record of the selected token.
pub open spec fn sample_model(token: u32) -> RecordModel {
    RecordModel {
        seq: 0,
        phase: "sample"@,
        layer: None,
        detail: "first token "@ + decimal(token as nat),
    }
}

/// The record of the selected token.
pub fn sample_record(token: u32) -> (record: ExecutionRecord)
    ensures
        record@ == sample_model(token),
{
    let mut detail: String = "first token ".to_owned();
    push_decimal(&mut detail, token as u128);
    ExecutionRecord { seq: 0, phase: "sample", layer: None, detail }
}

/// Every layer takes the same number of steps.
proof fn plan_length(cfg: GlmConfig, blocks: Seq<BlockSpans>)
    ensures
        forward_steps(cfg, blocks).len() == blocks.len() * LAYER_STEPS,
    decreases blocks.len(),
{
    if blocks.len() > 0 {
        plan_length(cfg, blocks.drop_last());
    }
}

/// Where the steps of a layer stand in the plan.
proof fn layer_stands_in_plan(cfg: GlmConfig, blocks: Seq<BlockSpans>, layer: int, step: int)
    requires
        0 <= layer < blocks.len(),
        0 <= step < LAYER_STEPS,
    ensures
        layer * LAYER_STEPS + step < forward_steps(cfg, blocks).len(),
        forward_steps(cfg, blocks)[layer * LAYER_STEPS + step] == layer_steps(
            cfg,
            blocks[layer],
        )[step],
    decreases blocks.len(),
{
    let front = blocks.drop_last();
    plan_length(cfg, front);
    plan_length(cfg, blocks);
    if layer < front.len() {
        layer_stands_in_plan(cfg, front, layer, step);
    }
}

/// The forward pass is observable: every layer reports exactly once, in order, after its last
/// computation.
pub proof fn every_layer_reports_once(cfg: GlmConfig, blocks: Seq<BlockSpans>, at: int)
    requires
        0 <= at < forward_steps(cfg, blocks).len(),
    ensures
        forward_steps(cfg, blocks).len() == blocks.len() * LAYER_STEPS,
        forward_steps(cfg, blocks)[at] is Report <==> at % LAYER_STEPS as int == LAYER_STEPS - 1,
        forward_steps(cfg, blocks)[at] is Report ==> forward_steps(cfg, blocks)[at]
            == report_model(blocks[at / LAYER_STEPS as int].layer_idx),
{
    plan_length(cfg, blocks);
    layer_stands_in_plan(cfg, blocks, at / LAYER_STEPS as int, at % LAYER_STEPS as int);
}

/// The lengths of the buffers after a step, or nothing where the step would read beyond the end
/// of a buffer or of a weight.
pub open spec fn lengths_after(step: StepModel, lengths: Map<Buffer, nat>) -> Option<
    Map<Buffer, nat>,
> {
    match step {
        StepModel::RmsNorm { input, weight, output } => if lengths.contains_key(input)
            && element_count(weight.shape) >= lengths[input] {
            Some(lengths.insert(output, lengths[input]))
        } else {
            None
        },
        StepModel::MatMul { input, weight, m, k, n, output } => if lengths.contains_key(input)
            && lengths[input] >= m * k && element_count(weight.shape) >= k * n {
            Some(lengths.insert(output, m * n))
        } else {
            None
        },
        StepModel::Rope { target, pos, head_dim } => if lengths.contains_key(target) && head_dim > 0
            && head_dim % 2 == 0 && lengths[target] % head_dim == 0 {
            Some(lengths)
        } else {
            None
        },
        StepModel::Sum { left, right, output } => if lengths.contains_key(left)
            && lengths.contains_key(right) && lengths[left] == lengths[right] {
            Some(lengths.insert(output, lengths[left]))
        } else {
            None
        },
        StepModel::SiluProduct { gate, up, output } => if lengths.contains_key(gate)
            && lengths.contains_key(up) && lengths[gate] == lengths[up] {
            Some(lengths.insert(output, lengths[gate]))
        } else {
            None
        },
        StepModel::Report { .. } => Some(lengths),
    }
}

/// The lengths of the buffers after all steps.
pub open spec fn lengths_after_all(steps: Seq<StepModel>, lengths: Map<Buffer, nat>) -> Option<
    Map<Buffer, nat>,
>
    decreases steps.len(),
{
    if steps.len() == 0 {
        Some(lengths)
    } else {
        match lengths_after_all(steps.drop_last(), lengths) {
            None => None,
            Some(before) => lengths_after(steps.last(), before),
        }
    }
}

/// One more step.
proof fn lengths_after_one_more(steps: Seq<StepModel>, lengths: Map<Buffer, nat>, n: int)
    requires
        0 <= n < steps.len(),
    ensures
        lengths_after_all(steps.take(n + 1), lengths) == match lengths_after_all(
            steps.take(n),
            lengths,
        ) {
            None => None,
            Some(before) => lengths_after(steps[n], before),
        },
{
    assert(steps.take(n + 1).drop_last() =~= steps.take(n));
}

/// Steps that follow others start from the lengths that those leave.
proof fn lengths_after_both(
    first: Seq<StepModel>,
    second: Seq<StepModel>,
    lengths: Map<Buffer, nat>,
)
    ensures
        lengths_after_all(first + second, lengths) == match lengths_after_all(first, lengths) {
            None => None,
            Some(before) => lengths_after_all(second, before),
        },
    decreases second.len(),
{
    if second.len() == 0 {
        assert(first + second =~= first);
    } else {
        assert((first + second).drop_last() =~= first + second.drop_last());
        lengths_after_both(first, second.drop_last(), lengths);
    }
}

/// Whether all weights of a block have the shapes that the configuration asks for.
pub open spec fn is_shaped(cfg: GlmConfig, block: BlockSpans) -> bool {
    forall|slot: int|
        0 <= slot < SLOTS ==> (#[trigger] block_span(block, slot)).shape == slot_shape(cfg, slot)
}

/// A layer whose weights have the right shapes keeps the length of the hidden vector and reads
/// within bounds.
proof fn layer_stays_in_bounds(cfg: GlmConfig, block: BlockSpans, lengths: Map<Buffer, nat>)
    requires
        cfg.num_attention_heads != 0,
        cfg.valid(),
        cfg.spec_kv_dim() <= usize::MAX,
        cfg.spec_head_dim() > 0,
        cfg.spec_head_dim() % 2 == 0,
        is_shaped(cfg, block),
        lengths.contains_key(Buffer::Hidden),
        lengths[Buffer::Hidden] == cfg.hidden_size,
    ensures
        lengths_after_all(layer_steps(cfg, block), lengths) matches Some(end)
            && end.contains_key(Buffer::Hidden) && end[Buffer::Hidden] == cfg.hidden_size,
{
    let steps = layer_steps(cfg, block);
    let hidden = cfg.hidden_size as nat;
    let inner = cfg.intermediate_size as nat;
    let kv = cfg.spec_kv_dim();
    assert(block_span(block, 0) == block.q);
    assert(block_span(block, 1) == block.k);
    assert(block_span(block, 2) == block.v);
    assert(block_span(block, 3) == block.o_proj);
    assert(block_span(block, 4) == block.mlp_gate);
    assert(block_span(block, 5) == block.mlp_up);
    assert(block_span(block, 6) == block.mlp_down);
    assert(block_span(block, 7) == block.input_norm);
    assert(block_span(block, 8) == block.post_norm);
    matrix_element_count(block.q.shape);
    matrix_element_count(block.k.shape);
    matrix_element_count(block.v.shape);
    matrix_element_count(block.o_proj.shape);
    matrix_element_count(block.mlp_gate.shape);
    matrix_element_count(block.mlp_up.shape);
    matrix_element_count(block.mlp_down.shape);
    vector_element_count(block.input_norm.shape);
    vector_element_count(block.post_norm.shape);
    assert(hidden * kv == kv * hidden && hidden * inner == inner * hidden && 1 * hidden == hidden
        && 1 * inner == inner && 1 * kv == kv) by (nonlinear_arith);
    assert(hidden % cfg.spec_head_dim() == 0) by {
        heads_divide_evenly(cfg);
    }
    assert(steps.take(0) =~= Seq::<StepModel>::empty());
    lengths_after_one_more(steps, lengths, 0);
    lengths_after_one_more(steps, lengths, 1);
    lengths_after_one_more(steps, lengths, 2);
    lengths_after_one_more(steps, lengths, 3);
    lengths_after_one_more(steps, lengths, 4);
    lengths_after_one_more(steps, lengths, 5);
    lengths_after_one_more(steps, lengths, 6);
    lengths_after_one_more(steps, lengths, 7);
    lengths_after_one_more(steps, lengths, 8);
    lengths_after_one_more(steps, lengths, 9);
    lengths_after_one_more(steps, lengths, 10);
    lengths_after_one_more(steps, lengths, 11);
    lengths_after_one_more(steps, lengths, 12);
    lengths_after_one_more(steps, lengths, 13);
    assert(steps.take(14) =~= steps);
}

/// Where the heads divide the hidden vector evenly, so does the width of one head.
proof fn heads_divide_evenly(cfg: GlmConfig)
    requires
        cfg.num_attention_heads != 0,
        cfg.valid(),
        cfg.spec_head_dim() > 0,
    ensures
        cfg.hidden_size as nat % cfg.spec_head_dim() == 0,
{
    let hidden = cfg.hidden_size as int;
    let heads = cfg.num_attention_heads as int;
    let width = cfg.spec_head_dim() as int;
    vstd::arithmetic::div_mod::lemma_fundamental_div_mod(hidden, heads);
    vstd::arithmetic::div_mod::lemma_mod_multiples_basic(heads, width);
}

/// A sealed model can be run: if every weight has the shape that the configuration asks for, and
/// heads have an even width, no step of the forward pass reads beyond a buffer or a weight, and
/// the hidden vector keeps its length.
pub proof fn forward_pass_stays_in_bounds(cfg: GlmConfig, blocks: Seq<BlockSpans>)
    requires
        cfg.num_attention_heads != 0,
        cfg.valid(),
        cfg.spec_kv_dim() <= usize::MAX,
        cfg.spec_head_dim() > 0,
        cfg.spec_head_dim() % 2 == 0,
        forall|i: int| 0 <= i < blocks.len() ==> is_shaped(cfg, #[trigger] blocks[i]),
    ensures
        lengths_after_all(
            forward_steps(cfg, blocks),
            map![Buffer::Hidden => cfg.hidden_size as nat],
        ) matches Some(end) && end.contains_key(Buffer::Hidden) && end[Buffer::Hidden]
            == cfg.hidden_size,
    decreases blocks.len(),
{
    let start = map![Buffer::Hidden => cfg.hidden_size as nat];
    if blocks.len() > 0 {
        let front = blocks.drop_last();
        assert forall|i: int| 0 <= i < front.len() implies is_shaped(cfg, #[trigger] front[i]) by {
            assert(front[i] == blocks[i]);
        }
        forward_pass_stays_in_bounds(cfg, front);
        assert(blocks.last() == blocks[blocks.len() - 1]);
        let before = lengths_after_all(forward_steps(cfg, front), start)->0;
        layer_stays_in_bounds(cfg, blocks.last(), before);
        lengths_after_both(forward_steps(cfg, front), layer_steps(cfg, blocks.last()), start);
    }
}

} // verus!
