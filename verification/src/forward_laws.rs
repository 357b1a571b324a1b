//! What a forward pass computes, whatever the numerical kernels are, and what it reports.

use vstd::arithmetic::mul::*;
use vstd::prelude::*;

use crate::config::GlmConfig;
use crate::evoke::compile_model;
use crate::evoke::forward_steps;
use crate::evoke::layer_steps;
use crate::evoke::sample_model;
use crate::evoke::sampled;
use crate::evoke::Buffer;
use crate::evoke::StepModel;
use crate::graph::BlockSpans;
use crate::shard::element_count;
use crate::telemetry::successor;
use crate::telemetry::RecordModel;
use crate::text::decimal;
use crate::worm::TensorSpan;

verus! {

/// The numerical operations of a backend on vectors of any kind.
#[verifier::reject_recursive_types(V)]
pub ghost struct Kernels<V> {
    /// A vector, normalised and scaled by a weight.
    pub norm: spec_fn(V, TensorSpan) -> V,
    /// A vector of `m` rows and `k` columns times a weight of `k` rows and `n` columns.
    pub product: spec_fn(V, TensorSpan, nat, nat, nat) -> V,
    /// A vector, rotated to a position by heads of the given width.
    pub rotate: spec_fn(V, nat, nat) -> V,
    /// The sum of two vectors.
    pub sum: spec_fn(V, V) -> V,
    /// The second vector, gated by the first.
    pub gate: spec_fn(V, V) -> V,
}

/// The vectors after a step.
pub open spec fn after_step<V>(
    kernels: Kernels<V>,
    step: StepModel,
    held: Map<Buffer, V>,
) -> Map<Buffer, V> {
    match step {
        StepModel::RmsNorm { input, weight, output } => held.insert(
            output,
            (kernels.norm)(held[input], weight),
        ),
        StepModel::MatMul { input, weight, m, k, n, output } => held.insert(
            output,
            (kernels.product)(held[input], weight, m, k, n),
        ),
        StepModel::Rope { target, pos, head_dim } => held.insert(
            target,
            (kernels.rotate)(held[target], pos, head_dim),
        ),
        StepModel::Sum { left, right, output } => held.insert(
            output,
            (kernels.sum)(held[left], held[right]),
        ),
        StepModel::SiluProduct { gate, up, output } => held.insert(
            output,
            (kernels.gate)(held[gate], held[up]),
        ),
        StepModel::Report { .. } => held,
    }
}

/// The vectors after all steps, one after the other.
pub open spec fn after_steps<V>(
    kernels: Kernels<V>,
    steps: Seq<StepModel>,
    held: Map<Buffer, V>,
) -> Map<Buffer, V>
    decreases steps.len(),
{
    if steps.len() == 0 {
        held
    } else {
        after_step(kernels, steps.last(), after_steps(kernels, steps.drop_last(), held))
    }
}

/// One more step.
proof fn after_one_more<V>(
    kernels: Kernels<V>,
    steps: Seq<StepModel>,
    held: Map<Buffer, V>,
    n: int,
)
    requires
        0 <= n < steps.len(),
    ensures
        after_steps(kernels, steps.take(n + 1), held) == after_step(
            kernels,
            steps[n],
            after_steps(kernels, steps.take(n), held),
        ),
{
    assert(steps.take(n + 1).drop_last() =~= steps.take(n));
}

/// Steps that follow others start from what those leave.
proof fn after_both<V>(
    kernels: Kernels<V>,
    first: Seq<StepModel>,
    second: Seq<StepModel>,
    held: Map<Buffer, V>,
)
    ensures
        after_steps(kernels, first + second, held) == after_steps(
            kernels,
            second,
            after_steps(kernels, first, held),
        ),
    decreases second.len(),
{
    if second.len() == 0 {
        assert(first + second =~= first);
    } else {
        assert((first + second).drop_last() =~= first + second.drop_last());
        after_both(kernels, first, second.drop_last(), held);
    }
}

/// A layer adds to the hidden vector what attention makes of it, and to the sum what the gated
/// network makes of that. With `n` the normed hidden vector, the queries are `n` times their
/// weight, rotated, and go through the output matrix; keys and values are `n` times their own.
pub proof fn layer_adds_attention_and_network<V>(
    kernels: Kernels<V>,
    cfg: GlmConfig,
    block: BlockSpans,
    held: Map<Buffer, V>,
)
    ensures
        ({
            let width = cfg.hidden_size as nat;
            let inner = cfg.intermediate_size as nat;
            let kv = cfg.spec_kv_dim();
            let h = held[Buffer::Hidden];
            let n = (kernels.norm)(h, block.input_norm);
            let query = (kernels.product)(n, block.q, 1, width, width);
            let turned = (kernels.rotate)(query, 0, cfg.spec_head_dim());
            let attention = (kernels.product)(turned, block.o_proj, 1, width, width);
            let h1 = (kernels.sum)(h, attention);
            let n1 = (kernels.norm)(h1, block.post_norm);
            let gated = (kernels.gate)(
                (kernels.product)(n1, block.mlp_gate, 1, width, inner),
                (kernels.product)(n1, block.mlp_up, 1, width, inner),
            );
            let network = (kernels.product)(gated, block.mlp_down, 1, inner, width);
            let end = after_steps(kernels, layer_steps(cfg, block), held);
            &&& end[Buffer::Hidden] == (kernels.sum)(h1, network)
            &&& end[Buffer::Key] == (kernels.product)(n, block.k, 1, width, kv)
            &&& end[Buffer::Value] == (kernels.product)(n, block.v, 1, width, kv)
        }),
{
    let steps = layer_steps(cfg, block);
    assert(steps.take(0) =~= Seq::<StepModel>::empty());
    after_one_more(kernels, steps, held, 0);
    after_one_more(kernels, steps, held, 1);
    after_one_more(kernels, steps, held, 2);
    after_one_more(kernels, steps, held, 3);
    after_one_more(kernels, steps, held, 4);
    after_one_more(kernels, steps, held, 5);
    after_one_more(kernels, steps, held, 6);
    after_one_more(kernels, steps, held, 7);
    after_one_more(kernels, steps, held, 8);
    after_one_more(kernels, steps, held, 9);
    after_one_more(kernels, steps, held, 10);
    after_one_more(kernels, steps, held, 11);
    after_one_more(kernels, steps, held, 12);
    after_one_more(kernels, steps, held, 13);
    assert(steps.take(14) =~= steps);
}

/// The layers are run one after the other: the steps of two lists of layers are those of the
/// first and then those of the second, one layer alone has its own steps, and no layers have none.
pub proof fn layers_run_one_after_the_other(
    cfg: GlmConfig,
    a: Seq<BlockSpans>,
    b: Seq<BlockSpans>,
    block: BlockSpans,
)
    ensures
        forward_steps(cfg, Seq::empty()) == Seq::<StepModel>::empty(),
        forward_steps(cfg, seq![block]) == layer_steps(cfg, block),
        forward_steps(cfg, a + b) == forward_steps(cfg, a) + forward_steps(cfg, b),
    decreases b.len(),
{
    let one = seq![block];
    assert(one.drop_last() =~= Seq::<BlockSpans>::empty());
    assert(forward_steps(cfg, one.drop_last()) =~= Seq::<StepModel>::empty());
    assert(Seq::<StepModel>::empty() + layer_steps(cfg, block) =~= layer_steps(cfg, block));
    if b.len() == 0 {
        assert(a + b =~= a);
        assert(forward_steps(cfg, a) + Seq::<StepModel>::empty() =~= forward_steps(cfg, a));
    } else {
        assert((a + b).drop_last() =~= a + b.drop_last());
        assert((a + b).last() == b.last());
        layers_run_one_after_the_other(cfg, a, b.drop_last(), block);
        assert((forward_steps(cfg, a) + forward_steps(cfg, b.drop_last())) + layer_steps(
            cfg,
            b.last(),
        ) =~= forward_steps(cfg, a) + forward_steps(cfg, b));
    }
}

/// A forward pass carries the hidden vector through all layers: each one adds its attention and
/// its network to what the layers before it left. Where there are no layers nothing changes.
pub proof fn forward_pass_carries_the_hidden_vector<V>(
    kernels: Kernels<V>,
    cfg: GlmConfig,
    blocks: Seq<BlockSpans>,
    block: BlockSpans,
    held: Map<Buffer, V>,
)
    ensures
        after_steps(kernels, forward_steps(cfg, Seq::empty()), held) == held,
        ({
            let width = cfg.hidden_size as nat;
            let inner = cfg.intermediate_size as nat;
            let before = after_steps(kernels, forward_steps(cfg, blocks), held);
            let end = after_steps(kernels, forward_steps(cfg, blocks.push(block)), held);
            let h = before[Buffer::Hidden];
            let query = (kernels.product)(
                (kernels.norm)(h, block.input_norm),
                block.q,
                1,
                width,
                width,
            );
            let turned = (kernels.rotate)(query, 0, cfg.spec_head_dim());
            let h1 = (kernels.sum)(
                h,
                (kernels.product)(turned, block.o_proj, 1, width, width),
            );
            let n1 = (kernels.norm)(h1, block.post_norm);
            let gated = (kernels.gate)(
                (kernels.product)(n1, block.mlp_gate, 1, width, inner),
                (kernels.product)(n1, block.mlp_up, 1, width, inner),
            );
            end[Buffer::Hidden] == (kernels.sum)(
                h1,
                (kernels.product)(gated, block.mlp_down, 1, inner, width),
            )
        }),
{
    let before = after_steps(kernels, forward_steps(cfg, blocks), held);
    layers_run_one_after_the_other(cfg, blocks, seq![block], block);
    assert(blocks.push(block) =~= blocks + seq![block]);
    after_both(kernels, forward_steps(cfg, blocks), layer_steps(cfg, block), held);
    layer_adds_attention_and_network(kernels, cfg, block, before);
}

/// The last step of a layer, and no other, reports: that this layer is done, to every sink, and
/// that there is something to be read, to the reader.
pub proof fn layer_reports_last(cfg: GlmConfig, block: BlockSpans, i: int)
    requires
        0 <= i < layer_steps(cfg, block).len(),
    ensures
        layer_steps(cfg, block)[i] is Report <==> i == layer_steps(cfg, block).len() - 1,
        layer_steps(cfg, block)[i] matches StepModel::Report { done, stream } ==> {
            &&& done.seq == 0 && stream.seq == 0
            &&& done.phase == "forward"@ && stream.phase == "forward"@
            &&& done.layer == Some(block.layer_idx) && stream.layer == Some(block.layer_idx)
            &&& done.detail == "layer "@ + decimal(block.layer_idx as nat) + " done"@
            &&& stream.detail == "stream"@
        },
{
}

/// The records of a compiled graph and of the first token say how large the graph is and which
/// token it is.
pub proof fn graph_and_token_are_recorded(layers: nat, hidden: nat, token: u32)
    ensures
        compile_model(layers, hidden) == (RecordModel {
            seq: 0,
            phase: "compile"@,
            layer: None,
            detail: "graph compiled: "@ + decimal(layers) + " layers, hidden "@ + decimal(hidden),
        }),
        sample_model(token) == (RecordModel {
            seq: 0,
            phase: "sample"@,
            layer: None,
            detail: "first token "@ + decimal(token as nat),
        }),
{
}

/// The token is what is left of the activation once the size of the vocabulary, or what 32 bits
/// keep of it, was taken away as often as it goes.
pub proof fn token_is_what_is_left(scaled: u32, vocab_size: usize, times: nat, left: nat)
    requires
        vocab_size as nat % 0x1_0000_0000 != 0,
        left < vocab_size as nat % 0x1_0000_0000,
        scaled == times * (vocab_size as nat % 0x1_0000_0000) + left,
    ensures
        sampled(scaled, vocab_size) == left,
        vocab_size <= u32::MAX ==> vocab_size as nat % 0x1_0000_0000 == vocab_size,
{
    vstd::arithmetic::div_mod::lemma_fundamental_div_mod_converse(
        scaled as int,
        (vocab_size as nat % 0x1_0000_0000) as int,
        times as int,
        left as int,
    );
}

/// The number of elements is a product: that of the dimensions of two shapes in a row is the
/// product of both, one dimension counts for itself, and none for one.
pub proof fn elements_multiply(a: Seq<usize>, b: Seq<usize>)
    ensures
        a.len() == 0 ==> element_count(a) == 1,
        a.len() == 1 ==> element_count(a) == a[0],
        element_count(a + b) == element_count(a) * element_count(b),
    decreases b.len(),
{
    if a.len() == 1 {
        crate::shard::vector_element_count(a);
    }
    if b.len() == 0 {
        assert(a + b =~= a);
        lemma_mul_basics(element_count(a) as int);
    } else {
        assert((a + b).drop_last() =~= a + b.drop_last());
        elements_multiply(a, b.drop_last());
        lemma_mul_is_associative(
            element_count(a) as int,
            element_count(b.drop_last()) as int,
            b.last() as int,
        );
    }
}

/// Records are numbered one by one, and after the largest number comes zero.
pub proof fn records_are_numbered_one_by_one(n: u64)
    ensures
        successor(n) == (n + 1) % 0x1_0000_0000_0000_0000,
{
}

} // verus!
