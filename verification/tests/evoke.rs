use glm_evoke::evoke::compile_record;
use glm_evoke::evoke::embedding_slot;
use glm_evoke::evoke::expanded_len;
use glm_evoke::evoke::forward_plan;
use glm_evoke::evoke::plan_layer;
use glm_evoke::evoke::sample_record;
use glm_evoke::evoke::sample_token;
use glm_evoke::evoke::Buffer;
use glm_evoke::evoke::ForwardStep;
use glm_evoke::evoke::LAYER_STEPS;
use glm_evoke::graph::ExecutionGraph;
use glm_evoke::graph::GlmBlockView;
use glm_evoke::telemetry::ExecutionRecord;
use glm_evoke::telemetry::TelemetrySink;
use glm_evoke::worm::DType;
use glm_evoke::worm::TensorView;
use glm_evoke::worm::WormMemoryManager;
use glm_evoke::GlmConfig;
use std::collections::HashMap;
use std::sync::Arc;

fn cfg() -> GlmConfig {
    GlmConfig {
        hidden_size: 8,
        num_attention_heads: 2,
        num_key_value_heads: 1,
        num_layers: 2,
        intermediate_size: 6,
        vocab_size: 10,
        rms_norm_eps_bits: 0,
        rope_theta_bits: 0,
        tie_word_embeddings: true,
    }
}

fn view(offset: usize, shape: Vec<usize>) -> TensorView {
    TensorView { offset, len: 0, shape, dtype: DType::F32 }
}

fn block(layer_idx: usize) -> GlmBlockView {
    GlmBlockView {
        layer_idx,
        q: view(0, vec![8, 8]),
        k: view(1, vec![4, 8]),
        v: view(2, vec![4, 8]),
        o_proj: view(3, vec![8, 8]),
        mlp_gate: view(4, vec![6, 8]),
        mlp_up: view(5, vec![6, 8]),
        mlp_down: view(6, vec![8, 6]),
        input_norm: view(7, vec![8]),
        post_norm: view(8, vec![8]),
    }
}

fn outline(step: &ForwardStep) -> String {
    match step {
        ForwardStep::RmsNorm { input, weight, output } => {
            format!("{:?} = norm {:?} w{}", output, input, weight.offset)
        }
        ForwardStep::MatMul { input, weight, m, k, n, output } => {
            format!("{:?} = {:?} * w{} {}x{}x{}", output, input, weight.offset, m, k, n)
        }
        ForwardStep::Rope { target, pos, head_dim } => {
            format!("rope {:?} {} {}", target, pos, head_dim)
        }
        ForwardStep::Sum { left, right, output } => {
            format!("{:?} = {:?} + {:?}", output, left, right)
        }
        ForwardStep::SiluProduct { gate, up, output } => {
            format!("{:?} = silu {:?} {:?}", output, gate, up)
        }
        ForwardStep::Report { done, stream } => {
            format!("{}/{:?}/{}/{}", done.phase, done.layer, done.detail, stream.detail)
        }
    }
}

#[test]
fn a_layer_is_planned_step_by_step() {
    let steps: Vec<String> = plan_layer(&cfg(), &block(5)).iter().map(outline).collect();
    assert_eq!(
        steps,
        vec![
            "Normed = norm Hidden w7",
            "Query = Normed * w0 1x8x8",
            "Key = Normed * w1 1x8x4",
            "Value = Normed * w2 1x8x4",
            "rope Query 0 4",
            "Projected = Query * w3 1x8x8",
            "Hidden = Hidden + Projected",
            "Normed = norm Hidden w8",
            "Gate = Normed * w4 1x8x6",
            "Up = Normed * w5 1x8x6",
            "Gated = silu Gate Up",
            "Down = Gated * w6 1x6x8",
            "Hidden = Hidden + Down",
            "forward/Some(5)/layer 5 done/stream",
        ]
    );
}

#[test]
fn every_layer_of_a_pass_reports_once() {
    let layers = vec![block(0), block(1), block(2)];
    let plan = forward_plan(&cfg(), &layers);
    assert_eq!(plan.len(), 3 * LAYER_STEPS);
    let reports: Vec<usize> = plan
        .iter()
        .enumerate()
        .filter(|(_, s)| matches!(s, ForwardStep::Report { .. }))
        .map(|(i, _)| i)
        .collect();
    assert_eq!(reports, vec![13, 27, 41]);
    assert!(forward_plan(&cfg(), &vec![]).is_empty());
    let headless = GlmConfig { num_attention_heads: 0, ..cfg() };
    assert!(forward_plan(&headless, &vec![]).is_empty());
}

#[test]
fn a_pass_stays_within_its_buffers() {
    let layers = vec![block(0), block(1)];
    let mut lengths: HashMap<String, usize> = HashMap::new();
    let name = |b: &Buffer| format!("{:?}", b);
    lengths.insert("Hidden".to_string(), 8);
    for step in forward_plan(&cfg(), &layers) {
        match step {
            ForwardStep::RmsNorm { input, weight, output } => {
                let n = lengths[&name(&input)];
                assert_eq!(n, expanded_len(&weight));
                lengths.insert(name(&output), n);
            }
            ForwardStep::MatMul { input, weight, m, k, n, output } => {
                assert_eq!(lengths[&name(&input)], m * k);
                assert_eq!(expanded_len(&weight), k * n);
                lengths.insert(name(&output), m * n);
            }
            ForwardStep::Rope { target, head_dim, .. } => {
                assert_eq!(lengths[&name(&target)] % head_dim, 0);
            }
            ForwardStep::Sum { left, right, output } => {
                assert_eq!(lengths[&name(&left)], lengths[&name(&right)]);
                lengths.insert(name(&output), lengths[&name(&left)]);
            }
            ForwardStep::SiluProduct { gate, up, output } => {
                assert_eq!(lengths[&name(&gate)], lengths[&name(&up)]);
                lengths.insert(name(&output), lengths[&name(&gate)]);
            }
            ForwardStep::Report { .. } => {}
        }
    }
    assert_eq!(lengths["Hidden"], 8);
}

#[test]
fn expanded_weights_have_as_many_elements_as_their_shape() {
    assert_eq!(expanded_len(&view(0, vec![])), 1);
    assert_eq!(expanded_len(&view(0, vec![3, 5, 7])), 105);
    assert_eq!(expanded_len(&view(0, vec![3, 0])), 0);
}

#[test]
fn inputs_wrap_around_the_hidden_vector() {
    assert_eq!(embedding_slot(0, 8), 0);
    assert_eq!(embedding_slot(7, 8), 7);
    assert_eq!(embedding_slot(17, 8), 1);
}

#[test]
fn the_first_token_is_below_the_vocabulary_size() {
    assert_eq!(sample_token(1234, 1000), 234);
    assert_eq!(sample_token(999, 1000), 999);
    assert_eq!(sample_token(u32::MAX, 65024), u32::MAX % 65024);
}

#[test]
fn records_of_compilation_and_sampling() {
    let record = compile_record(28, 4096);
    assert_eq!(record.phase, "compile");
    assert_eq!(record.detail, "graph compiled: 28 layers, hidden 4096");
    assert_eq!((record.seq, record.layer), (0, None));
    let record = sample_record(42);
    assert_eq!(record.phase, "sample");
    assert_eq!(record.detail, "first token 42");
}

struct Silent;

impl TelemetrySink for Silent {
    fn emit(&self, _record: ExecutionRecord) {}
}

#[test]
fn a_graph_holds_its_parts() {
    let weights = WormMemoryManager::new(16).seal(0).unwrap();
    let sink: Arc<dyn TelemetrySink> = Arc::new(Silent);
    let graph = ExecutionGraph::new(Arc::new(cfg()), weights, vec![block(0)], sink);
    assert_eq!(graph.config.hidden_size, 8);
    assert_eq!(graph.layers.len(), 1);
    assert!(graph.weights.bytes().is_empty());
}
