use glm_evoke::ingest::ingest_checkpoint;
use glm_evoke::ingest::Ingested;
use glm_evoke::transform::map_tensors;
use glm_evoke::transform::MappedTensor;
use glm_evoke::shard::RawTensor;
use glm_evoke::worm::DType;
use glm_evoke::worm::TensorView;
use glm_evoke::EvokeError;
use glm_evoke::GlmConfig;

fn cfg() -> GlmConfig {
    GlmConfig {
        hidden_size: 8,
        num_attention_heads: 2,
        num_key_value_heads: 1,
        num_layers: 2,
        intermediate_size: 6,
        vocab_size: 10,
        rms_norm_eps_bits: 0,
        rope_theta_bits: 0,
        tie_word_embeddings: true,
    }
}

fn raw(name: String, shape: Vec<usize>, seed: u8) -> RawTensor {
    let len: usize = shape.iter().product::<usize>() * 2;
    let data: Vec<u8> = (0..len).map(|i| (i as u8).wrapping_mul(3).wrapping_add(seed)).collect();
    RawTensor { name, dtype: "BF16".to_string(), shape, data }
}

fn layer(i: usize) -> Vec<RawTensor> {
    let name = |rest: &str| format!("transformer.encoder.layers.{}.{}", i, rest);
    let seed = 40 * i as u8;
    vec![
        raw(name("self_attention.query_key_value.weight"), vec![16, 8], seed),
        raw(name("self_attention.dense.weight"), vec![8, 8], seed + 1),
        raw(name("mlp.dense_h_to_4h.weight"), vec![12, 8], seed + 2),
        raw(name("mlp.dense_4h_to_h.weight"), vec![8, 6], seed + 3),
        raw(name("input_layernorm.weight"), vec![8], seed + 4),
        raw(name("post_attention_layernorm.weight"), vec![8], seed + 5),
    ]
}

fn mapped(tensors: Vec<RawTensor>) -> Result<Vec<MappedTensor>, EvokeError> {
    map_tensors(&cfg(), tensors).result
}

fn places(layers: &[glm_evoke::graph::GlmBlockView]) -> Vec<TensorView> {
    let mut all = Vec::new();
    for b in layers {
        for view in [
            &b.q, &b.k, &b.v, &b.o_proj, &b.mlp_gate, &b.mlp_up, &b.mlp_down, &b.input_norm,
            &b.post_norm,
        ] {
            all.push(view.clone());
        }
    }
    all
}

#[test]
fn sealed_weights_read_back() {
    let first = layer(0);
    let qkv = first[0].data.clone();
    let gate_up = first[2].data.clone();
    let norm = first[5].data.clone();
    let done = ingest_checkpoint(vec![mapped(first), mapped(layer(1))], &cfg()).unwrap();
    assert_eq!(done.record.phase, "seal");
    assert_eq!(done.record.detail, "sealing WORM region");
    assert_eq!((done.record.seq, done.record.layer), (0, None));
    let staged = done.staged().to_vec();
    let (weights, layers) = done.seal(0).unwrap();
    assert_eq!(weights.bytes(), staged.as_slice());
    assert_eq!(layers.len(), 2);
    assert_eq!((layers[0].layer_idx, layers[1].layer_idx), (0, 1));
    let block = &layers[0];
    assert_eq!(weights.slice(&block.q), &qkv[..128]);
    assert_eq!(weights.slice(&block.k), &qkv[128..192]);
    assert_eq!(weights.slice(&block.v), &qkv[192..]);
    assert_eq!(weights.slice(&block.mlp_gate), &gate_up[..96]);
    assert_eq!(weights.slice(&block.mlp_up), &gate_up[96..]);
    assert_eq!(weights.slice(&block.post_norm), norm.as_slice());
    assert_eq!(block.mlp_down.shape, vec![8, 6]);
    assert_eq!(block.k.shape, vec![4, 8]);
    assert_eq!(block.q.dtype, DType::BF16);
}

#[test]
fn places_are_aligned_and_do_not_overlap() {
    let done = ingest_checkpoint(vec![mapped(layer(0)), mapped(layer(1))], &cfg()).unwrap();
    let (weights, layers) = done.seal(0).unwrap();
    let all = places(&layers);
    assert_eq!(all.len(), 18);
    assert!(all.iter().all(|v| v.offset % 64 == 0));
    for pair in all.windows(2) {
        assert!(pair[0].offset + pair[0].len <= pair[1].offset);
    }
    let last = &all[17];
    assert_eq!(last.offset + last.len, weights.bytes().len());
}

#[test]
fn the_order_of_the_shards_does_not_matter() {
    let one = ingest_checkpoint(vec![mapped(layer(0)), mapped(layer(1))], &cfg()).unwrap();
    let two = ingest_checkpoint(vec![mapped(layer(1)), mapped(layer(0))], &cfg()).unwrap();
    same_result(one, two);
}

fn same_result(one: Ingested, two: Ingested) {
    assert_eq!(one.staged(), two.staged());
    let (a, b) = (places(&one.layers), places(&two.layers));
    assert_eq!(a.len(), b.len());
    assert!(a.iter().zip(&b).all(|(x, y)| x.offset == y.offset
        && x.len == y.len
        && x.shape == y.shape
        && x.dtype == y.dtype));
}

#[test]
fn the_split_among_files_does_not_matter() {
    let one = ingest_checkpoint(vec![mapped(layer(0)), mapped(layer(1))], &cfg()).unwrap();
    let mut tensors = layer(1);
    tensors.extend(layer(0));
    tensors.reverse();
    let rest = tensors.split_off(5);
    let two = ingest_checkpoint(vec![mapped(tensors), mapped(vec![]), mapped(rest)], &cfg()).unwrap();
    same_result(one, two);
}

#[test]
fn a_failed_memory_lock_ends_the_ingestion() {
    let done = ingest_checkpoint(vec![mapped(layer(0)), mapped(layer(1))], &cfg()).unwrap();
    match done.seal(-1) {
        Err(EvokeError::Seal(msg)) => assert_eq!(msg, "memory lock failed"),
        Err(other) => panic!("{:?}", other),
        Ok(_) => panic!("the lock failed"),
    }
}

#[test]
fn a_complete_checkpoint_of_four_byte_elements_fits() {
    let cfg = GlmConfig {
        hidden_size: 64,
        num_attention_heads: 1,
        num_key_value_heads: 1,
        num_layers: 1,
        intermediate_size: 64,
        ..cfg()
    };
    let tensors: Vec<RawTensor> = [
        ("self_attention.query_key_value.weight", vec![192, 64]),
        ("self_attention.dense.weight", vec![64, 64]),
        ("mlp.dense_h_to_4h.weight", vec![128, 64]),
        ("mlp.dense_4h_to_h.weight", vec![64, 64]),
        ("input_layernorm.weight", vec![64]),
        ("post_attention_layernorm.weight", vec![64]),
    ]
    .into_iter()
    .map(|(rest, shape)| {
        let len: usize = shape.iter().product::<usize>() * 4;
        RawTensor {
            name: format!("transformer.encoder.layers.0.{}", rest),
            dtype: "F32".to_string(),
            data: (0..len).map(|i| (i % 253) as u8).collect(),
            shape,
        }
    })
    .collect();
    let down = tensors[3].data.clone();
    let outcome = map_tensors(&cfg, tensors).result;
    let (sealed, layers) = ingest_checkpoint(vec![outcome], &cfg).unwrap().seal(0).unwrap();
    assert_eq!(layers.len(), 1);
    assert_eq!(sealed.slice(&layers[0].mlp_down), down.as_slice());
}

#[test]
fn many_tiny_layers_fit_with_their_padding() {
    let cfg = GlmConfig {
        hidden_size: 1,
        num_attention_heads: 1,
        num_key_value_heads: 1,
        num_layers: 40,
        intermediate_size: 1,
        ..cfg()
    };
    let mut tensors = Vec::new();
    for i in 0..40 {
        for (rest, shape) in [
            ("self_attention.query_key_value.weight", vec![3, 1]),
            ("self_attention.dense.weight", vec![1, 1]),
            ("mlp.dense_h_to_4h.weight", vec![2, 1]),
            ("mlp.dense_4h_to_h.weight", vec![1, 1]),
            ("input_layernorm.weight", vec![1]),
            ("post_attention_layernorm.weight", vec![1]),
        ] {
            tensors.push(raw(format!("transformer.encoder.layers.{}.{}", i, rest), shape, 0));
        }
    }
    let outcome = map_tensors(&cfg, tensors).result;
    assert_eq!(ingest_checkpoint(vec![outcome], &cfg).unwrap().layers.len(), 40);
}

#[test]
fn a_missing_tensor_is_named() {
    let mut second = layer(1);
    second.remove(3);
    match ingest_checkpoint(vec![mapped(layer(0)), mapped(second)], &cfg()) {
        Err(EvokeError::Config(msg)) => assert_eq!(msg, "missing layer.1.mlp.down"),
        Err(other) => panic!("{:?}", other),
        Ok(_) => panic!("a tensor is missing"),
    }
}

#[test]
fn a_tensor_in_two_shards_is_refused() {
    match ingest_checkpoint(vec![mapped(layer(0)), mapped(layer(0))], &cfg()) {
        Err(EvokeError::Config(msg)) => {
            assert_eq!(msg, "duplicate tensor key: layer.0.attn.q")
        }
        Err(other) => panic!("{:?}", other),
        Ok(_) => panic!("a key occurs twice"),
    }
}

#[test]
fn the_first_failed_shard_decides() {
    let failed = |name: &str| Err(EvokeError::Shard { shard: name.to_string(), msg: String::new() });
    match ingest_checkpoint(vec![mapped(layer(0)), failed("b"), failed("c")], &cfg()) {
        Err(EvokeError::Shard { shard, .. }) => assert_eq!(shard, "b"),
        Err(other) => panic!("{:?}", other),
        Ok(_) => panic!("a shard failed"),
    }
}

#[test]
fn the_configuration_is_checked_first() {
    let bad = GlmConfig { num_layers: 0, ..cfg() };
    match ingest_checkpoint(vec![Err(EvokeError::Io("later".to_string()))], &bad) {
        Err(EvokeError::Config(msg)) => assert_eq!(msg, "num_layers must be > 0"),
        Err(other) => panic!("{:?}", other),
        Ok(_) => panic!("no layers"),
    }
}

#[test]
fn a_tensor_that_outgrows_the_arena_is_refused() {
    let mut first = map_tensors(&cfg(), layer(0)).result.unwrap();
    for tensor in first.iter_mut() {
        if tensor.key == "layer.0.attn.o_proj" {
            tensor.data = vec![0; 1_000_000];
        }
    }
    match ingest_checkpoint(vec![Ok(first), mapped(layer(1))], &cfg()) {
        Err(EvokeError::Shard { shard, msg }) => {
            assert_eq!(shard, "layer.0.attn.o_proj");
            let capacity = cfg().staging_capacity().unwrap();
            assert_eq!(msg, format!("OOM: need 1000256, capacity {}", capacity));
        }
        Err(other) => panic!("{:?}", other),
        Ok(_) => panic!("does not fit"),
    }
}
