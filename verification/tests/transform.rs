use glm_evoke::keys::canonical_glm_key;
use glm_evoke::keys::layer_key_text;
use glm_evoke::shard::RawTensor;
use glm_evoke::transform::assert_expected_shape;
use glm_evoke::transform::dtype_of;
use glm_evoke::transform::map_shard;
use glm_evoke::transform::map_tensor;
use glm_evoke::transform::map_tensors;
use glm_evoke::transform::split_fused_qkv;
use glm_evoke::transform::split_mlp_gate_up;
use glm_evoke::transform::splits_nothing;
use glm_evoke::worm::DType;
use glm_evoke::EvokeError;
use glm_evoke::GlmConfig;
use safetensors::tensor::Dtype;
use safetensors::tensor::TensorView;
use std::collections::HashMap;

fn cfg() -> GlmConfig {
    GlmConfig {
        hidden_size: 4,
        num_attention_heads: 2,
        num_key_value_heads: 1,
        num_layers: 2,
        intermediate_size: 3,
        vocab_size: 10,
        rms_norm_eps_bits: 0,
        rope_theta_bits: 0,
        tie_word_embeddings: true,
    }
}

fn raw(name: &str, dtype: &str, shape: Vec<usize>, len: usize) -> RawTensor {
    let data: Vec<u8> = (0..len).map(|i| (i % 251) as u8).collect();
    RawTensor { name: name.to_string(), dtype: dtype.to_string(), shape, data }
}

const QKV: &str = "transformer.encoder.layers.1.self_attention.query_key_value.weight";

#[test]
fn keys_of_every_role() {
    let layer = |rest: &str| format!("transformer.encoder.layers.12.{}", rest);
    let role = |rest: &str| canonical_glm_key(&layer(rest));
    assert_eq!(role("self_attention.query_key_value.weight"), Some((12, "attn.qkv")));
    assert_eq!(role("self_attention.dense.weight"), Some((12, "attn.o_proj")));
    assert_eq!(role("mlp.dense_h_to_4h.weight"), Some((12, "mlp.gate_up")));
    assert_eq!(role("mlp.dense_4h_to_h.weight"), Some((12, "mlp.down")));
    assert_eq!(role("input_layernorm.weight"), Some((12, "input_norm")));
    assert_eq!(role("post_attention_layernorm.weight"), Some((12, "post_norm")));
}

#[test]
fn keys_that_are_not_known() {
    assert_eq!(canonical_glm_key("transformer.embedding.weight"), None);
    assert_eq!(canonical_glm_key("a.layers.3"), None);
    assert_eq!(canonical_glm_key("a.layers.x.input_layernorm.weight"), None);
    assert_eq!(canonical_glm_key("a.layers..input_layernorm.weight"), None);
    assert_eq!(canonical_glm_key("a.layers.-1.input_layernorm.weight"), None);
    assert_eq!(canonical_glm_key("a.layers.3.input_layernorm.bias"), None);
    assert_eq!(
        canonical_glm_key("a.layers.99999999999999999999.input_layernorm.weight"),
        None
    );
}

#[test]
fn keys_read_the_first_layer_number() {
    assert_eq!(
        canonical_glm_key("a.layers.+7.layers.8.input_layernorm.weight"),
        Some((7, "input_norm"))
    );
    assert_eq!(canonical_glm_key("é.layers.007.input_layernorm.weight"), Some((7, "input_norm")));
}

#[test]
fn library_keys_name_layer_and_part() {
    assert_eq!(layer_key_text(0, "attn.q"), "layer.0.attn.q");
    assert_eq!(layer_key_text(120, "post_norm"), "layer.120.post_norm");
    assert_ne!(layer_key_text(1, "1.x"), layer_key_text(11, "x"));
}

#[test]
fn shapes_are_checked_against_the_configuration() {
    let cfg = cfg();
    assert!(assert_expected_shape(&cfg, "attn.qkv", &[8, 4], "n").is_ok());
    assert!(assert_expected_shape(&cfg, "attn.o_proj", &[4, 4], "n").is_ok());
    assert!(assert_expected_shape(&cfg, "mlp.gate_up", &[6, 4], "n").is_ok());
    assert!(assert_expected_shape(&cfg, "mlp.down", &[4, 3], "n").is_ok());
    assert!(assert_expected_shape(&cfg, "input_norm", &[4], "n").is_ok());
    assert!(assert_expected_shape(&cfg, "post_norm", &[4], "n").is_ok());
    match assert_expected_shape(&cfg, "mlp.down", &[3, 4], "n") {
        Err(EvokeError::ShapeMismatch { key, expected, got }) => {
            assert_eq!((key.as_str(), expected, got), ("n", vec![4, 3], vec![3, 4]));
        }
        other => panic!("{:?}", other),
    }
    match assert_expected_shape(&cfg, "mlp.other", &[1], "n") {
        Err(EvokeError::Config(msg)) => assert_eq!(msg, "no shape rule for mlp.other (n)"),
        other => panic!("{:?}", other),
    }
}

#[test]
fn element_types() {
    assert_eq!(dtype_of("F32"), DType::F32);
    assert_eq!(dtype_of("F16"), DType::F16);
    assert_eq!(dtype_of("BF16"), DType::BF16);
    assert_eq!(dtype_of("I64"), DType::BF16);
}

#[test]
fn fused_attention_is_split_by_rows() {
    let data: Vec<u8> = (0..64).collect();
    let parts = split_fused_qkv(&data, &[8, 4], &cfg()).unwrap();
    assert_eq!(parts.len(), 3);
    assert_eq!((parts[0].tag, parts[0].shape.clone()), ("q", vec![4, 4]));
    assert_eq!((parts[1].tag, parts[1].shape.clone()), ("k", vec![2, 4]));
    assert_eq!((parts[2].tag, parts[2].shape.clone()), ("v", vec![2, 4]));
    assert_eq!(parts[0].data, data[..32].to_vec());
    assert_eq!(parts[1].data, data[32..48].to_vec());
    assert_eq!(parts[2].data, data[48..].to_vec());
}

#[test]
fn fused_attention_keeps_every_byte() {
    let data: Vec<u8> = (0..128).collect();
    let parts = split_fused_qkv(&data, &[8, 4], &cfg()).unwrap();
    let joined: Vec<u8> = parts.iter().flat_map(|p| p.data.clone()).collect();
    assert_eq!(joined, data);
    for part in &parts {
        assert_eq!(part.data.len(), part.shape[0] * part.shape[1] * 4);
    }
}

#[test]
fn fused_attention_with_odd_elements_is_refused() {
    match split_fused_qkv(&[0; 96], &[8, 4], &cfg()) {
        Err(EvokeError::Config(msg)) => assert_eq!(msg, "unexpected elem size 3 for qkv"),
        other => panic!("{:?}", other),
    }
    match split_fused_qkv(&[0; 40], &[5, 4], &cfg()) {
        Err(EvokeError::Config(msg)) => assert_eq!(msg, "qkv row mismatch: 5 vs 8"),
        other => panic!("{:?}", other),
    }
}

#[test]
fn gate_and_up_are_split_in_halves() {
    let data: Vec<u8> = (0..48).collect();
    let parts = split_mlp_gate_up(&data, &[6, 4], &cfg()).unwrap();
    assert_eq!(parts.len(), 2);
    assert_eq!((parts[0].tag, parts[0].shape.clone()), ("gate", vec![3, 4]));
    assert_eq!((parts[1].tag, parts[1].shape.clone()), ("up", vec![3, 4]));
    assert_eq!(parts[0].data, data[..24].to_vec());
    assert_eq!(parts[1].data, data[24..].to_vec());
    match split_mlp_gate_up(&data, &[4, 4], &cfg()) {
        Err(EvokeError::Config(msg)) => assert_eq!(msg, "mlp gate_up row mismatch 4"),
        other => panic!("{:?}", other),
    }
}

#[test]
fn a_tensor_is_mapped_under_the_keys_of_its_layer() {
    let (layer, parts) = map_tensor(&cfg(), raw(QKV, "F16", vec![8, 4], 64)).unwrap();
    assert_eq!(layer, 1);
    let keys: Vec<&str> = parts.iter().map(|p| p.key.as_str()).collect();
    assert_eq!(keys, vec!["layer.1.attn.q", "layer.1.attn.k", "layer.1.attn.v"]);
    assert!(parts.iter().all(|p| p.dtype == DType::F16));

    let name = "x.layers.0.mlp.dense_h_to_4h.weight";
    let (_, parts) = map_tensor(&cfg(), raw(name, "BF16", vec![6, 4], 48)).unwrap();
    let keys: Vec<&str> = parts.iter().map(|p| p.key.as_str()).collect();
    assert_eq!(keys, vec!["layer.0.mlp.gate", "layer.0.mlp.up"]);

    let name = "x.layers.0.post_attention_layernorm.weight";
    let (_, parts) = map_tensor(&cfg(), raw(name, "F32", vec![4], 16)).unwrap();
    assert_eq!(parts.len(), 1);
    assert_eq!(parts[0].key, "layer.0.post_norm");
    assert_eq!(parts[0].data.len(), 16);
}

#[test]
fn tensors_that_cannot_be_mapped() {
    match map_tensor(&cfg(), raw("lm_head.weight", "F32", vec![1], 4)) {
        Err(EvokeError::Config(msg)) => assert_eq!(msg, "unknown key: lm_head.weight"),
        other => panic!("{:?}", other),
    }
    let name = "x.layers.2.input_layernorm.weight";
    match map_tensor(&cfg(), raw(name, "F32", vec![4], 16)) {
        Err(EvokeError::ShapeMismatch { key, expected, got }) => {
            assert_eq!((key.as_str(), expected, got), (name, vec![2], vec![2]));
        }
        other => panic!("{:?}", other),
    }
    let name = "x.layers.1.input_layernorm.weight";
    match map_tensor(&cfg(), raw(name, "F32", vec![5], 20)) {
        Err(EvokeError::ShapeMismatch { expected, got, .. }) => {
            assert_eq!((expected, got), (vec![4], vec![5]));
        }
        other => panic!("{:?}", other),
    }
}

#[test]
fn a_shard_is_mapped_up_to_the_first_error() {
    let good = raw("x.layers.0.input_layernorm.weight", "F32", vec![4], 16);
    let bad = raw("nonsense", "F32", vec![4], 16);
    let late = raw("x.layers.0.post_attention_layernorm.weight", "F32", vec![4], 16);
    let shard = map_tensors(&cfg(), vec![good, bad, late]);
    assert_eq!(shard.records.len(), 1);
    assert_eq!(shard.records[0].phase, "map");
    assert_eq!(shard.records[0].layer, Some(0));
    assert_eq!(shard.records[0].seq, 0);
    assert_eq!(shard.records[0].detail, "mapped x.layers.0.input_layernorm.weight");
    match shard.result {
        Err(EvokeError::Config(msg)) => assert_eq!(msg, "unknown key: nonsense"),
        other => panic!("{:?}", other),
    }
}

#[test]
fn fused_matrices_without_elements_are_told_apart() {
    let none = GlmConfig { hidden_size: 0, ..cfg() };
    assert!(splits_nothing(&none, &raw(QKV, "F32", vec![0, 0], 0)));
    assert!(!splits_nothing(&cfg(), &raw(QKV, "F32", vec![8, 4], 128)));
    assert!(!splits_nothing(&none, &raw("other", "F32", vec![0, 0], 0)));
}

fn file(tensors: &[(&str, Dtype, Vec<usize>, Vec<u8>)]) -> Vec<u8> {
    let views: HashMap<String, TensorView<'_>> = tensors
        .iter()
        .map(|(name, dtype, shape, data)| {
            (name.to_string(), TensorView::new(*dtype, shape.clone(), data).unwrap())
        })
        .collect();
    safetensors::serialize(&views, &None).unwrap()
}

#[test]
fn a_file_is_read_and_mapped() {
    let data: Vec<u8> = (0..64).collect();
    let norm: Vec<u8> = (100..108).collect();
    let bytes = file(&[
        (QKV, Dtype::F16, vec![8, 4], data.clone()),
        ("x.layers.0.input_layernorm.weight", Dtype::BF16, vec![4], norm.clone()),
    ]);
    let shard = map_shard("one.safetensors", &bytes, &cfg()).unwrap();
    assert_eq!(shard.records.len(), 2);
    let mut tensors = shard.result.unwrap();
    tensors.sort_by(|a, b| a.key.cmp(&b.key));
    let keys: Vec<&str> = tensors.iter().map(|t| t.key.as_str()).collect();
    assert_eq!(
        keys,
        vec!["layer.0.input_norm", "layer.1.attn.k", "layer.1.attn.q", "layer.1.attn.v"]
    );
    assert_eq!(tensors[0].data, norm);
    assert_eq!(tensors[0].dtype, DType::BF16);
    assert_eq!(tensors[1].data, data[32..48].to_vec());
    assert_eq!(tensors[1].dtype, DType::F16);
    assert_eq!(tensors[2].shape, vec![4, 4]);
}

#[test]
fn a_file_that_is_not_well_formed_names_its_shard() {
    let shard = map_shard("broken.safetensors", &[1, 2, 3], &cfg()).unwrap();
    assert!(shard.records.is_empty());
    match shard.result {
        Err(EvokeError::Shard { shard, msg }) => {
            assert_eq!(shard, "broken.safetensors");
            assert!(!msg.is_empty());
        }
        other => panic!("{:?}", other),
    }
}

fn with_header(header: &str) -> Vec<u8> {
    let mut bytes = (header.len() as u64).to_le_bytes().to_vec();
    bytes.extend_from_slice(header.as_bytes());
    bytes
}

#[test]
fn a_file_whose_offsets_overflow_names_its_shard() {
    let huge = usize::MAX;
    for count in [1, huge] {
        let header = format!(
            "{{\"t\":{{\"dtype\":\"U8\",\"shape\":[{}],\"data_offsets\":[0,{}]}}}}",
            count, huge
        );
        let shard = map_shard("wide.safetensors", &with_header(&header), &cfg()).unwrap();
        assert!(shard.records.is_empty());
        match shard.result {
            Err(EvokeError::Shard { shard, .. }) => assert_eq!(shard, "wide.safetensors"),
            other => panic!("{:?}", other),
        }
    }
}

#[test]
fn large_numbers_that_are_no_offsets_are_read() {
    let header = format!(
        "{{\"foo\":{{\"dtype\":\"U8\",\"shape\":[0,{}],\"data_offsets\":[0,0]}}}}",
        usize::MAX
    );
    match map_shard("s", &with_header(&header), &cfg()).unwrap().result {
        Err(EvokeError::Config(msg)) => assert_eq!(msg, "unknown key: foo"),
        other => panic!("{:?}", other),
    }
    let header = format!("{{\"foo\":{}", usize::MAX);
    match map_shard("s", &with_header(&header), &cfg()).unwrap().result {
        Err(EvokeError::Shard { shard, .. }) => assert_eq!(shard, "s"),
        other => panic!("{:?}", other),
    }
}

#[test]
fn large_numbers_in_strings_are_no_offsets() {
    let header = format!("{{\"__metadata__\":{{\"a\\\"b\":\"{}\"}}}}", usize::MAX);
    let shard = map_shard("s", &with_header(&header), &cfg()).unwrap();
    assert!(shard.result.unwrap().is_empty());
}

#[test]
fn a_file_with_an_empty_fused_matrix_is_not_mapped() {
    let none = GlmConfig { hidden_size: 0, ..cfg() };
    let bytes = file(&[(QKV, Dtype::F32, vec![0, 0], vec![])]);
    assert!(map_shard("s", &bytes, &none).is_none());
}
