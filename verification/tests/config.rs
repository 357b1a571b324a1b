use glm_evoke::EvokeError;
use glm_evoke::GlmConfig;

fn small() -> GlmConfig {
    GlmConfig {
        hidden_size: 8,
        num_attention_heads: 4,
        num_key_value_heads: 2,
        num_layers: 3,
        intermediate_size: 16,
        vocab_size: 100,
        rms_norm_eps_bits: 1e-5f32.to_bits(),
        rope_theta_bits: 10000.0f32.to_bits(),
        tie_word_embeddings: false,
    }
}

#[test]
fn dimensions_follow_from_the_heads() {
    let cfg = small();
    assert_eq!(cfg.head_dim(), 2);
    assert_eq!(cfg.kv_dim(), 4);
    assert_eq!(cfg.qkv_fused_dim(), 16);
}

#[test]
fn valid_configuration_is_accepted() {
    assert!(small().validate().is_ok());
}

#[test]
fn uneven_heads_are_refused_before_missing_layers() {
    let cfg = GlmConfig { hidden_size: 9, num_layers: 0, ..small() };
    match cfg.validate() {
        Err(EvokeError::Config(msg)) => {
            assert_eq!(msg, "hidden_size must divide num_attention_heads")
        }
        other => panic!("{:?}", other),
    }
}

#[test]
fn missing_layers_are_refused() {
    let cfg = GlmConfig { num_layers: 0, ..small() };
    match cfg.validate() {
        Err(EvokeError::Config(msg)) => assert_eq!(msg, "num_layers must be > 0"),
        other => panic!("{:?}", other),
    }
}

#[test]
fn arena_size_covers_all_tensors_and_their_padding() {
    // Three layers of 16 * 8 + 8 * 8 + 3 * 16 * 8 + 2 * 8 elements, four bytes each, with 64 bytes
    // for each of nine tensors, and a kibibyte.
    let layer = (128 + 64 + 384 + 16) * 4 + 9 * 64;
    assert_eq!(small().staging_capacity(), Some(3 * layer + 1024));
    assert_eq!(GlmConfig { num_layers: 0, ..small() }.staging_capacity(), Some(1024));
}

#[test]
fn arena_size_beyond_the_machine_is_refused() {
    let cfg = GlmConfig { num_layers: usize::MAX, ..small() };
    assert_eq!(cfg.staging_capacity(), None);
    let cfg = GlmConfig { intermediate_size: usize::MAX, ..small() };
    assert_eq!(cfg.staging_capacity(), None);
    let cfg = GlmConfig { num_key_value_heads: usize::MAX, ..small() };
    assert_eq!(cfg.staging_capacity(), None);
}

#[test]
fn error_texts() {
    assert_eq!(EvokeError::Config("c".to_string()).message(), "config error: c");
    assert_eq!(
        EvokeError::ShapeMismatch {
            key: "k".to_string(),
            expected: vec![1, 20],
            got: vec![],
        }
        .message(),
        "shape mismatch for k: expected [1, 20], got []"
    );
    assert_eq!(
        EvokeError::Shard { shard: "s".to_string(), msg: "m".to_string() }.message(),
        "shard error s: m"
    );
    assert_eq!(EvokeError::Seal("x".to_string()).message(), "seal violation: x");
    assert_eq!(EvokeError::Backend("b".to_string()).message(), "backend error: b");
    assert_eq!(EvokeError::Io("i".to_string()).message(), "io error: i");
}
