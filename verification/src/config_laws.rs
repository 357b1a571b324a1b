//! How the dimensions of a model hang together, and how much room it is given.

use vstd::arithmetic::div_mod::*;
use vstd::arithmetic::mul::*;
use vstd::prelude::*;

use crate::config::GlmConfig;
use crate::error::EvokeFault;

verus! {

/// The heads share the hidden vector: each is as wide as it can be without all of them together
/// being wider than the vector.
pub proof fn heads_share_the_hidden_vector(cfg: GlmConfig, width: nat)
    requires
        cfg.num_attention_heads != 0,
    ensures
        cfg.spec_head_dim() == width <==> cfg.num_attention_heads as nat * width <= cfg.hidden_size
            < cfg.num_attention_heads as nat * (width + 1),
{
    let hidden = cfg.hidden_size as int;
    let heads = cfg.num_attention_heads as int;
    let w = width as int;
    assert(heads * (w + 1) == heads * w + heads) by (nonlinear_arith);
    lemma_fundamental_div_mod(hidden, heads);
    if heads * w <= hidden < heads * w + heads {
        lemma_mul_is_commutative(heads, w);
        lemma_fundamental_div_mod_converse(hidden, heads, w, hidden - heads * w);
    }
}

/// Each head of keys adds the width of a head to the keys, and without heads they have no width.
/// The fused matrix has the rows of the queries, of the keys and of the values.
pub proof fn key_heads_add_up(cfg: GlmConfig, n: usize)
    requires
        cfg.num_attention_heads != 0,
        n < usize::MAX,
    ensures
        (GlmConfig { num_key_value_heads: 0, ..cfg }).spec_kv_dim() == 0,
        (GlmConfig { num_key_value_heads: (n + 1) as usize, ..cfg }).spec_kv_dim() == (GlmConfig {
            num_key_value_heads: n,
            ..cfg
        }).spec_kv_dim() + cfg.spec_head_dim(),
        cfg.spec_qkv_fused_dim() == cfg.hidden_size + cfg.spec_kv_dim() + cfg.spec_kv_dim(),
{
    let width = cfg.spec_head_dim() as int;
    lemma_mul_basics(width);
    lemma_mul_is_distributive_add(width, n as int, 1);
}

/// A configuration is valid exactly if its heads fill the hidden vector and it has a layer. The
/// first of these rules that it breaks is the one that is reported.
pub proof fn valid_heads_fill_the_hidden_vector(cfg: GlmConfig)
    requires
        cfg.num_attention_heads != 0,
    ensures
        ({
            let filled = exists|width: int|
                cfg.hidden_size == #[trigger] (cfg.num_attention_heads * width);
            &&& cfg.valid() <==> filled && cfg.num_layers > 0
            &&& !filled ==> cfg.fault() == EvokeFault::Config(
                "hidden_size must divide num_attention_heads"@,
            )
            &&& filled && cfg.num_layers == 0 ==> cfg.fault() == EvokeFault::Config(
                "num_layers must be > 0"@,
            )
        }),
{
    let hidden = cfg.hidden_size as int;
    let heads = cfg.num_attention_heads as int;
    lemma_fundamental_div_mod(hidden, heads);
    if hidden % heads == 0 {
        assert(hidden == heads * (hidden / heads));
        assert(cfg.hidden_size == cfg.num_attention_heads * (hidden / heads));
    }
    if exists|width: int| cfg.hidden_size == #[trigger] (cfg.num_attention_heads * width) {
        let width = choose|width: int|
            cfg.hidden_size == #[trigger] (cfg.num_attention_heads * width);
        lemma_mod_multiples_basic(width, heads);
        lemma_mul_is_commutative(heads, width);
    }
}

/// The arena has a kibibyte and, for each layer, four bytes for every element of its nine tensors
/// and 64 more for each of the nine.
pub proof fn each_layer_adds_its_room(cfg: GlmConfig, n: usize)
    requires
        n < usize::MAX,
    ensures
        (GlmConfig { num_layers: 0, ..cfg }).staging_bytes() == 1024,
        ({
            let h = cfg.hidden_size as nat;
            let kv = cfg.spec_kv_dim();
            let inner = cfg.intermediate_size as nat;
            let attention = h * h + kv * h + kv * h + h * h;
            let network = inner * h + inner * h + h * inner;
            (GlmConfig { num_layers: (n + 1) as usize, ..cfg }).staging_bytes() == (GlmConfig {
                num_layers: n,
                ..cfg
            }).staging_bytes() + 4 * (attention + network + h + h) + 9 * 64
        }),
{
    let h = cfg.hidden_size as nat;
    let kv = cfg.spec_kv_dim();
    let inner = cfg.intermediate_size as nat;
    let b = cfg.layer_bytes() as int;
    lemma_mul_basics(b);
    lemma_mul_is_distributive_add_other_way(b, n as int, 1);
    assert((h + 2 * kv) * h == h * h + kv * h + kv * h) by (nonlinear_arith);
    lemma_mul_is_commutative(inner as int, h as int);
}

/// A model that has a layer can be given an arena exactly if the arena has no more bytes than the
/// largest buffer, and twice the inner width is a machine number.
pub proof fn room_is_limited_by_the_largest_buffer(cfg: GlmConfig)
    requires
        cfg.num_layers > 0,
    ensures
        cfg.arena_fits() <==> 2 * cfg.intermediate_size <= usize::MAX && cfg.staging_bytes()
            <= isize::MAX,
{
    let n = cfg.num_layers as nat;
    let b = cfg.layer_bytes();
    assert(b <= n * b) by (nonlinear_arith)
        requires
            n >= 1,
    ;
}

} // verus!
