//! The model configuration: its dimensions and the rules that it must meet.

use vstd::arithmetic::mul::*;
use vstd::prelude::*;

use crate::error::EvokeError;
use crate::error::EvokeFault;

verus! {

/// Bytes that the alignment of the nine tensors of a layer takes at most.
pub const LAYER_PADDING: usize = 576;

/// The hyper-parameters of a GLM checkpoint.
///
/// The two numerical parameters are kept as the bit patterns of single-precision numbers: no
/// rule of the library reads them, they are handed on to the numerical backend unchanged.
#[derive(Debug, Clone, Copy)]
pub struct GlmConfig {
    pub hidden_size: usize,
    pub num_attention_heads: usize,
    pub num_key_value_heads: usize,
    pub num_layers: usize,
    pub intermediate_size: usize,
    pub vocab_size: usize,
    pub rms_norm_eps_bits: u32,
    pub rope_theta_bits: u32,
    pub tie_word_embeddings: bool,
}

impl GlmConfig {
    /// Width of one attention head.
    pub open spec fn spec_head_dim(self) -> nat {
        (self.hidden_size / self.num_attention_heads) as nat
    }

    /// Width of the keys, and of the values.
    pub open spec fn spec_kv_dim(self) -> nat {
        self.spec_head_dim() * self.num_key_value_heads as nat
    }

    /// Rows of the fused query, key and value matrix.
    pub open spec fn spec_qkv_fused_dim(self) -> nat {
        self.hidden_size as nat + 2 * self.spec_kv_dim()
    }

    /// Elements of one layer: the fused attention matrix, the output matrix, the three matrices of
    /// the gated network, and the two norms.
    pub open spec fn layer_elements(self) -> nat {
        self.spec_qkv_fused_dim() * self.hidden_size as nat + self.hidden_size as nat
            * self.hidden_size as nat + 3 * (self.intermediate_size as nat
            * self.hidden_size as nat) + 2 * self.hidden_size as nat
    }

    /// Bytes that the arena reserves for one layer: four for each element, and the padding in
    /// front of each tensor.
    pub open spec fn layer_bytes(self) -> nat {
        self.layer_elements() * 4 + LAYER_PADDING as nat
    }

    /// Bytes that the arena reserves for the whole model, and a kibibyte.
    pub open spec fn staging_bytes(self) -> nat {
        self.num_layers as nat * self.layer_bytes() + 1024
    }

    /// The rules that [`GlmConfig::validate`] checks.
    pub open spec fn valid(self) -> bool {
        self.hidden_size % self.num_attention_heads == 0 && self.num_layers != 0
    }

    /// Whether the dimensions that the tensors of one layer are checked against can be computed.
    pub open spec fn dims_fit(self) -> bool {
        &&& self.num_attention_heads != 0
        &&& self.spec_qkv_fused_dim() <= usize::MAX
        &&& self.spec_qkv_fused_dim() * self.hidden_size as nat <= usize::MAX
        &&& 2 * self.intermediate_size <= usize::MAX
        &&& 2 * self.intermediate_size as nat * self.hidden_size as nat <= usize::MAX
    }

    /// Width of one attention head.
    pub fn head_dim(&self) -> (dim: usize)
        requires
            self.num_attention_heads != 0,
        ensures
            dim == self.spec_head_dim(),
    {
        self.hidden_size / self.num_attention_heads
    }

    /// Width of the keys, and of the values.
    pub fn kv_dim(&self) -> (dim: usize)
        requires
            self.num_attention_heads != 0,
            self.spec_kv_dim() <= usize::MAX,
        ensures
            dim == self.spec_kv_dim(),
    {
        self.head_dim() * self.num_key_value_heads
    }

    /// Rows of the fused query, key and value matrix.
    pub fn qkv_fused_dim(&self) -> (dim: usize)
        requires
            self.num_attention_heads != 0,
            self.spec_qkv_fused_dim() <= usize::MAX,
        ensures
            dim == self.spec_qkv_fused_dim(),
    {
        self.hidden_size + 2 * self.kv_dim()
    }

    /// Checks that the heads divide the hidden size evenly and that there is a layer.
    pub fn validate(&self) -> (checked: Result<(), EvokeError>)
        requires
            self.num_attention_heads != 0,
        ensures
            checked is Ok <==> self.valid(),
            match checked {
                Ok(_) => true,
                Err(e) => e@ == self.fault(),
            },
    {
        if self.hidden_size % self.num_attention_heads != 0 {
            return Err(EvokeError::Config("hidden_size must divide num_attention_heads".to_owned()));
        }
        if self.num_layers == 0 {
            return Err(EvokeError::Config("num_layers must be > 0".to_owned()));
        }
        Ok(())
    }

    /// What [`GlmConfig::validate`] reports of a configuration that is not valid.
    pub open spec fn fault(self) -> EvokeFault {
        if self.hidden_size % self.num_attention_heads != 0 {
            EvokeFault::Config("hidden_size must divide num_attention_heads"@)
        } else {
            EvokeFault::Config("num_layers must be > 0"@)
        }
    }

    /// Whether the size of the arena can be computed, and an arena can have that size.
    pub open spec fn arena_fits(self) -> bool {
        &&& 2 * self.intermediate_size <= usize::MAX
        &&& self.layer_elements() <= usize::MAX
        &&& self.staging_bytes() <= isize::MAX
    }

    /// A configuration whose arena can be sized has dimensions that can be computed.
    pub proof fn arena_bounds_dimensions(self)
        requires
            self.num_attention_heads != 0,
            self.arena_fits(),
        ensures
            self.dims_fit(),
    {
        let h = self.hidden_size as nat;
        let i = self.intermediate_size as nat;
        let qkv = self.spec_qkv_fused_dim();
        lemma_mul_nonnegative(qkv as int, h as int);
        lemma_mul_nonnegative(h as int, h as int);
        lemma_mul_nonnegative(i as int, h as int);
        assert(2 * i * h == 2 * (i * h)) by (nonlinear_arith);
        self.fused_rows_bounded();
    }

    /// The fused matrix has no more rows than elements, or no rows at all.
    proof fn fused_rows_bounded(self)
        requires
            self.num_attention_heads != 0,
        ensures
            self.spec_qkv_fused_dim() <= self.spec_qkv_fused_dim() * self.hidden_size as nat,
    {
        let h = self.hidden_size as nat;
        let qkv = self.spec_qkv_fused_dim();
        if h == 0 {
            assert(self.spec_head_dim() == 0);
            assert(self.spec_kv_dim() == 0) by (nonlinear_arith)
                requires
                    self.spec_head_dim() == 0,
                    self.spec_kv_dim() == self.spec_head_dim() * self.num_key_value_heads as nat,
            ;
            assert(qkv == 0);
        } else {
            assert(qkv <= qkv * h) by (nonlinear_arith)
                requires
                    h >= 1,
                    qkv >= 0,
            ;
        }
    }

    /// A model that has a layer needs at least the bytes of one; one that has none needs none.
    proof fn model_covers_layer(self)
        ensures
            self.num_layers != 0 ==> self.layer_bytes() <= self.num_layers as nat
                * self.layer_bytes(),
            self.num_layers == 0 ==> self.num_layers as nat * self.layer_bytes() == 0,
    {
        let n = self.num_layers as nat;
        let b = self.layer_bytes();
        if n != 0 {
            assert(b <= n * b) by (nonlinear_arith)
                requires
                    n >= 1,
            ;
        } else {
            lemma_mul_basics(b as int);
        }
    }

    /// The size of the arena in bytes, if it can be computed and an arena can have that size.
    pub fn staging_capacity(&self) -> (bytes: Option<usize>)
        requires
            self.num_attention_heads != 0,
        ensures
            bytes is Some <==> self.arena_fits(),
            bytes matches Some(n) ==> n == self.staging_bytes(),
    {
        let ghost h = self.hidden_size as nat;
        let ghost qkv = self.spec_qkv_fused_dim();
        proof {
            self.fused_rows_bounded();
            lemma_mul_nonnegative(qkv as int, h as int);
            lemma_mul_nonnegative(h as int, h as int);
            lemma_mul_nonnegative(self.intermediate_size as int, h as int);
            self.model_covers_layer();
        }
        let kv: usize = self.head_dim().checked_mul(self.num_key_value_heads)?;
        let fused: usize = self.hidden_size.checked_add(kv.checked_mul(2)?)?;
        let attention: usize = fused.checked_mul(self.hidden_size)?;
        let output: usize = self.hidden_size.checked_mul(self.hidden_size)?;
        if self.intermediate_size.checked_mul(2).is_none() {
            return None;
        }
        let network: usize = self.intermediate_size.checked_mul(self.hidden_size)?.checked_mul(3)?;
        let norms: usize = self.hidden_size.checked_mul(2)?;
        let matrices: usize = attention.checked_add(output)?.checked_add(network)?;
        let elements: usize = matrices.checked_add(norms)?;
        let layer: usize = if self.num_layers == 0 {
            0
        } else {
            elements.checked_mul(4)?.checked_add(LAYER_PADDING)?
        };
        let total: usize = self.num_layers.checked_mul(layer)?.checked_add(1024)?;
        if total > isize::MAX as usize {
            return None;
        }
        Some(total)
    }
}

} // verus!
