//! The sealed execution graph and its per-layer views.

use std::sync::Arc;
use vstd::prelude::*;

use crate::config::GlmConfig;
use crate::telemetry::TelemetrySink;
use crate::worm::SealedRegion;
use crate::worm::TensorSpan;
use crate::worm::TensorView;

verus! {

/// Where the tensors of one transformer block lie.
#[derive(Debug)]
pub struct GlmBlockView {
    pub layer_idx: usize,
    pub q: TensorView,
    pub k: TensorView,
    pub v: TensorView,
    pub o_proj: TensorView,
    pub mlp_gate: TensorView,
    pub mlp_up: TensorView,
    pub mlp_down: TensorView,
    pub input_norm: TensorView,
    pub post_norm: TensorView,
}

/// A [`GlmBlockView`] as a mathematical value.
pub ghost struct BlockSpans {
    pub layer_idx: usize,
    pub q: TensorSpan,
    pub k: TensorSpan,
    pub v: TensorSpan,
    pub o_proj: TensorSpan,
    pub mlp_gate: TensorSpan,
    pub mlp_up: TensorSpan,
    pub mlp_down: TensorSpan,
    pub input_norm: TensorSpan,
    pub post_norm: TensorSpan,
}

impl View for GlmBlockView {
    type V = BlockSpans;

    open spec fn view(&self) -> BlockSpans {
        BlockSpans {
            layer_idx: self.layer_idx,
            q: self.q@,
            k: self.k@,
            v: self.v@,
            o_proj: self.o_proj@,
            mlp_gate: self.mlp_gate@,
            mlp_up: self.mlp_up@,
            mlp_down: self.mlp_down@,
            input_norm: self.input_norm@,
            post_norm: self.post_norm@,
        }
    }
}

impl Clone for GlmBlockView {
    fn clone(&self) -> (copy: GlmBlockView)
        ensures
            copy@ == self@,
    {
        GlmBlockView {
            layer_idx: self.layer_idx,
            q: self.q.clone(),
            k: self.k.clone(),
            v: self.v.clone(),
            o_proj: self.o_proj.clone(),
            mlp_gate: self.mlp_gate.clone(),
            mlp_up: self.mlp_up.clone(),
            mlp_down: self.mlp_down.clone(),
            input_norm: self.input_norm.clone(),
            post_norm: self.post_norm.clone(),
        }
    }
}

/// The blocks as mathematical values.
pub open spec fn block_models(layers: Seq<GlmBlockView>) -> Seq<BlockSpans> {
    layers.map_values(|l: GlmBlockView| l@)
}

/// A model that is ready to run: configuration, sealed weights, the layers, and the sink that
/// observes the runs.
pub struct ExecutionGraph<T: TelemetrySink + ?Sized> {
    pub config: Arc<GlmConfig>,
    pub weights: Arc<SealedRegion>,
    pub layers: Vec<GlmBlockView>,
    pub telemetry: Arc<T>,
}

impl<T: TelemetrySink + ?Sized> ExecutionGraph<T> {
    /// Puts a graph together.
    pub fn new(
        config: Arc<GlmConfig>,
        weights: Arc<SealedRegion>,
        layers: Vec<GlmBlockView>,
        telemetry: Arc<T>,
    ) -> (graph: ExecutionGraph<T>)
        ensures
            graph.config == config,
            graph.weights == weights,
            graph.layers == layers,
            graph.telemetry == telemetry,
    {
        ExecutionGraph { config, weights, layers, telemetry }
    }
}

} // verus!
