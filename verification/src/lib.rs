//! Verified core of a local-first pipeline for GLM checkpoints.

pub mod adapter_laws;
pub mod call_laws;
pub mod canonical_laws;
pub mod capacity_laws;
pub mod checkpoint_laws;
pub mod config;
pub mod config_laws;
pub mod digest;
pub mod dual_mirror;
pub mod error;
pub mod evoke;
pub mod forward_laws;
pub mod graph;
pub mod grouping_laws;
pub mod hash_laws;
pub mod ingest;
pub mod json;
pub mod json_laws;
pub mod keys;
pub mod mapping_laws;
pub mod mirror_laws;
pub mod nats_node;
pub mod number_laws;
pub mod sealing_laws;
pub mod shard;
pub mod telemetry;
pub mod text;
pub mod text_laws;
pub mod transform;
pub mod view_laws;
pub mod worm;

pub use config::GlmConfig;
pub use error::EvokeError;
