//! Symbolic nox execution compiled to constraint systems.
pub mod decode;
pub mod direct;
pub mod prepare;
pub mod relation;
pub mod state_prepare;
pub mod relation_bits;
pub mod relation_builder;
pub mod relation_compile;
pub mod relation_eval;
pub mod relation_hash;
pub mod relation_semantics;
pub mod statement;
pub mod transcript_laws;
pub mod tagged;
