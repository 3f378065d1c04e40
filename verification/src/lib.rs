//! zheng: constraint systems and witnesses for the nox proof pipeline.
pub mod field;
pub mod types;
pub mod ccs;
pub mod execution;
pub mod folding;
pub mod phi;
pub mod style;
pub mod capsule;
pub mod formula;
pub mod command;
pub mod commit;
