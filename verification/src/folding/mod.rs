//! HyperNova CCS folding: the arithmetic of one fold.
pub mod fold;
