//! SpMV and tri-kernel iteration over public sparse graphs as linear CCS.
pub mod spmv;
pub mod trikernel;
