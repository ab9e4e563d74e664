//! Exact lattice basis reduction with the L2 variant of the
//! Lenstra-Lenstra-Lovasz algorithm.
//!
//! The basis rows are integer vectors with arbitrary-precision entries;
//! the Gram-Schmidt data is kept as exact rationals.  The reduction is
//! performed in place and, on success, the result is proved to satisfy
//! the (eta, delta) reduction conditions and to arise from the input by
//! unimodular row operations.

pub mod arith;
pub mod rational;
pub mod vector;
pub mod matrix;
pub mod lattice;
pub mod l2;
