//! Comparison of chunked, typed columns.
//!
//! A column stores its elements as an ordered sequence of immutable chunks.
//! This crate builds boolean selection masks from two same-typed columns, or
//! from a column and a scalar, under one of six relational predicates. Before
//! any elementwise work the chunk boundaries of the two operands are aligned;
//! the elementwise kernels themselves come from the `arrow` compute layer and
//! are called through a small set of trusted wrappers.
//!
//! Two deliberate narrowings of the model: chunks hold plain values, with no
//! null slots (the null-bitmap representation belongs to the storage layer,
//! not to this core); and [`ops::CmpError`] has no variant for a kernel
//! rejecting an operator/type combination, because the element categories are
//! separate types and alignment proves the operands equal in length before
//! any kernel runs, so no such rejection can arise.

pub mod column;
pub mod compare;
pub mod kernels;
pub mod laws;
pub mod ops;
