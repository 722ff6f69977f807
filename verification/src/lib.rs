//! A reverse-mode automatic differentiation engine over scalar computation
//! graphs. The graph is an append-only sequence of operation records whose
//! operands always point at earlier records, so insertion order is a valid
//! topological order; a single forward sweep fills a value buffer and a single
//! reverse sweep accumulates gradients. The evaluators are generic over the
//! scalar type: the arithmetic for each operator is passed in as functions,
//! and the contracts pin the result of every pass to those functions'
//! postconditions.

pub mod engine;
pub mod graphviz;
pub mod nn;
pub mod strided;
pub mod strided_core;
pub mod view;
