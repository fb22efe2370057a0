//! Primitives for a zero-knowledge constraint-generation pipeline:
//! a tagged classification of memory regions of an arithmetized
//! virtual machine with a canonical byte encoding (`mem_type`), an
//! incremental-commitment vector with the same kind of encoding
//! (`commitment`), and constraint-system gadgets for chunked
//! equality and zero checks, multilinear-extension evaluation,
//! Horner polynomial evaluation and a bounded comparison (`gadgets`).

pub mod bytes;
pub mod commitment;
pub mod gadgets;
pub mod mem_type;
pub mod utils;
