//! A verified interpreter core for the Universal Machine: a word-addressed
//! virtual machine with eight registers, a heap of word arrays and
//! self-modifying code.
pub mod error;
pub mod image;
pub mod instruction;
pub mod machine;
pub mod laws;
pub mod semantics;
