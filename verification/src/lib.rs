//! Emits the ewasm side of a Solidity contract.
//!
//! The operations of [`ewasm::EwasmTarget`] append steps to a [`contract::Contract`]; an
//! [`emitter::Emitter`] carries them out on an LLVM module. [`machine`] says what the steps
//! do when they run, and [`laws`] what holds of them.
pub mod code;
pub mod contract;
pub mod emitter;
pub mod ethabiencoder;
pub mod ewasm;
pub mod ir;
pub mod laws;
pub mod llvm;
pub mod machine;
pub mod resolver;
