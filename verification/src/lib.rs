//! The core of a bytecode emitter for a stack machine without `finally`:
//! the lowering of `return`, `break` and `continue` across `try`/`finally`,
//! with the instruction model it works on, and the turning of constants
//! into literals.
//!
//! - [`hhbc_ast`], [`instruction_sequence`]: instructions and sequences of
//!   them. Contracts speak of an instruction through its view.
//! - [`label`], [`local`], [`iterator`]: labels, locals and iterators, and
//!   the generators of fresh labels and locals.
//! - [`jump_targets`]: the stack of enclosing loops, switches and protected
//!   bodies, the resolution of a jump against it, and the exit identifiers.
//! - [`try_finally_rewriter`]: the scan and the cleanup of a protected body,
//!   the code of an exit, and the epilogue of a `finally` block.
//! - [`theorems`]: what holds of these together.
//! - [`emit_adata`], [`adata_state`], [`runtime`]: constants, and the static
//!   data section that array literals go to.
//! - [`emitter`], [`env`], [`options`]: the state that emission reads and
//!   advances.

pub mod adata_state;
pub mod arena;
pub mod ast_defs;
pub mod emit_adata;
pub mod emit_fatal;
pub mod emit_pos;
pub mod emitter;
pub mod env;
pub mod hhbc_ast;
pub mod instruction_sequence;
pub mod iterator;
pub mod jump_targets;
pub mod label;
pub mod local;
pub mod options;
pub mod runtime;
pub mod string_utils;
pub mod theorems;
pub mod try_finally_rewriter;
