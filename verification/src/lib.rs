//! A verified compiler from Brainfuck source to LLVM IR.
//!
//! `driver::compile` scans a source once, left to right, and builds an LLVM
//! module through `inkwell`. Every request it makes of LLVM is also kept in
//! a listing of plain values, and the contracts of this crate speak of that
//! listing.
//!
//! - `ir` holds the requests, the listing, and what it means for a listing
//!   to be in order.
//! - `backend` holds the calls into `inkwell`, which are taken on trust, and
//!   `emitter` the builder that makes each call and records it.
//! - `instructions` holds the builders for the eight commands, and `driver`
//!   the scan that puts them together.
//! - `source` holds predicates on sources, `machine` the tape machine that
//!   runs requests, and `meaning` what a source means on that machine.
//! - `laws`, `wiring` and `running` hold what is proved of every
//!   compilation: how deep the stack of loops is, what runs of commands do
//!   to the tape, that every `]` is wired to the loop of its `[`, and that
//!   the compiled program does what the source means.
pub mod backend;
pub mod driver;
pub mod emitter;
pub mod error;
pub mod instructions;
pub mod ir;
pub mod laws;
pub mod machine;
pub mod meaning;
pub mod running;
pub mod source;
pub mod wiring;

pub use crate::driver::compile;
pub use crate::emitter::Emitter;
pub use crate::error::CompileError;
