//! Front end and evaluation core of a small Lisp: tokens, forms, reading and evaluation.
pub mod compactor;
pub mod spans;
pub mod tokens;
pub mod exprs;
pub mod lists;
pub mod forms;
pub mod reader;
pub mod persistent;
pub mod stack;
pub mod eval;
