//! Evaluator core of the munk scripting language: a tree-walking
//! interpreter over an externally supplied syntax tree. The crate holds
//! the value/object model, the scoped evaluator (control flow, block
//! sequencing, error short-circuiting), module/import resolution, and the
//! host-function binding protocol. Errors are ordinary first-class values,
//! never a separate exception channel.

pub mod eval;
pub mod imports;
pub mod laws;
pub mod node;
pub mod register;
pub mod serialize;
pub mod value;
pub mod vm;
