//! The execution core of a shell whose pipelines carry typed, structured
//! rows instead of plain text. Commands are chained into closures; a
//! closure is a reusable, lexically scoped sequence of job definitions.
//! Values — including whole nested streams — flow between stages as typed
//! cells, and every stage reports its output and errors through one shared
//! diagnostics sink.

pub mod closure;
pub mod data;
pub mod errors;
pub mod job;
pub mod lines;
pub mod printer;
pub mod row;
pub mod scope;
pub mod stream;
