//! Construction of the implicit `arguments` object that a dynamically-typed
//! scripting runtime exposes to a function body at invocation time, in both
//! its simple (unmapped) and legacy-aliasing (mapped) exotic forms.
//!
//! The mapped form keeps an internal parameter map: an indirection that makes
//! reads and writes of numbered pseudo-array slots alias live bindings in the
//! enclosing lexical environment, with duplicate formal-parameter names
//! collapsing to the alias of their last occurrence.

pub mod value;
pub mod property;
pub mod environment;
pub mod name_table;
pub mod mapper;
pub mod arguments;
pub mod laws;
