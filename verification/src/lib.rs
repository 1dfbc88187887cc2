//! Front end of a small statically-typed, C-like language: identifier
//! interning, a structurally-deduplicating type table, AST construction with
//! operator-precedence parsing of binary expressions, and a scoped,
//! cycle-detecting name/type resolver.

pub mod ast;
pub mod parser;
pub mod resolve;
pub mod util;
