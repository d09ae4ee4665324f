//! STRling: a front end for a pattern DSL. Patterns are parsed into an AST,
//! lowered and normalized into an IR, and emitted as PCRE2 pattern text,
//! with structured diagnostics for parse errors.
pub mod compiler;
pub mod directives;
pub mod emitters;
pub mod errors;
pub mod hint_engine;
pub mod ir;
pub mod json;
pub mod laws;
pub mod nodes;
pub mod parser;
pub mod simply;
pub mod text;
pub mod validator;

pub use errors::STRlingParseError;
pub use ir::IROp;
pub use nodes::{Flags, Node};
pub use parser::{parse, Parser};
