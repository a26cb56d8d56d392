//! calc-lang: the verified core of a small expression-language compiler.

pub mod bundle_format;
pub mod text;
pub mod builtins;
pub mod ast;
pub mod lexer;
pub mod frontend;
pub mod parser;
pub mod resolve;
pub mod ir;
pub mod lower;
pub mod lower_laws;
pub mod semantics;
pub mod link;
pub mod backend;
pub mod runtime_deps;
pub mod artifacts;
pub mod runtime;
pub mod pipeline;
