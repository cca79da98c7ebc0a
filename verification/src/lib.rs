//! Lazy execution of programs that turn syntax trees into graphs.

pub mod ast;
pub mod cancellation;
pub mod error;
pub mod functions;
pub mod graph;
pub mod identifier;
pub mod lazy;
pub mod location;
pub mod matching;
pub mod regexes;
pub mod table;
pub mod text;
pub mod text_laws;
pub mod value_laws;
pub mod values;
pub mod variables;
