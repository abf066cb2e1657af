pub mod ast;
pub mod program;
pub mod eval;
pub mod parser;
pub mod laws;
