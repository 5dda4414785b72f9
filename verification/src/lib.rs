//! A small, hackable, safety-oriented C compiler: its lexer, its diagnostics,
//! its Safety IR and the interpreter that runs it, and the tree the parser
//! builds.
pub mod source;
pub mod token;
pub mod safety;
pub mod diagnostics;
pub mod lexer;
pub mod options;
pub mod cli;
pub mod ir;
pub mod interp;
pub mod ast;
pub mod print;
pub mod llvm_name;
pub mod driver;
pub mod render;
pub mod dump;
