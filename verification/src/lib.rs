//! A virtual Nintendo 3DS environment for previewing homebrew projects:
//! the C/C++ front end, the intermediate representation, the virtual screens,
//! the input state and the runtimes that execute a parsed `main`.
pub mod input;
pub mod parser;
pub mod ir;
pub mod lsp;
pub mod preview;
pub mod project;
pub mod runtime;
pub mod screen;
pub mod syntax;
pub mod text;
