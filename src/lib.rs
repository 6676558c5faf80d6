//! A small interactive shell core: a quoting-aware tokenizer, a redirection
//! grammar, command dispatch and a line editor with tab completion.

pub mod text;
pub mod tokenizer;
pub mod parser;
pub mod builtins;
pub mod completion;
pub mod editor;
pub mod exec;
