//! hsh: the input side of an interactive command shell.
//!
//! The library holds the logic that needs no terminal, no file system and no
//! child processes: a tokenizer that classifies one line of input into typed
//! spans for display, and the decision pipeline that turns a submitted line
//! into one action for the surrounding program to carry out.
pub mod text;
pub mod lexer;
pub mod highlight;
pub mod alias;
pub mod dispatch;
pub mod session;
pub mod hints;
pub mod source;
