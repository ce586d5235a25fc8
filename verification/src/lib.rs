//! Embedding of files into generated Swift source.
//!
//! Swift sources name the files they want with two directives,
//! `precompileIncludeStr("path")` and `precompileIncludeData("path")`. This
//! library finds the directives in a source text, substitutes path aliases in
//! their references, resolves the references to absolute paths, and writes
//! one entry per distinct reference into a template with two markers.
//!
//! The library touches neither the file system nor the terminal. Its caller
//! walks the directories, reads the files and says what it found; the library
//! decides what follows from that.

pub mod alias;
pub mod codec;
pub mod commands;
pub mod config;
pub mod expression;
pub mod laws;
pub mod layout;
pub mod paths;
pub mod registry;
pub mod report;
pub mod roots;
pub mod run;
pub mod scanner;
pub mod template;
pub mod text;
