//! A small compiler for a subset of C that emits x86-64 assembly in Intel syntax.
//!
//! The pipeline: characters are cut into tokens (`lexer`, with `token` for their kinds),
//! tokens are read into a program tree (`parser`, `ast`), and the tree becomes assembly
//! text (`codegen`); `driver` chains the three. Each stage is a verified function whose
//! contract is stated over spec functions that describe the stage directly. `properties`
//! and `numbering` hold proved properties that span the stages; `numeric` and `text` hold
//! the number and text handling that the stages share.
#![allow(non_camel_case_types)]

pub mod text;
pub mod numeric;
pub mod token;
pub mod ast;
pub mod parser;
pub mod codegen;
pub mod lexer;
pub mod driver;
pub mod properties;
pub mod numbering;
pub mod grouping;
pub mod semantics;
