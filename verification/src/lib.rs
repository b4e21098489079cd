//! A converter for a lightweight markup dialect: a recursive-descent parser
//! that turns source text into a document model (with heading registry,
//! table-of-contents and footnote bookkeeping), and a renderer that
//! serializes the model into escaped, indentation-aware HTML guided by a
//! template token list.

pub mod laws;
pub mod multiset;
pub mod parser;
pub mod resolve;
pub mod codegen;
pub mod data;
pub mod template;
pub mod text;
