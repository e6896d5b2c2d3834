//! Request files: parsing, validating and templating HTTP requests written
//! as markdown documents with `%config`, `%request` and `%response` code blocks.

pub mod span;
pub mod text;
pub mod extract_codeblocks;
pub mod ast;
pub mod types;
pub mod maps;
pub mod errors;
pub mod parser;
pub mod expression;
pub mod templater;
pub mod assert_response;
pub mod export;
pub mod str_idxpos;
pub mod diagnostics;
pub mod unresolved;
pub mod resolver;
pub mod fetch;
pub mod splitter;
pub mod semantic_tokens;
