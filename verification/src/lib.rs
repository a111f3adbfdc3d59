use vstd::prelude::*;

pub mod ast;
pub mod json;
pub mod json_ops;
pub mod text;
pub mod glob;
pub mod path;
pub mod bindings;
pub mod pattern;
pub mod matcher;
pub mod laws;
pub mod cedar_parser;
pub mod cedar_lexer;
pub mod cedar_syntax;
pub mod cedar_grammar;
pub mod lsp_core;
pub mod lsp;
pub mod outline;
pub mod compiler;
pub mod inline_tests;
pub mod schema_check;
pub mod rule;
pub mod diff;
pub mod schema;
pub mod cedar_schema_grammar;
pub mod cedar_schema_lexer;
pub mod cedar_schema_parser;
pub mod cedar_schema_syntax;
pub mod cedar_translation;
pub mod cedar_import;
pub mod lint;
pub mod karu_lexer;
pub mod karu_syntax;
pub mod karu_parser;
pub mod resolver;

verus! {
} // verus!
