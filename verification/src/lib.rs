pub mod ast;
pub mod ids;
pub mod text;
pub mod token;
pub mod token_list;
pub mod intern;
pub mod error;
pub mod lexer;
pub mod syntax_kind;
pub mod parser;
pub mod grammar;
pub mod support;
pub mod tree;
pub mod syntax;
pub mod strings;
pub mod package;
pub mod resolver;
pub mod session;
pub mod ast_layer;
pub mod text_ops;
pub mod proc_codegen;
pub mod format;
pub mod tree_display;
pub mod test_file;
