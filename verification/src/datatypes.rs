//! The compiler's data: tokens, syntax tree, scopes, and the passes over them.
pub mod token;
pub mod lexical;
pub mod name_map;
pub mod ast_statements;
pub mod errors;
pub mod assembly_instructions;
pub mod scope;
pub mod general_functions;
pub mod program_data;
pub mod tokenizer;
pub mod parser;
pub mod scope_analysis;
pub mod semantic_analysis;
pub mod code_generator;
