//! The template compiler: `.vrs` splitting, scoped CSS, template parsing and
//! directive analysis.

pub mod ast;
pub mod codegen;
pub mod compile;
pub mod component;
pub mod parser;
pub mod scan;
pub mod script;
pub mod script_parse;
pub mod directives;
pub mod items;
pub mod laws;
pub mod tokens;
