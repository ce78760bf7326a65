//! What the command line tool decides before and after it parses: how its
//! arguments read, and how its output is laid out.
pub mod cst;
pub mod edit;
pub mod encoding;
pub mod error;
pub mod escape;
pub mod format;
pub mod input;
pub mod layout;
pub mod lines;
pub mod options;
pub mod query;
pub mod report;
pub mod s_expression;
pub mod scope_range;
pub mod source_text;
pub mod style;
pub mod walk;
