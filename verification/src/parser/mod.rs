//! A problem that is put together field by field, and the cutting of a line
//! into words.

pub mod parser_functions;
pub mod problem_instance;
