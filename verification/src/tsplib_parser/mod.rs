//! Reading an instance from its text.

pub mod custom_types;
pub mod decoders;
pub mod header;
pub mod keyword_values;
pub mod keywords;
pub mod laws;
pub mod number;
pub mod parser;
pub mod parser_functions;
pub mod problem_instance;
pub mod scan;
pub mod sections;
