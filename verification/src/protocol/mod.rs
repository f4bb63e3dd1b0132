pub mod frame;
pub mod parser;
