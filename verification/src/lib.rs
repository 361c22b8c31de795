pub mod text;
pub mod path;
pub mod order;
pub mod map;
pub mod json;
pub mod engine;
pub mod parser;
pub mod cli;
