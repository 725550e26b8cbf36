pub mod engine;
pub mod interpreter;
pub mod text;
