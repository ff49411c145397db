pub mod expression;
pub mod interpreter;
pub mod parser;
pub mod statements;
