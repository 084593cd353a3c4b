pub mod grammar;
pub mod rule;
pub mod token;
