pub mod service;
pub mod tally;
