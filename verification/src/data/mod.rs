pub mod backlinks;
pub mod karma;
