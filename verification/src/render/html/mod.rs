pub mod context;
pub mod element;
pub mod escape;
