//! The core of a wiki: wikitext is filtered, cut into tokens and rendered, and
//! what a page points to is counted for the service that keeps the links.

pub mod data;
pub mod error;
pub mod filter;
pub mod link;
pub mod locale;
pub mod parse;
pub mod render;
pub mod revision;
pub mod text;
pub mod tree;
pub mod web;
