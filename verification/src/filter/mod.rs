pub mod blockquote;
pub mod quote_lines;
