pub mod handle;
pub mod html;
