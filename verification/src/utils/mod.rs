pub mod bytes;
pub mod text;
pub mod sanitizer;
pub mod security;
