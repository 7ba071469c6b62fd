pub mod text;
pub mod paint;
pub mod highlight;
pub mod errors;
pub mod json;
pub mod xml;
pub mod format;
pub mod query;
pub mod ansi;
pub mod cli;
pub mod laws;
pub mod window;
