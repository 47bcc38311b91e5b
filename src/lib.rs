//! Turns a chat history into the source of a typeset book: one chapter per
//! calendar month, every message escaped for the markup and styled by sender.
pub mod text;
pub mod sanitize;
pub mod message;
pub mod chapter;
pub mod calendar_text;
pub mod render;
pub mod book;
