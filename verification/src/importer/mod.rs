//! Dictionary import: the entry model and the readers that fill it.

pub mod counter;
pub mod dictionary;
pub mod markup;
pub mod parser;
