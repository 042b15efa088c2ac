//! Verified core of a bank statement reader: turning the text of PDF pages
//! into positioned text items, and deciding, from the answers of the
//! configuration store and the statement parsers, what a parse request yields.

pub mod error;
pub mod text;
pub mod text_item;
pub mod pdf_extractor;
pub mod api;
