//! mmml / μMML front end.
pub mod parser;
