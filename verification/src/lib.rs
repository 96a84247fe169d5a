//! Storage layer of a database that keeps values attached to spatial IDs: the byte
//! layouts of its keys and values, and the decisions its backends take around them.

pub mod bytes;
pub mod keymap;
pub mod models;
pub mod constraints;
pub mod database;
pub mod text;
pub mod privileges;
pub mod requests;
pub mod encoding;
pub mod tikv;
