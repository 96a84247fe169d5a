//! The key layouts of the single-node store: its secondary value index over the full
//! range of value types, and its composite keys.

pub mod batch;
pub mod copy;
pub mod groups;
pub mod merge;
pub mod keys;
pub mod settings;
pub mod value_index;
