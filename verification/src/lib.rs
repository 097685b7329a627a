//! Packed buffers of comparable byte rows, with the views that expose them
//! as variable-length binary columns, and the bridge between a typed
//! primitive column and the description in which columns are exchanged.

pub mod array;
pub mod buffer;
pub mod cast;
pub mod data;
pub mod row;
