//! A small todo-list engine: an ordered list of text items with completion
//! flags, a textual storage codec, index validation, the mutation
//! operations over the list, and the state machine behind interactive
//! in-place editing.
//!
//! The library works on plain in-memory values; reading and writing the
//! storage file, argument handling and rendering live outside it.

pub mod data;
pub mod errors;
pub mod models;
pub mod session;
pub mod utils;
