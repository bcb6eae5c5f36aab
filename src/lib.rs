//! A small line editor in the style of `ed`: address resolution, command
//! parsing, the buffer operations and the editing session, each with a
//! verified contract.

pub mod address;
pub mod buffer;
pub mod command;
pub mod content;
pub mod session;
pub mod text;
