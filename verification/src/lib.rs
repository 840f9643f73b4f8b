//! A chat session store: per-client conversation rooms, the command
//! language understood by the chat server, and the framing of the
//! messages exchanged with its clients.

pub mod keyed;
pub mod content;
pub mod cache;
pub mod text;
pub mod command;
pub mod message;
pub mod session;
pub mod reply;
pub mod console;
