//! A chat-bot command dispatcher: it derives a context from one incoming chat
//! message, parses commands out of it, and decides which registered handlers run
//! and in what order; plus the flag parsing and output paging of the playground
//! command.

pub mod flow;
pub mod text;
pub mod command;
pub mod context;
pub mod playground;
pub mod registry;
pub mod cratesio;
