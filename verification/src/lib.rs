//! A command-dispatch core for chat bots: parsing raw message text into
//! command invocations, resolving them against a registry of grouped,
//! aliased commands, enforcing per-bucket rate limits, counting
//! invocations, and running ordered lifecycle hooks around execution.
//! All text is handled as plain bytes and all identities and timestamps
//! as integers, so every rule of the core is stated and proved here;
//! the surrounding transport only feeds messages in and carries replies out.

pub mod context;
pub mod counter;
pub mod dispatcher;
pub mod help;
pub mod hooks;
pub mod limiter;
pub mod parser;
pub mod registry;
pub mod roles;
pub mod text;
