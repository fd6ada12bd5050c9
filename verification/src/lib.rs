//! The decisions of a chat agent with a long-term memory.
//!
//! The agent talks to a memory service and to a language model. This library
//! holds what it decides: which requests it makes of the service
//! ([`search`], [`feedback`], [`remember`], [`exchange`]), what it tells the model
//! of the replies, and which memories it brings into the conversation by itself
//! ([`node`], [`inject`], [`block`], [`window`]). The program around it does the
//! sending, the reading and the printing.
pub mod block;
pub mod config;
pub mod console;
pub mod date;
pub mod exchange;
pub mod feedback;
pub mod inject;
pub mod json;
pub mod memory;
pub mod node;
pub mod remember;
pub mod search;
pub mod status;
pub mod text;
pub mod text_set;
pub mod window;
