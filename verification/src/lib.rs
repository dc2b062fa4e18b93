//! Core logic of a small git companion tool: turning a remote URL into web
//! links, describing pending changes, and assembling a streamed chat reply
//! into a commit message. Everything here is pure; the surrounding program
//! talks to the repository, the network and the terminal.

pub mod changes;
pub mod json;
pub mod llm;
pub mod open;
pub mod stream;
pub mod text;
pub mod url;
