//! The request pipeline of a file server with one private directory per
//! user.
//!
//! A request authenticates with Basic credentials against a store of bcrypt
//! hashes (`auth`, `credentials`). The path it asks for is joined to the
//! user's root and may be served only where it holds no `..` segment and
//! where its canonical form lies under that root (`path`, `resolver`). What
//! stands at the resolved path decides the reply: a file to download, a page
//! of links for a directory, or an error (`responder`, `reply`). The handler
//! strings these together one question to the file system at a time
//! (`handler`); asking the questions, and the network, are left to the
//! caller.

pub mod auth;
pub mod credentials;
pub mod handler;
pub mod normal;
pub mod order;
pub mod path;
pub mod reply;
pub mod resolver;
pub mod responder;
pub mod text;
