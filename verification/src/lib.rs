//! A chess-game archive: games are validated against the rules of chess,
//! stored with their moves packed into a compact buffer, and searched for
//! the positions they pass through.

pub mod text;
pub mod decimal;
pub mod engine;
pub mod index;
pub mod codec;
pub mod search;
pub mod names;
pub mod game;
pub mod store;
pub mod headers;
pub mod importer;
pub mod query;
pub mod listing;
pub mod info;
pub mod source;
pub mod session;
