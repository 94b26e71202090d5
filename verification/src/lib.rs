//! A server for chat and two-player tic-tac-toe matches, as a state machine that is
//! driven from outside: every operation takes the state, changes it, and says which
//! messages go to whom. Sockets, threads and locks are the caller's.
//!
//! - `text`: strings as sequences of characters: words, trimming, decimal numbers.
//! - `list`: sequences with one value taken out.
//! - `frame`: what one read from a socket holds.
//! - `router`: one ordered queue of outbound messages for each connection.
//! - `game`: one match: board, turn, legal moves, result.
//! - `registry`: who is connected, in which game, challenged by whom.
//! - `server`: the state as a whole, and what it always keeps to.
//! - `chat`, `challenge`, `play`, `session`: the operations on the state.

pub mod challenge;
pub mod chat;
pub mod frame;
pub mod game;
pub mod list;
pub mod play;
pub mod registry;
pub mod router;
pub mod server;
pub mod session;
pub mod text;
