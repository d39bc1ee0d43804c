//! Rules, wire protocol and session bookkeeping of Guards!, a two-player
//! board game in which capturing a citizen hands control of the guards to the
//! other side.
//!
//! Every function in this crate is verified against a contract stated over a
//! mathematical model of its data: the board is a map from coordinates to
//! squares, text is a sequence of characters, the client roster is a sequence
//! of identities.
pub mod board;
pub mod client;
pub mod game;
pub mod laws;
pub mod menu;
pub mod net;
pub mod server;
pub mod text;
