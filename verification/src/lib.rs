//! The decisions of a self-hosted screen-sharing server for Discord
//! activities: who may open a session, which connections a room admits, what a
//! built-in media relay forwards, and what each outside service is asked.
//!
//! Everything here works on plain values and is verified. Sockets, HTTP calls,
//! files and WebRTC connections live in the program around the library.

pub mod assets;
pub mod auth;
pub mod config;
pub mod connection;
pub mod discord;
pub mod http;
pub mod pull;
pub mod realtime;
pub mod search;
pub mod sfu;
pub mod state;
pub mod table;
pub mod text;
pub mod ws;
