//! A text broadcast relay: a registry of sessions that hands out unique ids,
//! fans each message out to every session but its sender, and a per-connection
//! lifecycle that turns transport events into registry commands.

pub mod protocol;
pub mod server;
pub mod session;

pub use protocol::{decimal, welcome_payload};
pub use server::{ChatServer, ClientMessage, Connect, Delivery, Disconnect, Message};
pub use session::{Action, Event, SessionState};
