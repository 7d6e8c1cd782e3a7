//! The decisions of a server that hands out files over HTTP and exchanges messages over
//! WebSocket: what to answer, what a frame holds, which connection goes, and when to tick.
//!
//! Nothing here touches a socket. The caller reads and writes, and reports what came of it; the
//! functions of [`server::Server`], [`client::Client`] and [`write::BlockingWrite`] say what to do
//! next.
pub mod bytes;
pub mod client;
pub mod event;
pub mod frame;
pub mod handshake;
pub mod http;
pub mod ring;
pub mod run;
pub mod server;
pub mod text;
pub mod turn;
pub mod write;
