//! A LAN remote desktop: the wire protocol, the connection logic of server and
//! client, the rules of both platforms, and the state behind the window.

pub mod bytes;
pub mod client;
pub mod decoder;
pub mod encoder;
pub mod input;
pub mod link;
pub mod network;
pub mod pixels;
pub mod protocol;
pub mod text;
pub mod ui;
pub mod wire;
