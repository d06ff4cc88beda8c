//! The server-function runtime.

pub mod frames;
pub mod handlers;
pub mod pump;
pub mod registry;
pub mod request;
pub mod response;
pub mod websocket;
