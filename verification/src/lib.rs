//! Verified core of the image IPC backend: the protobuf wire format of the
//! image request/response messages, the length-delimited framing used on the
//! pipe, the per-connection request handling, the gRPC image service and the
//! JSON command protocol.

pub mod wire;
pub mod schema;
pub mod codec;
pub mod service;
pub mod connection;
pub mod json;
pub mod commands;
pub mod server;
