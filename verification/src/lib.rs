//! Device-side engine for a voice-assistant remote-control link.
//!
//! One duplex connection carries three traffic classes — request/response
//! remote calls, fire-and-forget events, and binary media chunks — as JSON
//! envelopes.  This crate holds the verified core: the wire message model
//! and its codec, the RPC correlation engine, the frame router with its
//! concurrency ceiling, the background-task lifecycle manager, and the
//! state machines of the subprocess-backed audio player and recorder.
//! Sockets, subprocesses and the async runtime live outside the library
//! and drive it through the step functions defined here.
pub mod audio;
pub mod data;
pub mod event;
pub mod extern_specs;
pub mod handler;
pub mod json;
pub mod message;
pub mod monitor;
pub mod num;
pub mod rpc;
pub mod shell;
pub mod speaker;
pub mod strings;
pub mod task;
pub mod util;
