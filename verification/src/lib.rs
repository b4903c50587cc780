//! A bridge between a hosted writing service and the language models that run on
//! the user's own machine.
//!
//! The agent opens an outbound websocket, announces the local models, serves
//! inference requests from them and reconnects with backoff when the link drops.
//! This library holds what the agent decides: its configuration, the delays
//! between connection attempts, the frames of the wire protocol, the requests to
//! and the replies from the local Ollama runtime, and the state of a session.
//! Sockets, HTTP and tasks belong to the program around it.
pub mod backoff;
pub mod config;
pub mod duration;
pub mod json;
pub mod link;
pub mod ollama;
pub mod protocol;
pub mod reply;
pub mod session;
pub mod stream;
pub mod text;
