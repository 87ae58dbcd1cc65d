//! Terminal output capture, configuration and prompt shaping for the aura shell layer.
pub mod cfg;
pub mod text;
pub mod fence;
pub mod pty;
pub mod compress;
pub mod cmd;
pub mod cli_server;
pub mod server;
pub mod clock;
pub mod context;
pub mod tools;
pub mod grpc;
pub mod ingest;
pub mod rag;
pub mod aura;
pub mod summarize;
