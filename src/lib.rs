//! A registry of out-of-process plugins: each plugin is an executable that
//! announces its name and version, is started on first use, serves RPC over
//! a per-name Unix socket, and is stopped again on request.
//!
//! `registry` holds the per-name lifecycle as a verified state machine whose
//! caller performs the process and connection work; `handshake` reads what a
//! plugin announces; `retry` is the connection policy; `lifecycle` states
//! and proves how consecutive calls relate; `echo` is the sample plugin's
//! function table.
pub mod echo;
pub mod handshake;
pub mod lifecycle;
pub mod registry;
pub mod retry;
