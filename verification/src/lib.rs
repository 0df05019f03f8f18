//! A verified core for a small TCP reverse proxy and the command-line
//! tools that grew up around it.
//!
//! The proxy pieces are the heart of the crate: an upstream registry with
//! its healthy subset, the health-check recomputation, a fixed-window
//! rate limiter, the randomized round-robin upstream selector, and the
//! per-connection serve loop expressed as an explicit state machine.
//! Socket handling, timers and process plumbing live outside the library;
//! everything here is plain data in, plain data out, with contracts.

pub mod commands;
pub mod conn;
pub mod diff;
pub mod gather;
pub mod hangman;
pub mod health;
pub mod memword;
pub mod rate;
pub mod registry;
pub mod selector;
pub mod strutil;
pub mod warmup;
pub mod wc;
