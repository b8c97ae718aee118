//! The verified core of control streams.
//!
//! A control stream is one long-lived connection that multiplexes requests,
//! event subscriptions and raw terminal output for a client that renders panes
//! with its own terminal emulator. This crate holds the decisions: which
//! attaches share a terminal, who sizes a tab, who answers a terminal's
//! queries, what a slow reader loses and how it learns of it. Sockets, threads
//! and the terminals themselves stand outside; the crate takes what they
//! reported as plain values and hands back what to do.

pub mod cli;
pub mod cli_laws;
pub mod control;
pub mod event_hub;
pub mod find;
pub mod headless;
pub mod outside;
pub mod raw_laws;
pub mod raw_stream;
pub mod raw_tail;
pub mod raw_tail_laws;
pub mod raw_tap_laws;
pub mod schema;
pub mod stream;
pub mod table;
pub mod text;
pub mod text_laws;

