//! The decisions of a session gateway.
//!
//! A gateway keeps chat sessions with an agent: it streams running turns to
//! sockets that come and go, delivers rendered images, asks helper programs about
//! jobs, and lets operators look after sessions and memories. This crate holds
//! what such a gateway decides, each function with a contract that says what it
//! returns. Reading, sending and printing is done around it.
//!
//! - [`render_delivery`] puts the renders of a turn into its reply, from the
//!   receipts and not from what the model wrote.
//! - [`ws_hub`] lets a socket rejoin the turn that is running.
//! - [`session_jobs`], [`session_experiments`] and [`session_media`] decide who
//!   may ask for what, and what the answers are worth.
//! - [`session_events`] builds the frames that announce what happens to sessions.
//! - [`memory_store`] is the tool with which an agent remembers, [`memory_cli`]
//!   and [`memory_learning`] what an operator does with memories.
//! - [`sessions_cli`] is what an operator does with sessions.
//!
//! [`json`], [`text`], [`path`], [`clock`], [`reply`], [`memory`] and [`message`]
//! hold what they are made of. Promises that span several functions are public
//! proof functions whose names begin with `law_`.
pub mod clock;
pub mod json;
pub mod memory;
pub mod memory_cli;
pub mod memory_learning;
pub mod memory_store;
pub mod message;
pub mod path;
pub mod render_delivery;
pub mod reply;
pub mod session_events;
pub mod session_experiments;
pub mod session_jobs;
pub mod session_media;
pub mod sessions_cli;
pub mod text;
pub mod ws_hub;
