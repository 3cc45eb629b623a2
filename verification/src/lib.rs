//! Watches the threads of a chat workspace for the people one follows.
//!
//! A poller reads the new messages of a set of channels, keeps the latest
//! of them in a window of fixed size, looks up the thread below each of
//! them cycle after cycle, and raises a signal when a message or a new
//! reply involves a followed user.
//!
//! This crate holds the rules: how mentions are read from text
//! ([`mentions`]), how the window takes messages in and drops them
//! ([`window`]), how it is put in order ([`reorder`]), when the signal is
//! raised ([`notify`]), and the cycle that ties them together ([`cycle`]);
//! beside them the records of the chat API ([`api`]), what is kept of them
//! ([`intake`], [`messages`], [`channels`], [`users`]), the addresses of the
//! requests ([`methods`]) and the lines of the cache files ([`cache`]).
//! Requests, files, the clock and the pause are left to the program that
//! drives the poller.

pub mod api;
pub mod cache;
pub mod channels;
pub mod cycle;
pub mod decimal;
pub mod errors;
pub mod ids;
pub mod intake;
pub mod mentions;
pub mod messages;
pub mod methods;
pub mod notify;
pub mod reorder;
pub mod text;
pub mod timestamp;
pub mod users;
pub mod window;
