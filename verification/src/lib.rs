//! The outbound delivery queue of a mail-transfer agent.
//!
//! Workers, in any number and possibly in different processes, deliver the
//! messages of one queue. They share the queue state, a lock store and a
//! routing cache, and nothing else. A worker is a state machine
//! ([`manager`]): it is handed what happened and says what to do next, so
//! that the waiting, the storage and the network stay with the caller.
//!
//! - [`scheduler`]: what becomes of a recipient after an attempt, and when a
//!   failed one is due again.
//! - [`entry`], [`queue`]: messages, recipients and their states; the queue
//!   state and its operations.
//! - [`lock`]: locks that run out by themselves and capped counters.
//! - [`routing`], [`resolver`]: the order of mail exchangers and the cache of
//!   answers.
//! - [`executor`]: what an attempt's result means.
//! - [`manager`], [`system`]: the worker, and what holds of any number of
//!   workers on one lock store.
//! - [`drain`]: that every attempt leaves less work.
//! - [`manage`], [`query`], [`housekeeper`]: administrative requests on
//!   stores and the purges that they lead to.
//! - [`plugins`]: the plugins of the mail-filter scripts.
//! - [`namespace`], [`keyed`], [`seqs`], [`text`]: keys, tables and
//!   sequences that the rest is built on.

pub mod text;
pub mod seqs;
pub mod namespace;
pub mod keyed;
pub mod query;
pub mod manage;
pub mod plugins;
pub mod scheduler;
pub mod entry;
pub mod queue;
pub mod lock;
pub mod routing;
pub mod resolver;
pub mod executor;
pub mod manager;
pub mod system;
pub mod housekeeper;
pub mod drain;
