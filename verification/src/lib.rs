//! The decisions of a fuzzy finder for tabs, each with a contract and a proof.
//!
//! The finder is a set of parts that send messages to one another: the keys become events
//! ([`input`]), the events edit a query ([`query`]), the query filters the tabs ([`filter`],
//! [`ranking`], [`history`]), a selection moves over what was found ([`select`]), and all of it is
//! shown ([`output`], [`tokens`], [`draw`]). Each part is a function of [`service::FuzzyFinderService`] from what the
//! part holds and the message that reaches it to what it then holds and what it gives out. The
//! tasks, the channels and the terminal are left to the program around the library.

pub mod config;
pub mod draw;
pub mod filter;
pub mod history;
pub mod input;
pub mod laws;
pub mod matcher;
pub mod message;
pub mod order;
pub mod output;
pub mod query;
pub mod ranking;
pub mod select;
pub mod service;
pub mod state;
pub mod text;
pub mod tokens;
