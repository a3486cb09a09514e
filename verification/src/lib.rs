//! Coordination of distributed key generation among the elders of a section.
//!
//! A section of the network is run by its elders, who together hold a
//! threshold key. When the elders change, the candidates for the next
//! generation generate a new key among themselves. This crate holds what one
//! node does in that: the [`voter`], which keeps the sessions with their
//! histories and the statements of failure; the handlers of [`node`], which
//! turn each event into commands; and, in [`laws`], what holds of them
//! whatever the events are. The handshake itself is that of the crate
//! `bls_dkg`; [`handshake`] and [`keys`] state what is taken on trust of it.

pub mod dir_metadata;
pub mod error;
pub mod failure;
pub mod handshake;
pub mod keys;
pub mod knowledge;
pub mod laws;
pub mod messages;
pub mod name;
pub mod node;
pub mod peer;
pub mod session;
pub mod voter;
