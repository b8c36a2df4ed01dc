//! Decision logic of a client that talks to a sound board over a pipe-like
//! byte stream, and the data model of the sound catalog exchanged over it.
//!
//! The transport is only ever ready "probably": an attempt may move fewer
//! bytes than asked for, or none at all. The modules here hold every decision
//! taken between two rounds against the transport, as functions from what the
//! last round produced to what has to happen next, so that the code that
//! actually waits and transfers is a plain interpreter of those steps.

pub mod actor;
pub mod catalog;
pub mod outcome;
pub mod receive;
pub mod send;
