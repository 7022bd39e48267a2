//! The mail-synchronisation core of a desktop mail client: the rules by which
//! a local mirror of an IMAP inbox is kept, rendered and mutated.
//!
//! Every module states its behaviour in contracts over mathematical views of
//! its data; network, disk and scheduling stay with the caller, which feeds
//! the results of its I/O into the functions found here.

pub mod body;
pub mod body_cache;
pub mod bodystructure;
pub mod bootstrap;
pub mod commands;
pub mod idle;
pub mod message;
pub mod mime;
pub mod outside;
pub mod poll;
pub mod prefetch;
pub mod render;
pub mod session;
pub mod store;
pub mod sync;
pub mod text;
