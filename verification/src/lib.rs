//! A verified query/session engine for incremental "bang" shortcut search.
//!
//! The library keeps an in-memory catalog of shortcut records ([`bang::Bang`])
//! ordered by relevance, a lowercase-folded search index derived from it, and a
//! per-process query session that answers three kinds of requests: searching as
//! the user types, completing a selected suggestion, and activating the query
//! by substituting the free text into each selected shortcut's URL template.
//! All transport, downloading and dispatching of URLs is left to the caller;
//! the engine consumes and produces plain values.

pub mod bang;
pub mod config;
pub mod database;
pub mod index;
pub mod query;
pub mod session;
pub mod text;
