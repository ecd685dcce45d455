//! Core of a web file browser: confinement of client paths to a configured
//! root directory, and line-oriented access to large text files.
//!
//! Nothing here touches the file system. Callers read bytes and probe paths,
//! and hand the library plain values; the library decides.

pub mod api;
pub mod config;
pub mod error;
pub mod lines;
pub mod listing;
pub mod paging;
pub mod query;
pub mod redirect;
pub mod sandbox;
pub mod scanner;
pub mod search;
pub mod view;
