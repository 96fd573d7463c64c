//! An HTTP API client library: request building and validation, template
//! rendering, and an in-memory store of saved requests and call history.

pub mod text;
pub mod table;
pub mod error;
pub mod validate;
pub mod cli;
pub mod clock;
pub mod request;
pub mod template;
pub mod format;
pub mod client;
pub mod sorting;
pub mod storage;
pub mod util;
pub mod config;
pub mod layout;
