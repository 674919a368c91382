//! A client library for a catalog of simplified command cheat sheets.
//!
//! The crate resolves a command name to the page files that describe it
//! (honouring language preference, platform and local overrides), lexes a
//! page's restricted markdown dialect into tokens, and renders those tokens
//! into styled terminal lines.

pub mod cache;
pub mod dedup;
pub mod error;
pub mod formatter;
pub mod language;
pub mod text;
pub mod tokenizer;
pub mod types;

use vstd::prelude::*;

verus! {

/// Relies on env_logger's `try_init`: installs the environment-configured
/// global logger; a repeated initialization reports an error, which is
/// discarded here so that the call never panics.
#[verifier::external_body]
pub fn init_log() {
    let _ = env_logger::try_init();
}

} // verus!
