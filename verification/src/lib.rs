//! Authoritative DNS records, kept through a line-oriented command
//! protocol and written out as zone files.
//!
//! A line of text is read as a command ([`parse`], after the grammar in
//! [`grammar`]); the name in an `add` or a `delete` is resolved to its zone
//! ([`resolve`]); the change is made in the pending transaction of the
//! session ([`repl`], [`db`]) on the record store ([`store`], [`records`]);
//! and what was committed is rendered, zone by zone, as the text of the
//! zone files ([`render`], [`zone_files`]).

pub mod db;
pub mod grammar;
pub mod parse;
pub mod records;
pub mod render;
pub mod repl;
pub mod resolve;
pub mod sentences;
pub mod store;
pub mod store_laws;
pub mod text;
pub mod zone_files;
