//! Core of an ephemeral, zero-knowledge file drop, verified with Verus.
//!
//! A sender encrypts one payload into a blob of sealed chunks, files it in a
//! store as a drop, and serves it to one recipient; the key travels in the
//! fragment of the link and never reaches the server. After the allowed
//! downloads or the time to live the drop destroys itself.
//!
//! - [`crypto`]: key material, the header, the chunked codec.
//! - [`browser`]: the codec with the key as text, as the browser calls it.
//! - [`store`]: live drops, burned ids, the reaper.
//! - [`server`]: the decisions of the send service.
//! - [`receive`]: the decisions of the receive service.
//! - [`config`], [`cli`], [`archive`], [`tunnel`], [`tor`]: what surrounds a run.
//! - [`text`]: verified text functions the others are written with.
//! - [`primitives`], [`platform`], [`store_map`]: the calls into other crates,
//!   each with the contract that is taken on trust.

pub mod archive;
pub mod browser;
pub mod cli;
pub mod config;
pub mod crypto;
pub mod platform;
pub mod primitives;
pub mod receive;
pub mod server;
pub mod store;
pub mod store_map;
pub mod text;
pub mod tor;
pub mod tunnel;
