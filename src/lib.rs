//! Core of a blockchain execution engine.
//!
//! - `uint`, `text`: 256- and 512-bit unsigned integers with saturating
//!   addition and decimal text, and ASCII strings.
//! - `key`, `value`: addresses of state slots and the values stored there,
//!   each with a mathematical view and a canonical byte form.
//! - `transform`, `message`: typed edits, how they apply and merge, and their
//!   message shape.
//! - `global_state`, `tracking_copy`: content-addressed snapshots, commits of
//!   ordered effects, path queries, and one deploy's journal over a snapshot.
//! - `deploy`, `host`: the payment/session/finalization accounting of a deploy,
//!   and the capability check on references.
//! - `engine`: commit, query, genesis, upgrade and execute as requests and
//!   responses.
//! - `validator`, `wasm`: proof-of-stake validator labels, and module bytes.

pub mod deploy;
pub mod engine;
pub mod global_state;
pub mod host;
pub mod key;
pub mod message;
pub mod text;
pub mod tracking_copy;
pub mod transform;
pub mod uint;
pub mod validator;
pub mod value;
pub mod wasm;
