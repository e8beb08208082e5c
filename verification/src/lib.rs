//! Secret-driven configuration materializer.
//!
//! The crate enumerates template jobs, fetches the secrets they declare from
//! several backends, evaluates templates into files and keeps leased secrets
//! fresh.  Everything that decides — the secret-path grammar, the environment
//! substitution, the stores, the per-backend fetch planning and the broker's
//! event handling — lives here and is verified; a thin binary performs the
//! surrounding I/O.

pub mod args;
pub mod assoc;
pub mod backend;
pub mod broker;
pub mod checksum;
pub mod client;
pub mod conf;
pub mod error;
pub mod json;
pub mod message;
pub mod parser;
pub mod secret;
pub mod secrets;
pub mod subst;
pub mod text;
pub mod user;
pub mod value;
