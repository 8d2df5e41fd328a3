//! A cross-chain attestation relay core: it turns burn events observed on a
//! source chain into canonical, domain-hashed, Ed25519-signed attestations,
//! records them exactly once, decides their delivery to the destination
//! chain, and fans out notifications to live observers.
//!
//! The modules, leaves first: [`bytes`] holds the byte- and text-level
//! building blocks; [`attestations`] the record type, its canonical encoding
//! and the domain-separated hash; [`repo`] the idempotent event store with
//! its resumption cursor; [`signer`] the relayer key material and detached
//! signatures; [`ton_watcher`] the source-chain observation; [`ingest`] one
//! polling cycle's decisions; [`submit`] the delivery decisions and retry
//! schedule; [`bus`] the notification fan-out; [`config`] the immutable
//! configuration; [`errors`] the error taxonomy; and [`utils`] small shared
//! helpers.
//!
//! Network and disk I/O, the HTTP surface and the process wiring live
//! outside this crate; it receives plain values and hands back signed
//! artifacts and decisions.

pub mod attestations;
pub mod bus;
pub mod bytes;
pub mod config;
pub mod errors;
pub mod ingest;
pub mod repo;
pub mod signer;
pub mod submit;
pub mod ton_watcher;
pub mod utils;
