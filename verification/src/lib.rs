//! Core engine of a desktop file-sharing application.
//!
//! Two subsystems are covered: a resumable, content-addressed, optionally
//! encrypted chunked transfer pipeline with on-disk progress manifests, and
//! an ephemeral local HTTP file server exposed publicly through a supervised
//! external tunnel process. The functions here hold the protocol and state
//! logic; file, network and process I/O live in the surrounding binary.

pub mod crypto;
pub mod encoding;
pub mod download;
pub mod errors;
pub mod hosting;
pub mod hashing;
pub mod manifest;
pub mod progress;
pub mod range;
pub mod sizefmt;
pub mod settings;
pub mod signaling;
pub mod transfer;
pub mod tunnel;
