//! Application settings consumed by the engine.

use vstd::prelude::*;

verus! {

/// The persisted settings: the transfer chunk size in bytes, how many
/// chunks may be in flight, the connection timeout, and the name or path
/// of the tunnel binary.
#[derive(Clone, Debug)]
pub struct Settings {
    pub chunk_size: u64,
    pub parallel_chunks: u32,
    pub ice_timeout_ms: u64,
    pub cloudflared_path: String,
}

impl Default for Settings {
    /// The defaults written on first run: one-megabyte chunks, four
    /// parallel chunks, a thirty-second timeout, and the tunnel binary
    /// found on the search path.
    fn default() -> (r: Settings)
        ensures
            r.chunk_size == 0x100000,
            r.parallel_chunks == 4,
            r.ice_timeout_ms == 30000,
            r.cloudflared_path@ == "cloudflared"@,
    {
        Settings {
            chunk_size: 1048576,
            parallel_chunks: 4,
            ice_timeout_ms: 30000,
            cloudflared_path: "cloudflared".to_owned(),
        }
    }
}

} // verus!
