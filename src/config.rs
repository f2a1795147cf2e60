use vstd::prelude::*;

verus! {

/// One mebibyte.
pub const MIB: u64 = 1048576;

/// Settings of one transfer; fixed once the transfer begins.
#[derive(Clone, Copy, Debug)]
pub struct DownloadConfig {
    /// Number of pooled connections and of chunks in parallel mode.
    pub max_connections: usize,
    /// Initial size of the single-stream read buffer, in bytes.
    pub buffer_size: usize,
    /// Whether the single-stream read buffer follows observed throughput.
    pub adaptive_buffering: bool,
    /// Parallel mode is used only for resources strictly larger than this.
    pub min_chunk_size: u64,
    /// Timeout of each request, in whole seconds.
    pub connection_timeout_secs: u64,
}

impl Default for DownloadConfig {
    fn default() -> (r: Self)
        ensures
            r.max_connections == 8,
            r.buffer_size == MIB,
            r.adaptive_buffering,
            r.min_chunk_size == MIB,
            r.connection_timeout_secs == 30,
    {
        DownloadConfig {
            max_connections: 8,
            buffer_size: 1048576,
            adaptive_buffering: true,
            min_chunk_size: MIB,
            connection_timeout_secs: 30,
        }
    }
}

impl DownloadConfig {
    /// Capacity of the limiter on in-flight chunk fetches: twice the number of
    /// connections. Since exactly `max_connections` chunks are ever made, the
    /// limiter never holds one back; it is headroom, kept on purpose.
    pub fn limiter_permits(&self) -> (r: usize)
        requires
            self.max_connections <= usize::MAX / 2,
        ensures
            r == 2 * self.max_connections,
    {
        2 * self.max_connections
    }
}

} // verus!
