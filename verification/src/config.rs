//! The service's configuration surface. Intervals are kept in whole
//! seconds; the bind address and port come from the surrounding process.

use vstd::prelude::*;
use crate::text::{dec_digits, u64_to_dec};

verus! {

/// Everything the service can be tuned with.
#[derive(Debug, Clone)]
pub struct ServerConfig {
    /// Client-side chunk size hint, in bytes.
    pub chunk_size: usize,
    /// Cap on concurrently handled chunk writes.
    pub max_concurrent_chunks: usize,
    /// Largest accepted declared file size, in bytes.
    pub max_file_size: u64,
    /// How often the janitor scans the temp area, in seconds.
    pub temp_file_cleanup_interval_secs: u64,
    /// Cap on concurrently handled upload operations.
    pub global_max_concurrent: usize,
    /// Cap on resident lock-registry entries.
    pub max_memory_locks: usize,
    /// How long a lock record may sit idle, in seconds.
    pub lock_cleanup_interval_secs: u64,
    /// Cap on concurrently running merges.
    pub merge_max_concurrent: usize,
    /// Bind address.
    pub address: String,
    /// Bind port.
    pub port: String,
}

/// The one-page summary `log_config` renders.
pub open spec fn config_summary(c: ServerConfig) -> Seq<char> {
    "chunk size: "@ + dec_digits(((c.chunk_size as nat) / 1024) / 1024)
        + " MB\nmax file size: "@ + dec_digits((((c.max_file_size as nat) / 1024) / 1024) / 1024)
        + " GB\nmax concurrent chunks: "@ + dec_digits(c.max_concurrent_chunks as nat)
        + "\nglobal max concurrent: "@ + dec_digits(c.global_max_concurrent as nat)
        + "\nmerge max concurrent: "@ + dec_digits(c.merge_max_concurrent as nat)
        + "\nuploads dir: ./uploads/\ntemp dir: ./temp/\n"@
}

impl core::default::Default for ServerConfig {
    /// The stock configuration: 5 MB chunks, 10 GB ceiling, modest
    /// concurrency, ten thousand resident locks.
    fn default() -> (r: ServerConfig)
        ensures
            r.chunk_size == 5 * 1024 * 1024,
            r.max_concurrent_chunks == 3,
            r.max_file_size == 10 * 1024 * 1024 * 1024,
            r.temp_file_cleanup_interval_secs == 3600,
            r.global_max_concurrent == 64,
            r.max_memory_locks == 10000,
            r.lock_cleanup_interval_secs == 1800,
            r.merge_max_concurrent == 4,
            r.address@ == "127.0.0.1"@,
            r.port@ == "2233"@,
    {
        ServerConfig {
            chunk_size: 5 * 1024 * 1024,
            max_concurrent_chunks: 3,
            max_file_size: 10 * 1024 * 1024 * 1024,
            temp_file_cleanup_interval_secs: 3600,
            global_max_concurrent: 64,
            max_memory_locks: 10000,
            lock_cleanup_interval_secs: 1800,
            merge_max_concurrent: 4,
            address: "127.0.0.1".to_owned(),
            port: "2233".to_owned(),
        }
    }
}

impl ServerConfig {
    /// Renders the configuration as one readable summary string.
    pub fn log_config(&self) -> (r: String)
        ensures
            r@ == config_summary(*self),
    {
        let mut r = String::new();
        r.append("chunk size: ");
        let d1 = u64_to_dec((self.chunk_size / 1024 / 1024) as u64);
        r.append(d1.as_str());
        r.append(" MB\nmax file size: ");
        let d2 = u64_to_dec(self.max_file_size / 1024 / 1024 / 1024);
        r.append(d2.as_str());
        r.append(" GB\nmax concurrent chunks: ");
        let d3 = u64_to_dec(self.max_concurrent_chunks as u64);
        r.append(d3.as_str());
        r.append("\nglobal max concurrent: ");
        let d4 = u64_to_dec(self.global_max_concurrent as u64);
        r.append(d4.as_str());
        r.append("\nmerge max concurrent: ");
        let d5 = u64_to_dec(self.merge_max_concurrent as u64);
        r.append(d5.as_str());
        r.append("\nuploads dir: ./uploads/\ntemp dir: ./temp/\n");
        r
    }
}

} // verus!
