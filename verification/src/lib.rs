//! A directory-capacity watchdog: the rules by which a watched directory is
//! scanned, its eligible files are counted, and the oldest one is evicted.

pub mod candidate;
pub mod eviction;
pub mod laws;
pub mod monitor;
