//! Discovery of installed Java runtimes: version-string parsing, probe-output
//! scanning, candidate ranking and deduplication, and path conventions, with
//! contracts proved by Verus. Filesystem, registry, subprocess and network
//! work stays outside this crate; it hands plain strings in and takes plain
//! values back.

pub mod java;
pub mod mojang;
pub mod openjdk;
pub mod pipeline;
pub mod platform;
pub mod props;
pub mod text;
