//! Core of an embedded, single-file key/value storage engine: fixed-size
//! pages, a two-meta-page copy-on-write commit protocol, a freelist of
//! reusable page ids, and sorted leaf/branch entries forming a B+tree with
//! nested buckets.
use vstd::prelude::*;

pub mod bucket;
pub mod cli;
pub mod db;
pub mod errors;
pub mod freelist;
pub mod image;
pub mod keys;
pub mod meta;
pub mod node;
pub mod page;
pub mod stats;
pub mod tx;

verus! {

/// Page identifier: byte offset in the file divided by the page size.
pub type Pgid = u64;

/// Transaction identifier; strictly increasing across commits.
pub type Txid = u64;

/// Minimum number of entries a non-root branch or leaf page may carry.
pub const MIN_KEYS_PER_PAGE: usize = 2;

/// First four bytes of a valid meta page.
pub const MAGIC: u32 = 0xED0C_DAED;

/// On-disk format version.
pub const VERSION: u32 = 2;

/// Largest step by which the memory map is grown.
pub const MAX_MMAP_STEP: u64 = 0x4000_0000;

/// Cap on the memory-map size.
pub const MAX_MAP_SIZE: u64 = 0x0FFF_FFFF;

} // verus!
