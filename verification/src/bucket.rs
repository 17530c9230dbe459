//! A named B+tree nested inside another bucket's leaf. A bucket owns a root
//! page id, a sequence counter, and — during a write transaction — the
//! in-memory node its entries are edited on. Small buckets are stored
//! inline in the parent's leaf value instead of owning a page.
use vstd::prelude::*;

use crate::errors::Error;
use crate::node::{
    del_key, lookup, put_at, spec_node_size, Inode, Node, BUCKET_LEAF_FLAG,
};

verus! {

/// Bytes of the bucket header stored in a parent leaf value: root page id
/// and sequence counter.
pub const BUCKET_HEADER_SIZE: usize = 16;

/// Longest key a bucket accepts.
pub const MAX_KEY_SIZE: usize = 32768;

/// Longest value a bucket accepts.
pub const MAX_VALUE_SIZE: usize = 0x0FFF_FFFF;

/// Portion of a page a spilled node aims to fill, in percent.
pub const DEFAULT_FILL_PERCENT: u64 = 50;

/// The sixteen header bytes a sub-bucket value starts with, little-endian.
pub open spec fn spec_bucket_header_bytes(root: u64, sequence: u64) -> Seq<u8> {
    seq![
        (root & 0xff) as u8,
        ((root >> 8) & 0xff) as u8,
        ((root >> 16) & 0xff) as u8,
        ((root >> 24) & 0xff) as u8,
        ((root >> 32) & 0xff) as u8,
        ((root >> 40) & 0xff) as u8,
        ((root >> 48) & 0xff) as u8,
        ((root >> 56) & 0xff) as u8,
        (sequence & 0xff) as u8,
        ((sequence >> 8) & 0xff) as u8,
        ((sequence >> 16) & 0xff) as u8,
        ((sequence >> 24) & 0xff) as u8,
        ((sequence >> 32) & 0xff) as u8,
        ((sequence >> 40) & 0xff) as u8,
        ((sequence >> 48) & 0xff) as u8,
        ((sequence >> 56) & 0xff) as u8,
    ]
}

/// The root page id and sequence read back from a sub-bucket value.
pub open spec fn spec_decode_bucket_header(b: Seq<u8>) -> (u64, u64) {
    (
        (b[0] as u64) | (b[1] as u64) << 8 | (b[2] as u64) << 16 | (b[3] as u64) << 24 | (
        b[4] as u64) << 32 | (b[5] as u64) << 40 | (b[6] as u64) << 48 | (b[7] as u64) << 56,
        (b[8] as u64) | (b[9] as u64) << 8 | (b[10] as u64) << 16 | (b[11] as u64) << 24 | (
        b[12] as u64) << 32 | (b[13] as u64) << 40 | (b[14] as u64) << 48 | (b[15] as u64) << 56,
    )
}

/// Serialize a bucket header to its sixteen on-disk bytes.
pub fn encode_bucket_header(root: u64, sequence: u64) -> (r: Vec<u8>)
    ensures
        r@ =~= spec_bucket_header_bytes(root, sequence),
        r@.len() == BUCKET_HEADER_SIZE,
{
    let mut r: Vec<u8> = Vec::new();
    r.push((root & 0xff) as u8);
    r.push(((root >> 8) & 0xff) as u8);
    r.push(((root >> 16) & 0xff) as u8);
    r.push(((root >> 24) & 0xff) as u8);
    r.push(((root >> 32) & 0xff) as u8);
    r.push(((root >> 40) & 0xff) as u8);
    r.push(((root >> 48) & 0xff) as u8);
    r.push(((root >> 56) & 0xff) as u8);
    r.push((sequence & 0xff) as u8);
    r.push(((sequence >> 8) & 0xff) as u8);
    r.push(((sequence >> 16) & 0xff) as u8);
    r.push(((sequence >> 24) & 0xff) as u8);
    r.push(((sequence >> 32) & 0xff) as u8);
    r.push(((sequence >> 40) & 0xff) as u8);
    r.push(((sequence >> 48) & 0xff) as u8);
    r.push(((sequence >> 56) & 0xff) as u8);
    r
}

/// Read a bucket header back from a sub-bucket value.
pub fn decode_bucket_header(b: &[u8]) -> (r: (u64, u64))
    requires
        b@.len() >= BUCKET_HEADER_SIZE,
    ensures
        r == spec_decode_bucket_header(b@),
{
    (
        (b[0] as u64) | (b[1] as u64) << 8 | (b[2] as u64) << 16 | (b[3] as u64) << 24 | (
        b[4] as u64) << 32 | (b[5] as u64) << 40 | (b[6] as u64) << 48 | (b[7] as u64) << 56,
        (b[8] as u64) | (b[9] as u64) << 8 | (b[10] as u64) << 16 | (b[11] as u64) << 24 | (
        b[12] as u64) << 32 | (b[13] as u64) << 40 | (b[14] as u64) << 48 | (b[15] as u64) << 56,
    )
}

/// The bucket header round-trips through its on-disk bytes.
pub proof fn lemma_bucket_header_roundtrip(root: u64, sequence: u64)
    ensures
        spec_decode_bucket_header(spec_bucket_header_bytes(root, sequence)) == (root, sequence),
{
    assert(((root & 0xff) as u8 as u64) | (((root >> 8) & 0xff) as u8 as u64) << 8 | (((root
        >> 16) & 0xff) as u8 as u64) << 16 | (((root >> 24) & 0xff) as u8 as u64) << 24 | (((root
        >> 32) & 0xff) as u8 as u64) << 32 | (((root >> 40) & 0xff) as u8 as u64) << 40 | (((root
        >> 48) & 0xff) as u8 as u64) << 48 | (((root >> 56) & 0xff) as u8 as u64) << 56 == root)
        by (bit_vector);
    assert(((sequence & 0xff) as u8 as u64) | (((sequence >> 8) & 0xff) as u8 as u64) << 8 | (((
    sequence >> 16) & 0xff) as u8 as u64) << 16 | (((sequence >> 24) & 0xff) as u8 as u64) << 24
        | (((sequence >> 32) & 0xff) as u8 as u64) << 32 | (((sequence >> 40) & 0xff) as u8
        as u64) << 40 | (((sequence >> 48) & 0xff) as u8 as u64) << 48 | (((sequence >> 56)
        & 0xff) as u8 as u64) << 56 == sequence) by (bit_vector);
}

/// Largest serialized size at which a bucket is stored inline in its
/// parent's leaf instead of on pages of its own: a quarter of a page.
pub fn max_inline_bucket_size(page_size: u32) -> (r: u32)
    ensures
        r == page_size / 4,
{
    page_size / 4
}

/// A named B+tree, materialized on its root node during a write
/// transaction.
pub struct Bucket {
    /// page id of the bucket's root; zero for an inline bucket
    pub root_pgid: u64,
    /// monotone counter persisted in the bucket header
    pub sequence: u64,
    /// portion of a page a spilled node aims to fill, in percent
    pub fill_percent: u64,
    /// the root's in-memory form, where edits land
    pub root_node: Node,
}

impl Bucket {
    /// Well-formedness: the root node is a leaf whose entries are strictly
    /// ascending.
    pub open spec fn wf(self) -> bool {
        self.root_node.wf() && self.root_node.is_leaf
    }

    /// The entries as they stand.
    pub open spec fn entries(self) -> Seq<Inode> {
        self.root_node.inodes@
    }

    /// An empty bucket, not yet backed by a page.
    pub fn new() -> (r: Bucket)
        ensures
            r.wf(),
            r.root_pgid == 0,
            r.sequence == 0,
            r.fill_percent == DEFAULT_FILL_PERCENT,
            r.entries().len() == 0,
    {
        Bucket {
            root_pgid: 0,
            sequence: 0,
            fill_percent: DEFAULT_FILL_PERCENT,
            root_node: Node::new(true),
        }
    }

    /// Read the value stored under `key`. A sub-bucket is not a value: a
    /// bucket-flagged entry reads as nothing.
    pub fn get(&self, key: &[u8]) -> (r: Option<&Vec<u8>>)
        requires
            self.wf(),
        ensures
            match lookup(self.entries(), key@) {
                Some(e) => if e.flags & BUCKET_LEAF_FLAG == 0 {
                    r is Some && r->Some_0@ == e.value@
                } else {
                    r is None
                },
                None => r is None,
            },
    {
        match self.root_node.get(key) {
            Some(e) => if e.flags & BUCKET_LEAF_FLAG == 0 {
                Some(&e.value)
            } else {
                None
            },
            None => None,
        }
    }

    /// Store `value` under `key`. Rejected when the key is empty or
    /// oversized, the value oversized, or the key names a sub-bucket; the
    /// bucket is unchanged on any error.
    pub fn put(&mut self, key: Vec<u8>, value: Vec<u8>) -> (r: Result<(), Error>)
        requires
            old(self).wf(),
        ensures
            final(self).wf(),
            key@.len() == 0 ==> r == Err::<(), Error>(Error::KeyRequired),
            key@.len() > MAX_KEY_SIZE ==> r == Err::<(), Error>(Error::KeyTooLarge),
            key@.len() > 0 && key@.len() <= MAX_KEY_SIZE && value@.len() > MAX_VALUE_SIZE ==> r
                == Err::<(), Error>(Error::ValueTooLarge),
            (match lookup(old(self).entries(), key@) {
                Some(e) => e.flags & BUCKET_LEAF_FLAG != 0,
                None => false,
            }) && key@.len() > 0 && key@.len() <= MAX_KEY_SIZE && value@.len() <= MAX_VALUE_SIZE
                ==> r == Err::<(), Error>(Error::IncompatibleValue),
            r is Err ==> *final(self) == *old(self),
            r is Ok <==> key@.len() > 0 && key@.len() <= MAX_KEY_SIZE && value@.len()
                <= MAX_VALUE_SIZE && (match lookup(old(self).entries(), key@) {
                Some(e) => e.flags & BUCKET_LEAF_FLAG == 0,
                None => true,
            }),
            r is Ok ==> final(self).entries() == put_at(
                old(self).entries(),
                (Inode { flags: 0, pgid: 0, key, value }),
            ) && final(self).root_pgid == old(self).root_pgid && final(self).sequence == old(
                self,
            ).sequence,
    {
        if key.len() == 0 {
            return Err(Error::KeyRequired);
        }
        if key.len() > MAX_KEY_SIZE {
            return Err(Error::KeyTooLarge);
        }
        if value.len() > MAX_VALUE_SIZE {
            return Err(Error::ValueTooLarge);
        }
        match self.root_node.get(key.as_slice()) {
            Some(e) => {
                if e.flags & BUCKET_LEAF_FLAG != 0 {
                    return Err(Error::IncompatibleValue);
                }
            },
            None => {},
        }
        self.root_node.put_entry(Inode { flags: 0, pgid: 0, key, value });
        Ok(())
    }

    /// Remove the value under `key`. Removing a sub-bucket this way is
    /// rejected and changes nothing.
    pub fn delete(&mut self, key: &[u8]) -> (r: Result<(), Error>)
        requires
            old(self).wf(),
        ensures
            final(self).wf(),
            (match lookup(old(self).entries(), key@) {
                Some(e) => e.flags & BUCKET_LEAF_FLAG != 0,
                None => false,
            }) ==> r == Err::<(), Error>(Error::IncompatibleValue) && *final(self) == *old(self),
            (match lookup(old(self).entries(), key@) {
                Some(e) => e.flags & BUCKET_LEAF_FLAG == 0,
                None => true,
            }) ==> r is Ok && final(self).entries() == del_key(old(self).entries(), key@)
                && final(self).root_pgid == old(self).root_pgid && final(self).sequence == old(
                self,
            ).sequence,
    {
        match self.root_node.get(key) {
            Some(e) => {
                if e.flags & BUCKET_LEAF_FLAG != 0 {
                    return Err(Error::IncompatibleValue);
                }
            },
            None => {},
        }
        self.root_node.del(key);
        Ok(())
    }

    /// Create a sub-bucket under `name`: a bucket-flagged entry whose value
    /// is a fresh inline bucket header. Rejected when the name is empty,
    /// taken by a bucket, or taken by a plain value.
    pub fn create_bucket(&mut self, name: Vec<u8>) -> (r: Result<(), Error>)
        requires
            old(self).wf(),
        ensures
            final(self).wf(),
            name@.len() == 0 ==> r == Err::<(), Error>(Error::BucketNameRequired),
            name@.len() > 0 ==> r == (match lookup(old(self).entries(), name@) {
                Some(e) => if e.flags & BUCKET_LEAF_FLAG != 0 {
                    Err::<(), Error>(Error::BucketExists)
                } else {
                    Err::<(), Error>(Error::IncompatibleValue)
                },
                None => Ok::<(), Error>(()),
            }),
            r is Err ==> *final(self) == *old(self),
            r is Ok ==> exists|e: Inode|
                e.flags == BUCKET_LEAF_FLAG && e.pgid == 0 && e.key == name && e.value@
                    =~= spec_bucket_header_bytes(0, 0) && final(self).entries() == #[trigger] put_at(
                    old(self).entries(),
                    e,
                ),
    {
        if name.len() == 0 {
            return Err(Error::BucketNameRequired);
        }
        match self.root_node.get(name.as_slice()) {
            Some(e) => {
                if e.flags & BUCKET_LEAF_FLAG != 0 {
                    return Err(Error::BucketExists);
                }
                return Err(Error::IncompatibleValue);
            },
            None => {},
        }
        let header = encode_bucket_header(0, 0);
        self.root_node.put_entry(
            Inode { flags: BUCKET_LEAF_FLAG, pgid: 0, key: name, value: header },
        );
        Ok(())
    }

    /// Create the sub-bucket unless it already exists; an existing bucket
    /// leaves this bucket exactly as it stands, so running this twice does
    /// what running it once does.
    pub fn create_bucket_if_not_exists(&mut self, name: Vec<u8>) -> (r: Result<(), Error>)
        requires
            old(self).wf(),
        ensures
            final(self).wf(),
            name@.len() == 0 ==> r == Err::<(), Error>(Error::BucketNameRequired),
            name@.len() > 0 ==> r == (match lookup(old(self).entries(), name@) {
                Some(e) => if e.flags & BUCKET_LEAF_FLAG != 0 {
                    Ok::<(), Error>(())
                } else {
                    Err::<(), Error>(Error::IncompatibleValue)
                },
                None => Ok::<(), Error>(()),
            }),
            r is Err ==> *final(self) == *old(self),
            (match lookup(old(self).entries(), name@) {
                Some(e) => e.flags & BUCKET_LEAF_FLAG != 0,
                None => false,
            }) ==> *final(self) == *old(self),
            r is Ok && lookup(old(self).entries(), name@) is None ==> exists|e: Inode|
                e.flags == BUCKET_LEAF_FLAG && e.pgid == 0 && e.key == name && e.value@
                    =~= spec_bucket_header_bytes(0, 0) && final(self).entries() == #[trigger] put_at(
                    old(self).entries(),
                    e,
                ),
    {
        if name.len() == 0 {
            return Err(Error::BucketNameRequired);
        }
        match self.root_node.get(name.as_slice()) {
            Some(e) => {
                if e.flags & BUCKET_LEAF_FLAG != 0 {
                    return Ok(());
                }
                return Err(Error::IncompatibleValue);
            },
            None => {},
        }
        let header = encode_bucket_header(0, 0);
        self.root_node.put_entry(
            Inode { flags: BUCKET_LEAF_FLAG, pgid: 0, key: name, value: header },
        );
        Ok(())
    }

    /// The bucket's persistent sequence counter.
    pub fn sequence(&self) -> (r: u64)
        ensures
            r == self.sequence,
    {
        self.sequence
    }

    /// Advance and return the sequence counter.
    pub fn next_sequence(&mut self) -> (r: u64)
        requires
            old(self).sequence < u64::MAX,
        ensures
            r == old(self).sequence + 1,
            final(self).sequence == old(self).sequence + 1,
            final(self).root_pgid == old(self).root_pgid,
            final(self).root_node == old(self).root_node,
            final(self).fill_percent == old(self).fill_percent,
    {
        self.sequence = self.sequence + 1;
        self.sequence
    }

    /// Whether the bucket is stored inline in its parent's leaf value: its
    /// root holds only plain entries and its serialized size stays within a
    /// quarter of a page.
    pub fn inlineable(&self, page_size: u32) -> (r: bool)
        requires
            self.wf(),
            spec_node_size(true, self.entries()) <= u64::MAX,
        ensures
            r == (spec_node_size(true, self.entries()) <= page_size / 4 && (forall|i: int|
                0 <= i < self.entries().len() ==> (#[trigger] self.entries()[i]).flags
                    & BUCKET_LEAF_FLAG == 0)),
    {
        let n = self.root_node.inodes.len();
        let mut i: usize = 0;
        while i < n
            invariant
                self.wf(),
                n == self.entries().len(),
                i <= n,
                forall|j: int|
                    0 <= j < i ==> (#[trigger] self.entries()[j]).flags & BUCKET_LEAF_FLAG == 0,
            decreases n - i,
        {
            if self.root_node.inodes[i].flags & BUCKET_LEAF_FLAG != 0 {
                return false;
            }
            i = i + 1;
        }
        self.root_node.size() <= (max_inline_bucket_size(page_size)) as u64
    }
}

} // verus!
